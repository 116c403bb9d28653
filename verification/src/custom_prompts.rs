//! Discovery of prompt files in what a caller found in directories.
//!
//! The caller lists a directory and reads its files; the functions here
//! decide which entries are prompt files, build their records, and merge and
//! sort them.

use vstd::prelude::*;
use std::path::PathBuf;
use crate::front_matter::{front_matter, parse_frontmatter};
use crate::merge::{defines, lemma_merged_same_per_name, lemma_merged_with_name, merge_sources, merged};
use crate::paths::{markdown_stem, prompt_file_stem};
use crate::protocol::{views, CustomPrompt, PromptView};
use crate::sorting::{
    is_sorted_list_of, is_stable_sort_of, lemma_sorted_list_unique, lemma_sorted_member,
    lemma_sorted_names, names, sort_by_name, with_name,
};
use crate::template_processor::texts;
use crate::text::{optional_text, string_of, to_chars};

verus! {

/// What kind of entry a directory holds under a name.
#[derive(Debug, Clone, Copy)]
pub enum EntryKind {
    File,
    Dir,
    Symlink,
    /// Anything else, and an entry whose kind could not be told.
    Other,
}

/// One entry of a directory, as its caller found it.
#[derive(Debug, Clone)]
pub struct ListedEntry {
    /// The entry's name, with what is not Unicode in it replaced.
    pub file_name: String,
    /// Whether `file_name` is the entry's name exactly.
    pub name_is_unicode: bool,
    /// The entry's path.
    pub path: PathBuf,
    pub kind: EntryKind,
    /// The file's text; `None` where the file was not read, could not be
    /// read, or does not hold text.
    pub text: Option<String>,
}

/// One entry of a base directory, with the entries below it.
#[derive(Debug, Clone)]
pub struct BaseEntry {
    pub entry: ListedEntry,
    /// What the entry holds if it is a directory that could be listed, and
    /// nothing otherwise.
    pub children: Vec<ListedEntry>,
}

/// A listed entry with its strings as character sequences.
pub struct ListedEntryView {
    pub file_name: Seq<char>,
    pub name_is_unicode: bool,
    pub path: PathBuf,
    pub kind: EntryKind,
    pub text: Option<Seq<char>>,
}

/// An entry of a base directory with its strings as character sequences.
pub struct BaseEntryView {
    pub entry: ListedEntryView,
    pub children: Seq<ListedEntryView>,
}

impl View for ListedEntry {
    type V = ListedEntryView;

    open spec fn view(&self) -> ListedEntryView {
        ListedEntryView {
            file_name: self.file_name@,
            name_is_unicode: self.name_is_unicode,
            path: self.path,
            kind: self.kind,
            text: optional_text(self.text),
        }
    }
}

/// The views of `entries`, in order.
pub open spec fn entry_views(entries: Seq<ListedEntry>) -> Seq<ListedEntryView> {
    Seq::new(entries.len(), |i: int| entries[i]@)
}

impl View for BaseEntry {
    type V = BaseEntryView;

    open spec fn view(&self) -> BaseEntryView {
        BaseEntryView { entry: self.entry@, children: entry_views(self.children@) }
    }
}

/// The views of `base`, in order.
pub open spec fn base_views(base: Seq<BaseEntry>) -> Seq<BaseEntryView> {
    Seq::new(base.len(), |i: int| base[i]@)
}

/// Whether an entry of this kind may be a prompt file.
pub open spec fn is_file_like(kind: EntryKind) -> bool {
    kind is File || kind is Symlink
}

/// Whether an entry of this kind may be a directory of prompts.
pub open spec fn is_dir_like(kind: EntryKind) -> bool {
    kind is Dir || kind is Symlink
}

/// The name that the entry gives its prompt, if it is a prompt file: a file
/// or symbolic link whose name is Unicode and has the extension `md`.
pub open spec fn prompt_stem(entry: ListedEntryView) -> Option<Seq<char>> {
    if is_file_like(entry.kind) && entry.name_is_unicode {
        markdown_stem(entry.file_name)
    } else {
        None
    }
}

/// The name of a prompt: its stem, after the directory and a colon if it
/// comes from a subdirectory.
pub open spec fn full_name(namespace: Option<Seq<char>>, stem: Seq<char>) -> Seq<char> {
    match namespace {
        Some(dir) => dir + seq![':'] + stem,
        None => stem,
    }
}

/// The record of the entry, if it is a prompt file whose stem is not among
/// `exclude` and whose text was read.
pub open spec fn record_of(
    entry: ListedEntryView,
    exclude: Seq<Seq<char>>,
    namespace: Option<Seq<char>>,
) -> Option<PromptView> {
    match (prompt_stem(entry), entry.text) {
        (Some(stem), Some(text)) => if exclude.contains(stem) {
            None
        } else {
            Some(
                PromptView {
                    name: full_name(namespace, stem),
                    path: entry.path,
                    content: front_matter(text).body,
                    category: namespace,
                    argument_hint: front_matter(text).argument_hint,
                    description: front_matter(text).description,
                    template_args: None,
                    template_syntax: None,
                },
            )
        },
        _ => None,
    }
}

/// The function that gives each entry its record.
pub open spec fn recorder(exclude: Seq<Seq<char>>, namespace: Option<Seq<char>>) -> spec_fn(
    ListedEntryView,
) -> Option<PromptView> {
    |entry: ListedEntryView| record_of(entry, exclude, namespace)
}

/// The records of the prompt files among `entries`, in the order of the
/// entries.
pub open spec fn records_of(
    entries: Seq<ListedEntryView>,
    exclude: Seq<Seq<char>>,
    namespace: Option<Seq<char>>,
) -> Seq<PromptView> {
    entries.filter_map(recorder(exclude, namespace))
}

/// The records of the prompt files in the subdirectories among `base`, each
/// under the name of its directory: those of the first subdirectory first.
pub open spec fn subdirectory_records(base: Seq<BaseEntryView>) -> Seq<PromptView>
    decreases base.len(),
{
    if base.len() == 0 {
        Seq::empty()
    } else {
        subdirectory_records(base.drop_last()) + (if is_dir_like(base.last().entry.kind) {
            records_of(base.last().children, Seq::empty(), Some(base.last().entry.file_name))
        } else {
            Seq::empty()
        })
    }
}

/// The entries of a base directory themselves.
pub open spec fn root_entries(base: Seq<BaseEntryView>) -> Seq<ListedEntryView> {
    Seq::new(base.len(), |i: int| base[i].entry)
}

/// The records of a base directory: those of the files directly in it, and
/// after them those of its subdirectories.
pub open spec fn tree_records(base: Seq<BaseEntryView>) -> Seq<PromptView> {
    records_of(root_entries(base), Seq::empty(), None) + subdirectory_records(base)
}

/// Tests whether `name` is among `exclude`.
pub fn is_excluded(exclude: &[String], name: &String) -> (r: bool)
    ensures
        r == texts(exclude@).contains(name@),
{
    let mut i: usize = 0;
    while i < exclude.len()
        invariant
            i <= exclude.len(),
            forall|j: int| 0 <= j < i ==> texts(exclude@)[j] != name@,
        decreases exclude.len() - i,
    {
        if exclude[i] == *name {
            assert(texts(exclude@)[i as int] == name@);
            return true;
        }
        assert(texts(exclude@)[i as int] != name@);
        i += 1;
    }
    false
}

/// Tells whether the entry is a prompt file, and under which name: the stem
/// of its file name. A caller needs to read only the files for which this
/// gives a name.
pub fn prompt_name(entry: &ListedEntry) -> (r: Option<String>)
    ensures
        optional_text(r) == prompt_stem(entry@),
{
    let file_like = match entry.kind {
        EntryKind::File => true,
        EntryKind::Symlink => true,
        _ => false,
    };
    if file_like && entry.name_is_unicode {
        let name = to_chars(entry.file_name.as_str());
        match prompt_file_stem(&name) {
            Some(stem) => {
                let n = stem.len();
                assert(stem@.subrange(0, n as int) =~= stem@);
                Some(string_of(&stem, 0, n))
            },
            None => None,
        }
    } else {
        None
    }
}

/// Tells whether the entry may be a directory of prompts: whether it is a
/// directory or a symbolic link. A caller needs to list only these.
pub fn may_hold_prompts(entry: &ListedEntry) -> (r: bool)
    ensures
        r == is_dir_like(entry@.kind),
{
    match entry.kind {
        EntryKind::Dir => true,
        EntryKind::Symlink => true,
        _ => false,
    }
}

/// The text of an optional directory name.
pub open spec fn namespace_text(namespace: Option<&String>) -> Option<Seq<char>> {
    match namespace {
        Some(dir) => Some(dir@),
        None => None,
    }
}

/// Builds the record of the entry, if it is a prompt file whose stem is not
/// among `exclude` and whose text was read.
pub fn make_record(entry: &ListedEntry, exclude: &[String], namespace: Option<&String>) -> (r:
    Option<CustomPrompt>)
    ensures
        match r {
            Some(prompt) => record_of(entry@, texts(exclude@), namespace_text(namespace)) == Some(
                prompt@,
            ),
            None => record_of(entry@, texts(exclude@), namespace_text(namespace)) is None,
        },
{
    let stem_name = match prompt_name(entry) {
        Some(stem) => stem,
        None => {
            return None;
        },
    };
    if is_excluded(exclude, &stem_name) {
        return None;
    }
    let text = match &entry.text {
        Some(text) => text,
        None => {
            return None;
        },
    };
    let (description, argument_hint, content) = parse_frontmatter(text.as_str());
    let (name, category) = match namespace {
        Some(dir) => {
            let stem = to_chars(stem_name.as_str());
            let mut full = to_chars(dir.as_str());
            full.push(':');
            let mut k: usize = 0;
            while k < stem.len()
                invariant
                    k <= stem.len(),
                    full@ == dir@ + seq![':'] + stem@.take(k as int),
                decreases stem.len() - k,
            {
                full.push(stem[k]);
                k += 1;
            }
            assert(stem@.take(stem.len() as int) =~= stem@);
            let n = full.len();
            assert(full@.subrange(0, n as int) =~= full@);
            (string_of(&full, 0, n), Some(dir.clone()))
        },
        None => (stem_name, None),
    };
    Some(
        CustomPrompt {
            name,
            path: entry.path.clone(),
            content,
            category,
            argument_hint,
            description,
            template_args: None,
            template_syntax: None,
        },
    )
}

/// Appends to `out` the records of the prompt files among `entries`, in the
/// order of the entries.
pub fn append_records(
    entries: &[ListedEntry],
    exclude: &[String],
    namespace: Option<&String>,
    out: &mut Vec<CustomPrompt>,
)
    ensures
        views(final(out)@) == views(old(out)@) + records_of(
            entry_views(entries@),
            texts(exclude@),
            namespace_text(namespace),
        ),
{
    let ghost all = entry_views(entries@);
    let ghost f = recorder(texts(exclude@), namespace_text(namespace));
    let ghost before = views(out@);
    let mut i: usize = 0;
    assert(all.take(0).filter_map(f) =~= Seq::<PromptView>::empty());
    assert(views(out@) =~= before + all.take(0).filter_map(f));
    while i < entries.len()
        invariant
            i <= entries.len(),
            all == entry_views(entries@),
            f == recorder(texts(exclude@), namespace_text(namespace)),
            views(out@) == before + all.take(i as int).filter_map(f),
        decreases entries.len() - i,
    {
        let ghost so_far = views(out@);
        proof {
            all.lemma_filter_map_take_succ(f, i as int);
            assert(all[i as int] == entries@[i as int]@);
        }
        match make_record(&entries[i], exclude, namespace) {
            Some(prompt) => {
                out.push(prompt);
                assert(views(out@) =~= so_far.push(prompt@));
                assert(views(out@) =~= before + all.take(i + 1).filter_map(f));
            },
            None => {
                assert(views(out@) =~= before + all.take(i + 1).filter_map(f));
            },
        }
        i += 1;
    }
    assert(all.take(entries.len() as int) =~= all);
}

/// Every record of `records_of` comes from a prompt file among the entries
/// whose stem is not excluded and whose text was read.
pub proof fn lemma_record_origin(
    entries: Seq<ListedEntryView>,
    exclude: Seq<Seq<char>>,
    namespace: Option<Seq<char>>,
    i: int,
)
    requires
        0 <= i < records_of(entries, exclude, namespace).len(),
    ensures
        exists|j: int|
            0 <= j < entries.len() && #[trigger] record_of(entries[j], exclude, namespace) == Some(
                records_of(entries, exclude, namespace)[i],
            ),
{
    let f = recorder(exclude, namespace);
    let records = entries.filter_map(f);
    assert(records.contains(records[i]));
    entries.lemma_filter_map_contains(f, records[i]);
    let entry = choose|t: ListedEntryView| #[trigger] entries.contains(t) && f(t) == Some(records[i]);
    let j = choose|j: int| 0 <= j < entries.len() && entries[j] == entry;
    assert(record_of(entries[j], exclude, namespace) == Some(records[i]));
}

/// The stem of the entry, if it gives a record: if it is a prompt file whose
/// stem is not among `exclude` and whose text was read.
pub open spec fn eligible_stem(entry: ListedEntryView, exclude: Seq<Seq<char>>) -> Option<
    Seq<char>,
> {
    match (prompt_stem(entry), entry.text) {
        (Some(stem), Some(_)) => if exclude.contains(stem) {
            None
        } else {
            Some(stem)
        },
        _ => None,
    }
}

/// The stems of the entries that give a record, in the order of the entries.
pub open spec fn eligible_stems(entries: Seq<ListedEntryView>, exclude: Seq<Seq<char>>) -> Seq<
    Seq<char>,
> {
    entries.filter_map(|entry: ListedEntryView| eligible_stem(entry, exclude))
}

/// The records of one directory are named by the stems of its eligible
/// entries.
pub proof fn lemma_record_names(entries: Seq<ListedEntryView>, exclude: Seq<Seq<char>>)
    ensures
        names(records_of(entries, exclude, None)) == eligible_stems(entries, exclude),
    decreases entries.len(),
{
    let f = recorder(exclude, None);
    let g = |entry: ListedEntryView| eligible_stem(entry, exclude);
    if entries.len() == 0 {
        assert(names(entries.filter_map(f)) =~= entries.filter_map(g));
    } else {
        lemma_record_names(entries.drop_last(), exclude);
        assert(names(entries.filter_map(f)) =~= entries.filter_map(g));
    }
}

/// The names that discovery gives for one directory are the stems of its
/// eligible entries in ascending order: whatever list holds those stems in
/// ascending order is the list of the names found.
pub proof fn lemma_discovered_names(
    found: Seq<PromptView>,
    entries: Seq<ListedEntryView>,
    exclude: Seq<Seq<char>>,
    sorted_stems: Seq<Seq<char>>,
)
    requires
        is_stable_sort_of(found, records_of(entries, exclude, None)),
        is_sorted_list_of(sorted_stems, eligible_stems(entries, exclude)),
    ensures
        names(found) == sorted_stems,
{
    lemma_record_names(entries, exclude);
    lemma_sorted_names(found, records_of(entries, exclude, None));
    lemma_sorted_list_unique(names(found), sorted_stems, eligible_stems(entries, exclude));
}

/// A prompt file of a subdirectory is named by the directory, a colon and
/// the file's stem, and has the directory as its category; one of the base
/// directory is named by its stem and has no category.
pub proof fn lemma_record_name(
    entry: ListedEntryView,
    exclude: Seq<Seq<char>>,
    namespace: Option<Seq<char>>,
)
    requires
        record_of(entry, exclude, namespace) is Some,
    ensures
        prompt_stem(entry) is Some,
        record_of(entry, exclude, namespace).unwrap().category == namespace,
        record_of(entry, exclude, namespace).unwrap().name == match namespace {
            Some(dir) => dir + seq![':'] + prompt_stem(entry).unwrap(),
            None => prompt_stem(entry).unwrap(),
        },
{
}

/// Discovers the prompt files among the entries of one directory, leaving
/// out those whose name is among `exclude`.
///
/// A prompt file is a file or symbolic link with the extension `md`, in any
/// case, whose text was read; its name is the stem of its file name. The
/// records come sorted by name, and records of one name in the order of
/// their entries.
pub fn discover_prompts_in_excluding(entries: &[ListedEntry], exclude: &[String]) -> (r: Vec<
    CustomPrompt,
>)
    ensures
        is_stable_sort_of(views(r@), records_of(entry_views(entries@), texts(exclude@), None)),
        r@.len() == records_of(entry_views(entries@), texts(exclude@), None).len(),
        is_sorted_list_of(
            names(views(r@)),
            eligible_stems(entry_views(entries@), texts(exclude@)),
        ),
        forall|i: int| 0 <= i < r@.len() ==> !texts(exclude@).contains(#[trigger] r@[i]@.name),
        entries@.len() == 0 ==> r@.len() == 0,
{
    let mut found: Vec<CustomPrompt> = Vec::new();
    append_records(entries, exclude, None, &mut found);
    let ghost records = records_of(entry_views(entries@), texts(exclude@), None);
    assert(views(found@) =~= records);
    let r = sort_by_name(found);
    proof {
        lemma_record_names(entry_views(entries@), texts(exclude@));
        lemma_sorted_names(views(r@), records);
    }
    assert forall|i: int| 0 <= i < r@.len() implies !texts(exclude@).contains(
        #[trigger] r@[i]@.name,
    ) by {
        lemma_sorted_member(views(r@), records, i);
        let k = choose|k: int| 0 <= k < records.len() && records[k] == views(r@)[i];
        lemma_record_origin(entry_views(entries@), texts(exclude@), None, k);
    }
    assert(entries@.len() == 0 ==> r@.len() == 0) by {
        if entries@.len() == 0 {
            assert(records =~= Seq::<PromptView>::empty());
        }
    }
    r
}

/// Discovers the prompt files among the entries of one directory.
pub fn discover_prompts_in(entries: &[ListedEntry]) -> (r: Vec<CustomPrompt>)
    ensures
        is_stable_sort_of(views(r@), records_of(entry_views(entries@), Seq::empty(), None)),
        r@.len() == records_of(entry_views(entries@), Seq::empty(), None).len(),
{
    let none: Vec<String> = Vec::new();
    assert(texts(none@) =~= Seq::<Seq<char>>::empty());
    discover_prompts_in_excluding(entries, none.as_slice())
}

/// Discovers the prompt files of a base directory and of its immediate
/// subdirectories.
///
/// A file directly in the base directory gives a record without category. A
/// file in a subdirectory (a directory or symbolic link among the base
/// entries) gives a record named by the directory, a colon and the file's
/// stem, with the directory as its category. The records come sorted by
/// name; records of one name keep the order in which they were found, the
/// base directory's own before those of its subdirectories.
pub fn discover_prompts_with_directories(base: &[BaseEntry]) -> (r: Vec<CustomPrompt>)
    ensures
        is_stable_sort_of(views(r@), tree_records(base_views(base@))),
        r@.len() == tree_records(base_views(base@)).len(),
{
    let ghost all = base_views(base@);
    let ghost roots = root_entries(all);
    let ghost f = recorder(Seq::empty(), None);
    let none: Vec<String> = Vec::new();
    assert(texts(none@) =~= Seq::<Seq<char>>::empty());
    let mut found: Vec<CustomPrompt> = Vec::new();
    let mut i: usize = 0;
    assert(views(found@) =~= roots.take(0).filter_map(f));
    while i < base.len()
        invariant
            i <= base.len(),
            all == base_views(base@),
            roots == root_entries(all),
            f == recorder(Seq::empty(), None),
            texts(none@) == Seq::<Seq<char>>::empty(),
            views(found@) == roots.take(i as int).filter_map(f),
        decreases base.len() - i,
    {
        let ghost so_far = views(found@);
        proof {
            roots.lemma_filter_map_take_succ(f, i as int);
            assert(roots[i as int] == base@[i as int].entry@);
        }
        match make_record(&base[i].entry, none.as_slice(), None) {
            Some(prompt) => {
                found.push(prompt);
                assert(views(found@) =~= so_far.push(prompt@));
                assert(views(found@) =~= roots.take(i + 1).filter_map(f));
            },
            None => {
                assert(views(found@) =~= roots.take(i + 1).filter_map(f));
            },
        }
        i += 1;
    }
    assert(roots.take(base.len() as int) =~= roots);
    let ghost root_records = records_of(roots, Seq::empty(), None);
    let mut k: usize = 0;
    assert(all.take(0) =~= Seq::<BaseEntryView>::empty());
    assert(views(found@) =~= root_records + subdirectory_records(all.take(0)));
    while k < base.len()
        invariant
            k <= base.len(),
            all == base_views(base@),
            texts(none@) == Seq::<Seq<char>>::empty(),
            views(found@) == root_records + subdirectory_records(all.take(k as int)),
        decreases base.len() - k,
    {
        let ghost so_far = views(found@);
        let ghost done = subdirectory_records(all.take(k as int));
        proof {
            assert(all.take(k + 1).drop_last() =~= all.take(k as int));
            assert(all.take(k + 1).last() == base@[k as int]@);
        }
        if may_hold_prompts(&base[k].entry) {
            append_records(
                base[k].children.as_slice(),
                none.as_slice(),
                Some(&base[k].entry.file_name),
                &mut found,
            );
            assert(views(found@) =~= root_records + (done + records_of(
                all[k as int].children,
                Seq::empty(),
                Some(all[k as int].entry.file_name),
            )));
        } else {
            assert(views(found@) =~= root_records + (done + Seq::<PromptView>::empty()));
        }
        k += 1;
    }
    assert(all.take(base.len() as int) =~= all);
    sort_by_name(found)
}

/// The records of a project's prompt directory; none for a location that
/// is in no project.
pub open spec fn project_records(project: Option<&[BaseEntry]>) -> Seq<PromptView> {
    match project {
        Some(base) => tree_records(base_views(base@)),
        None => Seq::empty(),
    }
}

/// Discovers the prompts of the global directory and of a project's prompt
/// directory, where the location is in a project.
///
/// The global directory is taken flat, the project's with its
/// subdirectories. A global record whose name the project defines is left
/// out, and every project record is kept. The records come sorted by name.
pub fn discover_prompts_with_project_support(
    global: &[ListedEntry],
    project: Option<&[BaseEntry]>,
) -> (r: Vec<CustomPrompt>)
    ensures
        is_stable_sort_of(
            views(r@),
            merged(
                records_of(entry_views(global@), Seq::empty(), None),
                project_records(project),
            ),
        ),
        forall|name: Seq<char>| #[trigger]
            with_name(views(r@), name) == if defines(project_records(project), name) {
                with_name(project_records(project), name)
            } else {
                with_name(records_of(entry_views(global@), Seq::empty(), None), name)
            },
{
    let ghost global_records = records_of(entry_views(global@), Seq::empty(), None);
    let ghost local_records = project_records(project);
    let found = discover_prompts_in(global);
    let local: Vec<CustomPrompt> = match project {
        Some(base) => discover_prompts_with_directories(base),
        None => Vec::new(),
    };
    assert(is_stable_sort_of(views(local@), local_records)) by {
        if project is None {
            assert(views(local@) =~= local_records);
        }
    }
    proof {
        lemma_merged_same_per_name(views(found@), views(local@), global_records, local_records);
    }
    let ghost unsorted = merged(views(found@), views(local@));
    let r = sort_by_name(merge_sources(found, local));
    assert forall|name: Seq<char>| #[trigger]
        with_name(views(r@), name) == with_name(merged(global_records, local_records), name) by {
        assert(with_name(views(r@), name) == with_name(unsorted, name));
        assert(with_name(unsorted, name) == with_name(merged(global_records, local_records), name));
    }
    assert forall|name: Seq<char>| #[trigger]
        with_name(views(r@), name) == if defines(local_records, name) {
            with_name(local_records, name)
        } else {
            with_name(global_records, name)
        } by {
        assert(with_name(views(r@), name) == with_name(merged(global_records, local_records), name));
        lemma_merged_with_name(global_records, local_records, name);
    }
    r
}

} // verus!
