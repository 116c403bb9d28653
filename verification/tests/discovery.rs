use codex_prompts::custom_prompts::{
    discover_prompts_in, discover_prompts_in_excluding, discover_prompts_with_directories,
    discover_prompts_with_project_support, prompt_name, BaseEntry, EntryKind, ListedEntry,
};
use codex_prompts::paths::{default_prompts_dir, project_prompts_dir};
use codex_prompts::protocol::CustomPrompt;
use std::path::{Path, PathBuf};

fn entry(dir: &str, name: &str, kind: EntryKind, text: Option<&str>) -> ListedEntry {
    ListedEntry {
        file_name: name.to_string(),
        name_is_unicode: true,
        path: Path::new(dir).join(name),
        kind,
        text: text.map(|t| t.to_string()),
    }
}

fn file(dir: &str, name: &str, text: &str) -> ListedEntry {
    entry(dir, name, EntryKind::File, Some(text))
}

fn leaf(e: ListedEntry) -> BaseEntry {
    BaseEntry { entry: e, children: Vec::new() }
}

fn subdir(dir: &str, name: &str, children: Vec<ListedEntry>) -> BaseEntry {
    BaseEntry { entry: entry(dir, name, EntryKind::Dir, None), children }
}

fn names(found: &[CustomPrompt]) -> Vec<String> {
    found.iter().map(|p| p.name.clone()).collect()
}

#[test]
fn empty_listing_gives_nothing() {
    assert!(discover_prompts_in(&[]).is_empty());
    assert!(discover_prompts_with_directories(&[]).is_empty());
    assert!(discover_prompts_with_project_support(&[], None).is_empty());
    assert!(discover_prompts_with_project_support(&[], Some(&[])).is_empty());
}

#[test]
fn files_are_found_and_sorted() {
    let entries = vec![
        file("/p", "b.md", "b"),
        file("/p", "a.md", "a"),
        entry("/p", "subdir", EntryKind::Dir, None),
    ];
    let found = discover_prompts_in(&entries);
    assert_eq!(names(&found), vec!["a", "b"]);
    assert_eq!(found[0].content, "a");
    assert_eq!(found[0].path, PathBuf::from("/p/a.md"));
    assert_eq!(found[1].content, "b");
    assert_eq!(found[1].path, PathBuf::from("/p/b.md"));
}

#[test]
fn excluded_names_are_left_out() {
    let entries = vec![file("/p", "init.md", "ignored"), file("/p", "foo.md", "ok")];
    let exclude = vec!["init".to_string()];
    let found = discover_prompts_in_excluding(&entries, &exclude);
    assert_eq!(names(&found), vec!["foo"]);
    let exclude = vec!["foo".to_string(), "init".to_string(), "other".to_string()];
    assert!(discover_prompts_in_excluding(&entries, &exclude).is_empty());
    let exclude = vec!["init.md".to_string(), "Foo".to_string()];
    assert_eq!(names(&discover_prompts_in_excluding(&entries, &exclude)), vec!["foo", "init"]);
}

#[test]
fn unread_files_are_skipped() {
    let entries = vec![
        file("/p", "good.md", "hello"),
        entry("/p", "bad.md", EntryKind::File, None),
    ];
    let found = discover_prompts_in(&entries);
    assert_eq!(names(&found), vec!["good"]);
}

#[test]
fn only_files_and_links_with_the_extension_count() {
    let entries = vec![
        entry("/p", "dir.md", EntryKind::Dir, Some("x")),
        entry("/p", "other.md", EntryKind::Other, Some("x")),
        entry("/p", "link.md", EntryKind::Symlink, Some("x")),
        file("/p", "upper.MD", "x"),
        file("/p", "mixed.Md", "x"),
        file("/p", "two.dots.md", "x"),
        file("/p", "notes.txt", "x"),
        file("/p", "md", "x"),
        file("/p", ".md", "x"),
        file("/p", "trailing.md.", "x"),
        file("/p", "long.mdx", "x"),
        file("/p", "short.m", "x"),
        file("/p", "..", "x"),
    ];
    let found = discover_prompts_in(&entries);
    assert_eq!(names(&found), vec!["link", "mixed", "two.dots", "upper"]);
}

#[test]
fn stems_follow_the_last_dot() {
    let stem = |name: &str| prompt_name(&file("/p", name, ""));
    assert_eq!(stem("a.md"), Some("a".to_string()));
    assert_eq!(stem("a.b.md"), Some("a.b".to_string()));
    assert_eq!(stem("..md"), Some(".".to_string()));
    assert_eq!(stem(".hidden.md"), Some(".hidden".to_string()));
    assert_eq!(stem("é.mD"), Some("é".to_string()));
    assert_eq!(stem(".md"), None);
    assert_eq!(stem("md"), None);
    assert_eq!(stem("a.md "), None);
    assert_eq!(stem(""), None);
}

#[test]
fn names_that_are_not_unicode_are_skipped() {
    let mut odd = file("/p", "odd\u{fffd}.md", "x");
    odd.name_is_unicode = false;
    let found = discover_prompts_in(&[odd, file("/p", "even.md", "y")]);
    assert_eq!(names(&found), vec!["even"]);
}

#[test]
fn records_carry_the_metadata_and_nothing_else() {
    let text = "---\ndescription: \"d\"\nargument-hint: h\n---\n\nBODY";
    let found = discover_prompts_in(&[file("/p", "x.md", text)]);
    assert_eq!(found.len(), 1);
    let prompt = &found[0];
    assert_eq!(prompt.name, "x");
    assert_eq!(prompt.content, "BODY");
    assert_eq!(prompt.description, Some("d".to_string()));
    assert_eq!(prompt.argument_hint, Some("h".to_string()));
    assert_eq!(prompt.category, None);
    assert!(prompt.template_args.is_none());
    assert!(prompt.template_syntax.is_none());
}

#[test]
fn names_are_ordered_by_their_bytes() {
    let entries = vec![
        file("/p", "b.md", ""),
        file("/p", "é.md", ""),
        file("/p", "a.md", ""),
        file("/p", "B.md", ""),
        file("/p", "ab.md", ""),
        file("/p", "z.md", ""),
        file("/p", "_.md", ""),
        file("/p", "10.md", ""),
        file("/p", "9.md", ""),
    ];
    let found = discover_prompts_in(&entries);
    assert_eq!(names(&found), vec!["10", "9", "B", "_", "a", "ab", "b", "z", "é"]);
}

#[test]
fn equal_names_keep_the_order_of_their_entries() {
    let entries = vec![
        file("/p", "a.MD", "second in name, first in listing"),
        file("/p", "b.md", "b"),
        file("/p", "a.md", "last"),
    ];
    let found = discover_prompts_in(&entries);
    assert_eq!(names(&found), vec!["a", "a", "b"]);
    assert_eq!(found[0].path, PathBuf::from("/p/a.MD"));
    assert_eq!(found[1].path, PathBuf::from("/p/a.md"));
}

#[test]
fn subdirectories_give_namespaces() {
    let base = vec![
        subdir("/p", "pr", vec![file("/p/pr", "review.md", "R")]),
        leaf(file("/p", "top.md", "T")),
    ];
    let found = discover_prompts_with_directories(&base);
    assert_eq!(names(&found), vec!["pr:review", "top"]);
    assert_eq!(found[0].category, Some("pr".to_string()));
    assert_eq!(found[0].content, "R");
    assert_eq!(found[0].path, PathBuf::from("/p/pr/review.md"));
    assert_eq!(found[1].category, None);
}

#[test]
fn links_are_tried_as_files_and_as_directories() {
    let link = BaseEntry {
        entry: entry("/p", "both.md", EntryKind::Symlink, Some("as file")),
        children: vec![file("/p/both.md", "inner.md", "as dir")],
    };
    let found = discover_prompts_with_directories(&[link]);
    assert_eq!(names(&found), vec!["both", "both.md:inner"]);
    assert_eq!(found[1].category, Some("both.md".to_string()));
}

#[test]
fn children_of_files_are_ignored() {
    let odd = BaseEntry {
        entry: file("/p", "plain.md", "x"),
        children: vec![file("/p/plain.md", "inner.md", "y")],
    };
    let found = discover_prompts_with_directories(&[odd]);
    assert_eq!(names(&found), vec!["plain"]);
}

#[test]
fn namespaces_sort_with_the_rest() {
    let base = vec![
        subdir("/p", "z", vec![file("/p/z", "b.md", ""), file("/p/z", "a.md", "")]),
        leaf(file("/p", "m.md", "")),
        subdir("/p", "a", vec![file("/p/a", "x.md", ""), entry("/p/a", "deep", EntryKind::Dir, None)]),
        leaf(file("/p", "a:x.md", "root")),
    ];
    let found = discover_prompts_with_directories(&base);
    assert_eq!(names(&found), vec!["a:x", "a:x", "m", "z:a", "z:b"]);
    // Of two records of one name, the base directory's own comes first.
    assert_eq!(found[0].category, None);
    assert_eq!(found[1].category, Some("a".to_string()));
}

#[test]
fn project_prompts_take_precedence() {
    let global = vec![file("/g", "x.md", "global x"), file("/g", "only.md", "global only")];
    let project = vec![
        leaf(file("/r/.codex/prompts", "x.md", "project x")),
        subdir("/r/.codex/prompts", "ns", vec![file("/r/.codex/prompts/ns", "only.md", "ns")]),
    ];
    let found = discover_prompts_with_project_support(&global, Some(&project));
    assert_eq!(names(&found), vec!["ns:only", "only", "x"]);
    assert_eq!(found[1].content, "global only");
    assert_eq!(found[2].content, "project x");
    assert_eq!(found[2].path, PathBuf::from("/r/.codex/prompts/x.md"));
    assert_eq!(found.iter().filter(|p| p.name == "x").count(), 1);
}

#[test]
fn without_a_project_the_global_prompts_stand() {
    let global = vec![
        file("/g", "b.md", "b"),
        file("/g", "a.md", "a"),
        subdir("/g", "ns", vec![]).entry,
    ];
    let found = discover_prompts_with_project_support(&global, None);
    assert_eq!(names(&found), vec!["a", "b"]);
    let found = discover_prompts_with_project_support(&global, Some(&[]));
    assert_eq!(names(&found), vec!["a", "b"]);
}

#[test]
fn global_subdirectories_are_not_searched() {
    let global = vec![entry("/g", "ns", EntryKind::Dir, None), file("/g", "a.md", "a")];
    let project = vec![leaf(file("/r", "b.md", "b"))];
    let found = discover_prompts_with_project_support(&global, Some(&project));
    assert_eq!(names(&found), vec!["a", "b"]);
}

#[test]
fn a_project_name_evicts_every_global_record_of_it() {
    let global = vec![file("/g", "x.md", "1"), file("/g", "x.MD", "2"), file("/g", "y.md", "3")];
    let project = vec![leaf(file("/r", "x.md", "4")), leaf(file("/r", "x.Md", "5"))];
    let found = discover_prompts_with_project_support(&global, Some(&project));
    assert_eq!(names(&found), vec!["x", "x", "y"]);
    assert_eq!(found[0].content, "4");
    assert_eq!(found[1].content, "5");
}

#[test]
fn prompt_directories_lie_below_their_roots() {
    assert_eq!(
        default_prompts_dir(Some(PathBuf::from("/home/u/.codex"))),
        Some(PathBuf::from("/home/u/.codex/prompts"))
    );
    assert_eq!(default_prompts_dir(None), None);
    assert_eq!(
        project_prompts_dir(&PathBuf::from("/work/repo")),
        PathBuf::from("/work/repo/.codex/prompts")
    );
}
