//! Merging the prompts of two sources, of which the second takes precedence.

use vstd::prelude::*;
use crate::protocol::{views, CustomPrompt, PromptView};
use crate::sorting::{lemma_with_name_none, named, same_per_name, with_name};

verus! {

/// Whether one of `s` has the name `name`.
pub open spec fn defines(s: Seq<PromptView>, name: Seq<char>) -> bool {
    exists|i: int| 0 <= i < s.len() && s[i].name == name
}

/// The test for a record's name not being defined in `project`.
pub open spec fn not_defined_in(project: Seq<PromptView>) -> spec_fn(PromptView) -> bool {
    |p: PromptView| !defines(project, p.name)
}

/// The records of both sources: those of `global` whose name `project` does
/// not define, and after them those of `project`.
pub open spec fn merged(global: Seq<PromptView>, project: Seq<PromptView>) -> Seq<PromptView> {
    global.filter(not_defined_in(project)) + project
}

/// A sequence defines a name exactly if it has a record of that name.
pub proof fn lemma_defines(s: Seq<PromptView>, name: Seq<char>)
    ensures
        defines(s, name) <==> with_name(s, name).len() > 0,
{
    if defines(s, name) {
        let i = choose|i: int| 0 <= i < s.len() && s[i].name == name;
        s.lemma_filter_contains(named(name), i);
    } else {
        lemma_with_name_none(s, name);
    }
    if with_name(s, name).len() > 0 {
        let x = with_name(s, name)[0];
        s.lemma_filter_pred(named(name), 0);
        assert(with_name(s, name).contains(x));
        s.lemma_filter_contains_rev(named(name), x);
    }
}

/// Among the records that pass a test which those of the name `name` pass,
/// those of that name are the ones of the whole sequence.
pub proof fn lemma_with_name_of_kept(
    s: Seq<PromptView>,
    keep: spec_fn(PromptView) -> bool,
    name: Seq<char>,
)
    requires
        forall|p: PromptView| p.name == name ==> keep(p),
    ensures
        with_name(s.filter(keep), name) == with_name(s, name),
    decreases s.len(),
{
    reveal(Seq::filter);
    if s.len() > 0 {
        let rest = s.drop_last();
        lemma_with_name_of_kept(rest, keep, name);
        assert(s =~= rest.push(s.last()));
        rest.lemma_filter_push(s.last(), keep);
        rest.lemma_filter_push(s.last(), named(name));
        if keep(s.last()) {
            rest.filter(keep).lemma_filter_push(s.last(), named(name));
        }
    } else {
        assert(s.filter(keep) =~= s);
    }
}

/// Among the records that pass a test which none of the name `name` passes,
/// there is none of that name.
pub proof fn lemma_with_name_of_dropped(
    s: Seq<PromptView>,
    keep: spec_fn(PromptView) -> bool,
    name: Seq<char>,
)
    requires
        forall|p: PromptView| p.name == name ==> !keep(p),
    ensures
        with_name(s.filter(keep), name) == Seq::<PromptView>::empty(),
{
    let kept = s.filter(keep);
    assert forall|i: int| 0 <= i < kept.len() implies kept[i].name != name by {
        s.lemma_filter_pred(keep, i);
    }
    lemma_with_name_none(kept, name);
}

/// Precedence: where the project source defines a name, the merged records
/// of that name are the project's; where it does not, they are the global
/// source's.
pub proof fn lemma_merged_with_name(global: Seq<PromptView>, project: Seq<PromptView>, name: Seq<char>)
    ensures
        with_name(merged(global, project), name) == if defines(project, name) {
            with_name(project, name)
        } else {
            with_name(global, name)
        },
{
    let keep = not_defined_in(project);
    Seq::filter_distributes_over_add(global.filter(keep), project, named(name));
    if defines(project, name) {
        lemma_with_name_of_dropped(global, keep, name);
        assert(Seq::<PromptView>::empty() + with_name(project, name) =~= with_name(project, name));
    } else {
        lemma_with_name_of_kept(global, keep, name);
        lemma_with_name_none(project, name);
        assert(with_name(global, name) + Seq::<PromptView>::empty() =~= with_name(global, name));
    }
}

/// Merging depends only on the records of each name in each source, not on
/// how the sources order records of different names.
pub proof fn lemma_merged_same_per_name(
    global_a: Seq<PromptView>,
    project_a: Seq<PromptView>,
    global_b: Seq<PromptView>,
    project_b: Seq<PromptView>,
)
    requires
        same_per_name(global_a, global_b),
        same_per_name(project_a, project_b),
    ensures
        same_per_name(merged(global_a, project_a), merged(global_b, project_b)),
{
    assert forall|name: Seq<char>| #[trigger]
        with_name(merged(global_a, project_a), name) == with_name(merged(global_b, project_b), name) by {
        lemma_merged_with_name(global_a, project_a, name);
        lemma_merged_with_name(global_b, project_b, name);
        lemma_defines(project_a, name);
        lemma_defines(project_b, name);
        assert(with_name(global_a, name) == with_name(global_b, name));
        assert(with_name(project_a, name) == with_name(project_b, name));
    }
}

/// Whether no two records of `s` share a name.
pub open spec fn distinct_names(s: Seq<PromptView>) -> bool {
    forall|name: Seq<char>| #[trigger] with_name(s, name).len() <= 1
}

/// Two sources that each hold at most one record of a name merge into
/// records of which no two share a name, however the result is ordered.
pub proof fn lemma_merged_distinct(
    global: Seq<PromptView>,
    project: Seq<PromptView>,
    result: Seq<PromptView>,
)
    requires
        distinct_names(global),
        distinct_names(project),
        same_per_name(result, merged(global, project)),
    ensures
        distinct_names(result),
{
    assert forall|name: Seq<char>| #[trigger] with_name(result, name).len() <= 1 by {
        lemma_merged_with_name(global, project, name);
        assert(with_name(result, name) == with_name(merged(global, project), name));
        assert(with_name(global, name).len() <= 1);
        assert(with_name(project, name).len() <= 1);
    }
}

/// Tests whether one of `prompts` has the name `name`.
pub fn has_name(prompts: &Vec<CustomPrompt>, name: &String) -> (r: bool)
    ensures
        r == defines(views(prompts@), name@),
{
    let mut i: usize = 0;
    while i < prompts.len()
        invariant
            i <= prompts.len(),
            forall|j: int| 0 <= j < i ==> views(prompts@)[j].name != name@,
        decreases prompts.len() - i,
    {
        if prompts[i].name == *name {
            assert(views(prompts@)[i as int].name == name@);
            return true;
        }
        assert(views(prompts@)[i as int].name != name@);
        i += 1;
    }
    false
}

/// Merges two sources: drops from `global` every record whose name
/// `project` defines, and appends the records of `project`.
pub fn merge_sources(global: Vec<CustomPrompt>, project: Vec<CustomPrompt>) -> (r: Vec<
    CustomPrompt,
>)
    ensures
        views(r@) == merged(views(global@), views(project@)),
{
    let ghost all = views(global@);
    let ghost keep = not_defined_in(views(project@));
    let mut kept = global;
    let mut project = project;
    let ghost taken = views(project@);
    let mut i: usize = 0;
    let ghost mut k: int = 0;
    assert(all.take(0).filter(keep) =~= Seq::<PromptView>::empty()) by {
        reveal(Seq::filter);
    }
    assert(views(kept@) =~= all.take(0).filter(keep) + all.skip(0));
    while i < kept.len()
        invariant
            0 <= k <= all.len(),
            i <= kept.len(),
            kept@.len() - i == all.len() - k,
            taken == views(project@),
            keep == not_defined_in(taken),
            i == all.take(k).filter(keep).len(),
            views(kept@) == all.take(k).filter(keep) + all.skip(k),
        decreases kept.len() - i,
    {
        let ghost front = all.take(k).filter(keep);
        let ghost current = views(kept@);
        proof {
            assert(views(kept@)[i as int] == all[k]);
            assert(all.take(k + 1) =~= all.take(k).push(all[k]));
            all.take(k).lemma_filter_push(all[k], keep);
        }
        if has_name(&project, &kept[i].name) {
            kept.remove(i);
            assert(views(kept@) =~= current.remove(i as int));
            assert(current.remove(i as int) =~= front + all.skip(k + 1));
        } else {
            assert(views(kept@) =~= front.push(all[k]) + all.skip(k + 1));
            i += 1;
        }
        proof {
            k = k + 1;
        }
    }
    assert(all.take(k) =~= all);
    assert(views(kept@) =~= all.filter(keep));
    let ghost front = views(kept@);
    kept.append(&mut project);
    assert(views(kept@) =~= front + taken);
    kept
}

} // verus!
