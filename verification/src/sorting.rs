//! Sorting prompt records by name, keeping records of one name in the order
//! they came in.

use vstd::prelude::*;
use crate::name_order::{
    lemma_name_le_antisymmetric, lemma_name_le_total, lemma_name_le_transitive, name_le,
    name_no_later,
};
use crate::protocol::{views, CustomPrompt, PromptView};

verus! {

/// The test for a record's name being `name`.
pub open spec fn named(name: Seq<char>) -> spec_fn(PromptView) -> bool {
    |p: PromptView| p.name == name
}

/// The records of `s` whose name is `name`, in order.
pub open spec fn with_name(s: Seq<PromptView>, name: Seq<char>) -> Seq<PromptView> {
    s.filter(named(name))
}

/// Whether the names of `s` ascend.
pub open spec fn sorted_by_name(s: Seq<PromptView>) -> bool {
    forall|i: int, j: int| 0 <= i <= j < s.len() ==> name_le(s[i].name, s[j].name)
}

/// Whether `r` holds the records of `s`, those of each name in the order in
/// which `s` has them.
pub open spec fn same_per_name(r: Seq<PromptView>, s: Seq<PromptView>) -> bool {
    forall|name: Seq<char>| #[trigger] with_name(r, name) == with_name(s, name)
}

/// Whether `r` is `s` sorted by name, with records of one name left in the
/// order of `s`.
pub open spec fn is_stable_sort_of(r: Seq<PromptView>, s: Seq<PromptView>) -> bool {
    sorted_by_name(r) && same_per_name(r, s)
}

/// A sequence none of whose records has the name `name` has no record of
/// that name.
pub proof fn lemma_with_name_none(s: Seq<PromptView>, name: Seq<char>)
    requires
        forall|i: int| 0 <= i < s.len() ==> s[i].name != name,
    ensures
        with_name(s, name) == Seq::<PromptView>::empty(),
    decreases s.len(),
{
    reveal(Seq::filter);
    if s.len() > 0 {
        lemma_with_name_none(s.drop_last(), name);
    }
}

/// What inserting one record does to the records of each name.
pub proof fn lemma_with_name_insert(s: Seq<PromptView>, at: int, x: PromptView, name: Seq<char>)
    requires
        0 <= at <= s.len(),
    ensures
        with_name(s.insert(at, x), name) == with_name(s.take(at), name) + (if x.name == name {
            seq![x]
        } else {
            Seq::empty()
        }) + with_name(s.skip(at), name),
        with_name(s, name) == with_name(s.take(at), name) + with_name(s.skip(at), name),
{
    let p = named(name);
    assert(s.insert(at, x) =~= (s.take(at) + seq![x]) + s.skip(at));
    assert(s =~= s.take(at) + s.skip(at));
    Seq::filter_distributes_over_add(s.take(at) + seq![x], s.skip(at), p);
    Seq::filter_distributes_over_add(s.take(at), seq![x], p);
    Seq::filter_distributes_over_add(s.take(at), s.skip(at), p);
    assert(seq![x] =~= Seq::<PromptView>::empty().push(x));
    Seq::<PromptView>::empty().lemma_filter_push(x, p);
    assert(Seq::<PromptView>::empty().filter(p) =~= Seq::<PromptView>::empty()) by {
        reveal(Seq::filter);
    }
    assert(Seq::<PromptView>::empty().push(x) =~= seq![x]);
}

/// Inserting a record before the first record that is no earlier keeps a
/// sorted sequence sorted.
pub proof fn lemma_insert_sorted(s: Seq<PromptView>, at: int, x: PromptView)
    requires
        sorted_by_name(s),
        0 <= at <= s.len(),
        forall|i: int| 0 <= i < at ==> !name_le(x.name, s[i].name),
        at < s.len() ==> name_le(x.name, s[at].name),
    ensures
        sorted_by_name(s.insert(at, x)),
{
    let r = s.insert(at, x);
    assert forall|i: int, j: int| 0 <= i <= j < r.len() implies name_le(r[i].name, r[j].name) by {
        lemma_name_le_total(x.name, x.name);
        if i == at && j == at {
        } else if i == at {
            assert(r[j] == s[j - 1]);
            lemma_name_le_transitive(x.name, s[at].name, s[j - 1].name);
        } else if j == at {
            assert(r[i] == s[i]);
            lemma_name_le_total(x.name, s[i].name);
        } else {
            let a = if i < at { i } else { i - 1 };
            let b = if j < at { j } else { j - 1 };
            assert(r[i] == s[a]);
            assert(r[j] == s[b]);
        }
    }
}

/// Two sorted sequences that hold the same records of each name, in the
/// same order, are one sequence.
pub proof fn lemma_sorted_same_per_name_equal(r1: Seq<PromptView>, r2: Seq<PromptView>)
    requires
        sorted_by_name(r1),
        sorted_by_name(r2),
        same_per_name(r1, r2),
    ensures
        r1 == r2,
    decreases r1.len(),
{
    if r1.len() == 0 {
        if r2.len() > 0 {
            let name = r2[0].name;
            r2.lemma_filter_contains(named(name), 0);
            lemma_with_name_none(r1, name);
            assert(with_name(r1, name) == with_name(r2, name));
        }
        assert(r1 =~= r2);
    } else {
        let d1 = r1.drop_last();
        let x = r1.last();
        let n = x.name;
        assert(r1 =~= d1.push(x));
        d1.lemma_filter_push(x, named(n));
        assert(with_name(r1, n) == with_name(r2, n));
        r2.lemma_filter_len(named(n));
        let d2 = r2.drop_last();
        let y = r2.last();
        let m = y.name;
        assert(r2 =~= d2.push(y));
        d2.lemma_filter_push(y, named(m));
        assert(with_name(r1, m) == with_name(r2, m));
        assert(with_name(r1, m).last() == y);
        assert(with_name(r1, m).contains(y));
        r1.lemma_filter_contains_rev(named(m), y);
        let i = choose|i: int| 0 <= i < r1.len() && r1[i] == y;
        assert(name_le(r1[i].name, r1[r1.len() - 1].name));
        assert(with_name(r2, n).last() == x);
        assert(with_name(r2, n).contains(x));
        r2.lemma_filter_contains_rev(named(n), x);
        let j = choose|j: int| 0 <= j < r2.len() && r2[j] == x;
        assert(name_le(r2[j].name, r2[r2.len() - 1].name));
        lemma_name_le_antisymmetric(m, n);
        assert(x == y);
        assert forall|name: Seq<char>| #[trigger]
            with_name(d1, name) == with_name(d2, name) by {
            d1.lemma_filter_push(x, named(name));
            d2.lemma_filter_push(y, named(name));
            assert(with_name(r1, name) == with_name(r2, name));
            if name == n {
                assert(with_name(d1, name) =~= with_name(d1, name).push(x).drop_last());
                assert(with_name(d2, name) =~= with_name(d2, name).push(x).drop_last());
            }
        }
        assert(sorted_by_name(d1)) by {
            assert forall|a: int, b: int| 0 <= a <= b < d1.len() implies name_le(
                d1[a].name,
                d1[b].name,
            ) by {
                assert(d1[a] == r1[a] && d1[b] == r1[b]);
            }
        }
        assert(sorted_by_name(d2)) by {
            assert forall|a: int, b: int| 0 <= a <= b < d2.len() implies name_le(
                d2[a].name,
                d2[b].name,
            ) by {
                assert(d2[a] == r2[a] && d2[b] == r2[b]);
            }
        }
        lemma_sorted_same_per_name_equal(d1, d2);
    }
}

/// A sequence has one stable sort only: the order of names and the order of
/// arrival between them leave no choice.
pub proof fn lemma_stable_sort_unique(r1: Seq<PromptView>, r2: Seq<PromptView>, s: Seq<PromptView>)
    requires
        is_stable_sort_of(r1, s),
        is_stable_sort_of(r2, s),
    ensures
        r1 == r2,
{
    assert forall|name: Seq<char>| #[trigger] with_name(r1, name) == with_name(r2, name) by {
        assert(with_name(r1, name) == with_name(s, name));
        assert(with_name(r2, name) == with_name(s, name));
    }
    lemma_sorted_same_per_name_equal(r1, r2);
}

/// Every record of a stable sort of `s` is a record of `s`.
pub proof fn lemma_sorted_member(r: Seq<PromptView>, s: Seq<PromptView>, i: int)
    requires
        is_stable_sort_of(r, s),
        0 <= i < r.len(),
    ensures
        s.contains(r[i]),
{
    let name = r[i].name;
    r.lemma_filter_contains(named(name), i);
    assert(with_name(r, name) == with_name(s, name));
    s.lemma_filter_contains_rev(named(name), r[i]);
}

/// The names of `s`, in order.
pub open spec fn names(s: Seq<PromptView>) -> Seq<Seq<char>> {
    Seq::new(s.len(), |i: int| s[i].name)
}

/// The test for a name being `name`.
pub open spec fn is_name(name: Seq<char>) -> spec_fn(Seq<char>) -> bool {
    |n: Seq<char>| n == name
}

/// How often `name` stands in `list`.
pub open spec fn occurrences(list: Seq<Seq<char>>, name: Seq<char>) -> nat {
    list.filter(is_name(name)).len()
}

/// Whether the names of `list` ascend.
pub open spec fn ascending(list: Seq<Seq<char>>) -> bool {
    forall|i: int, j: int| 0 <= i <= j < list.len() ==> name_le(list[i], list[j])
}

/// Whether `sorted` is `list` in ascending order: it ascends, and holds each
/// name as often as `list` does.
pub open spec fn is_sorted_list_of(sorted: Seq<Seq<char>>, list: Seq<Seq<char>>) -> bool {
    &&& ascending(sorted)
    &&& forall|name: Seq<char>| #[trigger] occurrences(sorted, name) == occurrences(list, name)
}

/// A name stands in a list of names as often as the records have it.
pub proof fn lemma_occurrences_of_names(s: Seq<PromptView>, name: Seq<char>)
    ensures
        occurrences(names(s), name) == with_name(s, name).len(),
    decreases s.len(),
{
    reveal(Seq::filter);
    if s.len() > 0 {
        let rest = s.drop_last();
        lemma_occurrences_of_names(rest, name);
        assert(s =~= rest.push(s.last()));
        assert(names(s) =~= names(rest).push(s.last().name));
        rest.lemma_filter_push(s.last(), named(name));
        names(rest).lemma_filter_push(s.last().name, is_name(name));
    } else {
        assert(names(s) =~= Seq::<Seq<char>>::empty());
    }
}

/// A name that a list holds at least once stands at some index of it.
pub proof fn lemma_occurs_somewhere(list: Seq<Seq<char>>, name: Seq<char>)
    requires
        occurrences(list, name) > 0,
    ensures
        exists|i: int| 0 <= i < list.len() && list[i] == name,
{
    let found = list.filter(is_name(name));
    list.lemma_filter_pred(is_name(name), 0);
    assert(found.contains(found[0]));
    list.lemma_filter_contains_rev(is_name(name), found[0]);
    let i = choose|i: int| 0 <= i < list.len() && list[i] == found[0];
    assert(list[i] == name);
}

/// Two ascending lists that hold each name equally often are one list.
pub proof fn lemma_ascending_unique(a: Seq<Seq<char>>, b: Seq<Seq<char>>)
    requires
        ascending(a),
        ascending(b),
        forall|name: Seq<char>| #[trigger] occurrences(a, name) == occurrences(b, name),
    ensures
        a == b,
    decreases a.len(),
{
    if a.len() == 0 {
        if b.len() > 0 {
            b.lemma_filter_contains(is_name(b[0]), 0);
            assert(occurrences(a, b[0]) == occurrences(b, b[0]));
            assert(a.filter(is_name(b[0])) =~= Seq::<Seq<char>>::empty()) by {
                reveal(Seq::filter);
            }
        }
        assert(a =~= b);
    } else {
        let x = a.last();
        let da = a.drop_last();
        assert(a =~= da.push(x));
        da.lemma_filter_push(x, is_name(x));
        assert(occurrences(a, x) == occurrences(b, x));
        b.lemma_filter_len(is_name(x));
        let y = b.last();
        let db = b.drop_last();
        assert(b =~= db.push(y));
        db.lemma_filter_push(y, is_name(y));
        assert(occurrences(a, y) == occurrences(b, y));
        lemma_occurs_somewhere(a, y);
        let i = choose|i: int| 0 <= i < a.len() && a[i] == y;
        assert(name_le(a[i], a[a.len() - 1]));
        lemma_occurs_somewhere(b, x);
        let j = choose|j: int| 0 <= j < b.len() && b[j] == x;
        assert(name_le(b[j], b[b.len() - 1]));
        lemma_name_le_antisymmetric(x, y);
        assert forall|name: Seq<char>| #[trigger]
            occurrences(da, name) == occurrences(db, name) by {
            da.lemma_filter_push(x, is_name(name));
            db.lemma_filter_push(y, is_name(name));
            assert(occurrences(a, name) == occurrences(b, name));
        }
        assert(ascending(da)) by {
            assert forall|p: int, q: int| 0 <= p <= q < da.len() implies name_le(da[p], da[q]) by {
                assert(da[p] == a[p] && da[q] == a[q]);
            }
        }
        assert(ascending(db)) by {
            assert forall|p: int, q: int| 0 <= p <= q < db.len() implies name_le(db[p], db[q]) by {
                assert(db[p] == b[p] && db[q] == b[q]);
            }
        }
        lemma_ascending_unique(da, db);
    }
}

/// The names of a stable sort of `s` are the names of `s` in ascending
/// order.
pub proof fn lemma_sorted_names(r: Seq<PromptView>, s: Seq<PromptView>)
    requires
        is_stable_sort_of(r, s),
    ensures
        is_sorted_list_of(names(r), names(s)),
{
    assert forall|name: Seq<char>| #[trigger]
        occurrences(names(r), name) == occurrences(names(s), name) by {
        lemma_occurrences_of_names(r, name);
        lemma_occurrences_of_names(s, name);
        assert(with_name(r, name) == with_name(s, name));
    }
    assert forall|i: int, j: int| 0 <= i <= j < names(r).len() implies name_le(
        names(r)[i],
        names(r)[j],
    ) by {
        assert(name_le(r[i].name, r[j].name));
    }
}

/// A list of names has one ascending order only.
pub proof fn lemma_sorted_list_unique(a: Seq<Seq<char>>, b: Seq<Seq<char>>, list: Seq<Seq<char>>)
    requires
        is_sorted_list_of(a, list),
        is_sorted_list_of(b, list),
    ensures
        a == b,
{
    assert forall|name: Seq<char>| #[trigger] occurrences(a, name) == occurrences(b, name) by {
        assert(occurrences(a, name) == occurrences(list, name));
        assert(occurrences(b, name) == occurrences(list, name));
    }
    lemma_ascending_unique(a, b);
}

/// Sorts `prompts` by name. Records of one name stay in the order they came
/// in.
pub fn sort_by_name(prompts: Vec<CustomPrompt>) -> (r: Vec<CustomPrompt>)
    ensures
        is_stable_sort_of(views(r@), views(prompts@)),
        r@.len() == prompts@.len(),
{
    let ghost all = views(prompts@);
    let mut input = prompts;
    let mut out: Vec<CustomPrompt> = Vec::new();
    assert forall|name: Seq<char>| #[trigger]
        with_name(views(input@), name) + with_name(views(out@), name) == with_name(
            all,
            name,
        ) by {
        assert(views(out@) =~= Seq::<PromptView>::empty());
        lemma_with_name_none(views(out@), name);
    }
    while input.len() > 0
        invariant
            input@.len() + out@.len() == all.len(),
            sorted_by_name(views(out@)),
            forall|name: Seq<char>| #[trigger]
                with_name(views(input@), name) + with_name(views(out@), name) == with_name(
                    all,
                    name,
                ),
        decreases input.len(),
    {
        let ghost before = views(input@);
        let ghost sorted = views(out@);
        let x = input.pop().unwrap();
        assert(before =~= views(input@).push(x@));
        let mut at: usize = 0;
        while at < out.len() && !name_no_later(x.name.as_str(), out[at].name.as_str())
            invariant
                at <= out.len(),
                sorted == views(out@),
                forall|i: int| 0 <= i < at ==> !name_le(x@.name, sorted[i].name),
            decreases out.len() - at,
        {
            at += 1;
        }
        out.insert(at, x);
        assert(views(out@) =~= sorted.insert(at as int, x@));
        proof {
            lemma_insert_sorted(sorted, at as int, x@);
            assert forall|name: Seq<char>| #[trigger]
                with_name(views(input@), name) + with_name(views(out@), name) == with_name(
                    all,
                    name,
                ) by {
                lemma_with_name_insert(sorted, at as int, x@, name);
                views(input@).lemma_filter_push(x@, named(name));
                assert(with_name(before, name) + with_name(sorted, name) == with_name(all, name));
                if x@.name == name {
                    assert forall|i: int| 0 <= i < sorted.take(at as int).len() implies sorted.take(
                        at as int,
                    )[i].name != name by {
                        lemma_name_le_total(x@.name, x@.name);
                    }
                    lemma_with_name_none(sorted.take(at as int), name);
                    assert(with_name(views(input@), name) + with_name(views(out@), name)
                        =~= with_name(before, name) + with_name(sorted, name));
                } else {
                    assert(with_name(views(input@), name) + with_name(views(out@), name)
                        =~= with_name(before, name) + with_name(sorted, name));
                }
            }
        }
    }
    assert forall|name: Seq<char>| #[trigger]
        with_name(views(out@), name) == with_name(all, name) by {
        assert(views(input@) =~= Seq::<PromptView>::empty());
        lemma_with_name_none(views(input@), name);
        assert(with_name(views(input@), name) + with_name(views(out@), name) == with_name(
            all,
            name,
        ));
        assert(Seq::<PromptView>::empty() + with_name(views(out@), name) =~= with_name(
            views(out@),
            name,
        ));
    }
    out
}

} // verus!
