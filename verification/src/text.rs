//! Character sequences: searching, replacing, trimming and line splitting.
//!
//! Strings are handled as sequences of Unicode scalar values. The functions
//! here work on `Vec<char>` and are specified over `Seq<char>`.

use vstd::prelude::*;

verus! {

/// `String::push` appends one character.
pub assume_specification[ String::push ](s: &mut String, c: char)
    ensures
        final(s)@ == old(s)@.push(c),
;

/// The text of an optional string.
pub open spec fn optional_text(value: Option<String>) -> Option<Seq<char>> {
    match value {
        Some(s) => Some(s@),
        None => None,
    }
}

/// The characters of `s`, in order.
pub fn to_chars(s: &str) -> (v: Vec<char>)
    ensures
        v@ == s@,
{
    let mut v: Vec<char> = Vec::new();
    for c in it: s.chars()
        invariant
            it.seq() == s@,
            v@ == it.seq().take(it.index() as int),
    {
        v.push(c);
    }
    v
}

/// The string made of the characters `v[from..to]`.
pub fn string_of(v: &Vec<char>, from: usize, to: usize) -> (s: String)
    requires
        from <= to <= v.len(),
    ensures
        s@ == v@.subrange(from as int, to as int),
{
    let mut s = String::new();
    let mut i: usize = from;
    while i < to
        invariant
            from <= i <= to <= v.len(),
            s@ == v@.subrange(from as int, i as int),
        decreases to - i,
    {
        s.push(v[i]);
        i += 1;
    }
    s
}

/// Whether `pat` stands in `text` at index `at`.
pub open spec fn occurs_at(text: Seq<char>, pat: Seq<char>, at: int) -> bool {
    &&& 0 <= at
    &&& at + pat.len() <= text.len()
    &&& text.subrange(at, at + pat.len()) == pat
}

/// Whether `pat` stands somewhere in `text`.
pub open spec fn occurs(text: Seq<char>, pat: Seq<char>) -> bool {
    exists|at: int| occurs_at(text, pat, at)
}

/// Whether `at` is the leftmost index at which `pat` stands in `text`.
pub open spec fn is_first_occurrence(text: Seq<char>, pat: Seq<char>, at: int) -> bool {
    &&& occurs_at(text, pat, at)
    &&& forall|j: int| 0 <= j < at ==> !occurs_at(text, pat, j)
}

/// The leftmost index at which `pat` stands in `text`, if it stands anywhere.
pub open spec fn first_occurrence(text: Seq<char>, pat: Seq<char>) -> Option<int> {
    if occurs(text, pat) {
        Some(choose|at: int| is_first_occurrence(text, pat, at))
    } else {
        None
    }
}

/// A leftmost occurrence is the one that `first_occurrence` names.
pub proof fn lemma_first_occurrence(text: Seq<char>, pat: Seq<char>, at: int)
    requires
        is_first_occurrence(text, pat, at),
    ensures
        first_occurrence(text, pat) == Some(at),
{
    assert(occurs_at(text, pat, at));
    let chosen = choose|i: int| is_first_occurrence(text, pat, i);
    assert(is_first_occurrence(text, pat, chosen));
    if chosen < at {
        assert(!occurs_at(text, pat, chosen));
    } else if at < chosen {
        assert(!occurs_at(text, pat, at));
    }
}

/// Tests whether `pat` stands in `text` at index `at`.
pub fn matches_at(text: &Vec<char>, pat: &Vec<char>, at: usize) -> (r: bool)
    ensures
        r == occurs_at(text@, pat@, at as int),
{
    if at > text.len() || pat.len() > text.len() - at {
        return false;
    }
    let mut k: usize = 0;
    while k < pat.len()
        invariant
            k <= pat.len(),
            at + pat.len() <= text.len(),
            forall|j: int| 0 <= j < k ==> text@[at + j] == pat@[j],
        decreases pat.len() - k,
    {
        if text[at + k] != pat[k] {
            assert(text@.subrange(at as int, at + pat.len())[k as int] != pat@[k as int]);
            return false;
        }
        k += 1;
    }
    assert(text@.subrange(at as int, at + pat.len()) =~= pat@);
    true
}

/// Finds the leftmost occurrence of `pat` in `text`.
pub fn find(text: &Vec<char>, pat: &Vec<char>) -> (r: Option<usize>)
    ensures
        match r {
            Some(at) => is_first_occurrence(text@, pat@, at as int) && first_occurrence(
                text@,
                pat@,
            ) == Some(at as int),
            None => !occurs(text@, pat@) && first_occurrence(text@, pat@) is None,
        },
{
    if pat.len() > text.len() {
        return None;
    }
    let mut i: usize = 0;
    while pat.len() <= text.len() - i
        invariant
            i <= text.len(),
            forall|j: int| 0 <= j < i ==> !occurs_at(text@, pat@, j),
        decreases text.len() - i,
    {
        if matches_at(text, pat, i) {
            proof {
                lemma_first_occurrence(text@, pat@, i as int);
            }
            return Some(i);
        }
        assert(i < text.len()) by {
            if i == text.len() {
                assert(text@.subrange(i as int, i as int) =~= pat@);
            }
        }
        i += 1;
    }
    None
}

/// `text` with every occurrence of `pat` replaced by `to`, scanning from the
/// left and resuming after each occurrence. An empty `pat` replaces nothing.
pub open spec fn replaced(text: Seq<char>, pat: Seq<char>, to: Seq<char>) -> Seq<char>
    decreases text.len(),
{
    if pat.len() == 0 || text.len() == 0 {
        text
    } else if pat.is_prefix_of(text) {
        to + replaced(text.skip(pat.len() as int), pat, to)
    } else {
        seq![text[0]] + replaced(text.skip(1), pat, to)
    }
}

/// Replacing a pattern that does not occur leaves the text as it is.
pub proof fn lemma_replaced_absent(text: Seq<char>, pat: Seq<char>, to: Seq<char>)
    requires
        !occurs(text, pat),
    ensures
        replaced(text, pat, to) == text,
    decreases text.len(),
{
    if pat.len() > 0 && text.len() > 0 {
        if pat.is_prefix_of(text) {
            assert(occurs_at(text, pat, 0));
        }
        let rest = text.skip(1);
        assert forall|at: int| !occurs_at(rest, pat, at) by {
            if occurs_at(rest, pat, at) {
                assert(text.subrange(at + 1, at + 1 + pat.len()) =~= rest.subrange(
                    at,
                    at + pat.len(),
                ));
                assert(occurs_at(text, pat, at + 1));
            }
        }
        lemma_replaced_absent(rest, pat, to);
        assert(seq![text[0]] + rest =~= text);
    }
}

/// Replaces every occurrence of a non-empty `pat` in `text` by `to`.
pub fn replace_all(text: &Vec<char>, pat: &Vec<char>, to: &Vec<char>) -> (r: Vec<char>)
    requires
        pat.len() > 0,
    ensures
        r@ == replaced(text@, pat@, to@),
{
    let mut out: Vec<char> = Vec::new();
    let mut i: usize = 0;
    assert(text@.skip(0) =~= text@);
    assert(out@ + replaced(text@, pat@, to@) =~= replaced(text@, pat@, to@));
    while i < text.len()
        invariant
            i <= text.len(),
            pat.len() > 0,
            out@ + replaced(text@.skip(i as int), pat@, to@) == replaced(text@, pat@, to@),
        decreases text.len() - i,
    {
        let ghost rest = text@.skip(i as int);
        if matches_at(text, pat, i) {
            assert(rest.subrange(0, pat.len() as int) =~= text@.subrange(
                i as int,
                i + pat.len(),
            ));
            assert(rest.skip(pat.len() as int) =~= text@.skip(i + pat.len()));
            let mut k: usize = 0;
            let ghost before = out@;
            while k < to.len()
                invariant
                    k <= to.len(),
                    out@ == before + to@.take(k as int),
                decreases to.len() - k,
            {
                out.push(to[k]);
                k += 1;
            }
            assert(to@.take(to.len() as int) =~= to@);
            assert(before + (to@ + replaced(rest.skip(pat.len() as int), pat@, to@)) =~= (before
                + to@) + replaced(rest.skip(pat.len() as int), pat@, to@));
            i += pat.len();
        } else {
            assert(!pat@.is_prefix_of(rest)) by {
                if pat@.is_prefix_of(rest) {
                    assert(rest.subrange(0, pat.len() as int) =~= text@.subrange(
                        i as int,
                        i + pat.len(),
                    ));
                }
            }
            assert(rest.skip(1) =~= text@.skip(i + 1));
            assert(out@ + (seq![rest[0]] + replaced(rest.skip(1), pat@, to@)) =~= out@.push(
                text@[i as int],
            ) + replaced(rest.skip(1), pat@, to@));
            out.push(text[i]);
            i += 1;
        }
    }
    assert(text@.skip(text.len() as int) =~= Seq::<char>::empty());
    assert(out@ + Seq::<char>::empty() =~= out@);
    out
}

/// The characters `v[from..to]`.
pub fn slice_of(v: &Vec<char>, from: usize, to: usize) -> (r: Vec<char>)
    requires
        from <= to <= v.len(),
    ensures
        r@ == v@.subrange(from as int, to as int),
{
    let mut r: Vec<char> = Vec::new();
    let mut i: usize = from;
    while i < to
        invariant
            from <= i <= to <= v.len(),
            r@ == v@.subrange(from as int, i as int),
        decreases to - i,
    {
        r.push(v[i]);
        i += 1;
    }
    r
}

/// Whether `c` has the Unicode property White_Space.
pub open spec fn is_white_space(c: char) -> bool {
    let u = c as u32;
    ||| 0x09 <= u <= 0x0D
    ||| u == 0x20
    ||| u == 0x85
    ||| u == 0xA0
    ||| u == 0x1680
    ||| 0x2000 <= u <= 0x200A
    ||| u == 0x2028
    ||| u == 0x2029
    ||| u == 0x202F
    ||| u == 0x205F
    ||| u == 0x3000
}

/// Tests a character for the Unicode property White_Space.
pub fn is_whitespace(c: char) -> (r: bool)
    ensures
        r == is_white_space(c),
{
    let u: u32 = c as u32;
    (0x09 <= u && u <= 0x0D) || u == 0x20 || u == 0x85 || u == 0xA0 || u == 0x1680 || (0x2000 <= u
        && u <= 0x200A) || u == 0x2028 || u == 0x2029 || u == 0x202F || u == 0x205F || u
        == 0x3000
}

/// How many white-space characters `s` begins with.
pub open spec fn leading_white_space(s: Seq<char>) -> nat
    decreases s.len(),
{
    if s.len() > 0 && is_white_space(s[0]) {
        1 + leading_white_space(s.drop_first())
    } else {
        0
    }
}

/// How many white-space characters `s` ends with.
pub open spec fn trailing_white_space(s: Seq<char>) -> nat
    decreases s.len(),
{
    if s.len() > 0 && is_white_space(s.last()) {
        1 + trailing_white_space(s.drop_last())
    } else {
        0
    }
}

/// `s` without its leading white space.
pub open spec fn trimmed_start(s: Seq<char>) -> Seq<char> {
    s.skip(leading_white_space(s) as int)
}

/// `s` without its trailing white space.
pub open spec fn trimmed_end(s: Seq<char>) -> Seq<char> {
    s.take(s.len() - trailing_white_space(s))
}

/// `s` without its leading and trailing white space.
pub open spec fn trimmed(s: Seq<char>) -> Seq<char> {
    trimmed_end(trimmed_start(s))
}

/// Counts the white-space characters that `v` begins with.
pub fn count_leading_white_space(v: &Vec<char>) -> (n: usize)
    ensures
        n == leading_white_space(v@),
        n <= v.len(),
{
    let mut i: usize = 0;
    assert(v@.skip(0) =~= v@);
    while i < v.len() && is_whitespace(v[i])
        invariant
            i <= v.len(),
            leading_white_space(v@) == i + leading_white_space(v@.skip(i as int)),
        decreases v.len() - i,
    {
        assert(v@.skip(i as int).drop_first() =~= v@.skip(i + 1));
        i += 1;
    }
    i
}

/// Removes leading white space.
pub fn trim_start(v: &Vec<char>) -> (r: Vec<char>)
    ensures
        r@ == trimmed_start(v@),
{
    let n = count_leading_white_space(v);
    slice_of(v, n, v.len())
}

/// Removes leading and trailing white space.
pub fn trim(v: &Vec<char>) -> (r: Vec<char>)
    ensures
        r@ == trimmed(v@),
{
    let from = count_leading_white_space(v);
    let ghost t = v@.skip(from as int);
    let mut to: usize = v.len();
    assert(t.take(to - from) =~= t);
    while to > from && is_whitespace(v[to - 1])
        invariant
            from <= to <= v.len(),
            t == v@.skip(from as int),
            trailing_white_space(t) == (v.len() - to) + trailing_white_space(t.take(to - from)),
        decreases to,
    {
        assert(t.take(to - from).drop_last() =~= t.take(to - from - 1));
        to -= 1;
    }
    assert(t.take(t.len() - trailing_white_space(t)) =~= v@.subrange(from as int, to as int));
    slice_of(v, from, to)
}

/// How many characters of `s` stand before its first line feed, or `s.len()`
/// if it has none.
pub open spec fn line_length(s: Seq<char>) -> nat
    decreases s.len(),
{
    if s.len() == 0 || s[0] == '\n' {
        0
    } else {
        1 + line_length(s.drop_first())
    }
}

/// `line` without one trailing carriage return.
pub open spec fn without_carriage_return(line: Seq<char>) -> Seq<char> {
    if line.len() > 0 && line.last() == '\r' {
        line.drop_last()
    } else {
        line
    }
}

/// The lines of `s`. A line ends at a line feed, or at a carriage return
/// followed by a line feed; neither belongs to the line. The last line needs
/// no line ending, and an empty `s` has no lines.
pub open spec fn lines_of(s: Seq<char>) -> Seq<Seq<char>>
    decreases s.len(),
{
    if s.len() == 0 {
        Seq::empty()
    } else if line_length(s) >= s.len() {
        seq![s]
    } else {
        seq![without_carriage_return(s.take(line_length(s) as int))] + lines_of(
            s.skip(line_length(s) as int + 1),
        )
    }
}

/// The views of the vectors of `lines`.
pub open spec fn line_views(lines: Seq<Vec<char>>) -> Seq<Seq<char>> {
    Seq::new(lines.len(), |i: int| lines[i]@)
}

/// Counts the characters of `v[from..]` that stand before its first line feed.
pub fn measure_line(v: &Vec<char>, from: usize) -> (n: usize)
    requires
        from <= v.len(),
    ensures
        n == line_length(v@.skip(from as int)),
        from + n <= v.len(),
{
    let ghost rest = v@.skip(from as int);
    let mut i: usize = from;
    assert(rest.skip(0) =~= rest);
    while i < v.len() && v[i] != '\n'
        invariant
            from <= i <= v.len(),
            rest == v@.skip(from as int),
            line_length(rest) == (i - from) + line_length(rest.skip(i - from)),
        decreases v.len() - i,
    {
        assert(rest.skip(i - from).drop_first() =~= rest.skip(i - from + 1));
        i += 1;
    }
    i - from
}

/// Splits `v` into its lines.
pub fn split_lines(v: &Vec<char>) -> (lines: Vec<Vec<char>>)
    ensures
        line_views(lines@) == lines_of(v@),
{
    let mut lines: Vec<Vec<char>> = Vec::new();
    let mut start: usize = 0;
    assert(v@.skip(0) =~= v@);
    assert(line_views(lines@) + lines_of(v@) =~= lines_of(v@));
    while start < v.len()
        invariant
            start <= v.len(),
            line_views(lines@) + lines_of(v@.skip(start as int)) == lines_of(v@),
        decreases v.len() - start,
    {
        let ghost rest = v@.skip(start as int);
        let ghost done = line_views(lines@);
        let n = measure_line(v, start);
        let end: usize = start + n;
        if end == v.len() {
            let line = slice_of(v, start, end);
            assert(line@ =~= rest);
            lines.push(line);
            assert(line_views(lines@) =~= done + seq![rest]);
            start = end;
            assert(v@.skip(start as int) =~= Seq::<char>::empty());
        } else {
            let stop: usize = if end > start && v[end - 1] == '\r' {
                end - 1
            } else {
                end
            };
            let line = slice_of(v, start, stop);
            assert(rest.take(n as int) =~= v@.subrange(start as int, end as int));
            assert(line@ =~= without_carriage_return(rest.take(n as int)));
            lines.push(line);
            assert(rest.skip(n + 1) =~= v@.skip(end + 1));
            assert(line_views(lines@) + lines_of(v@.skip(end + 1)) =~= done + (seq![line@]
                + lines_of(rest.skip(n + 1))));
            start = end + 1;
        }
    }
    assert(v@.skip(v.len() as int) =~= Seq::<char>::empty());
    assert(line_views(lines@) + Seq::<Seq<char>>::empty() =~= line_views(lines@));
    lines
}

} // verus!
