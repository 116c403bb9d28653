//! The metadata block at the head of a prompt file.
//!
//! A file may begin with a block of `key: value` lines between two lines of
//! three hyphens. Two of its fields are kept, `description` and
//! `argument-hint`; the block itself never reaches the body.

use vstd::prelude::*;
use crate::text::{
    find, first_occurrence, line_views, lines_of, matches_at, occurs, occurs_at, optional_text,
    slice_of, split_lines, string_of, to_chars, trim, trim_start, trimmed, trimmed_start,
};

verus! {

/// What a prompt file holds: the two metadata fields, and the body.
pub struct FrontMatter {
    pub description: Option<Seq<char>>,
    pub argument_hint: Option<Seq<char>>,
    pub body: Seq<char>,
}

/// The opening delimiter, ended by a line feed.
pub open spec fn opening_lf() -> Seq<char> {
    seq!['-', '-', '-', '\n']
}

/// The opening delimiter, ended by a carriage return and a line feed.
pub open spec fn opening_crlf() -> Seq<char> {
    seq!['-', '-', '-', '\r', '\n']
}

/// The closing delimiter between line feeds.
pub open spec fn closing_lf() -> Seq<char> {
    seq!['\n', '-', '-', '-', '\n']
}

/// The closing delimiter between pairs of carriage return and line feed.
pub open spec fn closing_crlf() -> Seq<char> {
    seq!['\r', '\n', '-', '-', '-', '\r', '\n']
}

/// What follows the opening delimiter, if `text` begins with one.
pub open spec fn after_opening(text: Seq<char>) -> Option<Seq<char>> {
    if opening_lf().is_prefix_of(text) {
        Some(text.skip(4))
    } else if opening_crlf().is_prefix_of(text) {
        Some(text.skip(5))
    } else {
        None
    }
}

/// The closing delimiter that ends the block in `rest`: the one between line
/// feeds if it occurs at all, else the one with carriage returns if that
/// occurs.
pub open spec fn closing_of(rest: Seq<char>) -> Option<Seq<char>> {
    if occurs(rest, closing_lf()) {
        Some(closing_lf())
    } else if occurs(rest, closing_crlf()) {
        Some(closing_crlf())
    } else {
        None
    }
}

/// `body` without one leading line break of either kind.
pub open spec fn without_leading_break(body: Seq<char>) -> Seq<char> {
    if seq!['\r', '\n'].is_prefix_of(body) {
        body.skip(2)
    } else if seq!['\n'].is_prefix_of(body) {
        body.skip(1)
    } else {
        body
    }
}

/// The metadata block of `text` and the body after it, if `text` begins with
/// an opening delimiter that a closing delimiter follows.
pub open spec fn split_block(text: Seq<char>) -> Option<(Seq<char>, Seq<char>)> {
    match after_opening(text) {
        None => None,
        Some(rest) => match closing_of(rest) {
            None => None,
            Some(closing) => {
                let end = first_occurrence(rest, closing).unwrap();
                Some((rest.take(end), without_leading_break(rest.skip(end + closing.len()))))
            },
        },
    }
}

/// Whether `line`, after its leading white space, begins with `key` and a
/// colon.
pub open spec fn is_field_line(line: Seq<char>, key: Seq<char>) -> bool {
    (key + seq![':']).is_prefix_of(trimmed_start(line))
}

/// The first of `lines` that is a field line for `key`.
pub open spec fn field_line(lines: Seq<Seq<char>>, key: Seq<char>) -> Option<Seq<char>>
    decreases lines.len(),
{
    if lines.len() == 0 {
        None
    } else if is_field_line(lines[0], key) {
        Some(lines[0])
    } else {
        field_line(lines.drop_first(), key)
    }
}

/// `value` without the pair of quotes around it, if it stands between two
/// double quotes or between two single quotes.
pub open spec fn unquoted(value: Seq<char>) -> Seq<char> {
    if value.len() >= 2 && value.first() == value.last() && (value.first() == '"'
        || value.first() == '\'') {
        value.subrange(1, value.len() - 1)
    } else {
        value
    }
}

/// The value that `line` gives its field: what follows the first colon,
/// trimmed and unquoted. An empty value counts as none.
pub open spec fn line_value(line: Seq<char>) -> Option<Seq<char>> {
    match first_occurrence(line, seq![':']) {
        None => None,
        Some(colon) => {
            let value = unquoted(trimmed(line.skip(colon + 1)));
            if value.len() == 0 {
                None
            } else {
                Some(value)
            }
        },
    }
}

/// The value of the field `key` in the metadata block `block`: that of the
/// first line that names the field.
pub open spec fn field_value(block: Seq<char>, key: Seq<char>) -> Option<Seq<char>> {
    match field_line(lines_of(block), key) {
        None => None,
        Some(line) => line_value(line),
    }
}

/// The name of the description field.
pub open spec fn description_key() -> Seq<char> {
    seq!['d', 'e', 's', 'c', 'r', 'i', 'p', 't', 'i', 'o', 'n']
}

/// The name of the argument hint field.
pub open spec fn argument_hint_key() -> Seq<char> {
    seq!['a', 'r', 'g', 'u', 'm', 'e', 'n', 't', '-', 'h', 'i', 'n', 't']
}

/// What `text` holds. Without a delimited block it is all body.
pub open spec fn front_matter(text: Seq<char>) -> FrontMatter {
    match split_block(text) {
        None => FrontMatter { description: None, argument_hint: None, body: text },
        Some((block, body)) => FrontMatter {
            description: field_value(block, description_key()),
            argument_hint: field_value(block, argument_hint_key()),
            body,
        },
    }
}

/// Removes the quotes around `value`, if it stands between a pair of them.
pub fn unquote(value: &Vec<char>) -> (r: Vec<char>)
    ensures
        r@ == unquoted(value@),
{
    let n = value.len();
    if n >= 2 && value[0] == value[n - 1] && (value[0] == '"' || value[0] == '\'') {
        slice_of(value, 1, n - 1)
    } else {
        slice_of(value, 0, n)
    }
}

/// Reads the value that `line` gives its field.
pub fn read_line_value(line: &Vec<char>) -> (r: Option<String>)
    ensures
        optional_text(r) == line_value(line@),
{
    let colon_pat: Vec<char> = vec![':'];
    assert(colon_pat@ =~= seq![':']);
    match find(line, &colon_pat) {
        None => None,
        Some(colon) => {
            let end = line.len();
            let raw = slice_of(line, colon + 1, end);
            let value = unquote(&trim(&raw));
            if value.len() == 0 {
                None
            } else {
                Some(string_of(&value, 0, value.len()))
            }
        },
    }
}

/// Looks the field `key` up in the lines of a metadata block.
pub fn find_field(lines: &Vec<Vec<char>>, key: &Vec<char>) -> (r: Option<String>)
    ensures
        optional_text(r) == match field_line(line_views(lines@), key@) {
            None => None,
            Some(line) => line_value(line),
        },
{
    let mut prefix = slice_of(key, 0, key.len());
    prefix.push(':');
    assert(prefix@ =~= key@ + seq![':']);
    let ghost all = line_views(lines@);
    let mut i: usize = 0;
    assert(all.skip(0) =~= all);
    while i < lines.len()
        invariant
            i <= lines.len(),
            all == line_views(lines@),
            prefix@ == key@ + seq![':'],
            field_line(all, key@) == field_line(all.skip(i as int), key@),
        decreases lines.len() - i,
    {
        let start = trim_start(&lines[i]);
        assert(all.skip(i as int)[0] == lines@[i as int]@);
        if matches_at(&start, &prefix, 0) {
            assert(is_field_line(lines@[i as int]@, key@));
            return read_line_value(&lines[i]);
        }
        assert(!is_field_line(lines@[i as int]@, key@));
        assert(all.skip(i as int).drop_first() =~= all.skip(i + 1));
        i += 1;
    }
    None
}

/// Splits the text of a prompt file into its metadata and its body.
///
/// A file that does not begin with an opening delimiter, or whose opening
/// delimiter no closing delimiter follows, is all body and has no metadata.
pub fn parse_frontmatter(content: &str) -> (r: (Option<String>, Option<String>, String))
    ensures
        (FrontMatter {
            description: optional_text(r.0),
            argument_hint: optional_text(r.1),
            body: r.2@,
        }) == front_matter(content@),
        after_opening(content@) is None ==> r.0 is None && r.1 is None && r.2@ == content@,
        after_opening(content@) matches Some(rest) && !occurs(rest, closing_lf()) && !occurs(
            rest,
            closing_crlf(),
        ) ==> r.0 is None && r.1 is None && r.2@ == content@,
{
    let text = to_chars(content);
    let n = text.len();
    let open_lf: Vec<char> = vec!['-', '-', '-', '\n'];
    let open_crlf: Vec<char> = vec!['-', '-', '-', '\r', '\n'];
    assert(open_lf@ =~= opening_lf());
    assert(open_crlf@ =~= opening_crlf());
    let skip: usize = if matches_at(&text, &open_lf, 0) {
        4
    } else if matches_at(&text, &open_crlf, 0) {
        5
    } else {
        assert(text@.subrange(0, n as int) =~= content@);
        return (None, None, string_of(&text, 0, n));
    };
    let rest = slice_of(&text, skip, n);
    assert(after_opening(content@) == Some(rest@));
    let close_lf: Vec<char> = vec!['\n', '-', '-', '-', '\n'];
    let close_crlf: Vec<char> = vec!['\r', '\n', '-', '-', '-', '\r', '\n'];
    assert(close_lf@ =~= closing_lf());
    assert(close_crlf@ =~= closing_crlf());
    let (end, width): (usize, usize) = match find(&rest, &close_lf) {
        Some(end) => (end, 5),
        None => match find(&rest, &close_crlf) {
            Some(end) => (end, 7),
            None => {
                assert(text@.subrange(0, n as int) =~= content@);
                return (None, None, string_of(&text, 0, n));
            },
        },
    };
    let m = rest.len();
    let ghost closing = closing_of(rest@).unwrap();
    assert(closing.len() == width);
    assert(first_occurrence(rest@, closing) == Some(end as int));
    assert(occurs_at(rest@, closing, end as int));
    let block = slice_of(&rest, 0, end);
    let after: usize = end + width;
    let line_break: Vec<char> = vec!['\r', '\n'];
    assert(line_break@ =~= seq!['\r', '\n']);
    let ghost tail = rest@.skip(after as int);
    let body_start: usize = if matches_at(&rest, &line_break, after) {
        assert(tail.subrange(0, 2) =~= rest@.subrange(after as int, after + 2));
        assert(tail.skip(2) =~= rest@.subrange(after + 2, m as int));
        after + 2
    } else if after < m && rest[after] == '\n' {
        assert(!seq!['\r', '\n'].is_prefix_of(tail)) by {
            if seq!['\r', '\n'].is_prefix_of(tail) {
                assert(tail.subrange(0, 2) =~= rest@.subrange(after as int, after + 2));
            }
        }
        assert(tail.subrange(0, 1) =~= seq!['\n']);
        assert(tail.skip(1) =~= rest@.subrange(after + 1, m as int));
        after + 1
    } else {
        assert(!seq!['\r', '\n'].is_prefix_of(tail)) by {
            if seq!['\r', '\n'].is_prefix_of(tail) {
                assert(tail.subrange(0, 2) =~= rest@.subrange(after as int, after + 2));
            }
        }
        assert(!seq!['\n'].is_prefix_of(tail)) by {
            if seq!['\n'].is_prefix_of(tail) {
                assert(tail.subrange(0, 1)[0] == rest@[after as int]);
            }
        }
        assert(tail =~= rest@.subrange(after as int, m as int));
        after
    };
    let body = string_of(&rest, body_start, m);
    assert(body@ == without_leading_break(tail));
    assert(block@ =~= rest@.take(end as int));
    let lines = split_lines(&block);
    let description_name: Vec<char> = vec!['d', 'e', 's', 'c', 'r', 'i', 'p', 't', 'i', 'o', 'n'];
    let hint_name: Vec<char> = vec![
        'a', 'r', 'g', 'u', 'm', 'e', 'n', 't', '-', 'h', 'i', 'n', 't',
    ];
    assert(description_name@ =~= description_key());
    assert(hint_name@ =~= argument_hint_key());
    let description = find_field(&lines, &description_name);
    let argument_hint = find_field(&lines, &hint_name);
    (description, argument_hint, body)
}

} // verus!
