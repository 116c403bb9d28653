//! Rendering of a prompt body against arguments.
//!
//! Two placeholder syntaxes exist. The positional one writes the argument's
//! index between braces, `{0}`. The named one writes a variable's name
//! between double braces and spaces, `{{ name }}`. Rendering replaces text
//! for text: a placeholder that no argument answers stays as it is.

use vstd::prelude::*;
use crate::text::{lemma_replaced_absent, occurs, replace_all, replaced, string_of, to_chars};

verus! {

/// Why a template could not be rendered.
#[derive(Debug)]
pub enum TemplateError {
    MissingVariable(String),
    ProcessingError(String),
}

/// The placeholder syntax of a template.
#[derive(Debug, Clone, Copy)]
pub enum TemplateSyntax {
    /// `{0}`, `{1}`, `{2}`
    Simple,
    /// `{{ variable }}`
    Askama,
}

/// The decimal digit of `d`, for `d` below ten.
pub open spec fn digit(d: nat) -> char {
    (48 + d) as char
}

/// `n` in decimal notation, without leading zeros.
pub open spec fn decimal(n: nat) -> Seq<char>
    decreases n,
{
    if n < 10 {
        seq![digit(n)]
    } else {
        decimal(n / 10).push(digit(n % 10))
    }
}

/// The placeholder of the positional argument `index`: the index in decimal
/// notation between braces.
pub open spec fn positional_placeholder(index: nat) -> Seq<char> {
    seq!['{'] + decimal(index) + seq!['}']
}

/// The placeholder of the variable `name`: the name between `{{ ` and ` }}`.
pub open spec fn named_placeholder(name: Seq<char>) -> Seq<char> {
    seq!['{', '{', ' '] + name + seq![' ', '}', '}']
}

/// The name under which the positional argument `index` is known to a
/// template in the named syntax: `arg` and the index in decimal notation.
pub open spec fn positional_name(index: nat) -> Seq<char> {
    seq!['a', 'r', 'g'] + decimal(index)
}

/// The second name of the first positional argument.
pub open spec fn subject_name() -> Seq<char> {
    seq!['s', 'u', 'b', 'j', 'e', 'c', 't']
}

/// The texts of `args`.
pub open spec fn texts(args: Seq<String>) -> Seq<Seq<char>> {
    Seq::new(args.len(), |i: int| args[i]@)
}

/// The texts of the names and values of `bindings`.
pub open spec fn binding_texts(bindings: Seq<(String, String)>) -> Seq<(Seq<char>, Seq<char>)> {
    Seq::new(bindings.len(), |i: int| (bindings[i].0@, bindings[i].1@))
}

/// `content` after each argument in turn, from the first on, has replaced
/// every occurrence of its placeholder in what the arguments before it left.
pub open spec fn rendered_positional(content: Seq<char>, args: Seq<Seq<char>>) -> Seq<char>
    decreases args.len(),
{
    if args.len() == 0 {
        content
    } else {
        replaced(
            rendered_positional(content, args.drop_last()),
            positional_placeholder((args.len() - 1) as nat),
            args.last(),
        )
    }
}

/// `content` after each binding in turn, from the first on, has replaced
/// every occurrence of its variable's placeholder in what the bindings before
/// it left.
pub open spec fn rendered_named(content: Seq<char>, bindings: Seq<(Seq<char>, Seq<char>)>) -> Seq<
    char,
>
    decreases bindings.len(),
{
    if bindings.len() == 0 {
        content
    } else {
        replaced(
            rendered_named(content, bindings.drop_last()),
            named_placeholder(bindings.last().0),
            bindings.last().1,
        )
    }
}

/// The bindings that positional arguments stand for in the named syntax:
/// argument `i` under the name `arg<i>`, in order, and after them the first
/// argument, if there is one, under the name `subject`.
pub open spec fn positional_bindings(args: Seq<Seq<char>>) -> Seq<(Seq<char>, Seq<char>)> {
    let numbered = Seq::new(args.len(), |i: int| (positional_name(i as nat), args[i]));
    if args.len() > 0 {
        numbered.push((subject_name(), args[0]))
    } else {
        numbered
    }
}

/// `content` rendered against positional arguments in the given syntax.
pub open spec fn rendered(content: Seq<char>, args: Seq<Seq<char>>, syntax: TemplateSyntax) -> Seq<
    char,
> {
    match syntax {
        TemplateSyntax::Simple => rendered_positional(content, args),
        TemplateSyntax::Askama => rendered_named(content, positional_bindings(args)),
    }
}

/// A text in which no argument's placeholder occurs is rendered as it is.
pub proof fn lemma_positional_without_placeholders(content: Seq<char>, args: Seq<Seq<char>>)
    requires
        forall|i: int| 0 <= i < args.len() ==> !occurs(content, #[trigger] positional_placeholder(i as nat)),
    ensures
        rendered_positional(content, args) == content,
    decreases args.len(),
{
    if args.len() > 0 {
        lemma_positional_without_placeholders(content, args.drop_last());
        let last = args.len() - 1;
        assert(!occurs(content, positional_placeholder(last as nat)));
        lemma_replaced_absent(content, positional_placeholder(last as nat), args.last());
    }
}

/// A text in which no variable's placeholder occurs is rendered as it is.
pub proof fn lemma_named_without_placeholders(
    content: Seq<char>,
    bindings: Seq<(Seq<char>, Seq<char>)>,
)
    requires
        forall|i: int|
            0 <= i < bindings.len() ==> !occurs(content, named_placeholder(#[trigger] bindings[i].0)),
    ensures
        rendered_named(content, bindings) == content,
    decreases bindings.len(),
{
    if bindings.len() > 0 {
        lemma_named_without_placeholders(content, bindings.drop_last());
        let last = bindings.len() - 1;
        assert(!occurs(content, named_placeholder(bindings[last].0)));
        lemma_replaced_absent(content, named_placeholder(bindings.last().0), bindings.last().1);
    }
}

/// Appends `n` in decimal notation to `out`.
pub fn push_decimal(n: usize, out: &mut Vec<char>)
    ensures
        final(out)@ == old(out)@ + decimal(n as nat),
    decreases n,
{
    if n >= 10 {
        push_decimal(n / 10, out);
    }
    let d: u8 = (n % 10) as u8;
    out.push((48 + d) as char);
    assert(out@ =~= old(out)@ + decimal(n as nat));
}

/// Renders `content` in the positional syntax: for each argument in turn,
/// every occurrence of `{i}`, with `i` the argument's index, becomes the
/// argument's text. Never fails.
pub fn process_simple_template(content: &str, args: &[String]) -> (r: Result<
    String,
    TemplateError,
>)
    ensures
        r matches Ok(s) && s@ == rendered_positional(content@, texts(args@)),
        args@.len() == 0 ==> (r matches Ok(s) && s@ == content@),
{
    let mut result = to_chars(content);
    let ghost all = texts(args@);
    let mut i: usize = 0;
    assert(all.take(0) =~= Seq::<Seq<char>>::empty());
    while i < args.len()
        invariant
            i <= args.len(),
            all == texts(args@),
            result@ == rendered_positional(content@, all.take(i as int)),
        decreases args.len() - i,
    {
        let mut placeholder: Vec<char> = Vec::new();
        placeholder.push('{');
        push_decimal(i, &mut placeholder);
        placeholder.push('}');
        assert(placeholder@ =~= positional_placeholder(i as nat));
        let value = to_chars(args[i].as_str());
        assert(all.take(i + 1).drop_last() =~= all.take(i as int));
        result = replace_all(&result, &placeholder, &value);
        i += 1;
    }
    assert(all.take(args.len() as int) =~= all);
    let n = result.len();
    assert(result@.subrange(0, n as int) =~= result@);
    Ok(string_of(&result, 0, n))
}

/// Renders `content` in the named syntax: for each binding of a name to a
/// value in turn, every occurrence of `{{ name }}` becomes the value. Never
/// fails.
pub fn process_askama_template(content: &str, args: &[(String, String)]) -> (r: Result<
    String,
    TemplateError,
>)
    ensures
        r matches Ok(s) && s@ == rendered_named(content@, binding_texts(args@)),
        args@.len() == 0 ==> (r matches Ok(s) && s@ == content@),
{
    let mut result = to_chars(content);
    let ghost all = binding_texts(args@);
    let mut i: usize = 0;
    assert(all.take(0) =~= Seq::<(Seq<char>, Seq<char>)>::empty());
    while i < args.len()
        invariant
            i <= args.len(),
            all == binding_texts(args@),
            result@ == rendered_named(content@, all.take(i as int)),
        decreases args.len() - i,
    {
        let name = to_chars(args[i].0.as_str());
        let value = to_chars(args[i].1.as_str());
        let mut placeholder: Vec<char> = vec!['{', '{', ' '];
        let mut k: usize = 0;
        while k < name.len()
            invariant
                k <= name.len(),
                placeholder@ == seq!['{', '{', ' '] + name@.take(k as int),
            decreases name.len() - k,
        {
            placeholder.push(name[k]);
            k += 1;
        }
        placeholder.push(' ');
        placeholder.push('}');
        placeholder.push('}');
        assert(name@.take(name.len() as int) =~= name@);
        assert(placeholder@ =~= named_placeholder(name@));
        assert(all.take(i + 1).drop_last() =~= all.take(i as int));
        result = replace_all(&result, &placeholder, &value);
        i += 1;
    }
    assert(all.take(args.len() as int) =~= all);
    let n = result.len();
    assert(result@.subrange(0, n as int) =~= result@);
    Ok(string_of(&result, 0, n))
}

/// Renders `content` against positional arguments in the given syntax.
///
/// In the named syntax argument `i` answers to the name `arg<i>`, and the
/// first argument to the name `subject` as well. Never fails.
pub fn process_template(content: &str, args: &[String], syntax: TemplateSyntax) -> (r: Result<
    String,
    TemplateError,
>)
    ensures
        r matches Ok(s) && s@ == rendered(content@, texts(args@), syntax),
{
    match syntax {
        TemplateSyntax::Simple => process_simple_template(content, args),
        TemplateSyntax::Askama => {
            let ghost all = texts(args@);
            let mut named: Vec<(String, String)> = Vec::new();
            let mut i: usize = 0;
            while i < args.len()
                invariant
                    i <= args.len(),
                    all == texts(args@),
                    binding_texts(named@) == Seq::new(
                        i as nat,
                        |j: int| (positional_name(j as nat), all[j]),
                    ),
                decreases args.len() - i,
            {
                let mut name: Vec<char> = vec!['a', 'r', 'g'];
                push_decimal(i, &mut name);
                assert(name@ =~= positional_name(i as nat));
                let n = name.len();
                assert(name@.subrange(0, n as int) =~= name@);
                let ghost before = binding_texts(named@);
                named.push((string_of(&name, 0, n), args[i].clone()));
                assert(binding_texts(named@) =~= before.push((positional_name(i as nat), all[i as int])));
                assert(binding_texts(named@) =~= Seq::new(
                    (i + 1) as nat,
                    |j: int| (positional_name(j as nat), all[j]),
                ));
                i += 1;
            }
            if args.len() > 0 {
                let subject: Vec<char> = vec!['s', 'u', 'b', 'j', 'e', 'c', 't'];
                assert(subject@ =~= subject_name());
                assert(subject@.subrange(0, 7) =~= subject@);
                let ghost before = binding_texts(named@);
                named.push((string_of(&subject, 0, 7), args[0].clone()));
                assert(binding_texts(named@) =~= before.push((subject_name(), all[0])));
            }
            assert(binding_texts(named@) =~= positional_bindings(all));
            process_askama_template(content, named.as_slice())
        },
    }
}

} // verus!
