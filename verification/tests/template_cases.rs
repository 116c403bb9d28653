use codex_prompts::template_processor::{
    process_askama_template, process_simple_template, process_template, TemplateSyntax,
};

fn strings(items: &[&str]) -> Vec<String> {
    items.iter().map(|s| s.to_string()).collect()
}

fn pairs(items: &[(&str, &str)]) -> Vec<(String, String)> {
    items.iter().map(|(k, v)| (k.to_string(), v.to_string())).collect()
}

#[test]
fn positional_arguments_replace_their_placeholders() {
    let result = process_simple_template("{0} and {1}", &strings(&["A", "B"])).unwrap();
    assert_eq!(result, "A and B");
    let result = process_simple_template("{0} x {0}", &strings(&["A"])).unwrap();
    assert_eq!(result, "A x A");
}

#[test]
fn named_syntax_knows_the_first_argument_as_subject() {
    let result =
        process_template("Research {{ subject }}", &strings(&["topic"]), TemplateSyntax::Askama)
            .unwrap();
    assert_eq!(result, "Research topic");
}

#[test]
fn placeholders_without_argument_stay() {
    let result = process_simple_template("{0} {1} {2}", &strings(&["a"])).unwrap();
    assert_eq!(result, "a {1} {2}");
    let result = process_askama_template("{{ a }} {{ b }}", &pairs(&[("a", "1")])).unwrap();
    assert_eq!(result, "1 {{ b }}");
    let result =
        process_template("{{ arg1 }} {{ subject }}", &strings(&[]), TemplateSyntax::Askama)
            .unwrap();
    assert_eq!(result, "{{ arg1 }} {{ subject }}");
}

#[test]
fn no_arguments_leave_the_text() {
    assert_eq!(process_simple_template("{0}", &[]).unwrap(), "{0}");
    assert_eq!(process_askama_template("{{ x }}", &[]).unwrap(), "{{ x }}");
    assert_eq!(process_simple_template("", &strings(&["a"])).unwrap(), "");
}

#[test]
fn indices_are_written_in_decimal() {
    let args = strings(&["a0", "a1", "a2", "a3", "a4", "a5", "a6", "a7", "a8", "a9", "a10", "a11"]);
    let result = process_simple_template("{11}{10}{9}{1}{0}{01}{12}", &args).unwrap();
    assert_eq!(result, "a11a10a9a1a0{01}{12}");
    let result =
        process_template("{{ arg10 }}{{ arg1 }}{{ arg0 }}", &args, TemplateSyntax::Askama).unwrap();
    assert_eq!(result, "a10a1a0");
}

#[test]
fn later_arguments_see_what_earlier_ones_left() {
    let result = process_simple_template("{0}", &strings(&["{1}", "x"])).unwrap();
    assert_eq!(result, "x");
    let result = process_simple_template("{1}", &strings(&["y", "{0}"])).unwrap();
    assert_eq!(result, "{0}");
    let result =
        process_askama_template("{{ a }}", &pairs(&[("a", "{{ b }}"), ("b", "z")])).unwrap();
    assert_eq!(result, "z");
    let result =
        process_askama_template("{{ a }}", &pairs(&[("b", "z"), ("a", "{{ b }}")])).unwrap();
    assert_eq!(result, "{{ b }}");
}

#[test]
fn subject_is_replaced_after_the_numbered_names() {
    let args = strings(&["{{ subject }}", "{{ arg0 }}"]);
    let result = process_template("{{ arg1 }}|{{ arg0 }}", &args, TemplateSyntax::Askama).unwrap();
    assert_eq!(result, "{{ arg0 }}|{{ subject }}");
}

#[test]
fn occurrences_are_taken_from_the_left_without_overlap() {
    let result = process_askama_template("{{ x }}{{ x }} {{ x }", &pairs(&[("x", "1")])).unwrap();
    assert_eq!(result, "11 {{ x }");
    let result = process_simple_template("{{0}}{0", &strings(&["v"])).unwrap();
    assert_eq!(result, "{v}{0");
}

#[test]
fn named_placeholders_need_their_spaces() {
    let result =
        process_askama_template("{{x}} {{ x}} {{x }} {{  x  }} {{ x }}", &pairs(&[("x", "1")]))
            .unwrap();
    assert_eq!(result, "{{x}} {{ x}} {{x }} {{  x  }} 1");
}

#[test]
fn values_beyond_ascii_are_replaced_whole() {
    let result = process_simple_template("«{0}»", &strings(&["日本語 🦀"])).unwrap();
    assert_eq!(result, "«日本語 🦀»");
    let result = process_askama_template("{{ naïve }}", &pairs(&[("naïve", "é")])).unwrap();
    assert_eq!(result, "é");
}

#[test]
fn both_syntaxes_agree_with_their_own_functions() {
    let args = strings(&["p", "q"]);
    let simple = process_template("{0}{1}{{ arg0 }}", &args, TemplateSyntax::Simple).unwrap();
    assert_eq!(simple, process_simple_template("{0}{1}{{ arg0 }}", &args).unwrap());
    let named = process_template("{0}{{ arg1 }}{{ subject }}", &args, TemplateSyntax::Askama)
        .unwrap();
    let bindings = pairs(&[("arg0", "p"), ("arg1", "q"), ("subject", "p")]);
    assert_eq!(named, process_askama_template("{0}{{ arg1 }}{{ subject }}", &bindings).unwrap());
    assert_eq!(named, "{0}qp");
}
