use codex_prompts::template_processor::{
    process_askama_template, process_simple_template, process_template, TemplateSyntax,
};

#[test]
fn test_simple_template_no_args() {
    let result = process_simple_template("Hello world", &[]).unwrap();
    assert_eq!(result, "Hello world");
}

#[test]
fn test_simple_template_single_arg() {
    let result = process_simple_template("Hello {0}!", &["World".to_string()]).unwrap();
    assert_eq!(result, "Hello World!");
}

#[test]
fn test_simple_template_multiple_args() {
    let args = vec!["Alice".to_string(), "Bob".to_string()];
    let result = process_simple_template("Hello {0} and {1}!", &args).unwrap();
    assert_eq!(result, "Hello Alice and Bob!");
}

#[test]
fn test_simple_template_repeated_placeholder() {
    let result =
        process_simple_template("{0} says hello to {0}", &["Alice".to_string()]).unwrap();
    assert_eq!(result, "Alice says hello to Alice");
}

#[test]
fn test_askama_template_single_variable() {
    let mut args = Vec::new();
    args.push(("subject".to_string(), "AI safety".to_string()));
    let result = process_askama_template("Research {{ subject }}", &args).unwrap();
    assert_eq!(result, "Research AI safety");
}

#[test]
fn test_askama_template_multiple_variables() {
    let mut args = Vec::new();
    args.push(("topic".to_string(), "Rust".to_string()));
    args.push(("level".to_string(), "beginner".to_string()));
    let result =
        process_askama_template("Learn {{ topic }} at {{ level }} level", &args).unwrap();
    assert_eq!(result, "Learn Rust at beginner level");
}

#[test]
fn test_process_template_simple() {
    let args = vec!["test".to_string()];
    let result = process_template("Command: {0}", &args, TemplateSyntax::Simple).unwrap();
    assert_eq!(result, "Command: test");
}

#[test]
fn test_process_template_askama_with_subject() {
    let args = vec!["AI safety".to_string()];
    let result =
        process_template("Research {{ subject }}", &args, TemplateSyntax::Askama).unwrap();
    assert_eq!(result, "Research AI safety");
}

#[test]
fn test_process_template_askama_with_positional() {
    let args = vec!["first".to_string(), "second".to_string()];
    let result =
        process_template("{{ arg0 }} and {{ arg1 }}", &args, TemplateSyntax::Askama).unwrap();
    assert_eq!(result, "first and second");
}
