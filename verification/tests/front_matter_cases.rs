use codex_prompts::front_matter::parse_frontmatter;

fn some(s: &str) -> Option<String> {
    Some(s.to_string())
}

#[test]
fn round_trip_of_both_fields() {
    let (description, hint, body) =
        parse_frontmatter("---\ndescription: \"d\"\nargument-hint: h\n---\n\nBODY");
    assert_eq!(description, some("d"));
    assert_eq!(hint, some("h"));
    assert_eq!(body, "BODY");
}

#[test]
fn carriage_returns_parse_like_line_feeds() {
    let (description, hint, body) =
        parse_frontmatter("---\r\ndescription: \"d\"\r\n---\r\n\r\nBODY");
    assert_eq!(description, some("d"));
    assert_eq!(hint, None);
    assert_eq!(body, "BODY");
}

#[test]
fn carriage_returns_stay_in_the_body() {
    let (_, _, body) = parse_frontmatter("---\r\nx: y\r\n---\r\n\r\nA\r\nB\r\n");
    assert_eq!(body, "A\r\nB\r\n");
}

#[test]
fn text_without_opening_is_all_body() {
    for text in ["", "-", "---", "--- \nx\n---\n", " ---\nx\n---\n", "body\n---\nx\n---\n"] {
        let (description, hint, body) = parse_frontmatter(text);
        assert_eq!(description, None);
        assert_eq!(hint, None);
        assert_eq!(body, text);
    }
}

#[test]
fn opening_without_closing_is_all_body() {
    for text in [
        "---\n",
        "---\ndescription: x",
        "---\ndescription: x\n---",
        "---\ndescription: x\n--- \n",
        "---\r\ndescription: x\r\n---",
        "---\r\ndescription: x\n---\r\n",
    ] {
        let (description, hint, body) = parse_frontmatter(text);
        assert_eq!(description, None);
        assert_eq!(hint, None);
        assert_eq!(body, text);
    }
}

#[test]
fn closing_delimiters_are_searched_whatever_the_opening() {
    let (description, hint, body) = parse_frontmatter("---\r\ndescription: x\r\n---\nBODY");
    assert_eq!(description, some("x"));
    assert_eq!(hint, None);
    assert_eq!(body, "BODY");
}

#[test]
fn line_feed_closing_is_tried_first() {
    let text = "---\r\ndescription: a\r\n---\r\nmiddle\n---\nend";
    let (description, hint, body) = parse_frontmatter(text);
    assert_eq!(description, some("a"));
    assert_eq!(hint, None);
    assert_eq!(body, "end");
}

#[test]
fn at_most_one_line_break_is_stripped() {
    assert_eq!(parse_frontmatter("---\na: b\n---\nBODY").2, "BODY");
    assert_eq!(parse_frontmatter("---\na: b\n---\n\nBODY").2, "BODY");
    assert_eq!(parse_frontmatter("---\na: b\n---\n\n\nBODY").2, "\nBODY");
    assert_eq!(parse_frontmatter("---\na: b\n---\n\r\nBODY").2, "BODY");
    assert_eq!(parse_frontmatter("---\na: b\n---\n\r\n\r\nBODY").2, "\r\nBODY");
    assert_eq!(parse_frontmatter("---\na: b\n---\n\rBODY").2, "\rBODY");
    assert_eq!(parse_frontmatter("---\na: b\n---\n").2, "");
}

#[test]
fn empty_block_needs_its_own_line_break() {
    // The closing delimiter begins with a line break of its own.
    let (description, _, body) = parse_frontmatter("---\n---\nBODY");
    assert_eq!(description, None);
    assert_eq!(body, "---\n---\nBODY");
    let (_, _, body) = parse_frontmatter("---\n\n---\nBODY");
    assert_eq!(body, "BODY");
}

#[test]
fn quotes_come_off_in_pairs_only() {
    let value = |line: &str| parse_frontmatter(&format!("---\n{line}\n---\n")).0;
    assert_eq!(value("description: \"double\""), some("double"));
    assert_eq!(value("description: 'single'"), some("single"));
    assert_eq!(value("description: \"\"nested\"\""), some("\"nested\""));
    assert_eq!(value("description: \"mixed'"), some("\"mixed'"));
    assert_eq!(value("description: \"open"), some("\"open"));
    assert_eq!(value("description: close'"), some("close'"));
    assert_eq!(value("description: \""), some("\""));
    assert_eq!(value("description: '"), some("'"));
    assert_eq!(value("description: \" padded \""), some(" padded "));
}

#[test]
fn empty_values_count_as_absent() {
    let value = |line: &str| parse_frontmatter(&format!("---\n{line}\n---\n")).0;
    assert_eq!(value("description:"), None);
    assert_eq!(value("description:    "), None);
    assert_eq!(value("description: \"\""), None);
    assert_eq!(value("description: ''"), None);
    assert_eq!(value("description: \t\r"), None);
}

#[test]
fn values_are_trimmed_of_unicode_white_space() {
    let value = |line: &str| parse_frontmatter(&format!("---\n{line}\n---\n")).0;
    assert_eq!(value("description: \u{a0}\u{3000} text \u{2003}\u{85}"), some("text"));
    assert_eq!(value("\u{2028} description:x"), some("x"));
    // U+200B is no white space.
    assert_eq!(value("description: \u{200b}"), some("\u{200b}"));
}

#[test]
fn the_first_line_of_a_field_decides() {
    let text = "---\ndescription:\ndescription: later\nargument-hint: one\nargument-hint: two\n---\n";
    let (description, hint, _) = parse_frontmatter(text);
    assert_eq!(description, None);
    assert_eq!(hint, some("one"));
}

#[test]
fn field_names_match_as_prefixes_after_white_space() {
    let value = |line: &str| parse_frontmatter(&format!("---\n{line}\n---\n")).0;
    assert_eq!(value("   description: indented"), some("indented"));
    assert_eq!(value("\tdescription:tab"), some("tab"));
    assert_eq!(value("description : spaced"), None);
    assert_eq!(value("Description: upper"), None);
    assert_eq!(value("my-description: other"), None);
    assert_eq!(value("description: a: b"), some("a: b"));
}

#[test]
fn the_block_never_reaches_the_body() {
    let (description, hint, body) = parse_frontmatter("---\nfoo: bar\nbaz\n---\nrest");
    assert_eq!(description, None);
    assert_eq!(hint, None);
    assert_eq!(body, "rest");
}

#[test]
fn text_beyond_ascii_passes_through() {
    let (description, hint, body) =
        parse_frontmatter("---\ndescription: «résumé»\nargument-hint: \"日本語\"\n---\n\n🦀 body");
    assert_eq!(description, some("«résumé»"));
    assert_eq!(hint, some("日本語"));
    assert_eq!(body, "🦀 body");
}
