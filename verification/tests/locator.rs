use sentry_docs_language_server::locate::find_enclosing_tag;

#[test]
fn finds_tag_within_tag() {
    let text: Vec<Vec<u8>> = "<Hello />"
        .to_owned()
        .lines()
        .map(|line| line.to_owned().into_bytes())
        .collect();
    let tag = find_enclosing_tag(&text, 0, 0);
    assert!(tag.is_ok());
    assert_eq!(tag.unwrap(), "<Hello />");
}

#[test]
fn finds_tag_within_tag_middle() {
    let text: Vec<Vec<u8>> = "<Hello />"
        .to_owned()
        .lines()
        .map(|line| line.to_owned().into_bytes())
        .collect();
    let tag = find_enclosing_tag(&text, 0, 2);
    assert!(tag.is_ok());
    assert_eq!(tag.unwrap(), "<Hello />");
}

#[test]
fn finds_tag_within_tag_multiple_shorter_lines() {
    let text: Vec<Vec<u8>> = r#"

<Hello />

"#
    .to_owned()
    .lines()
    .map(|line| line.to_owned().into_bytes())
    .collect();
    let tag = find_enclosing_tag(&text, 2, 0);
    assert!(tag.is_ok());
}

#[test]
fn finds_tag_within_tag_spanning_multiple_lines() {
    let text: Vec<Vec<u8>> = "<Hello \n blabla='hi' \n />"
        .to_owned()
        .lines()
        .map(|line| line.to_owned().into_bytes())
        .collect();
    let tag = find_enclosing_tag(&text, 0, 0);
    assert!(tag.is_ok());
    assert_eq!(tag.unwrap(), "<Hello   blabla='hi'   />");
}

#[test]
fn finds_tag_within_tag_with_attibutes() {
    let text: Vec<Vec<u8>> = r#"<Hello message="world" a="b" />"#
        .to_owned()
        .lines()
        .map(|line| line.to_owned().into_bytes())
        .collect();
    let tag = find_enclosing_tag(&text, 0, 0);
    assert!(tag.is_ok());
}

#[test]
fn does_not_finds_tag_outside_of_tag() {
    let text: Vec<Vec<u8>> = r#"   <Hello message="world" a="b" />"#
        .to_owned()
        .lines()
        .map(|line| line.to_owned().into_bytes())
        .collect();
    let tag = find_enclosing_tag(&text, 0, 0);
    assert!(tag.is_err());
}

#[test]
fn does_not_finds_tag_with_other_tags() {
    let text: Vec<Vec<u8>> = r#"<A />    <Hello message="world" a="b" />"#
        .to_owned()
        .lines()
        .map(|line| line.to_owned().into_bytes())
        .collect();
    let tag = find_enclosing_tag(&text, 0, 6);
    assert!(tag.is_err());
}

#[test]
fn does_not_finds_tag_if_rangle_not_there() {
    let text: Vec<Vec<u8>> = r#"<Hello message="world" a="b" "#
        .to_owned()
        .lines()
        .map(|line| line.to_owned().into_bytes())
        .collect();
    let tag = find_enclosing_tag(&text, 0, 0);
    assert!(tag.is_err());
}

#[test]
fn finds_tag_at_closing_bracket() {
    let text: Vec<Vec<u8>> = vec![b"<Hello />".to_vec()];
    let tag = find_enclosing_tag(&text, 0, 8);
    assert!(tag.is_ok());
    assert_eq!(tag.unwrap(), "<Hello />");
}

#[test]
fn fails_between_tags_on_empty_gap_line() {
    // cursor after one closed tag, before the next, separated by text
    let text: Vec<Vec<u8>> = vec![b"<A /> and <B />".to_vec()];
    let tag = find_enclosing_tag(&text, 0, 7);
    assert!(tag.is_err());
}

#[test]
fn joins_empty_intermediate_lines_with_spaces() {
    let text: Vec<Vec<u8>> = vec![b"<Hello".to_vec(), b"".to_vec(), b"/>".to_vec()];
    let tag = find_enclosing_tag(&text, 0, 0);
    assert!(tag.is_ok());
    assert_eq!(tag.unwrap(), "<Hello  />");
}

#[test]
fn decodes_snippet_bytes_lossily() {
    // an invalid UTF-8 byte inside the tag becomes the replacement character
    let text: Vec<Vec<u8>> = vec![vec![b'<', b'A', 0xFF, b'>']];
    let tag = find_enclosing_tag(&text, 0, 1);
    assert!(tag.is_ok());
    assert_eq!(tag.unwrap(), "<A\u{FFFD}>");
}
