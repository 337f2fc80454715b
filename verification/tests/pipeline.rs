use sentry_docs_language_server::resolve::{get_docs_root_path, get_target_path};
use sentry_docs_language_server::respond::{goto_definition, QueryError};
use sentry_docs_language_server::store::{split_lines, DocumentStore};
use sentry_docs_language_server::tag::{classify, Tag};

#[test]
fn classifies_include_tag() {
    let tag = classify("<Include name=\"options.mdx\" />");
    match tag {
        Ok(Tag::Include(p)) => assert_eq!(p, "options.mdx"),
        _ => panic!("expected an Include tag"),
    }
}

#[test]
fn classifies_platform_content_tag() {
    let tag = classify("<PlatformContent includePath=\"performance/configure\" />");
    match tag {
        Ok(Tag::PlatformContent(p)) => assert_eq!(p, "performance/configure"),
        _ => panic!("expected a PlatformContent tag"),
    }
}

#[test]
fn classifies_missing_attribute_as_empty_path() {
    let tag = classify("<Include />");
    match tag {
        Ok(Tag::Include(p)) => assert_eq!(p, ""),
        _ => panic!("expected an Include tag"),
    }
}

#[test]
fn classifies_unknown_element_as_other() {
    let tag = classify("<Hello message=\"world\" />");
    assert!(matches!(tag, Ok(Tag::Other)));
}

#[test]
fn rejects_malformed_snippet() {
    assert!(classify("<Include name=\"x\"").is_err());
    assert!(classify("< >").is_err());
    assert!(classify("no tag at all").is_err());
}

#[test]
fn derives_docs_root_from_first_marker() {
    let root = get_docs_root_path("file:///home/dev/sentry-docs/docs/platforms/index.mdx");
    assert_eq!(root, "file:///home/dev/sentry-docs");
}

#[test]
fn resolves_include_without_extension() {
    let root = "file:///w/sentry-docs";
    let target = get_target_path(root, &Tag::Include(String::from("alert")));
    assert_eq!(target, "file:///w/sentry-docs/includes/alert.mdx");
}

#[test]
fn resolves_include_with_extension_untouched() {
    let root = "file:///w/sentry-docs";
    let target = get_target_path(root, &Tag::Include(String::from("alert.txt")));
    assert_eq!(target, "file:///w/sentry-docs/includes/alert.txt");
}

#[test]
fn resolves_platform_content_directory() {
    let root = "file:///w/sentry-docs";
    let target = get_target_path(root, &Tag::PlatformContent(String::from("setup/config")));
    assert_eq!(target, "file:///w/sentry-docs/platform-includes/setup/config.mdx");
}

#[test]
fn splits_text_into_lines() {
    let lines = split_lines("one\ntwo\r\n\nfour");
    let expected: Vec<Vec<u8>> = vec![
        b"one".to_vec(),
        b"two".to_vec(),
        b"".to_vec(),
        b"four".to_vec(),
    ];
    assert_eq!(lines, expected);
}

#[test]
fn store_put_then_get_returns_snapshot() {
    let mut store = DocumentStore::new();
    let uri = String::from("file:///w/sentry-docs/a.mdx");
    store.on_open(uri.clone(), "<Include name=\"x\" />");
    let doc = store.get(&uri).expect("document should be stored");
    assert_eq!(doc, &vec![b"<Include name=\"x\" />".to_vec()]);
}

#[test]
fn store_change_replaces_snapshot_wholesale() {
    let mut store = DocumentStore::new();
    let uri = String::from("file:///w/sentry-docs/a.mdx");
    store.on_open(uri.clone(), "first\nsecond");
    store.on_change(uri.clone(), "replaced");
    let doc = store.get(&uri).expect("document should be stored");
    assert_eq!(doc, &vec![b"replaced".to_vec()]);
}

#[test]
fn store_get_unknown_document_is_none() {
    let store = DocumentStore::new();
    assert!(store.get(&String::from("file:///w/sentry-docs/a.mdx")).is_none());
}

#[test]
fn goto_definition_resolves_include() {
    let mut store = DocumentStore::new();
    let uri = String::from("file:///w/sentry-docs/docs/page.mdx");
    store.on_open(uri.clone(), "Intro text.\n<Include name=\"alert\" />\nMore text.");
    let r = goto_definition(&store, &uri, 1, 3);
    assert_eq!(r.unwrap(), "file:///w/sentry-docs/includes/alert.mdx");
}

#[test]
fn goto_definition_unknown_document() {
    let store = DocumentStore::new();
    let uri = String::from("file:///w/sentry-docs/docs/page.mdx");
    let r = goto_definition(&store, &uri, 0, 0);
    assert!(matches!(r, Err(QueryError::UnknownDocument)));
}

#[test]
fn goto_definition_outside_any_tag() {
    let mut store = DocumentStore::new();
    let uri = String::from("file:///w/sentry-docs/docs/page.mdx");
    store.on_open(uri.clone(), "plain prose <Include name=\"alert\" />");
    let r = goto_definition(&store, &uri, 0, 2);
    assert!(matches!(r, Err(QueryError::NoEnclosingTag)));
}

#[test]
fn goto_definition_cursor_past_line_end() {
    let mut store = DocumentStore::new();
    let uri = String::from("file:///w/sentry-docs/docs/page.mdx");
    store.on_open(uri.clone(), "<Include name=\"alert\" />");
    let r = goto_definition(&store, &uri, 0, 999);
    assert!(matches!(r, Err(QueryError::NoEnclosingTag)));
}

#[test]
fn goto_definition_malformed_tag() {
    let mut store = DocumentStore::new();
    let uri = String::from("file:///w/sentry-docs/docs/page.mdx");
    store.on_open(uri.clone(), "< not a tag >");
    let r = goto_definition(&store, &uri, 0, 2);
    assert!(matches!(r, Err(QueryError::MalformedTag)));
}

#[test]
fn goto_definition_unresolvable_tag_kind() {
    let mut store = DocumentStore::new();
    let uri = String::from("file:///w/sentry-docs/docs/page.mdx");
    store.on_open(uri.clone(), "<Alert level=\"warning\" />");
    let r = goto_definition(&store, &uri, 0, 2);
    assert!(matches!(r, Err(QueryError::UnresolvableTagKind)));
}

#[test]
fn repeated_queries_give_identical_results() {
    let mut store = DocumentStore::new();
    let uri = String::from("file:///w/sentry-docs/docs/page.mdx");
    store.on_open(uri.clone(), "<PlatformContent includePath=\"setup\" />");
    let r1 = goto_definition(&store, &uri, 0, 5);
    let r2 = goto_definition(&store, &uri, 0, 5);
    assert_eq!(r1.unwrap(), r2.unwrap());
}
