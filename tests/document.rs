use std::collections::HashMap;

use friday::document::{Document, LineContent};
use friday::{Error, Section};

fn setup(content: &str) -> Document {
    if content.is_empty() {
        Document::parse(Document::template())
    } else {
        Document::parse(content)
    }
}

fn list_all(doc: &Document) -> HashMap<Section, Vec<String>> {
    doc.sections().into_iter().collect()
}

fn expected(entries: &[(Section, &[&str])]) -> HashMap<Section, Vec<String>> {
    entries
        .iter()
        .map(|(s, v)| (s.clone(), v.iter().map(|t| t.to_string()).collect()))
        .collect()
}

#[test]
fn list_all_no_content() {
    assert_eq!(
        list_all(&setup("")),
        expected(&[
            (Section::Dump, &["this where stuff lands by default"]),
            (Section::Custom("todo".to_string()), &["start here"]),
        ])
    );
}

#[test]
fn list_all_only_dump() {
    assert_eq!(
        list_all(&setup("## Dump\n- in dump section")),
        expected(&[(Section::Dump, &["in dump section"])])
    );
}

#[test]
fn list_all_multiple() {
    assert_eq!(
        list_all(&setup("## Dump\n- in dump section\n\n## Something\n- in something")),
        expected(&[
            (Section::Dump, &["in dump section"]),
            (Section::Custom("something".to_string()), &["in something"]),
        ])
    );
}

#[test]
fn list_all_ignore_toplevel_headings_and_comments() {
    assert_eq!(
        list_all(&setup("# Toplevel heading\n## Dump\n- in dump section\n<!-- This is some comment -->")),
        expected(&[(Section::Dump, &["in dump section"])])
    );
}

#[test]
fn list_all_uses_dump_as_default() {
    assert_eq!(
        list_all(&setup("# Toplevel heading\n\n- this is somewhere in the file\n<!-- This is some comment -->")),
        expected(&[(Section::Dump, &["this is somewhere in the file"])])
    );
}

#[test]
fn list_all_ignores_whitespace() {
    assert_eq!(
        list_all(&setup("       - this is somewhere in the file")),
        expected(&[(Section::Dump, &["this is somewhere in the file"])])
    );
}

#[test]
fn sections_keep_the_order_of_their_first_task() {
    let sections = setup("## b\n- one\n## a\n- two\n## b\n- three").sections();
    let keys: Vec<Section> = sections.keys().cloned().collect();
    let lists: Vec<Vec<String>> = sections.values().cloned().collect();
    assert_eq!(keys, vec![Section::Custom("b".to_string()), Section::Custom("a".to_string())]);
    assert_eq!(lists, vec![vec!["one".to_string(), "three".to_string()], vec!["two".to_string()]]);
}

#[test]
fn list_returns_error_on_not_found() {
    let doc = setup("");
    assert!(doc.list(&Section::Custom("non-existent".to_string())).is_err());
}

#[test]
fn list_works() {
    let doc = setup("## Dump\n- something");
    assert_eq!(doc.list(&Section::Dump).unwrap(), vec!["something".to_string()]);
}

#[test]
fn no_change_on_lines_and_dump_lines() {
    let initial_content = "## Dump\n- something\n";
    let doc = setup(initial_content);
    assert_eq!(doc.render(), initial_content);
}

fn created(initial: &str, task: &str, section: Section) -> String {
    let mut doc = setup(initial);
    doc.add_task(task, &section);
    doc.render()
}

fn deleted(initial: &str, task: &str, section: Section) -> String {
    let mut doc = setup(initial);
    doc.remove_task(task, &section);
    doc.render()
}

#[test]
fn create_adds_to_existing_section() {
    assert_eq!(
        created("## Dump\n- something", "something else", Section::Dump),
        "## Dump\n- something\n- something else"
    );
}

#[test]
fn create_adds_new_section() {
    assert_eq!(
        created("## Dump\n- something", "something else", Section::Custom("else".to_string())),
        "## else\n- something else\n## Dump\n- something"
    );
}

#[test]
fn create_adds_initial_section() {
    assert_eq!(
        created("# This is just a heading", "something else", Section::Custom("else".to_string())),
        "# This is just a heading\n## else\n- something else"
    );
}

#[test]
fn delete_works() {
    assert_eq!(
        deleted("## Dump\n- something\n- something else\n", "something else", Section::Dump),
        "## Dump\n- something\n"
    );
}

#[test]
fn delete_doesnt_delete_anything_else() {
    assert_eq!(
        deleted("## Dump\n- something\n- something else\n", "something not in the file", Section::Dump),
        "## Dump\n- something\n- something else\n"
    );
}

#[test]
fn line_kinds_and_stripped_text() {
    assert!(matches!(LineContent::parse("  - a  task "), LineContent::Task(_)));
    assert!(matches!(LineContent::parse("## Work"), LineContent::Section(_)));
    assert!(matches!(LineContent::parse("# Title"), LineContent::Ignored(_)));
    assert_eq!(LineContent::parse("  - a   task ").stripped(), "a task");
    assert_eq!(LineContent::parse("## Big   Work").stripped(), "Big Work");
    assert_eq!(LineContent::parse("plain  text").stripped(), "plain  text");
    assert_eq!(LineContent::parse("-").stripped(), "");
}

#[test]
fn error_statuses() {
    assert_eq!(Error::NotFound("x".to_string()).status(), 404);
    assert_eq!(Error::InvalidArgument("x".to_string()).status(), 400);
    assert_eq!(Error::MalformedRequest.status(), 500);
}
