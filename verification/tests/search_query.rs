use gest::search_query::{parse, Filter, ParsedQuery};

#[test]
fn it_collects_exclude_filters_with_negation_prefix() {
    let q = parse("-tag:wip -status:done");
    assert_eq!(q.exclude, vec![Filter::Tag("wip".into()), Filter::Status("done".into())]);
    assert!(q.included.is_empty());
    assert!(q.text.is_empty());
}

#[test]
fn it_collects_multiple_same_type_filters_for_or_semantics() {
    let q = parse("is:artifact is:task");
    assert_eq!(q.included, vec![Filter::Is("artifact".into()), Filter::Is("task".into())]);
    assert!(q.text.is_empty());
}

#[test]
fn it_combines_filters_and_free_text() {
    let q = parse("is:task tag:urgent fix login bug");
    assert_eq!(q.included, vec![Filter::Is("task".into()), Filter::Tag("urgent".into())]);
    assert_eq!(q.text, vec!["fix", "login", "bug"]);
}

#[test]
fn it_handles_empty_query() {
    let q = parse("");
    assert!(q.is_empty());
}

#[test]
fn it_handles_whitespace_only_query() {
    let q = parse("   ");
    assert!(q.is_empty());
}

#[test]
fn it_is_case_insensitive_for_prefixes() {
    let q = parse("IS:task TAG:Urgent");
    assert_eq!(q.included, vec![Filter::Is("task".into()), Filter::Tag("urgent".into())]);
}

#[test]
fn it_lowercases_filter_values() {
    let q = parse("status:InProgress");
    assert_eq!(q.included, vec![Filter::Status("inprogress".into())]);
}

#[test]
fn it_parses_all_supported_filter_types() {
    let q = parse("is:artifact tag:foo status:open");
    assert_eq!(
        q.included,
        vec![Filter::Is("artifact".into()), Filter::Tag("foo".into()), Filter::Status("open".into())]
    );
}

#[test]
fn it_parses_plain_text_query() {
    let q = parse("hello world");
    assert!(q.included.is_empty());
    assert!(q.exclude.is_empty());
    assert_eq!(q.text, vec!["hello", "world"]);
}

#[test]
fn it_treats_bare_dash_as_free_text() {
    let q = parse("- foo");
    assert_eq!(q.text, vec!["-", "foo"]);
}

#[test]
fn it_treats_dash_without_colon_as_free_text() {
    let q = parse("-nocolon foo");
    assert_eq!(q.text, vec!["-nocolon", "foo"]);
}

#[test]
fn it_treats_empty_value_filter_as_free_text() {
    let q = parse("tag: foo");
    assert_eq!(q.text, vec!["tag:", "foo"]);
    assert!(q.included.is_empty());
}

#[test]
fn it_treats_unknown_prefixes_as_free_text() {
    let q = parse("foo:bar baz:qux hello");
    assert!(q.included.is_empty());
    assert_eq!(q.text, vec!["foo:bar", "baz:qux", "hello"]);
}

#[test]
fn it_is_empty_when_default() {
    let q = ParsedQuery::default();
    assert!(q.is_empty());
}

#[test]
fn it_is_not_empty_with_filters() {
    let q = ParsedQuery { included: vec![Filter::Tag("foo".into())], ..Default::default() };
    assert!(!q.is_empty());
}

#[test]
fn it_is_not_empty_with_text() {
    let q = ParsedQuery { text: vec!["hello".into()], ..Default::default() };
    assert!(!q.is_empty());
}

#[test]
fn parse_splits_on_unicode_whitespace_and_keeps_text_case() {
    let q = parse("Fix\u{3000}LOGIN\tbug\n-is:Task");
    assert_eq!(q.text, vec!["Fix", "LOGIN", "bug"]);
    assert_eq!(q.exclude, vec![Filter::Is("task".into())]);
    let q = parse("is:a:b");
    assert_eq!(q.included, vec![Filter::Is("a:b".into())]);
}

#[test]
fn it_parses_type_filters_for_artifact_kinds() {
    let q = parse("TYPE:Spec -type:adr hello");
    assert_eq!(q.included, vec![Filter::Type("spec".into())]);
    assert_eq!(q.exclude, vec![Filter::Type("adr".into())]);
    assert_eq!(q.text, vec!["hello"]);
}
