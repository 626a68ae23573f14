//! Tests for the annotated-fixture harness: caret-range extraction,
//! annotation extraction, and fixture de-indentation.

use globstar::harness::{extract_annotations, extract_range_annotation, trim_indent};

#[test]
fn test_range_extraction() {
    let line = "  ^^^^^^^^^";
    let range = extract_range_annotation(&line);
    assert!(range.is_some());
    assert_eq!(range.unwrap(), (2, 11))
}

#[test]
fn test_annotation_extractions() {
    let src = trim_indent(
        r#"
            abcde
          # ^^^^^ some text here
        "#,
    );
    let range = extract_annotations(&src, "#");
    assert!(!range.is_empty());
    let (annotation, comment) = range.get(0).unwrap().clone();
    let (range, content) = annotation;
    assert_eq!(range, (2, 7));
    assert_eq!(content, "abcde");
    assert_eq!(comment, "some text here");
}

#[test]
fn test_annotation_extractions_non_trivial() {
    let src = trim_indent(
        r#"
            if abc = 2
             # ^^^^^^^ assignment instead of eq
                puts "hello"
            else
                puts
              # ^^^^ empty `puts`
        "#,
    );
    let annotations = extract_annotations(&src, "#");

    assert!(!annotations.is_empty());

    let (annotation, comment) = annotations.get(0).unwrap().clone();
    let (range, content) = annotation;
    assert_eq!(range, (3, 10));
    assert_eq!(content, "abc = 2");
    assert_eq!(comment, "assignment instead of eq");

    let (annotation, comment) = annotations.get(1).unwrap().clone();
    let (range, content) = annotation;
    assert_eq!(range, (73, 77));
    assert_eq!(content, "puts");
    assert_eq!(comment, "empty `puts`");
}

#[test]
fn trim_indent_consumes_leading_newline_and_dedents() {
    let out = trim_indent("\n    a\n      b\n");
    assert_eq!(out, "a\n  b\n");
}

#[test]
fn trim_indent_on_empty_input() {
    assert_eq!(trim_indent(""), "");
}

#[test]
fn trim_indent_blank_lines_lose_their_spaces() {
    let out = trim_indent("\n    a\n  \n    b\n");
    assert_eq!(out, "a\n\nb\n");
}

#[test]
fn extract_range_annotation_without_carets() {
    assert_eq!(extract_range_annotation("no markers here"), None);
}

#[test]
fn annotation_on_first_line_has_no_target_and_is_ignored() {
    let annotations = extract_annotations("# ^^^ dangling\nabc\n", "#");
    assert_eq!(annotations.len(), 0);
}
