//! Tests of the wire protocol: path stripping, 1-based positions, the
//! result envelope, and the occurrence display form.

use globstar::lint::{Lint, Occurrence};
use globstar::range::{Point, Range};
use globstar::report::{analysis_result_from_issues, issue_from_occurrence, strip_path, Issue,
    Location, Position, Span};

fn at(row: usize, column: usize) -> Range {
    Range {
        start_byte: 0,
        end_byte: 1,
        start_point: Point { row, column },
        end_point: Point { row, column },
    }
}

#[test]
fn strip_path_removes_the_code_root() {
    assert_eq!(strip_path("/code/a/b.rb", "/code"), Some("a/b.rb".to_owned()));
    assert_eq!(strip_path("/code", "/code"), Some("".to_owned()));
    assert_eq!(strip_path("/codex/a", "/code"), None);
    assert_eq!(strip_path("/elsewhere/a", "/code"), None);
    assert_eq!(strip_path("/code/a", "/code/"), Some("a".to_owned()));
}

#[test]
fn positions_are_one_based_on_the_wire() {
    let lint = Lint { name: "x", code: "X-1" };
    // an occurrence at internal line 0, column 0 serializes as line 1, column 1
    let occ = lint.raise(at(0, 0), "m".to_owned());
    let issue = issue_from_occurrence(&occ, "a/b.rb".to_owned());
    assert_eq!(issue.location.path, "a/b.rb");
    assert_eq!(issue.location.position.begin, Position { line: 1, column: 1 });
    assert_eq!(issue.location.position.end, Position { line: 1, column: 1 });
    let occ = lint.raise(at(2, 5), "m".to_owned());
    let issue = issue_from_occurrence(&occ, "p".to_owned());
    assert_eq!(issue.location.position.begin, Position { line: 3, column: 6 });
}

#[test]
fn result_envelope_defaults() {
    let issue = Issue {
        code: "X-1",
        message: "m".to_owned(),
        location: Location {
            path: "p".to_owned(),
            position: Span {
                begin: Position { line: 1, column: 1 },
                end: Position { line: 1, column: 2 },
            },
        },
    };
    let result = analysis_result_from_issues(vec![issue]);
    assert_eq!(result.issues.len(), 1);
    assert!(result.metrics.is_empty());
    assert!(!result.is_passed);
    assert!(result.errors.is_empty());
}

#[test]
fn occurrence_display_form() {
    let lint = Lint { name: "useless-cmp", code: "RB-W1001" };
    let occ = Occurrence {
        lint,
        at: Range {
            start_byte: 5,
            end_byte: 14,
            start_point: Point { row: 1, column: 5 },
            end_point: Point { row: 1, column: 14 },
        },
        message: "This comparison: `a == true`, is useless".to_owned(),
    };
    assert_eq!(
        occ.display_string(),
        "useless-cmp, RB-W1001, This comparison: `a == true`, is useless: (1, 5)..(1, 14)"
    );
}
