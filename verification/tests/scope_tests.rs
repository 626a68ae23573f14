//! Tests of the scope tree: containment, innermost lookup, and
//! innermost-first reference resolution on concrete trees.

use globstar::range::{Point, Range};
use globstar::scope::ScopeTree;

fn r(start: usize, end: usize) -> Range {
    Range {
        start_byte: start,
        end_byte: end,
        start_point: Point { row: 0, column: start },
        end_point: Point { row: 0, column: end },
    }
}

#[test]
fn scope_containment_holds_after_inserts() {
    let mut t = ScopeTree::new(&r(0, 100));
    assert!(t.insert_scope(&r(10, 50)));
    assert!(t.insert_scope(&r(20, 30)));
    assert!(t.insert_def(b"x", &r(12, 13), None));
    assert!(t.insert_def(b"y", &r(21, 22), None));
    // every child scope's range lies within its parent's
    for (i, s) in t.scopes.iter().enumerate() {
        for &c in &s.child_scopes {
            assert!(s.range.start_byte <= t.scopes[c].range.start_byte);
            assert!(t.scopes[c].range.end_byte <= s.range.end_byte);
            assert_eq!(t.scopes[c].parent_scope, Some(i));
        }
        for &d in &s.local_defs {
            assert!(s.range.start_byte <= t.defs[d].def_range.start_byte);
            assert!(t.defs[d].def_range.end_byte <= s.range.end_byte);
        }
    }
}

#[test]
fn insert_outside_root_fails() {
    let mut t = ScopeTree::new(&r(10, 100));
    assert!(!t.insert_scope(&r(0, 5)));
    assert!(!t.insert_def(b"x", &r(0, 5), None));
    assert!(!t.insert_ref(b"x", &r(0, 5)));
    assert_eq!(t.scopes.len(), 1);
    assert_eq!(t.defs.len(), 0);
    assert_eq!(t.refs.len(), 0);
}

#[test]
fn scope_by_range_returns_innermost() {
    let mut t = ScopeTree::new(&r(0, 100));
    assert!(t.insert_scope(&r(10, 50)));
    assert!(t.insert_scope(&r(20, 30)));
    // [20,30) is nested within [10,50): the lookup must find the deepest
    let s = t.scope_by_range(&r(22, 25)).unwrap();
    assert_eq!(t.scopes[s].range.start_byte, 20);
    assert_eq!(t.scopes[s].range.end_byte, 30);
    // a range only the middle scope contains
    let s = t.scope_by_range(&r(12, 40)).unwrap();
    assert_eq!(t.scopes[s].range.start_byte, 10);
    // a range only the root contains
    let s = t.scope_by_range(&r(5, 60)).unwrap();
    assert_eq!(t.scopes[s].range.start_byte, 0);
    assert_eq!(t.scopes[s].range.end_byte, 100);
    // a range no scope contains
    assert_eq!(t.scope_by_range(&r(90, 200)), None);
}

#[test]
fn reference_binds_to_innermost_definition() {
    let mut t = ScopeTree::new(&r(0, 100));
    assert!(t.insert_def(b"f", &r(1, 2), None)); // outer `f`
    assert!(t.insert_scope(&r(10, 50)));
    assert!(t.insert_def(b"f", &r(12, 13), None)); // inner `f`, shadows
    // a use inside the inner scope binds to the inner definition
    assert!(t.insert_ref(b"f", &r(20, 21)));
    let bound = t.refs.last().unwrap().original_def;
    assert_eq!(t.defs[bound].def_range.start_byte, 12);
    // a use outside the inner scope binds to the outer definition
    assert!(t.insert_ref(b"f", &r(60, 61)));
    let bound = t.refs.last().unwrap().original_def;
    assert_eq!(t.defs[bound].def_range.start_byte, 1);
}

#[test]
fn unresolved_reference_is_dropped() {
    let mut t = ScopeTree::new(&r(0, 100));
    assert!(t.insert_def(b"x", &r(1, 2), None));
    assert!(!t.insert_ref(b"y", &r(10, 11)));
    assert_eq!(t.refs.len(), 0);
    assert_eq!(t.defs[0].references.len(), 0);
}

#[test]
fn references_accumulate_on_their_definition() {
    let mut t = ScopeTree::new(&r(0, 100));
    assert!(t.insert_def(b"x", &r(1, 2), None));
    assert!(t.insert_ref(b"x", &r(10, 11)));
    assert!(t.insert_ref(b"x", &r(20, 21)));
    assert_eq!(t.refs.len(), 2);
    assert_eq!(t.defs[0].references, vec![0, 1]);
    assert_eq!(t.refs[0].original_def, 0);
    assert_eq!(t.refs[1].original_def, 0);
}

#[test]
fn scope_stack_walks_to_root() {
    let mut t = ScopeTree::new(&r(0, 100));
    assert!(t.insert_scope(&r(10, 50)));
    assert!(t.insert_scope(&r(20, 30)));
    let s = t.scope_by_range(&r(22, 23)).unwrap();
    let stack = t.scope_stack(s);
    assert_eq!(stack.len(), 3);
    assert_eq!(t.scopes[stack[0]].range.start_byte, 20);
    assert_eq!(t.scopes[stack[1]].range.start_byte, 10);
    assert_eq!(stack[2], 0);
}

#[test]
fn ambiguous_names_bind_to_the_first_definition_in_scope() {
    let mut t = ScopeTree::new(&r(0, 100));
    assert!(t.insert_def(b"x", &r(1, 2), None));
    assert!(t.insert_def(b"x", &r(5, 6), None));
    assert!(t.insert_ref(b"x", &r(10, 11)));
    let bound = t.refs[0].original_def;
    assert_eq!(t.defs[bound].def_range.start_byte, 1);
}

#[test]
fn definition_with_value_range_keeps_it() {
    let mut t = ScopeTree::new(&r(0, 100));
    assert!(t.insert_def(b"x", &r(1, 2), Some(&r(5, 9))));
    assert_eq!(t.defs[0].value_range, Some(r(5, 9)));
    assert_eq!(t.defs[0].is_mutable, false);
}
