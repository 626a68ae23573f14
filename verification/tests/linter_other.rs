//! End-to-end tests of the Go and Elm rules, of injections, and of the
//! runner's file filter.

use globstar::injection::{Injection, InjectionErr};
use globstar::linter::Linter;
use globstar::range::{Point, Range};
use globstar::resolver::ResolutionMethod;
use globstar::rules::ansible::INJECTIONS;
use globstar::rules::Validator;
use globstar::rx::regex_set_new;
use globstar::ts::{
    bash_language, elm_language, go_language, parse_source, query_new, ruby_language,
    yaml_language,
};

#[test]
fn go_variable_shadowing_trivial() {
    let linter = Linter::new(go_language())
        .validator(Validator::GoVariableShadowing)
        .scopes(globstar::rules::go::SCOPES)
        .comment_str("//");
    if let Err(m) = linter.test(
        r#"
            func main() {
                i := 10
                {
                    i := 19
                 // ^ Shadowing `i`, defined on line 2, col 5
                }
            }
            "#,
    ) {
        panic!("{}", m);
    }
}

#[test]
fn elm_variable_shadowing_trivial() {
    let linter = Linter::new(elm_language())
        .validator(Validator::ElmVariableShadowing)
        .scopes(globstar::rules::elm::SCOPES)
        .comment_str("--");
    if let Err(m) = linter.test(
        r#"
            f = 2 + 1
            g =
                let
                    a = 2
                    f = 2
                 -- ^ Shadowing `f`, defined on line 1, col 1
                in
                    t + f
            "#,
    ) {
        panic!("{}", m);
    }
}

#[test]
fn injection_requires_the_content_capture() {
    let query_without = "(block_mapping_pair key: (_) @key)";
    match Injection::new(query_without, yaml_language(), bash_language()) {
        Err(InjectionErr::MissingCapture) => {},
        _ => panic!("an injection without injection.content must be rejected"),
    }
    let query_with = "(block_mapping_pair value: (_) @injection.content)";
    assert!(Injection::new(query_with, yaml_language(), bash_language()).is_ok());
}

#[test]
fn injection_rejects_a_broken_query() {
    match Injection::new("(this is not a query", yaml_language(), bash_language()) {
        Err(InjectionErr::Query(_)) => {},
        _ => panic!("a query that does not compile must be rejected"),
    }
}

#[test]
fn wants_file_filters_by_ignores_and_extension() {
    let linter = Linter::new(yaml_language()).ignores(&[r"Cargo\.toml", r"roles/.*"]).extension(
        "yml",
    );
    let set = regex_set_new(&linter.ignores).unwrap();
    assert!(linter.wants_file(&set, "/code/a/b.yml"));
    assert!(!linter.wants_file(&set, "/code/a/b.yaml"));
    assert!(!linter.wants_file(&set, "/code/roles/x/b.yml"));
    assert!(!linter.wants_file(&set, "/code/Cargo.toml"));
    assert!(!linter.wants_file(&set, "/code/no_extension"));
    assert!(!linter.wants_file(&set, "/code/.yml"));
}

#[test]
fn injected_tree_ends_at_its_outer_range_length() {
    let src = "- hosts: all\n  tasks:\n    - command: apt-get update\n";
    let injection = Injection::new(INJECTIONS, yaml_language(), bash_language()).ok().unwrap();
    let linter = Linter::new(yaml_language()).injection(injection);
    let tree = parse_source(yaml_language(), src.as_bytes()).unwrap();
    let ctx = linter.build_context(&tree, src.as_bytes()).ok().unwrap();

    let idx = src.find("apt-get update").unwrap();
    let probe = Range {
        start_byte: idx,
        end_byte: idx + "apt-get update".len(),
        start_point: Point { row: 0, column: 0 },
        end_point: Point { row: 0, column: 0 },
    };
    let injected = ctx.injected_tree_by_range(&probe).expect("an injected tree");
    assert_eq!(injected.original_range.start_byte, idx);
    assert_eq!(injected.original_range.end_byte, idx + "apt-get update".len());
    // the inner tree's root ends exactly at the injected range's byte
    // count (it starts at 0 here too, but only because nothing leading
    // was skipped)
    let root = injected.tree.root_node().range();
    assert_eq!(
        root.end_byte,
        injected.original_range.end_byte - injected.original_range.start_byte
    );
}

#[test]
fn scope_resolution_builds_definitions_and_references() {
    let src = b"x = 1\nputs x\n";
    let tree = parse_source(ruby_language(), src).unwrap();
    let query = query_new(ruby_language(), globstar::rules::ruby::SCOPES).ok().unwrap();
    let t = ResolutionMethod::Generic.build_scope(&query, &tree, src);
    // no block opens a nested scope here
    assert_eq!(t.scopes.len(), 1);
    // the assignment defines `x` at the top level
    assert!(t.defs.iter().any(|d| d.name == b"x"));
    // the use of `x` resolves; `puts` has no definition and is dropped
    assert!(!t.refs.is_empty());
    for r in &t.refs {
        assert_eq!(t.defs[r.original_def].name, b"x");
    }
}

#[test]
fn analysis_is_idempotent_on_one_file() {
    // running the same analysis twice yields identical issues
    let fixture = b"puts a == true\n";
    let linter = Linter::new(globstar::ts::ruby_language()).validator(Validator::RubyUselessCmp);
    let first = linter.analyze_to_issues("a.rb", fixture).unwrap();
    let second = linter.analyze_to_issues("a.rb", fixture).unwrap();
    assert_eq!(first.len(), second.len());
    for (a, b) in first.iter().zip(second.iter()) {
        assert_eq!(a.code, b.code);
        assert_eq!(a.message, b.message);
        assert_eq!(a.location.path, b.location.path);
        assert_eq!(a.location.position, b.location.position);
    }
    assert_eq!(first.len(), 1);
    assert_eq!(first[0].message, "This comparison: `a == true`, is useless");
}
