//! End-to-end tests of the Ruby rules over annotated fixtures.

use globstar::linter::Linter;
use globstar::rules::ruby::SCOPES;
use globstar::rules::Validator;
use globstar::ts::ruby_language;

fn check(validator: Validator, fixture: &str) {
    let linter = Linter::new(ruby_language()).validator(validator).comment_str("#");
    if let Err(m) = linter.test(fixture) {
        panic!("{}", m);
    }
}

#[test]
fn assignment_in_condition_trivial() {
    check(
        Validator::RubyAssignmentInCondition,
        r#"
                if a = 2
                 # ^^^^^ Perhaps this assignment `a = 2` is supposed to be a comparison
                  puts "no"
                else
                  puts "hi"
                end
            "#,
    )
}

#[test]
fn useless_cmp_trivial() {
    check(
        Validator::RubyUselessCmp,
        r#"
                puts a == true
                   # ^^^^^^^^^ This comparison: `a == true`, is useless
            "#,
    )
}

#[test]
fn all() {
    check(
        Validator::RubyUselessCmp,
        r#"
                puts a == false
                   # ^^^^^^^^^^ This comparison: `a == false`, is useless
                puts true == a
                   # ^^^^^^^^^ This comparison: `true == a`, is useless
                puts false == a
                   # ^^^^^^^^^^ This comparison: `false == a`, is useless
            "#,
    )
}

#[test]
fn negation() {
    check(
        Validator::RubyUselessCmp,
        r#"
                puts a != false
                   # ^^^^^^^^^^ This comparison: `a != false`, is useless
                puts true != a
                   # ^^^^^^^^^ This comparison: `true != a`, is useless
                puts false != a
                   # ^^^^^^^^^^ This comparison: `false != a`, is useless
            "#,
    )
}

#[test]
fn sussign_trivial() {
    check(
        Validator::RubySussign,
        r#"
            a = a
          # ^^^^^ This assignment: `a = a`, is suspicious
            "#,
    )
}

#[test]
fn empty_to_json_trivial() {
    check(
        Validator::RubyEmptyToJson,
        r#"
            def to_json
              # ^^^^^^^ This `to_json` method does not accept any parameters
                # some stuff here
            end
            "#,
    )
}

#[test]
fn ruby_variable_shadowing_trivial() {
    let linter = Linter::new(ruby_language())
        .validator(Validator::RubyVariableShadowing)
        .scopes(SCOPES)
        .comment_str("#");
    if let Err(m) = linter.test(
        r#"
            x = 42
            5.times{|x| puts x}
                   # ^ Shadowing `x`, defined on line 1, col 1
            "#,
    ) {
        panic!("{}", m);
    }
}

#[test]
fn fixture_with_unmatched_annotation_is_rejected() {
    let linter = Linter::new(ruby_language())
        .validator(Validator::RubyUselessCmp)
        .comment_str("#");
    // the annotation expects an occurrence the rule never raises
    let verdict = linter.test(
        r#"
            puts a
               # ^ This comparison: `a`, is useless
            "#,
    );
    assert!(verdict.is_err());
}

#[test]
fn no_false_positive_on_plain_calls() {
    // a rule that flags nothing on a fixture without its antipattern
    check(
        Validator::RubyUselessCmp,
        r#"
            let_result = some_option.unwrap_or(42)
            "#,
    )
}
