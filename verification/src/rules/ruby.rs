//! Lint rules for Ruby sources.

use vstd::prelude::*;
use vstd::utf8::encode_utf8;

use crate::context::Context;
use crate::lint::{occurrences_ok, Lint, Occurrence};
use crate::rules::{
    const_occurrences, framed_occurrences, raise_const, raise_framed, rule_captures, shadowing,
    shadowing_post,
};
use crate::ts::{language_handle, ruby_language, tree_within};

verus! {

/// The scope query the Ruby rules use: blocks open scopes, assignments
/// and block parameters define names, identifiers refer to them.
pub const SCOPES: &'static str = "
    [(block) (do_block)] @local.scope
    (assignment left: (identifier) @local.definition)
    (block_parameters (identifier) @local.definition)
    (identifier) @local.reference
";

/// The query behind [`assignment_in_condition`].
pub const ASSIGNMENT_IN_CONDITION_QUERY: &'static str = "
        (if
         (assignment
          left: (_)
          right: (_)) @raise)";

/// The query behind [`useless_cmp`].
pub const USELESS_CMP_QUERY: &'static str = "
        [
            (binary
             left: [(true)(false)]
             right: (_))
            (binary
             left: (_)
             right: [(true)(false)])
        ] @raise
        ";

/// The query behind [`sussign`].
pub const SUSSIGN_QUERY: &'static str = "
        (
            (assignment left: (_) @lhs right: (_) @rhs) @raise
            (#eq? @lhs @rhs)
        )
        ";

/// The query behind [`empty_to_json`].
pub const EMPTY_TO_JSON_QUERY: &'static str = "
        (
            (method
             name: (identifier) @n
             !parameters
             )
            (#is? @n \"to_json\")
        )
        ";

/// The query behind [`variable_shadowing`].
pub const VARIABLE_SHADOWING_QUERY: &'static str = "
        (block_parameters (identifier) @def)
        ";

/// What [`assignment_in_condition`] returns: one occurrence per `raise`
/// capture of its query, in order, framing the assignment's text.
pub open spec fn assignment_in_condition_post(
    r: Seq<Occurrence>,
    tree: tree_sitter::Tree,
    src: Seq<u8>,
) -> bool {
    framed_occurrences(
        r,
        rule_captures(
            language_handle("ruby"@),
            ASSIGNMENT_IN_CONDITION_QUERY@,
            Some(encode_utf8("raise"@)),
            tree,
            src,
        ),
        src,
        "assign-instead-of-eq"@,
        "RB-W1000"@,
        "Perhaps this assignment `"@,
        "` is supposed to be a comparison"@,
    )
}

/// An assignment in the condition of an `if`: probably a comparison was
/// meant.
pub fn assignment_in_condition(tree: &tree_sitter::Tree, ctx: &Context, src: &[u8]) -> (r: Vec<
    Occurrence,
>)
    requires
        tree_within(*tree, src@.len() as int),
        ctx.wf(src@.len() as int),
    ensures
        occurrences_ok(r@, src@.len() as int),
        assignment_in_condition_post(r@, *tree, src@),
{
    raise_framed(
        ruby_language(),
        ASSIGNMENT_IN_CONDITION_QUERY,
        Lint { name: "assign-instead-of-eq", code: "RB-W1000" },
        Some("raise"),
        "Perhaps this assignment `",
        "` is supposed to be a comparison",
        tree,
        src,
    )
}

/// What [`useless_cmp`] returns: one occurrence per `raise` capture of
/// its query, in order, framing the comparison's text.
pub open spec fn useless_cmp_post(r: Seq<Occurrence>, tree: tree_sitter::Tree, src: Seq<u8>) -> bool {
    framed_occurrences(
        r,
        rule_captures(
            language_handle("ruby"@),
            USELESS_CMP_QUERY@,
            Some(encode_utf8("raise"@)),
            tree,
            src,
        ),
        src,
        "useless-cmp"@,
        "RB-W1001"@,
        "This comparison: `"@,
        "`, is useless"@,
    )
}

/// A comparison whose left or right side is a boolean literal: the
/// comparison says nothing the operand does not.
pub fn useless_cmp(tree: &tree_sitter::Tree, ctx: &Context, src: &[u8]) -> (r: Vec<Occurrence>)
    requires
        tree_within(*tree, src@.len() as int),
        ctx.wf(src@.len() as int),
    ensures
        occurrences_ok(r@, src@.len() as int),
        useless_cmp_post(r@, *tree, src@),
{
    raise_framed(
        ruby_language(),
        USELESS_CMP_QUERY,
        Lint { name: "useless-cmp", code: "RB-W1001" },
        Some("raise"),
        "This comparison: `",
        "`, is useless",
        tree,
        src,
    )
}

/// What [`sussign`] returns: one occurrence per `raise` capture of its
/// query, in order, framing the assignment's text.
pub open spec fn sussign_post(r: Seq<Occurrence>, tree: tree_sitter::Tree, src: Seq<u8>) -> bool {
    framed_occurrences(
        r,
        rule_captures(
            language_handle("ruby"@),
            SUSSIGN_QUERY@,
            Some(encode_utf8("raise"@)),
            tree,
            src,
        ),
        src,
        "sussign"@,
        "RB-W1002"@,
        "This assignment: `"@,
        "`, is suspicious"@,
    )
}

/// An assignment whose two sides are the same expression.
pub fn sussign(tree: &tree_sitter::Tree, ctx: &Context, src: &[u8]) -> (r: Vec<Occurrence>)
    requires
        tree_within(*tree, src@.len() as int),
        ctx.wf(src@.len() as int),
    ensures
        occurrences_ok(r@, src@.len() as int),
        sussign_post(r@, *tree, src@),
{
    raise_framed(
        ruby_language(),
        SUSSIGN_QUERY,
        Lint { name: "sussign", code: "RB-W1002" },
        Some("raise"),
        "This assignment: `",
        "`, is suspicious",
        tree,
        src,
    )
}

/// What [`empty_to_json`] returns: one occurrence per `n` capture of its
/// query, in order, with the fixed message.
pub open spec fn empty_to_json_post(r: Seq<Occurrence>, tree: tree_sitter::Tree, src: Seq<u8>) -> bool {
    const_occurrences(
        r,
        rule_captures(
            language_handle("ruby"@),
            EMPTY_TO_JSON_QUERY@,
            Some(encode_utf8("n"@)),
            tree,
            src,
        ),
        "empty-to-json"@,
        "RB-W1003"@,
        "This `to_json` method does not accept any parameters"@,
    )
}

/// A method named `to_json` declared without parameters.
pub fn empty_to_json(tree: &tree_sitter::Tree, ctx: &Context, src: &[u8]) -> (r: Vec<Occurrence>)
    requires
        tree_within(*tree, src@.len() as int),
        ctx.wf(src@.len() as int),
    ensures
        occurrences_ok(r@, src@.len() as int),
        empty_to_json_post(r@, *tree, src@),
{
    raise_const(
        ruby_language(),
        EMPTY_TO_JSON_QUERY,
        Lint { name: "empty-to-json", code: "RB-W1003" },
        Some("n"),
        "This `to_json` method does not accept any parameters",
        tree,
        src,
    )
}

/// What [`variable_shadowing`] returns: one occurrence per `def` capture
/// of its query whose text shadows a definition in an enclosing scope,
/// in order, naming the shadowed definition's position.
pub open spec fn variable_shadowing_post(
    r: Seq<Occurrence>,
    tree: tree_sitter::Tree,
    ctx: Context,
    src: Seq<u8>,
) -> bool {
    shadowing_post(
        r,
        rule_captures(
            language_handle("ruby"@),
            VARIABLE_SHADOWING_QUERY@,
            Some(encode_utf8("def"@)),
            tree,
            src,
        ),
        ctx,
        src,
        "variable-shadowing"@,
        "RB-W1004"@,
    )
}

/// A block parameter that shadows a definition of the same name in an
/// enclosing scope.
pub fn variable_shadowing(tree: &tree_sitter::Tree, ctx: &Context, src: &[u8]) -> (r: Vec<
    Occurrence,
>)
    requires
        tree_within(*tree, src@.len() as int),
        ctx.wf(src@.len() as int),
    ensures
        occurrences_ok(r@, src@.len() as int),
        variable_shadowing_post(r@, *tree, *ctx, src@),
{
    shadowing(
        ruby_language(),
        VARIABLE_SHADOWING_QUERY,
        Lint { name: "variable-shadowing", code: "RB-W1004" },
        tree,
        ctx,
        src,
    )
}

} // verus!
