//! Lint rules for Elm sources.

use vstd::prelude::*;
use vstd::utf8::encode_utf8;

use crate::context::Context;
use crate::lint::{occurrences_ok, Lint, Occurrence};
use crate::rules::{rule_captures, shadowing, shadowing_post};
use crate::ts::{elm_language, language_handle, tree_within};

verus! {

/// The scope query the Elm rules use: let expressions open scopes,
/// function declarations define names, identifiers refer to them.
pub const SCOPES: &'static str = "
    (let_in_expr) @local.scope
    (function_declaration_left (lower_case_identifier) @local.definition)
    (value_expr (value_qid) @local.reference)
";

/// The query behind [`variable_shadowing`].
pub const VARIABLE_SHADOWING_QUERY: &'static str = "
            [
                (function_declaration_left (lower_case_identifier))
            ] @def
            ";

/// What [`variable_shadowing`] returns: one occurrence per `def` capture
/// of its query whose text shadows a definition in an enclosing scope,
/// in order, naming the shadowed definition's position.
pub open spec fn variable_shadowing_post(
    r: Seq<Occurrence>,
    tree: tree_sitter::Tree,
    ctx: Context,
    src: Seq<u8>,
) -> bool {
    shadowing_post(
        r,
        rule_captures(
            language_handle("elm"@),
            VARIABLE_SHADOWING_QUERY@,
            Some(encode_utf8("def"@)),
            tree,
            src,
        ),
        ctx,
        src,
        "variable shadowing"@,
        "ELM-W1000"@,
    )
}

/// A declaration that shadows a definition of the same name in an
/// enclosing scope.
pub fn variable_shadowing(tree: &tree_sitter::Tree, ctx: &Context, src: &[u8]) -> (r: Vec<
    Occurrence,
>)
    requires
        tree_within(*tree, src@.len() as int),
        ctx.wf(src@.len() as int),
    ensures
        occurrences_ok(r@, src@.len() as int),
        variable_shadowing_post(r@, *tree, *ctx, src@),
{
    shadowing(
        elm_language(),
        VARIABLE_SHADOWING_QUERY,
        Lint { name: "variable shadowing", code: "ELM-W1000" },
        tree,
        ctx,
        src,
    )
}

} // verus!
