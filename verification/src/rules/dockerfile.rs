//! Lint rules for container build files.

use vstd::prelude::*;
use vstd::utf8::encode_utf8;

use crate::context::Context;
use crate::lint::{occurrences_ok, Lint, Occurrence};
use crate::rules::{const_occurrences, framed_occurrences, raise_const, raise_framed, rule_captures};
use crate::ts::{dockerfile_language, language_handle, tree_within};

verus! {

/// The query behind [`empty_label`].
pub const EMPTY_LABEL_QUERY: &'static str = "
        (
            (label_instruction (label_pair key: (_) @key value: (_) @value))
            (#is? @value \"\")
        )
        ";

/// The query behind [`relative_workdir`].
pub const RELATIVE_WORKDIR_QUERY: &'static str = "
        (
            (workdir_instruction (path) @value)
            (#not-match? @value \"^/.*$\")
        )
        ";

/// The query behind [`run_cd`].
pub const RUN_CD_QUERY: &'static str = "
        (
            (run_instruction (shell_command (shell_fragment) @fragment))
            (#match? @fragment \"^cd.*$\")
        )
        ";

/// The query behind [`shell_command_entry_point`].
pub const SHELL_COMMAND_ENTRY_POINT_QUERY: &'static str = "
        [
            (entrypoint_instruction (shell_command))
            (cmd_instruction (shell_command))
        ] @raise
        ";

/// The query behind [`unpinned_tag`].
pub const UNPINNED_TAG_QUERY: &'static str = "
        (
            (from_instruction (image_spec name: (_) @name tag: (image_tag) @imgtag))
            (#eq? @imgtag \":latest\")
        )
        ";

/// What [`empty_label`] returns: one occurrence per `key` capture of its
/// query, in order, framing the label's key.
pub open spec fn empty_label_post(r: Seq<Occurrence>, tree: tree_sitter::Tree, src: Seq<u8>) -> bool {
    framed_occurrences(
        r,
        rule_captures(
            language_handle("dockerfile"@),
            EMPTY_LABEL_QUERY@,
            Some(encode_utf8("key"@)),
            tree,
            src,
        ),
        src,
        "empty-label"@,
        "DO-W1000"@,
        "Found empty label: `"@,
        "`"@,
    )
}

/// A label with an empty value.
pub fn empty_label(tree: &tree_sitter::Tree, ctx: &Context, src: &[u8]) -> (r: Vec<Occurrence>)
    requires
        tree_within(*tree, src@.len() as int),
        ctx.wf(src@.len() as int),
    ensures
        occurrences_ok(r@, src@.len() as int),
        empty_label_post(r@, *tree, src@),
{
    raise_framed(
        dockerfile_language(),
        EMPTY_LABEL_QUERY,
        Lint { name: "empty-label", code: "DO-W1000" },
        Some("key"),
        "Found empty label: `",
        "`",
        tree,
        src,
    )
}

/// What [`relative_workdir`] returns: one occurrence per `value` capture
/// of its query, in order, framing the path.
pub open spec fn relative_workdir_post(
    r: Seq<Occurrence>,
    tree: tree_sitter::Tree,
    src: Seq<u8>,
) -> bool {
    framed_occurrences(
        r,
        rule_captures(
            language_handle("dockerfile"@),
            RELATIVE_WORKDIR_QUERY@,
            Some(encode_utf8("value"@)),
            tree,
            src,
        ),
        src,
        "relative-workdir"@,
        "DO-W1001"@,
        "Found relative path to WORKDIR directive: `"@,
        "`"@,
    )
}

/// A relative path in a `WORKDIR` directive.
pub fn relative_workdir(tree: &tree_sitter::Tree, ctx: &Context, src: &[u8]) -> (r: Vec<Occurrence>)
    requires
        tree_within(*tree, src@.len() as int),
        ctx.wf(src@.len() as int),
    ensures
        occurrences_ok(r@, src@.len() as int),
        relative_workdir_post(r@, *tree, src@),
{
    raise_framed(
        dockerfile_language(),
        RELATIVE_WORKDIR_QUERY,
        Lint { name: "relative-workdir", code: "DO-W1001" },
        Some("value"),
        "Found relative path to WORKDIR directive: `",
        "`",
        tree,
        src,
    )
}

/// What [`run_cd`] returns: one occurrence per `fragment` capture of its
/// query, in order, with the fixed message.
pub open spec fn run_cd_post(r: Seq<Occurrence>, tree: tree_sitter::Tree, src: Seq<u8>) -> bool {
    const_occurrences(
        r,
        rule_captures(
            language_handle("dockerfile"@),
            RUN_CD_QUERY@,
            Some(encode_utf8("fragment"@)),
            tree,
            src,
        ),
        "run-cd"@,
        "DO-W1002"@,
        "Use `WORKDIR` directive instead of `RUN cd`"@,
    )
}

/// A `RUN` instruction that changes directory with `cd`.
pub fn run_cd(tree: &tree_sitter::Tree, ctx: &Context, src: &[u8]) -> (r: Vec<Occurrence>)
    requires
        tree_within(*tree, src@.len() as int),
        ctx.wf(src@.len() as int),
    ensures
        occurrences_ok(r@, src@.len() as int),
        run_cd_post(r@, *tree, src@),
{
    raise_const(
        dockerfile_language(),
        RUN_CD_QUERY,
        Lint { name: "run-cd", code: "DO-W1002" },
        Some("fragment"),
        "Use `WORKDIR` directive instead of `RUN cd`",
        tree,
        src,
    )
}

/// What [`shell_command_entry_point`] returns: one occurrence per
/// `raise` capture of its query, in order, with the fixed message.
pub open spec fn shell_command_entry_point_post(
    r: Seq<Occurrence>,
    tree: tree_sitter::Tree,
    src: Seq<u8>,
) -> bool {
    const_occurrences(
        r,
        rule_captures(
            language_handle("dockerfile"@),
            SHELL_COMMAND_ENTRY_POINT_QUERY@,
            Some(encode_utf8("raise"@)),
            tree,
            src,
        ),
        "shell-command-entry-point"@,
        "DO-W1004"@,
        "Prefer JSON array format instead of shell command"@,
    )
}

/// A shell-form `ENTRYPOINT` or `CMD`, where the JSON array form
/// belongs.
pub fn shell_command_entry_point(tree: &tree_sitter::Tree, ctx: &Context, src: &[u8]) -> (r: Vec<
    Occurrence,
>)
    requires
        tree_within(*tree, src@.len() as int),
        ctx.wf(src@.len() as int),
    ensures
        occurrences_ok(r@, src@.len() as int),
        shell_command_entry_point_post(r@, *tree, src@),
{
    raise_const(
        dockerfile_language(),
        SHELL_COMMAND_ENTRY_POINT_QUERY,
        Lint { name: "shell-command-entry-point", code: "DO-W1004" },
        Some("raise"),
        "Prefer JSON array format instead of shell command",
        tree,
        src,
    )
}

/// What [`unpinned_tag`] returns: one occurrence per `name` capture of
/// its query, in order, framing the image's name.
pub open spec fn unpinned_tag_post(r: Seq<Occurrence>, tree: tree_sitter::Tree, src: Seq<u8>) -> bool {
    framed_occurrences(
        r,
        rule_captures(
            language_handle("dockerfile"@),
            UNPINNED_TAG_QUERY@,
            Some(encode_utf8("name"@)),
            tree,
            src,
        ),
        src,
        "unpinned-tag"@,
        "DO-W1003"@,
        "Consider pinning the version of `"@,
        "` explicitly"@,
    )
}

/// An image pinned only by the `:latest` tag.
pub fn unpinned_tag(tree: &tree_sitter::Tree, ctx: &Context, src: &[u8]) -> (r: Vec<Occurrence>)
    requires
        tree_within(*tree, src@.len() as int),
        ctx.wf(src@.len() as int),
    ensures
        occurrences_ok(r@, src@.len() as int),
        unpinned_tag_post(r@, *tree, src@),
{
    raise_framed(
        dockerfile_language(),
        UNPINNED_TAG_QUERY,
        Lint { name: "unpinned-tag", code: "DO-W1003" },
        Some("name"),
        "Consider pinning the version of `",
        "` explicitly",
        tree,
        src,
    )
}

} // verus!
