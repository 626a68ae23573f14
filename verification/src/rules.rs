//! The built-in lint rules, by language, and the machinery they share.
//!
//! Each rule is a function of the file's syntax tree, the per-file
//! [`Context`] and the source bytes; the [`Validator`] enum names every
//! rule so a [`crate::linter::Linter`] can hold an ordered list of them.

use vstd::prelude::*;
use vstd::utf8::{encode_utf8, valid_utf8};

use crate::context::Context;
use crate::lint::{occurrences_ok, Lint, Occurrence};
use crate::resolver::{find_name_index, first_name_index};
use crate::text::{framed_bytes, framed_string};
use crate::ts::{
    compiled_query, matches_of, query_capture_names, query_compiles, query_matches, query_new,
    selected_captures, tree_within, RawCapture, RawMatch,
};

pub mod ansible;
pub mod dockerfile;
pub mod elm;
pub mod go;
pub mod ruby;

verus! {

/// Every built-in rule, by language and antipattern.
#[derive(Clone, Copy, Debug, PartialEq, Eq, Structural)]
pub enum Validator {
    /// An assignment used where a comparison is expected.
    RubyAssignmentInCondition,
    /// A comparison against a boolean literal.
    RubyUselessCmp,
    /// An assignment of a variable to itself.
    RubySussign,
    /// A `to_json` method that takes no parameters.
    RubyEmptyToJson,
    /// A block parameter shadowing an outer definition.
    RubyVariableShadowing,
    /// A mapping key repeated within one scope.
    AnsibleVariableShadowing,
    /// `become_user` without `become` in the same scope.
    AnsiblePartialBecome,
    /// The deprecated `local_action` key.
    AnsibleDeprecatedLocalAction,
    /// A git or mercurial checkout without an explicit version.
    AnsibleVcsLatest,
    /// A `when:` comparison against a boolean literal.
    AnsibleLiteralCompare,
    /// A shell command that a module replaces.
    AnsibleCommandInsteadOfModule,
    /// A label with an empty value.
    DockerfileEmptyLabel,
    /// A relative path in a `WORKDIR` directive.
    DockerfileRelativeWorkdir,
    /// `RUN cd` where `WORKDIR` belongs.
    DockerfileRunCd,
    /// A shell-form `ENTRYPOINT` or `CMD`.
    DockerfileShellCommandEntryPoint,
    /// An image tagged `:latest`.
    DockerfileUnpinnedTag,
    /// A short variable declaration shadowing an outer definition.
    GoVariableShadowing,
    /// A function declaration shadowing an outer definition.
    ElmVariableShadowing,
}

/// What one run of a rule returns, by rule: the rule's own statement of
/// its result over the named query streams.
pub open spec fn run_post(
    v: Validator,
    r: Seq<Occurrence>,
    tree: tree_sitter::Tree,
    ctx: Context,
    src: Seq<u8>,
) -> bool {
    match v {
        Validator::RubyAssignmentInCondition => ruby::assignment_in_condition_post(r, tree, src),
        Validator::RubyUselessCmp => ruby::useless_cmp_post(r, tree, src),
        Validator::RubySussign => ruby::sussign_post(r, tree, src),
        Validator::RubyEmptyToJson => ruby::empty_to_json_post(r, tree, src),
        Validator::RubyVariableShadowing => ruby::variable_shadowing_post(r, tree, ctx, src),
        Validator::AnsibleVariableShadowing => ansible::variable_shadowing_post(r, tree, ctx, src),
        Validator::AnsiblePartialBecome => ansible::partial_become_post(r, tree, ctx, src),
        Validator::AnsibleDeprecatedLocalAction => ansible::deprecated_local_action_post(
            r,
            tree,
            src,
        ),
        Validator::AnsibleVcsLatest => ansible::vcs_latest_post(r, tree, src),
        Validator::AnsibleLiteralCompare => ansible::literal_compare_post(r, tree, src),
        Validator::AnsibleCommandInsteadOfModule => ansible::command_instead_of_module_post(
            r,
            tree,
            ctx,
            src,
        ),
        Validator::DockerfileEmptyLabel => dockerfile::empty_label_post(r, tree, src),
        Validator::DockerfileRelativeWorkdir => dockerfile::relative_workdir_post(r, tree, src),
        Validator::DockerfileRunCd => dockerfile::run_cd_post(r, tree, src),
        Validator::DockerfileShellCommandEntryPoint => dockerfile::shell_command_entry_point_post(
            r,
            tree,
            src,
        ),
        Validator::DockerfileUnpinnedTag => dockerfile::unpinned_tag_post(r, tree, src),
        Validator::GoVariableShadowing => go::variable_shadowing_post(r, tree, ctx, src),
        Validator::ElmVariableShadowing => elm::variable_shadowing_post(r, tree, ctx, src),
    }
}

impl Validator {
    /// Run this rule over one file.
    pub fn run(&self, tree: &tree_sitter::Tree, ctx: &Context, src: &[u8]) -> (r: Vec<Occurrence>)
        requires
            crate::ts::tree_within(*tree, src@.len() as int),
            ctx.wf(src@.len() as int),
        ensures
            occurrences_ok(r@, src@.len() as int),
            run_post(*self, r@, *tree, *ctx, src@),
    {
        match self {
            Validator::RubyAssignmentInCondition => ruby::assignment_in_condition(tree, ctx, src),
            Validator::RubyUselessCmp => ruby::useless_cmp(tree, ctx, src),
            Validator::RubySussign => ruby::sussign(tree, ctx, src),
            Validator::RubyEmptyToJson => ruby::empty_to_json(tree, ctx, src),
            Validator::RubyVariableShadowing => ruby::variable_shadowing(tree, ctx, src),
            Validator::AnsibleVariableShadowing => ansible::variable_shadowing(tree, ctx, src),
            Validator::AnsiblePartialBecome => ansible::partial_become(tree, ctx, src),
            Validator::AnsibleDeprecatedLocalAction => ansible::deprecated_local_action(
                tree,
                ctx,
                src,
            ),
            Validator::AnsibleVcsLatest => ansible::vcs_latest(tree, ctx, src),
            Validator::AnsibleLiteralCompare => ansible::literal_compare(tree, ctx, src),
            Validator::AnsibleCommandInsteadOfModule => ansible::command_instead_of_module(
                tree,
                ctx,
                src,
            ),
            Validator::DockerfileEmptyLabel => dockerfile::empty_label(tree, ctx, src),
            Validator::DockerfileRelativeWorkdir => dockerfile::relative_workdir(tree, ctx, src),
            Validator::DockerfileRunCd => dockerfile::run_cd(tree, ctx, src),
            Validator::DockerfileShellCommandEntryPoint => dockerfile::shell_command_entry_point(
                tree,
                ctx,
                src,
            ),
            Validator::DockerfileUnpinnedTag => dockerfile::unpinned_tag(tree, ctx, src),
            Validator::GoVariableShadowing => go::variable_shadowing(tree, ctx, src),
            Validator::ElmVariableShadowing => elm::variable_shadowing(tree, ctx, src),
        }
    }
}

/// The occurrence list `r` decomposes, in order, into one segment per
/// validator of `vs`, each segment being what that validator's run
/// returns.
pub open spec fn analyze_matches(
    vs: Seq<Validator>,
    r: Seq<Occurrence>,
    tree: tree_sitter::Tree,
    ctx: Context,
    src: Seq<u8>,
) -> bool
    decreases vs.len(),
{
    if vs.len() == 0 {
        r.len() == 0
    } else {
        exists|n: int|
            #![auto]
            0 <= n <= r.len() && run_post(vs[0], r.subrange(0, n), tree, ctx, src)
                && analyze_matches(vs.drop_first(), r.subrange(n, r.len() as int), tree, ctx, src)
    }
}

/// Appending one validator's segment extends a decomposition.
pub proof fn lemma_analyze_matches_snoc(
    vs: Seq<Validator>,
    r: Seq<Occurrence>,
    v: Validator,
    seg: Seq<Occurrence>,
    tree: tree_sitter::Tree,
    ctx: Context,
    src: Seq<u8>,
)
    requires
        analyze_matches(vs, r, tree, ctx, src),
        run_post(v, seg, tree, ctx, src),
    ensures
        analyze_matches(vs.push(v), r + seg, tree, ctx, src),
    decreases vs.len(),
{
    let whole = r + seg;
    if vs.len() == 0 {
        assert(r.len() == 0);
        assert(vs.push(v)[0] == v);
        assert(vs.push(v).drop_first() =~= Seq::<Validator>::empty());
        assert(whole.subrange(0, seg.len() as int) =~= seg);
        assert(whole.subrange(seg.len() as int, whole.len() as int) =~= Seq::<Occurrence>::empty());
        assert(run_post(vs.push(v)[0], whole.subrange(0, seg.len() as int), tree, ctx, src));
        assert(analyze_matches(
            vs.push(v).drop_first(),
            whole.subrange(seg.len() as int, whole.len() as int),
            tree,
            ctx,
            src,
        ));
    } else {
        let n0 = choose|n: int|
            #![auto]
            0 <= n <= r.len() && run_post(vs[0], r.subrange(0, n), tree, ctx, src)
                && analyze_matches(vs.drop_first(), r.subrange(n, r.len() as int), tree, ctx, src);
        lemma_analyze_matches_snoc(
            vs.drop_first(),
            r.subrange(n0, r.len() as int),
            v,
            seg,
            tree,
            ctx,
            src,
        );
        assert(vs.push(v)[0] == vs[0]);
        assert(vs.push(v).drop_first() =~= vs.drop_first().push(v));
        assert(whole.subrange(0, n0) =~= r.subrange(0, n0));
        assert(whole.subrange(n0, whole.len() as int) =~= r.subrange(n0, r.len() as int) + seg);
        assert(run_post(vs.push(v)[0], whole.subrange(0, n0), tree, ctx, src));
        assert(analyze_matches(
            vs.push(v).drop_first(),
            whole.subrange(n0, whole.len() as int),
            tree,
            ctx,
            src,
        ));
    }
}

/// Law: a fixed-message rule is deterministic. Any two occurrence lists
/// meeting its description agree in length and, pointwise, in range,
/// lint and message — so running such a rule twice over one file yields
/// identical results.
pub proof fn lemma_const_occurrences_deterministic(
    r1: Seq<Occurrence>,
    r2: Seq<Occurrence>,
    caps: Seq<RawCapture>,
    lname: Seq<char>,
    lcode: Seq<char>,
    message: Seq<char>,
)
    requires
        const_occurrences(r1, caps, lname, lcode, message),
        const_occurrences(r2, caps, lname, lcode, message),
    ensures
        r1.len() == r2.len(),
        forall|k: int|
            0 <= k < r1.len() ==> {
                &&& (#[trigger] r1[k]).at == r2[k].at
                &&& r1[k].lint.name@ == r2[k].lint.name@
                &&& r1[k].lint.code@ == r2[k].lint.code@
                &&& r1[k].message@ == r2[k].message@
            },
{
}

/// Law: a framing rule is deterministic. Any two occurrence lists
/// meeting its description agree in length and, pointwise, in range,
/// lint and message bytes — so running such a rule twice over one file
/// yields identical results.
pub proof fn lemma_framed_occurrences_deterministic(
    r1: Seq<Occurrence>,
    r2: Seq<Occurrence>,
    caps: Seq<RawCapture>,
    src: Seq<u8>,
    lname: Seq<char>,
    lcode: Seq<char>,
    prefix: Seq<char>,
    suffix: Seq<char>,
)
    requires
        framed_occurrences(r1, caps, src, lname, lcode, prefix, suffix),
        framed_occurrences(r2, caps, src, lname, lcode, prefix, suffix),
    ensures
        r1.len() == r2.len(),
        forall|k: int|
            0 <= k < r1.len() ==> {
                &&& (#[trigger] r1[k]).at == r2[k].at
                &&& r1[k].lint.name@ == r2[k].lint.name@
                &&& r1[k].lint.code@ == r2[k].lint.code@
                &&& encode_utf8(r1[k].message@) == encode_utf8(r2[k].message@)
            },
{
    assert forall|k: int| 0 <= k < r1.len() implies {
        &&& (#[trigger] r1[k]).at == r2[k].at
        &&& r1[k].lint.name@ == r2[k].lint.name@
        &&& r1[k].lint.code@ == r2[k].lint.code@
        &&& encode_utf8(r1[k].message@) == encode_utf8(r2[k].message@)
    } by {
        assert(caps[k] == caps[k]);
        let framed = framed_bytes(
            prefix,
            src.subrange(caps[k].range.start_byte as int, caps[k].range.end_byte as int),
            suffix,
        );
        if !valid_utf8(framed) {
            assert(r1[k].message@ == Seq::<char>::empty());
            assert(r2[k].message@ == Seq::<char>::empty());
        }
    }
}

/// Two occurrence lists agree observably: same length and, pointwise,
/// same range, same lint, and messages with the same bytes.
pub open spec fn occs_similar(r1: Seq<Occurrence>, r2: Seq<Occurrence>) -> bool {
    &&& r1.len() == r2.len()
    &&& forall|k: int|
        0 <= k < r1.len() ==> {
            &&& (#[trigger] r1[k]).at == r2[k].at
            &&& r1[k].lint.name@ == r2[k].lint.name@
            &&& r1[k].lint.code@ == r2[k].lint.code@
            &&& encode_utf8(r1[k].message@) == encode_utf8(r2[k].message@)
        }
}

/// Law: a shadowing rule is deterministic. Any two occurrence lists
/// meeting its description agree observably.
pub proof fn lemma_shadowing_post_deterministic(
    r1: Seq<Occurrence>,
    r2: Seq<Occurrence>,
    caps: Seq<RawCapture>,
    ctx: Context,
    src: Seq<u8>,
    lname: Seq<char>,
    lcode: Seq<char>,
)
    requires
        shadowing_post(r1, caps, ctx, src, lname, lcode),
        shadowing_post(r2, caps, ctx, src, lname, lcode),
    ensures
        occs_similar(r1, r2),
{
    let plan = shadow_plan(ctx, caps, src);
    assert forall|k: int| 0 <= k < r1.len() implies {
        &&& (#[trigger] r1[k]).at == r2[k].at
        &&& r1[k].lint.name@ == r2[k].lint.name@
        &&& r1[k].lint.code@ == r2[k].lint.code@
        &&& encode_utf8(r1[k].message@) == encode_utf8(r2[k].message@)
    } by {
        assert(plan[k] == plan[k]);
        let msg = shadowing_message(
            crate::resolver::capture_text(src, plan[k].0),
            (plan[k].1.start_point.row + 1) as nat,
            (plan[k].1.start_point.column + 1) as nat,
        );
        if !valid_utf8(msg) {
            assert(r1[k].message@ == Seq::<char>::empty());
            assert(r2[k].message@ == Seq::<char>::empty());
        }
    }
}

/// Law: every rule is deterministic — any two occurrence lists meeting
/// one rule's description agree observably. Dispatches on the rule.
pub proof fn lemma_run_post_unique(
    v: Validator,
    r1: Seq<Occurrence>,
    r2: Seq<Occurrence>,
    tree: tree_sitter::Tree,
    ctx: Context,
    src: Seq<u8>,
)
    requires
        run_post(v, r1, tree, ctx, src),
        run_post(v, r2, tree, ctx, src),
    ensures
        occs_similar(r1, r2),
{
    match v {
        Validator::RubyAssignmentInCondition => {
            lemma_framed_occurrences_deterministic(
                r1,
                r2,
                rule_captures(
                    crate::ts::language_handle("ruby"@),
                    ruby::ASSIGNMENT_IN_CONDITION_QUERY@,
                    Some(encode_utf8("raise"@)),
                    tree,
                    src,
                ),
                src,
                "assign-instead-of-eq"@,
                "RB-W1000"@,
                "Perhaps this assignment `"@,
                "` is supposed to be a comparison"@,
            );
        },
        Validator::RubyUselessCmp => {
            lemma_framed_occurrences_deterministic(
                r1,
                r2,
                rule_captures(
                    crate::ts::language_handle("ruby"@),
                    ruby::USELESS_CMP_QUERY@,
                    Some(encode_utf8("raise"@)),
                    tree,
                    src,
                ),
                src,
                "useless-cmp"@,
                "RB-W1001"@,
                "This comparison: `"@,
                "`, is useless"@,
            );
        },
        Validator::RubySussign => {
            lemma_framed_occurrences_deterministic(
                r1,
                r2,
                rule_captures(
                    crate::ts::language_handle("ruby"@),
                    ruby::SUSSIGN_QUERY@,
                    Some(encode_utf8("raise"@)),
                    tree,
                    src,
                ),
                src,
                "sussign"@,
                "RB-W1002"@,
                "This assignment: `"@,
                "`, is suspicious"@,
            );
        },
        Validator::RubyEmptyToJson => {
            lemma_const_occurrences_deterministic(
                r1,
                r2,
                rule_captures(
                    crate::ts::language_handle("ruby"@),
                    ruby::EMPTY_TO_JSON_QUERY@,
                    Some(encode_utf8("n"@)),
                    tree,
                    src,
                ),
                "empty-to-json"@,
                "RB-W1003"@,
                "This `to_json` method does not accept any parameters"@,
            );
        },
        Validator::RubyVariableShadowing => {
            lemma_shadowing_post_deterministic(
                r1,
                r2,
                rule_captures(
                    crate::ts::language_handle("ruby"@),
                    ruby::VARIABLE_SHADOWING_QUERY@,
                    Some(encode_utf8("def"@)),
                    tree,
                    src,
                ),
                ctx,
                src,
                "variable-shadowing"@,
                "RB-W1004"@,
            );
        },
        Validator::AnsibleVariableShadowing => {
            ansible::lemma_variable_shadowing_post_deterministic(r1, r2, tree, ctx, src);
        },
        Validator::AnsiblePartialBecome => {
            lemma_const_occurrences_deterministic(
                r1,
                r2,
                ansible::partial_become_plan(
                    ctx,
                    rule_captures(
                        crate::ts::language_handle("yaml"@),
                        ansible::PARTIAL_BECOME_QUERY@,
                        Some(encode_utf8("key"@)),
                        tree,
                        src,
                    ),
                ),
                "partial-become"@,
                "YML-W1001"@,
                "Using `become_user` without `become`"@,
            );
        },
        Validator::AnsibleDeprecatedLocalAction => {
            lemma_const_occurrences_deterministic(
                r1,
                r2,
                rule_captures(
                    crate::ts::language_handle("yaml"@),
                    ansible::DEPRECATED_LOCAL_ACTION_QUERY@,
                    Some(encode_utf8("key"@)),
                    tree,
                    src,
                ),
                "deprecated-local-action"@,
                "YML-W1002"@,
                "Prefer `delegate_to: localhost` instead of `local_action`"@,
            );
        },
        Validator::AnsibleVcsLatest => {
            ansible::lemma_vcs_latest_post_deterministic(r1, r2, tree, src);
        },
        Validator::AnsibleLiteralCompare => {
            lemma_const_occurrences_deterministic(
                r1,
                r2,
                rule_captures(
                    crate::ts::language_handle("yaml"@),
                    ansible::LITERAL_COMPARE_QUERY@,
                    Some(encode_utf8("bin-expr"@)),
                    tree,
                    src,
                ),
                "literal-compare"@,
                "YML-W1005"@,
                "Consider using `when: var` or `when: not var` instead of boolean comparison"@,
            );
        },
        Validator::AnsibleCommandInsteadOfModule => {
            ansible::lemma_command_instead_of_module_post_deterministic(r1, r2, tree, ctx, src);
        },
        Validator::DockerfileEmptyLabel => {
            lemma_framed_occurrences_deterministic(
                r1,
                r2,
                rule_captures(
                    crate::ts::language_handle("dockerfile"@),
                    dockerfile::EMPTY_LABEL_QUERY@,
                    Some(encode_utf8("key"@)),
                    tree,
                    src,
                ),
                src,
                "empty-label"@,
                "DO-W1000"@,
                "Found empty label: `"@,
                "`"@,
            );
        },
        Validator::DockerfileRelativeWorkdir => {
            lemma_framed_occurrences_deterministic(
                r1,
                r2,
                rule_captures(
                    crate::ts::language_handle("dockerfile"@),
                    dockerfile::RELATIVE_WORKDIR_QUERY@,
                    Some(encode_utf8("value"@)),
                    tree,
                    src,
                ),
                src,
                "relative-workdir"@,
                "DO-W1001"@,
                "Found relative path to WORKDIR directive: `"@,
                "`"@,
            );
        },
        Validator::DockerfileRunCd => {
            lemma_const_occurrences_deterministic(
                r1,
                r2,
                rule_captures(
                    crate::ts::language_handle("dockerfile"@),
                    dockerfile::RUN_CD_QUERY@,
                    Some(encode_utf8("fragment"@)),
                    tree,
                    src,
                ),
                "run-cd"@,
                "DO-W1002"@,
                "Use `WORKDIR` directive instead of `RUN cd`"@,
            );
        },
        Validator::DockerfileShellCommandEntryPoint => {
            lemma_const_occurrences_deterministic(
                r1,
                r2,
                rule_captures(
                    crate::ts::language_handle("dockerfile"@),
                    dockerfile::SHELL_COMMAND_ENTRY_POINT_QUERY@,
                    Some(encode_utf8("raise"@)),
                    tree,
                    src,
                ),
                "shell-command-entry-point"@,
                "DO-W1004"@,
                "Prefer JSON array format instead of shell command"@,
            );
        },
        Validator::DockerfileUnpinnedTag => {
            lemma_framed_occurrences_deterministic(
                r1,
                r2,
                rule_captures(
                    crate::ts::language_handle("dockerfile"@),
                    dockerfile::UNPINNED_TAG_QUERY@,
                    Some(encode_utf8("name"@)),
                    tree,
                    src,
                ),
                src,
                "unpinned-tag"@,
                "DO-W1003"@,
                "Consider pinning the version of `"@,
                "` explicitly"@,
            );
        },
        Validator::GoVariableShadowing => {
            lemma_shadowing_post_deterministic(
                r1,
                r2,
                rule_captures(
                    crate::ts::language_handle("go"@),
                    go::VARIABLE_SHADOWING_QUERY@,
                    Some(encode_utf8("def"@)),
                    tree,
                    src,
                ),
                ctx,
                src,
                "variable-shadowing"@,
                "GO-W1000"@,
            );
        },
        Validator::ElmVariableShadowing => {
            lemma_shadowing_post_deterministic(
                r1,
                r2,
                rule_captures(
                    crate::ts::language_handle("elm"@),
                    elm::VARIABLE_SHADOWING_QUERY@,
                    Some(encode_utf8("def"@)),
                    tree,
                    src,
                ),
                ctx,
                src,
                "variable shadowing"@,
                "ELM-W1000"@,
            );
        },
    }
}

/// Law: the decomposition of an analysis result is unique. Any two
/// occurrence lists that decompose over the same validators, tree,
/// context and source agree observably — the analysis result is a
/// function of its inputs, up to message representation.
pub proof fn lemma_analyze_matches_unique(
    vs: Seq<Validator>,
    r1: Seq<Occurrence>,
    r2: Seq<Occurrence>,
    tree: tree_sitter::Tree,
    ctx: Context,
    src: Seq<u8>,
)
    requires
        analyze_matches(vs, r1, tree, ctx, src),
        analyze_matches(vs, r2, tree, ctx, src),
    ensures
        occs_similar(r1, r2),
    decreases vs.len(),
{
    if vs.len() == 0 {
        assert(r1.len() == 0 && r2.len() == 0);
    } else {
        let n1 = choose|n: int|
            #![auto]
            0 <= n <= r1.len() && run_post(vs[0], r1.subrange(0, n), tree, ctx, src)
                && analyze_matches(
                vs.drop_first(),
                r1.subrange(n, r1.len() as int),
                tree,
                ctx,
                src,
            );
        let n2 = choose|n: int|
            #![auto]
            0 <= n <= r2.len() && run_post(vs[0], r2.subrange(0, n), tree, ctx, src)
                && analyze_matches(
                vs.drop_first(),
                r2.subrange(n, r2.len() as int),
                tree,
                ctx,
                src,
            );
        let a1 = r1.subrange(0, n1);
        let a2 = r2.subrange(0, n2);
        lemma_run_post_unique(vs[0], a1, a2, tree, ctx, src);
        assert(n1 == n2);
        let b1 = r1.subrange(n1, r1.len() as int);
        let b2 = r2.subrange(n2, r2.len() as int);
        lemma_analyze_matches_unique(vs.drop_first(), b1, b2, tree, ctx, src);
        assert(r1.len() == r2.len());
        assert forall|k: int| 0 <= k < r1.len() implies {
            &&& (#[trigger] r1[k]).at == r2[k].at
            &&& r1[k].lint.name@ == r2[k].lint.name@
            &&& r1[k].lint.code@ == r2[k].lint.code@
            &&& encode_utf8(r1[k].message@) == encode_utf8(r2[k].message@)
        } by {
            if k < n1 {
                assert(r1[k] == a1[k]);
                assert(r2[k] == a2[k]);
                assert(a1[k].at == a2[k].at);
            } else {
                assert(r1[k] == b1[k - n1]);
                assert(r2[k] == b2[k - n1]);
                assert(b1[k - n1].at == b2[k - n1].at);
            }
        }
    }
}

/// Two contexts agree observably: same scope tree content and the same
/// injected trees.
pub open spec fn ctx_similar(c1: Context, c2: Context) -> bool {
    &&& match (c1.scope_tree, c2.scope_tree) {
        (Some(t1), Some(t2)) => t1@ == t2@,
        (None, None) => true,
        _ => false,
    }
    &&& c1.injected_trees@ == c2.injected_trees@
}

/// The shadow target reads only the context's observable content.
proof fn lemma_shadow_target_congruent(c1: Context, c2: Context, cap: RawCapture, src: Seq<u8>)
    requires
        ctx_similar(c1, c2),
    ensures
        shadow_target(c1, cap, src) == shadow_target(c2, cap, src),
{
}

/// The shadow plan reads only the context's observable content.
proof fn lemma_shadow_plan_congruent(c1: Context, c2: Context, caps: Seq<RawCapture>, src: Seq<u8>)
    requires
        ctx_similar(c1, c2),
    ensures
        shadow_plan(c1, caps, src) == shadow_plan(c2, caps, src),
    decreases caps.len(),
{
    if caps.len() > 0 {
        lemma_shadow_target_congruent(c1, c2, caps[0], src);
        lemma_shadow_plan_congruent(c1, c2, caps.drop_first(), src);
    }
}

/// A shadowing rule's description reads only the context's observable
/// content.
proof fn lemma_shadowing_post_transfer(
    r: Seq<Occurrence>,
    caps: Seq<RawCapture>,
    c1: Context,
    c2: Context,
    src: Seq<u8>,
    lname: Seq<char>,
    lcode: Seq<char>,
)
    requires
        ctx_similar(c1, c2),
        shadowing_post(r, caps, c1, src, lname, lcode),
    ensures
        shadowing_post(r, caps, c2, src, lname, lcode),
{
    lemma_shadow_plan_congruent(c1, c2, caps, src);
    let p1 = shadow_plan(c1, caps, src);
    let p2 = shadow_plan(c2, caps, src);
    assert forall|k: int| 0 <= k < r.len() implies {
        let msg = shadowing_message(
            crate::resolver::capture_text(src, (#[trigger] p2[k]).0),
            (p2[k].1.start_point.row + 1) as nat,
            (p2[k].1.start_point.column + 1) as nat,
        );
        &&& r[k].at == p2[k].0.range
        &&& r[k].lint.name@ == lname
        &&& r[k].lint.code@ == lcode
        &&& (valid_utf8(msg) ==> encode_utf8(r[k].message@) == msg)
        &&& (!valid_utf8(msg) ==> r[k].message@ == Seq::<char>::empty())
    } by {
        assert(p2[k] == p1[k]);
    }
}

/// One rule's description reads only the context's observable content.
proof fn lemma_run_post_congruent(
    v: Validator,
    r: Seq<Occurrence>,
    tree: tree_sitter::Tree,
    c1: Context,
    c2: Context,
    src: Seq<u8>,
)
    requires
        ctx_similar(c1, c2),
        run_post(v, r, tree, c1, src),
    ensures
        run_post(v, r, tree, c2, src),
{
    match v {
        Validator::RubyVariableShadowing => {
            lemma_shadowing_post_transfer(
                r,
                rule_captures(
                    crate::ts::language_handle("ruby"@),
                    ruby::VARIABLE_SHADOWING_QUERY@,
                    Some(encode_utf8("def"@)),
                    tree,
                    src,
                ),
                c1,
                c2,
                src,
                "variable-shadowing"@,
                "RB-W1004"@,
            );
        },
        Validator::GoVariableShadowing => {
            lemma_shadowing_post_transfer(
                r,
                rule_captures(
                    crate::ts::language_handle("go"@),
                    go::VARIABLE_SHADOWING_QUERY@,
                    Some(encode_utf8("def"@)),
                    tree,
                    src,
                ),
                c1,
                c2,
                src,
                "variable-shadowing"@,
                "GO-W1000"@,
            );
        },
        Validator::ElmVariableShadowing => {
            lemma_shadowing_post_transfer(
                r,
                rule_captures(
                    crate::ts::language_handle("elm"@),
                    elm::VARIABLE_SHADOWING_QUERY@,
                    Some(encode_utf8("def"@)),
                    tree,
                    src,
                ),
                c1,
                c2,
                src,
                "variable shadowing"@,
                "ELM-W1000"@,
            );
        },
        Validator::AnsibleVariableShadowing => {
            ansible::lemma_variable_shadowing_post_transfer(r, tree, c1, c2, src);
        },
        Validator::AnsiblePartialBecome => {
            ansible::lemma_partial_become_post_transfer(r, tree, c1, c2, src);
        },
        Validator::AnsibleCommandInsteadOfModule => {
            ansible::lemma_command_instead_of_module_post_transfer(r, tree, c1, c2, src);
        },
        _ => {},
    }
}

/// A decomposition reads only the context's observable content./// A decomposition reads only the context's observable content.
pub proof fn lemma_analyze_matches_congruent(
    vs: Seq<Validator>,
    r: Seq<Occurrence>,
    tree: tree_sitter::Tree,
    c1: Context,
    c2: Context,
    src: Seq<u8>,
)
    requires
        ctx_similar(c1, c2),
        analyze_matches(vs, r, tree, c1, src),
    ensures
        analyze_matches(vs, r, tree, c2, src),
    decreases vs.len(),
{
    if vs.len() > 0 {
        let n = choose|n: int|
            #![auto]
            0 <= n <= r.len() && run_post(vs[0], r.subrange(0, n), tree, c1, src)
                && analyze_matches(vs.drop_first(), r.subrange(n, r.len() as int), tree, c1, src);
        lemma_run_post_congruent(vs[0], r.subrange(0, n), tree, c1, c2, src);
        lemma_analyze_matches_congruent(
            vs.drop_first(),
            r.subrange(n, r.len() as int),
            tree,
            c1,
            c2,
            src,
        );
        assert(run_post(vs[0], r.subrange(0, n), tree, c2, src));
        assert(analyze_matches(vs.drop_first(), r.subrange(n, r.len() as int), tree, c2, src));
    }
}

/// `true` iff running `query` over the file produces at least one match./// `true` iff running `query` over the file produces at least one match.
pub fn is_match(query: &tree_sitter::Query, tree: &tree_sitter::Tree, src: &[u8]) -> (r: bool)
    requires
        tree_within(*tree, src@.len() as int),
    ensures
        r == (matches_of(*query, *tree, src@).len() > 0),
{
    let matches = query_matches(query, tree, src);
    matches.len() > 0
}

/// The captures a rule's query selects over one file: every capture of
/// every match in engine order, kept when no capture name is singled out
/// or when the capture bears the wanted name's index; empty when the
/// query does not compile or never uses the wanted name.
pub open spec fn rule_captures(
    language: tree_sitter::Language,
    text: Seq<char>,
    only: Option<Seq<u8>>,
    tree: tree_sitter::Tree,
    src: Seq<u8>,
) -> Seq<RawCapture> {
    if !query_compiles(language, text) {
        Seq::empty()
    } else {
        let q = compiled_query(language, text);
        match only {
            None => selected_captures(matches_of(q, tree, src), None),
            Some(nb) => match first_name_index(query_capture_names(q), nb) {
                Some(i) => selected_captures(matches_of(q, tree, src), Some(i)),
                None => Seq::empty(),
            },
        }
    }
}

/// The wanted capture name, as bytes.
pub open spec fn spec_only(only: Option<&str>) -> Option<Seq<u8>> {
    match only {
        Some(n) => Some(encode_utf8(n@)),
        None => None,
    }
}

/// The flat capture list of every match, filtered to one capture name
/// when `only` is given; empty when the query does not compile or the
/// wanted capture name does not appear in it.
pub fn collect_captures(
    language: tree_sitter::Language,
    query_text: &str,
    only: Option<&str>,
    tree: &tree_sitter::Tree,
    src: &[u8],
) -> (r: Vec<RawCapture>)
    requires
        tree_within(*tree, src@.len() as int),
    ensures
        r@ == rule_captures(language, query_text@, spec_only(only), *tree, src@),
        forall|k: int|
            0 <= k < r@.len() ==> crate::ts::capture_ok(#[trigger] r@[k], src@.len() as int),
{
    let query = match query_new(language, query_text) {
        Ok(q) => q,
        Err(_) => {
            let r: Vec<RawCapture> = Vec::new();
            proof {
                assert(r@ =~= rule_captures(language, query_text@, spec_only(only), *tree, src@));
            }
            return r;
        },
    };
    let wanted: Option<u32> = match only {
        Some(name) => {
            let names = crate::ts::capture_names(&query);
            match find_name_index(&names, name) {
                Some(i) => Some(i),
                None => {
                    let r: Vec<RawCapture> = Vec::new();
                    proof {
                        assert(r@ =~= rule_captures(
                            language,
                            query_text@,
                            spec_only(only),
                            *tree,
                            src@,
                        ));
                    }
                    return r;
                },
            }
        },
        None => None,
    };
    let matches = query_matches(&query, tree, src);
    let ghost msv = matches@.map_values(|mm: RawMatch| mm.captures@);
    let ghost total = selected_captures(msv, wanted);
    proof {
        assert(msv.skip(0) =~= msv);
        assert(total == rule_captures(language, query_text@, spec_only(only), *tree, src@));
    }
    let mut out: Vec<RawCapture> = Vec::new();
    let mut m: usize = 0;
    while m < matches.len()
        invariant
            m <= matches@.len(),
            msv == matches@.map_values(|mm: RawMatch| mm.captures@),
            total == out@ + selected_captures(msv.skip(m as int), wanted),
            forall|k: int|
                0 <= k < out@.len() ==> crate::ts::capture_ok(#[trigger] out@[k], src@.len() as int),
            forall|i: int, j: int|
                0 <= i < matches@.len() && 0 <= j < matches@[i].captures@.len()
                    ==> crate::ts::capture_ok(
                    #[trigger] matches@[i].captures@[j],
                    src@.len() as int,
                ),
        decreases matches.len() - m,
    {
        let caps = &matches[m].captures;
        proof {
            assert(msv.skip(m as int)[0] == caps@);
            assert(msv.skip(m as int).drop_first() =~= msv.skip(m as int + 1));
            assert(caps@.skip(0) =~= caps@);
        }
        let mut c: usize = 0;
        while c < caps.len()
            invariant
                c <= caps@.len(),
                msv == matches@.map_values(|mm: RawMatch| mm.captures@),
                m < matches@.len(),
                caps == &matches[m as int].captures,
                total == out@ + crate::ts::filter_captures(caps@.skip(c as int), wanted)
                    + selected_captures(msv.skip(m as int + 1), wanted),
                forall|k: int|
                    0 <= k < out@.len() ==> crate::ts::capture_ok(
                        #[trigger] out@[k],
                        src@.len() as int,
                    ),
                forall|j: int|
                    0 <= j < caps@.len() ==> crate::ts::capture_ok(
                        #[trigger] caps@[j],
                        src@.len() as int,
                    ),
            decreases caps.len() - c,
        {
            let cap = caps[c];
            proof {
                assert(caps@.skip(c as int)[0] == cap);
                assert(caps@.skip(c as int).drop_first() =~= caps@.skip(c as int + 1));
            }
            let keep = match wanted {
                Some(w) => cap.index == w,
                None => true,
            };
            if keep {
                let ghost out0 = out@;
                out.push(cap);
                proof {
                    assert(out0 + (seq![cap] + crate::ts::filter_captures(
                        caps@.skip(c as int + 1),
                        wanted,
                    )) =~= out@ + crate::ts::filter_captures(caps@.skip(c as int + 1), wanted));
                }
            }
            c += 1;
        }
        proof {
            assert(caps@.skip(caps@.len() as int) =~= Seq::<RawCapture>::empty());
        }
        m += 1;
    }
    proof {
        assert(msv.skip(msv.len() as int) =~= Seq::<Seq<RawCapture>>::empty());
        assert(out@ =~= total);
    }
    out
}

/// The occurrences `r` are exactly one per capture, in order: each at
/// its capture's range, bearing the lint named, with a message framing
/// the covered source text (the empty string in the unusual case the
/// framed bytes are not valid UTF-8).
pub open spec fn framed_occurrences(
    r: Seq<Occurrence>,
    caps: Seq<RawCapture>,
    src: Seq<u8>,
    lname: Seq<char>,
    lcode: Seq<char>,
    prefix: Seq<char>,
    suffix: Seq<char>,
) -> bool {
    &&& r.len() == caps.len()
    &&& forall|k: int|
        0 <= k < r.len() ==> {
            let framed = framed_bytes(
                prefix,
                src.subrange(
                    (#[trigger] caps[k]).range.start_byte as int,
                    caps[k].range.end_byte as int,
                ),
                suffix,
            );
            &&& r[k].at == caps[k].range
            &&& r[k].lint.name@ == lname
            &&& r[k].lint.code@ == lcode
            &&& (valid_utf8(framed) ==> encode_utf8(r[k].message@) == framed)
            &&& (!valid_utf8(framed) ==> r[k].message@ == Seq::<char>::empty())
        }
}

/// The occurrences `r` are exactly one per capture, in order: each at
/// its capture's range, bearing the lint named, with the fixed message.
pub open spec fn const_occurrences(
    r: Seq<Occurrence>,
    caps: Seq<RawCapture>,
    lname: Seq<char>,
    lcode: Seq<char>,
    message: Seq<char>,
) -> bool {
    &&& r.len() == caps.len()
    &&& forall|k: int|
        0 <= k < r.len() ==> {
            &&& (#[trigger] r[k]).at == caps[k].range
            &&& r[k].lint.name@ == lname
            &&& r[k].lint.code@ == lcode
            &&& r[k].message@ == message
        }
}

/// Raise `lint` at every selected capture, with a message that frames
/// the captured source text between `prefix` and `suffix`.
pub(crate) fn raise_framed(
    language: tree_sitter::Language,
    query_text: &str,
    lint: Lint,
    only: Option<&str>,
    prefix: &str,
    suffix: &str,
    tree: &tree_sitter::Tree,
    src: &[u8],
) -> (r: Vec<Occurrence>)
    requires
        tree_within(*tree, src@.len() as int),
    ensures
        occurrences_ok(r@, src@.len() as int),
        framed_occurrences(
            r@,
            rule_captures(language, query_text@, spec_only(only), *tree, src@),
            src@,
            lint.name@,
            lint.code@,
            prefix@,
            suffix@,
        ),
{
    let captures = collect_captures(language, query_text, only, tree, src);
    let mut out: Vec<Occurrence> = Vec::new();
    let mut k: usize = 0;
    while k < captures.len()
        invariant
            k <= captures@.len(),
            out@.len() == k,
            forall|j: int|
                0 <= j < captures@.len() ==> crate::ts::capture_ok(
                    #[trigger] captures@[j],
                    src@.len() as int,
                ),
            occurrences_ok(out@, src@.len() as int),
            forall|j: int|
                0 <= j < out@.len() ==> {
                    let framed = framed_bytes(
                        prefix@,
                        src@.subrange(
                            (#[trigger] captures@[j]).range.start_byte as int,
                            captures@[j].range.end_byte as int,
                        ),
                        suffix@,
                    );
                    &&& out@[j].at == captures@[j].range
                    &&& out@[j].lint.name@ == lint.name@
                    &&& out@[j].lint.code@ == lint.code@
                    &&& (valid_utf8(framed) ==> encode_utf8(out@[j].message@) == framed)
                    &&& (!valid_utf8(framed) ==> out@[j].message@ == Seq::<char>::empty())
                },
        decreases captures.len() - k,
    {
        let c = captures[k];
        let text = &src[c.range.start_byte..c.range.end_byte];
        assert(text@ =~= src@.subrange(c.range.start_byte as int, c.range.end_byte as int));
        let message = framed_string(prefix, text, suffix);
        out.push(lint.raise(c.range, message));
        k += 1;
    }
    out
}

/// Raise `lint` at every selected capture, with a fixed message.
pub(crate) fn raise_const(
    language: tree_sitter::Language,
    query_text: &str,
    lint: Lint,
    only: Option<&str>,
    message: &str,
    tree: &tree_sitter::Tree,
    src: &[u8],
) -> (r: Vec<Occurrence>)
    requires
        tree_within(*tree, src@.len() as int),
    ensures
        occurrences_ok(r@, src@.len() as int),
        const_occurrences(
            r@,
            rule_captures(language, query_text@, spec_only(only), *tree, src@),
            lint.name@,
            lint.code@,
            message@,
        ),
{
    let captures = collect_captures(language, query_text, only, tree, src);
    let mut out: Vec<Occurrence> = Vec::new();
    let mut k: usize = 0;
    while k < captures.len()
        invariant
            k <= captures@.len(),
            out@.len() == k,
            forall|j: int|
                0 <= j < captures@.len() ==> crate::ts::capture_ok(
                    #[trigger] captures@[j],
                    src@.len() as int,
                ),
            occurrences_ok(out@, src@.len() as int),
            forall|j: int|
                0 <= j < out@.len() ==> {
                    &&& (#[trigger] out@[j]).at == captures@[j].range
                    &&& out@[j].lint.name@ == lint.name@
                    &&& out@[j].lint.code@ == lint.code@
                    &&& out@[j].message@ == message@
                },
        decreases captures.len() - k,
    {
        let c = captures[k];
        out.push(lint.raise(c.range, message.to_owned()));
        k += 1;
    }
    out
}

/// The shadowing message: `Shadowing `<name>`, defined on line <l>, col
/// <c>` with the shadowed definition's 1-based line and column.
pub open spec fn shadowing_message(name: Seq<u8>, line: nat, col: nat) -> Seq<u8> {
    encode_utf8("Shadowing `"@) + name + encode_utf8("`, defined on line "@)
        + crate::text::decimal_bytes(line) + encode_utf8(", col "@) + crate::text::decimal_bytes(
        col,
    )
}

/// `b`, unless it is absent: the later candidate wins.
pub open spec fn override_opt(a: Option<crate::range::Range>, b: Option<crate::range::Range>) -> Option<
    crate::range::Range,
> {
    match b {
        Some(r) => Some(r),
        None => a,
    }
}

/// Within scope `s`, the last definition among its first `upto` whose
/// name is `name` and whose range fits the wire.
pub open spec fn last_shadow_in_scope(
    t: crate::scope::SpecTree,
    s: int,
    name: Seq<u8>,
    upto: int,
) -> Option<crate::range::Range>
    decreases upto,
{
    if 0 < upto <= t.scopes[s].local_defs.len() {
        let d = t.scopes[s].local_defs[upto - 1];
        if 0 <= d < t.defs.len() && t.defs[d].name == name && t.defs[d].def_range.wire_safe() {
            Some(t.defs[d].def_range)
        } else {
            last_shadow_in_scope(t, s, name, upto - 1)
        }
    } else {
        None
    }
}

/// Over the scope chain from position `j` on — position 0 is the scope
/// the capture itself falls in, which never counts as shadowed — the
/// definition a use of `name` shadows: outer scopes take precedence,
/// and within a scope the last definition wins.
pub open spec fn shadow_in_stack(
    t: crate::scope::SpecTree,
    st: Seq<int>,
    j: int,
    name: Seq<u8>,
) -> Option<crate::range::Range>
    decreases st.len() - j,
{
    if 1 <= j < st.len() {
        override_opt(
            last_shadow_in_scope(t, st[j], name, t.scopes[st[j]].local_defs.len() as int),
            shadow_in_stack(t, st, j + 1, name),
        )
    } else {
        None
    }
}

/// The definition the captured name shadows, if any: found by walking
/// the scope chain of the deepest scope containing the capture.
pub open spec fn shadow_target(
    ctx: Context,
    cap: RawCapture,
    src: Seq<u8>,
) -> Option<crate::range::Range> {
    match ctx.scope_tree {
        None => None,
        Some(tr) => match tr@.scope_by_range_spec(cap.range) {
            None => None,
            Some(s) => shadow_in_stack(
                tr@,
                tr@.stack_seq(s),
                1,
                crate::resolver::capture_text(src, cap),
            ),
        },
    }
}

/// The expected shadowing occurrences: the captures that shadow a
/// definition, in order, each paired with the shadowed definition's
/// range.
pub open spec fn shadow_plan(ctx: Context, caps: Seq<RawCapture>, src: Seq<u8>) -> Seq<
    (RawCapture, crate::range::Range),
>
    decreases caps.len(),
{
    if caps.len() == 0 {
        Seq::empty()
    } else {
        let rest = shadow_plan(ctx, caps.drop_first(), src);
        match shadow_target(ctx, caps[0], src) {
            Some(rg) => seq![(caps[0], rg)] + rest,
            None => rest,
        }
    }
}

/// The occurrences `r` are exactly one per shadowing capture, in order:
/// each at its capture's range, bearing the lint named, with the
/// shadowing message naming the shadowed definition's 1-based position
/// (the empty string in the unusual case the message bytes are not
/// valid UTF-8).
pub open spec fn shadowing_post(
    r: Seq<Occurrence>,
    caps: Seq<RawCapture>,
    ctx: Context,
    src: Seq<u8>,
    lname: Seq<char>,
    lcode: Seq<char>,
) -> bool {
    let plan = shadow_plan(ctx, caps, src);
    &&& r.len() == plan.len()
    &&& forall|k: int|
        0 <= k < r.len() ==> {
            let msg = shadowing_message(
                crate::resolver::capture_text(src, (#[trigger] plan[k]).0),
                (plan[k].1.start_point.row + 1) as nat,
                (plan[k].1.start_point.column + 1) as nat,
            );
            &&& r[k].at == plan[k].0.range
            &&& r[k].lint.name@ == lname
            &&& r[k].lint.code@ == lcode
            &&& (valid_utf8(msg) ==> encode_utf8(r[k].message@) == msg)
            &&& (!valid_utf8(msg) ==> r[k].message@ == Seq::<char>::empty())
        }
}

/// Raise `lint` at every capture whose text is also the name of a
/// definition in an enclosing scope (not the innermost scope the capture
/// falls in). The message names the shadowed definition's position; when
/// several enclosing scopes define the name, the outermost wins, and
/// within a scope the last definition wins.
pub(crate) fn shadowing(
    language: tree_sitter::Language,
    query_text: &str,
    lint: Lint,
    tree: &tree_sitter::Tree,
    ctx: &Context,
    src: &[u8],
) -> (r: Vec<Occurrence>)
    requires
        tree_within(*tree, src@.len() as int),
        ctx.wf(src@.len() as int),
    ensures
        occurrences_ok(r@, src@.len() as int),
        shadowing_post(
            r@,
            rule_captures(language, query_text@, Some(encode_utf8("def"@)), *tree, src@),
            *ctx,
            src@,
            lint.name@,
            lint.code@,
        ),
{
    let captures = collect_captures(language, query_text, Some("def"), tree, src);
    let ghost capsv = captures@;
    let t = match ctx.root_scope() {
        Some(t) => t,
        None => {
            let r: Vec<Occurrence> = Vec::new();
            proof {
                lemma_shadow_plan_no_tree(*ctx, capsv, src@);
                assert(r@ =~= Seq::<Occurrence>::empty());
            }
            return r;
        },
    };
    let mut out: Vec<Occurrence> = Vec::new();
    let ghost mut planned: Seq<(RawCapture, crate::range::Range)> = Seq::empty();
    proof {
        assert(capsv.skip(0) =~= capsv);
        assert(planned + shadow_plan(*ctx, capsv.skip(0), src@) =~= shadow_plan(
            *ctx,
            capsv,
            src@,
        ));
    }
    let mut k: usize = 0;
    while k < captures.len()
        invariant
            k <= capsv.len(),
            capsv == captures@,
            ctx.wf(src@.len() as int),
            ctx.scope_tree == Some(*t),
            t@.wf(),
            t.scopes.len() == t@.scopes.len(),
            forall|j: int|
                0 <= j < capsv.len() ==> crate::ts::capture_ok(
                    #[trigger] capsv[j],
                    src@.len() as int,
                ),
            shadow_plan(*ctx, capsv, src@) == planned + shadow_plan(
                *ctx,
                capsv.skip(k as int),
                src@,
            ),
            out@.len() == planned.len(),
            occurrences_ok(out@, src@.len() as int),
            forall|j: int|
                0 <= j < out@.len() ==> {
                    let msg = shadowing_message(
                        crate::resolver::capture_text(src@, (#[trigger] planned[j]).0),
                        (planned[j].1.start_point.row + 1) as nat,
                        (planned[j].1.start_point.column + 1) as nat,
                    );
                    &&& out@[j].at == planned[j].0.range
                    &&& out@[j].lint.name@ == lint.name@
                    &&& out@[j].lint.code@ == lint.code@
                    &&& (valid_utf8(msg) ==> encode_utf8(out@[j].message@) == msg)
                    &&& (!valid_utf8(msg) ==> out@[j].message@ == Seq::<char>::empty())
                },
        decreases captures.len() - k,
    {
        let c = captures[k];
        proof {
            assert(capsv.skip(k as int)[0] == c);
            assert(capsv.skip(k as int).drop_first() =~= capsv.skip(k as int + 1));
        }
        let text = &src[c.range.start_byte..c.range.end_byte];
        assert(text@ =~= crate::resolver::capture_text(src@, c));
        let s0_opt = t.scope_by_range(&c.range);
        let mut shadowed: Option<crate::range::Range> = None;
        match s0_opt {
            Some(s0) => {
                let stack = t.scope_stack(s0);
                let ghost stv = stack@.map_values(|i: usize| i as int);
                let mut si: usize = 1;
                while si < stack.len()
                    invariant
                        1 <= si,
                        t@.wf(),
                        t.scopes.len() == t@.scopes.len(),
                        stv == stack@.map_values(|i: usize| i as int),
                        text@ == crate::resolver::capture_text(src@, c),
                        forall|j: int| 0 <= j < stack@.len() ==> #[trigger] stack@[j] < t.scopes.len(),
                        override_opt(shadowed, shadow_in_stack(t@, stv, si as int, text@))
                            == shadow_in_stack(t@, stv, 1, text@),
                        match shadowed {
                            Some(rg) => rg.wire_safe(),
                            None => true,
                        },
                    decreases stack.len() - si,
                {
                    let s = stack[si];
                    proof {
                        assert(stv[si as int] == s as int);
                    }
                    let n = t.scopes[s].local_defs.len();
                    let mut found: Option<crate::range::Range> = None;
                    let mut di: usize = 0;
                    while di < n
                        invariant
                            t@.wf(),
                            t.scopes.len() == t@.scopes.len(),
                            s < t.scopes.len(),
                            text@ == crate::resolver::capture_text(src@, c),
                            n == t@.scopes[s as int].local_defs.len(),
                            di <= n,
                            found == last_shadow_in_scope(t@, s as int, text@, di as int),
                            match found {
                                Some(rg) => rg.wire_safe(),
                                None => true,
                            },
                        decreases n - di,
                    {
                        let d = t.scopes[s].local_defs[di];
                        assert(d as int == t@.scopes[s as int].local_defs[di as int]);
                        assert(d < t.defs.len());
                        if crate::text::bytes_eq(t.defs[d].name.as_slice(), text) {
                            let rg = t.defs[d].def_range;
                            if rg.is_wire_safe() {
                                found = Some(rg);
                            }
                        }
                        di += 1;
                    }
                    shadowed = match found {
                        Some(rg) => Some(rg),
                        None => shadowed,
                    };
                    si += 1;
                }
            },
            None => {},
        }
        proof {
            assert(shadowed == shadow_target(*ctx, c, src@));
        }
        match shadowed {
            Some(rg) => {
                let line = inc_sat(rg.start_point.row);
                let col = inc_sat(rg.start_point.column);
                let mut msg: Vec<u8> = Vec::new();
                crate::text::push_str_bytes(&mut msg, "Shadowing `");
                crate::text::push_tail(&mut msg, text, 0);
                crate::text::push_str_bytes(&mut msg, "`, defined on line ");
                crate::text::push_decimal(&mut msg, line);
                crate::text::push_str_bytes(&mut msg, ", col ");
                crate::text::push_decimal(&mut msg, col);
                assert(msg@ =~= shadowing_message(text@, line as nat, col as nat));
                let message = crate::text::string_from_utf8_or_empty(msg);
                out.push(lint.raise(c.range, message));
                proof {
                    planned = planned.push((c, rg));
                    assert(seq![(c, rg)] + shadow_plan(*ctx, capsv.skip(k as int + 1), src@)
                        =~= shadow_plan(*ctx, capsv.skip(k as int), src@));
                    assert(planned + shadow_plan(*ctx, capsv.skip(k as int + 1), src@)
                        =~= shadow_plan(*ctx, capsv, src@));
                }
            },
            None => {},
        }
        k += 1;
    }
    proof {
        assert(capsv.skip(capsv.len() as int) =~= Seq::<RawCapture>::empty());
        assert(shadow_plan(*ctx, capsv, src@) =~= planned);
    }
    out
}

/// Without a scope tree nothing shadows: the plan is empty.
proof fn lemma_shadow_plan_no_tree(ctx: Context, caps: Seq<RawCapture>, src: Seq<u8>)
    requires
        ctx.scope_tree is None,
    ensures
        shadow_plan(ctx, caps, src) == Seq::<(RawCapture, crate::range::Range)>::empty(),
    decreases caps.len(),
{
    if caps.len() > 0 {
        lemma_shadow_plan_no_tree(ctx, caps.drop_first(), src);
    }
}

/// `n + 1`, stopping at the machine's limit; every value a parser
/// produces is far below it.
pub(crate) fn inc_sat(n: usize) -> (r: usize)
    ensures
        n < usize::MAX ==> r == n + 1,
        r >= 1,
{
    if n < usize::MAX {
        n + 1
    } else {
        n
    }
}

} // verus!
