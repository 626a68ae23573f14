//! Lint rules for Ansible playbooks: YAML outside, shell inside.

use vstd::prelude::*;
use vstd::utf8::{encode_utf8, valid_utf8};

use crate::context::Context;
use crate::lint::{occurrences_ok, Lint, Occurrence};
use crate::range::Range;
use crate::rules::{collect_captures, const_occurrences, inc_sat, raise_const, rule_captures};
use crate::text::{bytes_eq, push_decimal, push_str_bytes, push_tail, string_from_utf8_or_empty};
use crate::ts::{
    bash_language, capture_names, language_handle, query_matches, query_new, yaml_language,
    RawCapture, RawMatch,
};

verus! {

/// The scope query the Ansible rules use: block mappings open scopes and
/// their keys define names.
pub const SCOPES: &'static str = "
    (block_mapping) @local.scope
    (block_mapping_pair key: (flow_node) @local.definition)
";

/// The injection query the Ansible rules use: the value of a `shell` or
/// `command` key is shell code.
pub const INJECTIONS: &'static str = "
    ((block_mapping_pair
      key: (_) @key
      value:
      (flow_node
        (plain_scalar
          (string_scalar) @injection.content)))
    (#match? @key \"^(ansible\\\\.builtin\\\\.)?(shell|command)\"))
";

/// The query behind [`command_instead_of_module`].
pub const COMMAND_INSTEAD_OF_MODULE_QUERY: &'static str = "
    (
        (block_mapping_pair
         key: (_) @command-node
         value: (flow_node (plain_scalar) @value-node))
        (#match? @command-node \"^(ansible\\\\.builtin\\\\.)?(command|shell)\")
    )
    ";

/// The query behind [`deprecated_local_action`].
pub const DEPRECATED_LOCAL_ACTION_QUERY: &'static str = "
        (
            (block_mapping_pair key: (_) @key)
            (#match? @key \"local_action\")
        )
        ";

/// The query behind [`literal_compare`].
pub const LITERAL_COMPARE_QUERY: &'static str = "
        (
            (block_mapping_pair
             key: (_) @conditional-node
             value: [
                ((flow_node) @bin-expr)
                (block_node
                 (block_sequence
                  (block_sequence_item
                   (flow_node) @bin-expr)))
             ])
            (#is? @conditional-node \"when\")
            (#match? @bin-expr \"[=!]= ?(True|true|False|false)\")
        )
        ";

/// The query behind [`partial_become`].
pub const PARTIAL_BECOME_QUERY: &'static str = "
        (
            (block_mapping_pair key: (_) @key)
            (#match? @key \"become_user\")
        )
        ";

/// The query behind [`vcs_latest`].
pub const VCS_LATEST_QUERY: &'static str = "
        (
            (block_mapping_pair
             key: (_) @vcs-node
             value:
             (block_node
              (block_mapping
               (block_mapping_pair
                key: (_) @version-node
                value: (_) @version-value) @raise)))
            (#match? @version-node \"(version|revision)\")
        )
        ";

/// The query behind [`variable_shadowing`].
pub const VARIABLE_SHADOWING_QUERY: &'static str = "
        (block_node) @raise
        ";

/// `ident` names the builtin `builtin`: either bare, or with the
/// `ansible.builtin` prefix stripped first.
pub open spec fn is_ansible_builtin_spec(ident: Seq<u8>, builtin: Seq<u8>) -> bool {
    let pre = encode_utf8("ansible.builtin"@);
    if ident.len() >= pre.len() && ident.subrange(0, pre.len() as int) == pre {
        ident.subrange(pre.len() as int, ident.len() as int) == builtin
    } else {
        ident == builtin
    }
}

/// `ident` names the builtin `builtin`: either bare, or with the
/// `ansible.builtin` prefix stripped first.
pub fn is_ansible_builtin(ident: &str, builtin: &str) -> (r: bool)
    ensures
        r == is_ansible_builtin_spec(encode_utf8(ident@), encode_utf8(builtin@)),
{
    let ib = ident.as_bytes();
    let bb = builtin.as_bytes();
    let pre = "ansible.builtin".as_bytes();
    if ib.len() >= pre.len() {
        let head = &ib[0..pre.len()];
        assert(head@ =~= ib@.subrange(0, pre@.len() as int));
        if bytes_eq(head, pre) {
            let rest = &ib[pre.len()..ib.len()];
            assert(rest@ =~= ib@.subrange(pre@.len() as int, ib@.len() as int));
            return bytes_eq(rest, bb);
        }
    }
    bytes_eq(ib, bb)
}

/// The module that replaces a shell command, where one does.
pub open spec fn module_alternative_spec(exe: Seq<u8>) -> Option<Seq<char>> {
    if exe == encode_utf8("apt-get"@) {
        Some("apt-get"@)
    } else if exe == encode_utf8("chkconfig"@) {
        Some("service"@)
    } else if exe == encode_utf8("curl"@) {
        Some("get_url or uri"@)
    } else if exe == encode_utf8("git"@) {
        Some("git"@)
    } else if exe == encode_utf8("hg"@) {
        Some("hg"@)
    } else if exe == encode_utf8("letsencrypt"@) {
        Some("acme_certificate"@)
    } else if exe == encode_utf8("mktemp"@) {
        Some("tempfile"@)
    } else if exe == encode_utf8("mount"@) {
        Some("mount"@)
    } else if exe == encode_utf8("patch"@) {
        Some("patch"@)
    } else if exe == encode_utf8("rpm"@) {
        Some("yum or rpm_key"@)
    } else if exe == encode_utf8("rsync"@) {
        Some("synchronize"@)
    } else if exe == encode_utf8("sed"@) {
        Some("template, replace or lineinfile"@)
    } else if exe == encode_utf8("service"@) {
        Some("service"@)
    } else if exe == encode_utf8("supervisorctl"@) {
        Some("supervisorctl"@)
    } else if exe == encode_utf8("svn"@) {
        Some("subversion"@)
    } else if exe == encode_utf8("systemctl"@) {
        Some("systemd"@)
    } else if exe == encode_utf8("tar"@) {
        Some("unarchive"@)
    } else if exe == encode_utf8("unzip"@) {
        Some("unarchive"@)
    } else if exe == encode_utf8("wget"@) {
        Some("get_url or uri"@)
    } else if exe == encode_utf8("yum"@) {
        Some("yum"@)
    } else {
        None
    }
}

/// The module that replaces the executable `exe`, where one does.
fn module_alternative(exe: &[u8]) -> (r: Option<&'static str>)
    ensures
        match r {
            Some(alt) => module_alternative_spec(exe@) == Some(alt@),
            None => module_alternative_spec(exe@) is None,
        },
{
    if bytes_eq(exe, "apt-get".as_bytes()) {
        Some("apt-get")
    } else if bytes_eq(exe, "chkconfig".as_bytes()) {
        Some("service")
    } else if bytes_eq(exe, "curl".as_bytes()) {
        Some("get_url or uri")
    } else if bytes_eq(exe, "git".as_bytes()) {
        Some("git")
    } else if bytes_eq(exe, "hg".as_bytes()) {
        Some("hg")
    } else if bytes_eq(exe, "letsencrypt".as_bytes()) {
        Some("acme_certificate")
    } else if bytes_eq(exe, "mktemp".as_bytes()) {
        Some("tempfile")
    } else if bytes_eq(exe, "mount".as_bytes()) {
        Some("mount")
    } else if bytes_eq(exe, "patch".as_bytes()) {
        Some("patch")
    } else if bytes_eq(exe, "rpm".as_bytes()) {
        Some("yum or rpm_key")
    } else if bytes_eq(exe, "rsync".as_bytes()) {
        Some("synchronize")
    } else if bytes_eq(exe, "sed".as_bytes()) {
        Some("template, replace or lineinfile")
    } else if bytes_eq(exe, "service".as_bytes()) {
        Some("service")
    } else if bytes_eq(exe, "supervisorctl".as_bytes()) {
        Some("supervisorctl")
    } else if bytes_eq(exe, "svn".as_bytes()) {
        Some("subversion")
    } else if bytes_eq(exe, "systemctl".as_bytes()) {
        Some("systemd")
    } else if bytes_eq(exe, "tar".as_bytes()) {
        Some("unarchive")
    } else if bytes_eq(exe, "unzip".as_bytes()) {
        Some("unarchive")
    } else if bytes_eq(exe, "wget".as_bytes()) {
        Some("get_url or uri")
    } else if bytes_eq(exe, "yum".as_bytes()) {
        Some("yum")
    } else {
        None
    }
}

/// The first argument exempts the executable from the module advice:
/// some subcommands have no module equivalent.
pub open spec fn executable_option_allowed_spec(exe: Seq<u8>, arg: Seq<u8>) -> bool {
    if exe == encode_utf8("git"@) {
        arg == encode_utf8("branch"@) || arg == encode_utf8("log"@) || arg == encode_utf8("lfs"@)
    } else if exe == encode_utf8("systemctl"@) {
        arg == encode_utf8("set-default"@) || arg == encode_utf8("show-environment"@) || arg
            == encode_utf8("status"@)
    } else if exe == encode_utf8("yum"@) {
        arg == encode_utf8("clean"@)
    } else if exe == encode_utf8("rpm"@) {
        arg == encode_utf8("--nodeps"@)
    } else {
        false
    }
}

/// Whether the first argument exempts the executable from the module
/// advice.
fn executable_option_allowed(exe: &[u8], arg: &[u8]) -> (r: bool)
    ensures
        r == executable_option_allowed_spec(exe@, arg@),
{
    if bytes_eq(exe, "git".as_bytes()) {
        bytes_eq(arg, "branch".as_bytes()) || bytes_eq(arg, "log".as_bytes()) || bytes_eq(
            arg,
            "lfs".as_bytes(),
        )
    } else if bytes_eq(exe, "systemctl".as_bytes()) {
        bytes_eq(arg, "set-default".as_bytes()) || bytes_eq(arg, "show-environment".as_bytes())
            || bytes_eq(arg, "status".as_bytes())
    } else if bytes_eq(exe, "yum".as_bytes()) {
        bytes_eq(arg, "clean".as_bytes())
    } else if bytes_eq(exe, "rpm".as_bytes()) {
        bytes_eq(arg, "--nodeps".as_bytes())
    } else {
        false
    }
}

/// The module-advice message: `Using command `<exe>` in place of `<alt>`
/// module`.
pub open spec fn advice_message(exe: Seq<u8>, alt: Seq<char>) -> Seq<u8> {
    encode_utf8("Using command `"@) + exe + encode_utf8("` in place of `"@) + encode_utf8(alt)
        + encode_utf8("` module"@)
}

/// The advice for a shell command: given the executable's name and its
/// first argument, the module that replaces it, unless the argument
/// exempts it. Succeeds if and only if a module alternative exists and
/// no exemption applies.
pub fn bash_command_advice(exe: &[u8], first_arg: Option<&[u8]>) -> (r: Option<String>)
    ensures
        r is Some <==> (module_alternative_spec(exe@) is Some && !(first_arg matches Some(a)
            && executable_option_allowed_spec(exe@, a@))),
        r matches Some(m) ==> ({
            let b = advice_message(exe@, module_alternative_spec(exe@)->0);
            &&& (valid_utf8(b) ==> encode_utf8(m@) == b)
            &&& (!valid_utf8(b) ==> m@ == Seq::<char>::empty())
        }),
{
    match first_arg {
        Some(a) => {
            if executable_option_allowed(exe, a) {
                return None;
            }
        },
        None => {},
    }
    let alt = match module_alternative(exe) {
        Some(alt) => alt,
        None => {
            return None;
        },
    };
    let mut msg: Vec<u8> = Vec::new();
    push_str_bytes(&mut msg, "Using command `");
    push_tail(&mut msg, exe, 0);
    push_str_bytes(&mut msg, "` in place of `");
    push_str_bytes(&mut msg, alt);
    push_str_bytes(&mut msg, "` module");
    proof {
        assert(msg@ =~= advice_message(exe@, module_alternative_spec(exe@)->0));
    }
    Some(string_from_utf8_or_empty(msg))
}

/// The query behind [`validate_bash`].
pub const BASH_COMMAND_QUERY: &'static str = "
        (
            (command name: (_) @command . argument: (_)? @first-arg)
        )
        ";

/// The length of `p` once its trailing slashes are dropped.
pub open spec fn trim_trailing_slashes(p: Seq<u8>, upto: int) -> int
    decreases upto,
{
    if 0 < upto <= p.len() && p[upto - 1] == 47u8 {
        trim_trailing_slashes(p, upto - 1)
    } else {
        upto
    }
}

/// The final component of the path `p`: the bytes between the last slash
/// and any trailing slashes, which do not count — as the standard
/// library reads a file name off a path. Nothing when that component is
/// empty or is the parent-directory dots.
pub open spec fn file_name_spec(p: Seq<u8>) -> Option<Seq<u8>> {
    let e = trim_trailing_slashes(p, p.len() as int);
    let start = match crate::linter::last_index_before(p, 47u8, e) {
        Some(i) => i + 1,
        None => 0,
    };
    let name = p.subrange(start, e);
    if name.len() == 0 || name == encode_utf8(".."@) {
        None
    } else {
        Some(name)
    }
}

/// The final component of the path `p`, trailing slashes ignored.
/// `None` when that component is empty or is the parent-directory dots.
fn path_file_name(p: &[u8]) -> (r: Option<&[u8]>)
    ensures
        match r {
            Some(n) => file_name_spec(p@) == Some(n@) && n@.len() <= p@.len(),
            None => file_name_spec(p@) is None,
        },
{
    let mut e = p.len();
    while e > 0 && p[e - 1] == 47u8
        invariant
            e <= p@.len(),
            trim_trailing_slashes(p@, p@.len() as int) == trim_trailing_slashes(p@, e as int),
        decreases e,
    {
        e -= 1;
    }
    assert(e as int == trim_trailing_slashes(p@, p@.len() as int));
    let head = &p[0..e];
    assert(head@ =~= p@.subrange(0, e as int));
    let start = match crate::linter::rfind_byte(head, 47u8) {
        Some(i) => i + 1,
        None => 0,
    };
    proof {
        lemma_last_index_prefix(p@, 47u8, e as int);
    }
    let name = &p[start..e];
    assert(name@ =~= p@.subrange(start as int, e as int));
    if name.len() == 0 || bytes_eq(name, "..".as_bytes()) {
        None
    } else {
        Some(name)
    }
}

/// Searching a prefix for a byte is searching the whole within it.
proof fn lemma_last_index_prefix(p: Seq<u8>, b: u8, e: int)
    requires
        0 <= e <= p.len(),
    ensures
        crate::linter::last_index_before(p.subrange(0, e), b, e) == crate::linter::last_index_before(
            p,
            b,
            e,
        ),
    decreases e,
{
    if 0 < e {
        assert(p.subrange(0, e)[e - 1] == p[e - 1]);
        if p[e - 1] != b {
            lemma_last_index_prefix(p, b, e - 1);
            assert(p.subrange(0, e - 1) =~= p.subrange(0, e).subrange(0, e - 1));
            lemma_last_index_shrink(p.subrange(0, e), b, e - 1);
        }
    }
}

/// Scanning below the prefix's end ignores the dropped tail.
proof fn lemma_last_index_shrink(p: Seq<u8>, b: u8, upto: int)
    requires
        0 <= upto < p.len(),
    ensures
        crate::linter::last_index_before(p, b, upto) == crate::linter::last_index_before(
            p.subrange(0, upto),
            b,
            upto,
        ),
    decreases upto,
{
    if 0 < upto {
        assert(p.subrange(0, upto)[upto - 1] == p[upto - 1]);
        if p[upto - 1] != b {
            lemma_last_index_shrink(p, b, upto - 1);
            assert(p.subrange(0, upto - 1) =~= p.subrange(0, upto).subrange(0, upto - 1));
            lemma_last_index_shrink(p.subrange(0, upto), b, upto - 1);
        }
    }
}

/// The first capture of `caps` bearing the index `idx`.
pub open spec fn first_cap_with(caps: Seq<RawCapture>, idx: u32) -> Option<RawCapture>
    decreases caps.len(),
{
    if caps.len() == 0 {
        None
    } else if caps[0].index == idx {
        Some(caps[0])
    } else {
        first_cap_with(caps.drop_first(), idx)
    }
}

/// Appending a capture finds it only when the prefix held none.
proof fn lemma_first_cap_push(caps: Seq<RawCapture>, x: RawCapture, idx: u32)
    ensures
        first_cap_with(caps.push(x), idx) == match first_cap_with(caps, idx) {
            Some(c) => Some(c),
            None => if x.index == idx {
                Some(x)
            } else {
                None
            },
        },
    decreases caps.len(),
{
    if caps.len() == 0 {
        assert(caps.push(x)[0] == x);
        assert(caps.push(x).drop_first() =~= Seq::<RawCapture>::empty());
    } else {
        assert(caps.push(x)[0] == caps[0]);
        assert(caps.push(x).drop_first() =~= caps.drop_first().push(x));
        lemma_first_cap_push(caps.drop_first(), x, idx);
    }
}

/// The extent of a capture, where there is one.
pub open spec fn opt_cap_range(c: Option<RawCapture>) -> Option<Range> {
    match c {
        Some(cc) => Some(cc.range),
        None => None,
    }
}

/// The executable whose advice [`validate_bash`] gives, if any: from
/// the first match of its query, the first `command` capture's text is
/// taken as a path, its file name is the executable, and the advice
/// applies when a module alternative exists and the first argument does
/// not exempt it.
#[verifier::opaque]
pub open spec fn validate_bash_decision(tree: tree_sitter::Tree, src: Seq<u8>) -> Option<Seq<u8>> {
    let lang = language_handle("bash"@);
    if !crate::ts::query_compiles(lang, BASH_COMMAND_QUERY@) {
        None
    } else {
        let q = crate::ts::compiled_query(lang, BASH_COMMAND_QUERY@);
        let names = crate::ts::query_capture_names(q);
        match (
            crate::resolver::first_name_index(names, encode_utf8("command"@)),
            crate::resolver::first_name_index(names, encode_utf8("first-arg"@)),
        ) {
            (Some(ci), Some(ai)) => {
                let ms = crate::ts::matches_of(q, tree, src);
                if ms.len() == 0 {
                    None
                } else {
                    match first_cap_with(ms[0], ci) {
                        None => None,
                        Some(cc) => {
                            let ctext = src.subrange(
                                cc.range.start_byte as int,
                                cc.range.end_byte as int,
                            );
                            match file_name_spec(ctext) {
                                None => None,
                                Some(exe) => {
                                    let exempt = match first_cap_with(ms[0], ai) {
                                        Some(ac) => executable_option_allowed_spec(
                                            exe,
                                            src.subrange(
                                                ac.range.start_byte as int,
                                                ac.range.end_byte as int,
                                            ),
                                        ),
                                        None => false,
                                    };
                                    if module_alternative_spec(exe) is Some && !exempt {
                                        Some(exe)
                                    } else {
                                        None
                                    }
                                },
                            }
                        },
                    }
                }
            },
            _ => None,
        }
    }
}

/// Inspect one parsed shell command: when its executable has a module
/// equivalent and its first argument does not exempt it, the advice
/// message; `None` otherwise. Succeeds exactly when
/// [`validate_bash_decision`] names an executable, and the message is
/// that executable's advice.
#[verifier::rlimit(100)]
#[verifier::spinoff_prover]
pub fn validate_bash(tree: &tree_sitter::Tree, src: &[u8]) -> (r: Option<String>)
    requires
        crate::ts::tree_within(*tree, src@.len() as int),
    ensures
        r is Some <==> validate_bash_decision(*tree, src@) is Some,
        r matches Some(m) ==> ({
            let exe = validate_bash_decision(*tree, src@)->0;
            let b = advice_message(exe, module_alternative_spec(exe)->0);
            &&& (valid_utf8(b) ==> encode_utf8(m@) == b)
            &&& (!valid_utf8(b) ==> m@ == Seq::<char>::empty())
        }),
{
    let query = match query_new(bash_language(), BASH_COMMAND_QUERY) {
        Ok(q) => q,
        Err(_) => {
            proof {
                reveal(validate_bash_decision);
            }
            return None;
        },
    };
    let names = capture_names(&query);
    let command_idx = match crate::resolver::find_name_index(&names, "command") {
        Some(i) => i,
        None => {
            proof {
                reveal(validate_bash_decision);
            }
            return None;
        },
    };
    let first_arg_idx = match crate::resolver::find_name_index(&names, "first-arg") {
        Some(i) => i,
        None => {
            proof {
                reveal(validate_bash_decision);
            }
            return None;
        },
    };
    let matches = query_matches(&query, tree, src);
    let ghost msv = matches@.map_values(|mm: RawMatch| mm.captures@);
    if matches.len() == 0 {
        proof {
            reveal(validate_bash_decision);
        }
        return None;
    }
    let caps = &matches[0].captures;
    proof {
        assert(msv[0] == caps@);
    }
    let mut command_cap: Option<RawCapture> = None;
    let mut first_arg_cap: Option<RawCapture> = None;
    let mut c: usize = 0;
    while c < caps.len()
        invariant
            c <= caps@.len(),
            forall|j: int|
                0 <= j < caps@.len() ==> crate::ts::capture_ok(
                    #[trigger] caps@[j],
                    src@.len() as int,
                ),
            command_cap == first_cap_with(caps@.subrange(0, c as int), command_idx),
            first_arg_cap == first_cap_with(caps@.subrange(0, c as int), first_arg_idx),
            match command_cap {
                Some(cc) => crate::ts::capture_ok(cc, src@.len() as int),
                None => true,
            },
            match first_arg_cap {
                Some(ac) => crate::ts::capture_ok(ac, src@.len() as int),
                None => true,
            },
        decreases caps.len() - c,
    {
        let cap = caps[c];
        proof {
            assert(caps@.subrange(0, c as int).push(cap) =~= caps@.subrange(0, c as int + 1));
            lemma_first_cap_push(caps@.subrange(0, c as int), cap, command_idx);
            lemma_first_cap_push(caps@.subrange(0, c as int), cap, first_arg_idx);
        }
        if cap.index == command_idx && command_cap.is_none() {
            command_cap = Some(cap);
        }
        if cap.index == first_arg_idx && first_arg_cap.is_none() {
            first_arg_cap = Some(cap);
        }
        c += 1;
    }
    proof {
        assert(caps@.subrange(0, caps@.len() as int) =~= caps@);
    }
    let cc = match command_cap {
        Some(cc) => cc,
        None => {
            proof {
                reveal(validate_bash_decision);
            }
            return None;
        },
    };
    let command_text = &src[cc.range.start_byte..cc.range.end_byte];
    assert(command_text@ =~= src@.subrange(cc.range.start_byte as int, cc.range.end_byte as int));
    let exe = match path_file_name(command_text) {
        Some(e) => e,
        None => {
            proof {
                reveal(validate_bash_decision);
            }
            return None;
        },
    };
    proof {
        reveal(validate_bash_decision);
        let lang = language_handle("bash"@);
        let q = crate::ts::compiled_query(lang, BASH_COMMAND_QUERY@);
        assert(query == q);
        assert(crate::ts::matches_of(q, *tree, src@) == msv);
        assert(first_cap_with(msv[0], command_idx) == Some(cc));
        assert(file_name_spec(
            src@.subrange(cc.range.start_byte as int, cc.range.end_byte as int),
        ) == Some(exe@));
    }
    match first_arg_cap {
        Some(ac) => {
            let arg = &src[ac.range.start_byte..ac.range.end_byte];
            assert(arg@ =~= src@.subrange(ac.range.start_byte as int, ac.range.end_byte as int));
            let r = bash_command_advice(exe, Some(arg));
            proof {
                reveal(validate_bash_decision);
                if r is Some {
                    assert(validate_bash_decision(*tree, src@) == Some(exe@));
                } else {
                    assert(validate_bash_decision(*tree, src@) is None);
                }
            }
            r
        },
        None => {
            let r = bash_command_advice(exe, None);
            proof {
                reveal(validate_bash_decision);
                if r is Some {
                    assert(validate_bash_decision(*tree, src@) == Some(exe@));
                } else {
                    assert(validate_bash_decision(*tree, src@) is None);
                }
            }
            r
        },
    }
}

/// The advice a `value-node` capture draws, if any: the first injected
/// tree containing the capture is inspected as a shell command, and the
/// advice names the executable with a module alternative.
pub open spec fn cim_target(ctx: Context, cap: RawCapture, src: Seq<u8>) -> Option<
    (Range, Seq<u8>),
> {
    match crate::context::first_injected_from(ctx.injected_trees@, cap.range, 0) {
        None => None,
        Some(i) => {
            let t = ctx.injected_trees@[i];
            let slice = src.subrange(
                t.original_range.start_byte as int,
                t.original_range.end_byte as int,
            );
            match validate_bash_decision(t.tree, slice) {
                Some(exe) => Some((t.original_range, exe)),
                None => None,
            }
        },
    }
}

/// The expected advice occurrences: the captures that draw advice, in
/// order, each paired with its injected range and executable.
pub open spec fn cim_plan(ctx: Context, caps: Seq<RawCapture>, src: Seq<u8>) -> Seq<
    (Range, Seq<u8>),
>
    decreases caps.len(),
{
    if caps.len() == 0 {
        Seq::empty()
    } else {
        let rest = cim_plan(ctx, caps.drop_first(), src);
        match cim_target(ctx, caps[0], src) {
            Some(e) => seq![e] + rest,
            None => rest,
        }
    }
}

/// What [`command_instead_of_module`] returns: one occurrence per
/// `value-node` capture of its query whose injected shell command has a
/// module alternative, in order, at the injected range, with the advice
/// message.
pub open spec fn command_instead_of_module_post(
    r: Seq<Occurrence>,
    tree: tree_sitter::Tree,
    ctx: Context,
    src: Seq<u8>,
) -> bool {
    let plan = cim_plan(
        ctx,
        rule_captures(
            language_handle("yaml"@),
            COMMAND_INSTEAD_OF_MODULE_QUERY@,
            Some(encode_utf8("value-node"@)),
            tree,
            src,
        ),
        src,
    );
    &&& r.len() == plan.len()
    &&& forall|k: int|
        0 <= k < r.len() ==> {
            let b = advice_message(
                (#[trigger] plan[k]).1,
                module_alternative_spec(plan[k].1)->0,
            );
            &&& r[k].at == plan[k].0
            &&& r[k].lint.name@ == "command-instead-of-module"@
            &&& r[k].lint.code@ == "YML-W1006"@
            &&& (valid_utf8(b) ==> encode_utf8(r[k].message@) == b)
            &&& (!valid_utf8(b) ==> r[k].message@ == Seq::<char>::empty())
        }
}

/// A shell command, injected into a playbook, that an Ansible module
/// replaces: the advice names the module.
pub fn command_instead_of_module(tree: &tree_sitter::Tree, ctx: &Context, src: &[u8]) -> (r: Vec<
    Occurrence,
>)
    requires
        crate::ts::tree_within(*tree, src@.len() as int),
        ctx.wf(src@.len() as int),
    ensures
        occurrences_ok(r@, src@.len() as int),
        command_instead_of_module_post(r@, *tree, *ctx, src@),
{
    let captures = collect_captures(
        yaml_language(),
        COMMAND_INSTEAD_OF_MODULE_QUERY,
        Some("value-node"),
        tree,
        src,
    );
    let ghost capsv = captures@;
    let mut out: Vec<Occurrence> = Vec::new();
    let ghost mut planned: Seq<(Range, Seq<u8>)> = Seq::empty();
    proof {
        assert(capsv.skip(0) =~= capsv);
        assert(planned + cim_plan(*ctx, capsv.skip(0), src@) =~= cim_plan(*ctx, capsv, src@));
    }
    let mut k: usize = 0;
    while k < captures.len()
        invariant
            k <= capsv.len(),
            capsv == captures@,
            ctx.wf(src@.len() as int),
            forall|j: int|
                0 <= j < capsv.len() ==> crate::ts::capture_ok(
                    #[trigger] capsv[j],
                    src@.len() as int,
                ),
            cim_plan(*ctx, capsv, src@) == planned + cim_plan(*ctx, capsv.skip(k as int), src@),
            out@.len() == planned.len(),
            occurrences_ok(out@, src@.len() as int),
            forall|j: int|
                0 <= j < out@.len() ==> {
                    let b = advice_message(
                        (#[trigger] planned[j]).1,
                        module_alternative_spec(planned[j].1)->0,
                    );
                    &&& out@[j].at == planned[j].0
                    &&& out@[j].lint.name@ == "command-instead-of-module"@
                    &&& out@[j].lint.code@ == "YML-W1006"@
                    &&& (valid_utf8(b) ==> encode_utf8(out@[j].message@) == b)
                    &&& (!valid_utf8(b) ==> out@[j].message@ == Seq::<char>::empty())
                },
        decreases captures.len() - k,
    {
        let c = captures[k];
        proof {
            assert(capsv.skip(k as int)[0] == c);
            assert(capsv.skip(k as int).drop_first() =~= capsv.skip(k as int + 1));
        }
        match ctx.injected_tree_by_range(&c.range) {
            Some(injected) => {
                let rg = injected.original_range;
                proof {
                    crate::context::lemma_first_injected_bounds(ctx.injected_trees@, c.range, 0);
                    let i = crate::context::first_injected_from(ctx.injected_trees@, c.range, 0)->0;
                    assert(crate::injection::injected_tree_ok(
                        ctx.injected_trees@[i],
                        src@.len() as int,
                    ));
                }
                let slice = &src[rg.start_byte..rg.end_byte];
                assert(slice@ =~= src@.subrange(rg.start_byte as int, rg.end_byte as int));
                match validate_bash(&injected.tree, slice) {
                    Some(message) => {
                        let ghost exe = validate_bash_decision(injected.tree, slice@)->0;
                        proof {
                            assert(cim_target(*ctx, c, src@) == Some((rg, exe)));
                        }
                        out.push(
                            Lint {
                                name: "command-instead-of-module",
                                code: "YML-W1006",
                            }.raise(rg, message),
                        );
                        proof {
                            planned = planned.push((rg, exe));
                            assert(seq![(rg, exe)] + cim_plan(*ctx, capsv.skip(k as int + 1), src@)
                                =~= cim_plan(*ctx, capsv.skip(k as int), src@));
                            assert(planned + cim_plan(*ctx, capsv.skip(k as int + 1), src@)
                                =~= cim_plan(*ctx, capsv, src@));
                        }
                    },
                    None => {
                        proof {
                            assert(cim_target(*ctx, c, src@) is None);
                        }
                    },
                }
            },
            None => {
                proof {
                    assert(cim_target(*ctx, c, src@) is None);
                }
            },
        }
        k += 1;
    }
    proof {
        assert(capsv.skip(capsv.len() as int) =~= Seq::<RawCapture>::empty());
        assert(cim_plan(*ctx, capsv, src@) =~= planned);
    }
    out
}

/// What [`deprecated_local_action`] returns: one occurrence per `key`
/// capture of its query, in order, with the fixed message.
pub open spec fn deprecated_local_action_post(
    r: Seq<Occurrence>,
    tree: tree_sitter::Tree,
    src: Seq<u8>,
) -> bool {
    const_occurrences(
        r,
        rule_captures(
            language_handle("yaml"@),
            DEPRECATED_LOCAL_ACTION_QUERY@,
            Some(encode_utf8("key"@)),
            tree,
            src,
        ),
        "deprecated-local-action"@,
        "YML-W1002"@,
        "Prefer `delegate_to: localhost` instead of `local_action`"@,
    )
}

/// The deprecated `local_action` key.
pub fn deprecated_local_action(tree: &tree_sitter::Tree, ctx: &Context, src: &[u8]) -> (r: Vec<
    Occurrence,
>)
    requires
        crate::ts::tree_within(*tree, src@.len() as int),
        ctx.wf(src@.len() as int),
    ensures
        occurrences_ok(r@, src@.len() as int),
        deprecated_local_action_post(r@, *tree, src@),
{
    raise_const(
        yaml_language(),
        DEPRECATED_LOCAL_ACTION_QUERY,
        Lint { name: "deprecated-local-action", code: "YML-W1002" },
        Some("key"),
        "Prefer `delegate_to: localhost` instead of `local_action`",
        tree,
        src,
    )
}

/// What [`literal_compare`] returns: one occurrence per `bin-expr`
/// capture of its query, in order, with the fixed message.
pub open spec fn literal_compare_post(
    r: Seq<Occurrence>,
    tree: tree_sitter::Tree,
    src: Seq<u8>,
) -> bool {
    const_occurrences(
        r,
        rule_captures(
            language_handle("yaml"@),
            LITERAL_COMPARE_QUERY@,
            Some(encode_utf8("bin-expr"@)),
            tree,
            src,
        ),
        "literal-compare"@,
        "YML-W1005"@,
        "Consider using `when: var` or `when: not var` instead of boolean comparison"@,
    )
}

/// A `when:` condition compared against a boolean literal.
pub fn literal_compare(tree: &tree_sitter::Tree, ctx: &Context, src: &[u8]) -> (r: Vec<Occurrence>)
    requires
        crate::ts::tree_within(*tree, src@.len() as int),
        ctx.wf(src@.len() as int),
    ensures
        occurrences_ok(r@, src@.len() as int),
        literal_compare_post(r@, *tree, src@),
{
    raise_const(
        yaml_language(),
        LITERAL_COMPARE_QUERY,
        Lint { name: "literal-compare", code: "YML-W1005" },
        Some("bin-expr"),
        "Consider using `when: var` or `when: not var` instead of boolean comparison",
        tree,
        src,
    )
}

/// A `become_user` capture draws the warning when the scope it falls
/// in never defines `become`.
pub open spec fn partial_become_applies(ctx: Context, cap: RawCapture) -> bool {
    match ctx.scope_tree {
        None => false,
        Some(tr) => match tr@.scope_by_range_spec(cap.range) {
            None => false,
            Some(s) => tr@.first_def_named(s, encode_utf8("become"@)) is None,
        },
    }
}

/// The `become_user` captures the warning applies to, in order.
pub open spec fn partial_become_plan(ctx: Context, caps: Seq<RawCapture>) -> Seq<RawCapture>
    decreases caps.len(),
{
    if caps.len() == 0 {
        Seq::empty()
    } else {
        let rest = partial_become_plan(ctx, caps.drop_first());
        if partial_become_applies(ctx, caps[0]) {
            seq![caps[0]] + rest
        } else {
            rest
        }
    }
}

/// Without a scope tree nothing applies: the plan is empty.
proof fn lemma_partial_become_plan_no_tree(ctx: Context, caps: Seq<RawCapture>)
    requires
        ctx.scope_tree is None,
    ensures
        partial_become_plan(ctx, caps) == Seq::<RawCapture>::empty(),
    decreases caps.len(),
{
    if caps.len() > 0 {
        lemma_partial_become_plan_no_tree(ctx, caps.drop_first());
    }
}

/// What [`partial_become`] returns: one occurrence per `key` capture of
/// its query whose scope never defines `become`, in order, with the
/// fixed message.
pub open spec fn partial_become_post(
    r: Seq<Occurrence>,
    tree: tree_sitter::Tree,
    ctx: Context,
    src: Seq<u8>,
) -> bool {
    const_occurrences(
        r,
        partial_become_plan(
            ctx,
            rule_captures(
                language_handle("yaml"@),
                PARTIAL_BECOME_QUERY@,
                Some(encode_utf8("key"@)),
                tree,
                src,
            ),
        ),
        "partial-become"@,
        "YML-W1001"@,
        "Using `become_user` without `become`"@,
    )
}

/// `become_user` in a scope that never sets `become`.
pub fn partial_become(tree: &tree_sitter::Tree, ctx: &Context, src: &[u8]) -> (r: Vec<Occurrence>)
    requires
        crate::ts::tree_within(*tree, src@.len() as int),
        ctx.wf(src@.len() as int),
    ensures
        occurrences_ok(r@, src@.len() as int),
        partial_become_post(r@, *tree, *ctx, src@),
{
    let captures = collect_captures(yaml_language(), PARTIAL_BECOME_QUERY, Some("key"), tree, src);
    let ghost capsv = captures@;
    let t = match ctx.root_scope() {
        Some(t) => t,
        None => {
            let r: Vec<Occurrence> = Vec::new();
            proof {
                lemma_partial_become_plan_no_tree(*ctx, capsv);
                assert(r@ =~= Seq::<Occurrence>::empty());
            }
            return r;
        },
    };
    let mut out: Vec<Occurrence> = Vec::new();
    let ghost mut planned: Seq<RawCapture> = Seq::empty();
    proof {
        assert(capsv.skip(0) =~= capsv);
        assert(planned + partial_become_plan(*ctx, capsv.skip(0)) =~= partial_become_plan(
            *ctx,
            capsv,
        ));
    }
    let mut k: usize = 0;
    while k < captures.len()
        invariant
            k <= capsv.len(),
            capsv == captures@,
            ctx.scope_tree == Some(*t),
            t@.wf(),
            forall|j: int|
                0 <= j < capsv.len() ==> crate::ts::capture_ok(
                    #[trigger] capsv[j],
                    src@.len() as int,
                ),
            partial_become_plan(*ctx, capsv) == planned + partial_become_plan(
                *ctx,
                capsv.skip(k as int),
            ),
            out@.len() == planned.len(),
            occurrences_ok(out@, src@.len() as int),
            forall|j: int|
                0 <= j < out@.len() ==> {
                    &&& (#[trigger] out@[j]).at == planned[j].range
                    &&& out@[j].lint.name@ == "partial-become"@
                    &&& out@[j].lint.code@ == "YML-W1001"@
                    &&& out@[j].message@ == "Using `become_user` without `become`"@
                },
        decreases captures.len() - k,
    {
        let c = captures[k];
        proof {
            assert(capsv.skip(k as int)[0] == c);
            assert(capsv.skip(k as int).drop_first() =~= capsv.skip(k as int + 1));
        }
        let applies = match t.scope_by_range(&c.range) {
            Some(s) => t.find_def_named(s, "become".as_bytes()).is_none(),
            None => false,
        };
        proof {
            assert(applies == partial_become_applies(*ctx, c));
        }
        if applies {
            out.push(
                Lint { name: "partial-become", code: "YML-W1001" }.raise(
                    c.range,
                    "Using `become_user` without `become`".to_owned(),
                ),
            );
            proof {
                planned = planned.push(c);
                assert(seq![c] + partial_become_plan(*ctx, capsv.skip(k as int + 1))
                    =~= partial_become_plan(*ctx, capsv.skip(k as int)));
                assert(planned + partial_become_plan(*ctx, capsv.skip(k as int + 1))
                    =~= partial_become_plan(*ctx, capsv));
            }
        }
        k += 1;
    }
    proof {
        assert(capsv.skip(capsv.len() as int) =~= Seq::<RawCapture>::empty());
        assert(partial_become_plan(*ctx, capsv) =~= planned);
    }
    out
}

/// The last capture of `caps` bearing the index `idx`.
pub open spec fn last_cap_with(caps: Seq<RawCapture>, idx: u32) -> Option<RawCapture>
    decreases caps.len(),
{
    if caps.len() == 0 {
        None
    } else if caps.last().index == idx {
        Some(caps.last())
    } else {
        last_cap_with(caps.drop_last(), idx)
    }
}

/// Appending a capture makes it the last of its index.
proof fn lemma_last_cap_push(caps: Seq<RawCapture>, x: RawCapture, idx: u32)
    ensures
        last_cap_with(caps.push(x), idx) == if x.index == idx {
            Some(x)
        } else {
            last_cap_with(caps, idx)
        },
{
    assert(caps.push(x).last() == x);
    assert(caps.push(x).drop_last() =~= caps);
}

/// The verdict of one match: from the last captures of the three names,
/// the git warning when a `git` checkout sits at `version: latest`, the
/// mercurial warning when an `hg` checkout sits at `revision: default`,
/// nothing otherwise. The warning sits at the version key's range.
pub open spec fn vcs_verdict(
    caps: Seq<RawCapture>,
    vcs_idx: u32,
    vnode_idx: u32,
    vvalue_idx: u32,
    src: Seq<u8>,
) -> Option<(bool, Range)> {
    match (
        last_cap_with(caps, vcs_idx),
        last_cap_with(caps, vnode_idx),
        last_cap_with(caps, vvalue_idx),
    ) {
        (Some(vc), Some(nc), Some(vv)) => {
            let vcs_t = src.subrange(vc.range.start_byte as int, vc.range.end_byte as int);
            let n_t = src.subrange(nc.range.start_byte as int, nc.range.end_byte as int);
            let v_t = src.subrange(vv.range.start_byte as int, vv.range.end_byte as int);
            if n_t == encode_utf8("version"@) && v_t == encode_utf8("latest"@)
                && is_ansible_builtin_spec(vcs_t, encode_utf8("git"@)) {
                Some((true, nc.range))
            } else if n_t == encode_utf8("revision"@) && v_t == encode_utf8("default"@)
                && is_ansible_builtin_spec(vcs_t, encode_utf8("hg"@)) {
                Some((false, nc.range))
            } else {
                None
            }
        },
        _ => None,
    }
}

/// The expected warnings, one per match that draws a verdict, in order.
pub open spec fn vcs_plan(
    ms: Seq<Seq<RawCapture>>,
    vcs_idx: u32,
    vnode_idx: u32,
    vvalue_idx: u32,
    src: Seq<u8>,
) -> Seq<(bool, Range)>
    decreases ms.len(),
{
    if ms.len() == 0 {
        Seq::empty()
    } else {
        let rest = vcs_plan(ms.drop_first(), vcs_idx, vnode_idx, vvalue_idx, src);
        match vcs_verdict(ms[0], vcs_idx, vnode_idx, vvalue_idx, src) {
            Some(v) => seq![v] + rest,
            None => rest,
        }
    }
}

/// One occurrence is one verdict's warning: the git triple or the
/// mercurial triple, at the version key's range.
pub open spec fn vcs_occurrence_matches(o: Occurrence, v: (bool, Range)) -> bool {
    &&& o.at == v.1
    &&& if v.0 {
        o.lint.name@ == "git-latest"@ && o.lint.code@ == "YML-W1003"@ && o.message@
            == "This git checkout does not contain an explicit version"@
    } else {
        o.lint.name@ == "hg-latest"@ && o.lint.code@ == "YML-W1004"@ && o.message@
            == "This mercurial checkout does not contain an explicit version"@
    }
}

/// What [`vcs_latest`] returns: one warning per match of its query that
/// draws a verdict, in order; empty when the query does not compile or
/// lacks one of its three capture names.
pub open spec fn vcs_latest_post(r: Seq<Occurrence>, tree: tree_sitter::Tree, src: Seq<u8>) -> bool {
    let lang = language_handle("yaml"@);
    if !crate::ts::query_compiles(lang, VCS_LATEST_QUERY@) {
        r.len() == 0
    } else {
        let q = crate::ts::compiled_query(lang, VCS_LATEST_QUERY@);
        let names = crate::ts::query_capture_names(q);
        match (
            crate::resolver::first_name_index(names, encode_utf8("vcs-node"@)),
            crate::resolver::first_name_index(names, encode_utf8("version-node"@)),
            crate::resolver::first_name_index(names, encode_utf8("version-value"@)),
        ) {
            (Some(a), Some(b), Some(cc)) => {
                let plan = vcs_plan(crate::ts::matches_of(q, tree, src), a, b, cc, src);
                &&& r.len() == plan.len()
                &&& forall|k: int|
                    0 <= k < r.len() ==> vcs_occurrence_matches(r[k], #[trigger] plan[k])
            },
            _ => r.len() == 0,
        }
    }
}

/// A git checkout at `version: latest` or a mercurial checkout at
/// `revision: default`: neither pins an explicit version.
pub fn vcs_latest(tree: &tree_sitter::Tree, ctx: &Context, src: &[u8]) -> (r: Vec<Occurrence>)
    requires
        crate::ts::tree_within(*tree, src@.len() as int),
        ctx.wf(src@.len() as int),
    ensures
        occurrences_ok(r@, src@.len() as int),
        vcs_latest_post(r@, *tree, src@),
{
    let query = match query_new(yaml_language(), VCS_LATEST_QUERY) {
        Ok(q) => q,
        Err(_) => {
            return Vec::new();
        },
    };
    let names = capture_names(&query);
    let vcs_idx = crate::resolver::find_name_index(&names, "vcs-node");
    let vnode_idx = crate::resolver::find_name_index(&names, "version-node");
    let vvalue_idx = crate::resolver::find_name_index(&names, "version-value");
    let (vcs_idx, vnode_idx, vvalue_idx) = match (vcs_idx, vnode_idx, vvalue_idx) {
        (Some(a), Some(b), Some(cc)) => (a, b, cc),
        _ => {
            return Vec::new();
        },
    };
    let matches = query_matches(&query, tree, src);
    let ghost msv = matches@.map_values(|mm: RawMatch| mm.captures@);
    let mut out: Vec<Occurrence> = Vec::new();
    let ghost mut planned: Seq<(bool, Range)> = Seq::empty();
    proof {
        assert(msv.skip(0) =~= msv);
        assert(planned + vcs_plan(msv.skip(0), vcs_idx, vnode_idx, vvalue_idx, src@) =~= vcs_plan(
            msv,
            vcs_idx,
            vnode_idx,
            vvalue_idx,
            src@,
        ));
    }
    let mut m: usize = 0;
    while m < matches.len()
        invariant
            m <= matches@.len(),
            msv == matches@.map_values(|mm: RawMatch| mm.captures@),
            forall|i: int, j: int|
                0 <= i < matches@.len() && 0 <= j < matches@[i].captures@.len()
                    ==> crate::ts::capture_ok(
                    #[trigger] matches@[i].captures@[j],
                    src@.len() as int,
                ),
            vcs_plan(msv, vcs_idx, vnode_idx, vvalue_idx, src@) == planned + vcs_plan(
                msv.skip(m as int),
                vcs_idx,
                vnode_idx,
                vvalue_idx,
                src@,
            ),
            out@.len() == planned.len(),
            occurrences_ok(out@, src@.len() as int),
            forall|k: int|
                0 <= k < out@.len() ==> vcs_occurrence_matches(out@[k], #[trigger] planned[k]),
        decreases matches.len() - m,
    {
        let caps = &matches[m].captures;
        proof {
            assert(msv.skip(m as int)[0] == caps@);
            assert(msv.skip(m as int).drop_first() =~= msv.skip(m as int + 1));
        }
        let mut vcs: Option<RawCapture> = None;
        let mut vnode: Option<RawCapture> = None;
        let mut vvalue: Option<RawCapture> = None;
        let mut c: usize = 0;
        while c < caps.len()
            invariant
                c <= caps@.len(),
                forall|j: int|
                    0 <= j < caps@.len() ==> crate::ts::capture_ok(
                        #[trigger] caps@[j],
                        src@.len() as int,
                    ),
                vcs == last_cap_with(caps@.subrange(0, c as int), vcs_idx),
                vnode == last_cap_with(caps@.subrange(0, c as int), vnode_idx),
                vvalue == last_cap_with(caps@.subrange(0, c as int), vvalue_idx),
                match vcs {
                    Some(x) => crate::ts::capture_ok(x, src@.len() as int),
                    None => true,
                },
                match vnode {
                    Some(x) => crate::ts::capture_ok(x, src@.len() as int),
                    None => true,
                },
                match vvalue {
                    Some(x) => crate::ts::capture_ok(x, src@.len() as int),
                    None => true,
                },
            decreases caps.len() - c,
        {
            let cap = caps[c];
            proof {
                assert(caps@.subrange(0, c as int).push(cap) =~= caps@.subrange(0, c as int + 1));
                lemma_last_cap_push(caps@.subrange(0, c as int), cap, vcs_idx);
                lemma_last_cap_push(caps@.subrange(0, c as int), cap, vnode_idx);
                lemma_last_cap_push(caps@.subrange(0, c as int), cap, vvalue_idx);
            }
            if cap.index == vcs_idx {
                vcs = Some(cap);
            }
            if cap.index == vnode_idx {
                vnode = Some(cap);
            }
            if cap.index == vvalue_idx {
                vvalue = Some(cap);
            }
            c += 1;
        }
        proof {
            assert(caps@.subrange(0, caps@.len() as int) =~= caps@);
        }
        let ghost verdict = vcs_verdict(caps@, vcs_idx, vnode_idx, vvalue_idx, src@);
        match (vcs, vnode, vvalue) {
            (Some(vcs_c), Some(vnode_c), Some(vvalue_c)) => {
                let vcs_text = &src[vcs_c.range.start_byte..vcs_c.range.end_byte];
                let vnode_text = &src[vnode_c.range.start_byte..vnode_c.range.end_byte];
                let vvalue_text = &src[vvalue_c.range.start_byte..vvalue_c.range.end_byte];
                assert(vcs_text@ =~= src@.subrange(
                    vcs_c.range.start_byte as int,
                    vcs_c.range.end_byte as int,
                ));
                assert(vnode_text@ =~= src@.subrange(
                    vnode_c.range.start_byte as int,
                    vnode_c.range.end_byte as int,
                ));
                assert(vvalue_text@ =~= src@.subrange(
                    vvalue_c.range.start_byte as int,
                    vvalue_c.range.end_byte as int,
                ));
                if bytes_eq(vnode_text, "version".as_bytes()) && bytes_eq(
                    vvalue_text,
                    "latest".as_bytes(),
                ) && is_builtin_bytes(vcs_text, "git".as_bytes()) {
                    proof {
                        assert(verdict == Some((true, vnode_c.range)));
                    }
                    out.push(
                        Lint { name: "git-latest", code: "YML-W1003" }.raise(
                            vnode_c.range,
                            "This git checkout does not contain an explicit version".to_owned(),
                        ),
                    );
                    proof {
                        planned = planned.push((true, vnode_c.range));
                        assert(seq![(true, vnode_c.range)] + vcs_plan(
                            msv.skip(m as int + 1),
                            vcs_idx,
                            vnode_idx,
                            vvalue_idx,
                            src@,
                        ) =~= vcs_plan(msv.skip(m as int), vcs_idx, vnode_idx, vvalue_idx, src@));
                        assert(planned + vcs_plan(
                            msv.skip(m as int + 1),
                            vcs_idx,
                            vnode_idx,
                            vvalue_idx,
                            src@,
                        ) =~= vcs_plan(msv, vcs_idx, vnode_idx, vvalue_idx, src@));
                    }
                } else if bytes_eq(vnode_text, "revision".as_bytes()) && bytes_eq(
                    vvalue_text,
                    "default".as_bytes(),
                ) && is_builtin_bytes(vcs_text, "hg".as_bytes()) {
                    proof {
                        assert(verdict == Some((false, vnode_c.range)));
                    }
                    out.push(
                        Lint { name: "hg-latest", code: "YML-W1004" }.raise(
                            vnode_c.range,
                            "This mercurial checkout does not contain an explicit version".to_owned(),
                        ),
                    );
                    proof {
                        planned = planned.push((false, vnode_c.range));
                        assert(seq![(false, vnode_c.range)] + vcs_plan(
                            msv.skip(m as int + 1),
                            vcs_idx,
                            vnode_idx,
                            vvalue_idx,
                            src@,
                        ) =~= vcs_plan(msv.skip(m as int), vcs_idx, vnode_idx, vvalue_idx, src@));
                        assert(planned + vcs_plan(
                            msv.skip(m as int + 1),
                            vcs_idx,
                            vnode_idx,
                            vvalue_idx,
                            src@,
                        ) =~= vcs_plan(msv, vcs_idx, vnode_idx, vvalue_idx, src@));
                    }
                } else {
                    proof {
                        assert(verdict is None);
                    }
                }
            },
            _ => {
                proof {
                    assert(verdict is None);
                }
            },
        }
        m += 1;
    }
    proof {
        assert(msv.skip(msv.len() as int) =~= Seq::<Seq<RawCapture>>::empty());
        assert(vcs_plan(msv, vcs_idx, vnode_idx, vvalue_idx, src@) =~= planned);
    }
    out
}

/// `is_ansible_builtin` over raw bytes.
fn is_builtin_bytes(ident: &[u8], builtin: &[u8]) -> (r: bool)
    ensures
        r == is_ansible_builtin_spec(ident@, builtin@),
{
    let pre = "ansible.builtin".as_bytes();
    if ident.len() >= pre.len() {
        let head = &ident[0..pre.len()];
        assert(head@ =~= ident@.subrange(0, pre@.len() as int));
        if bytes_eq(head, pre) {
            let rest = &ident[pre.len()..ident.len()];
            assert(rest@ =~= ident@.subrange(pre@.len() as int, ident@.len() as int));
            return bytes_eq(rest, builtin);
        }
    }
    bytes_eq(ident, builtin)
}

/// Among scope `s`'s definition pairs `(j, i)` with `j < i < iupto` and
/// equal names, scanning `i` from the top and `j` from the top within
/// it, the first pair whose later range is well formed, wire-safe and
/// within a source of length `n`: the duplicate the rule reports.
pub open spec fn dup_j(
    t: crate::scope::SpecTree,
    s: int,
    i: int,
    jupto: int,
    n: int,
) -> Option<(Seq<u8>, Range)>
    decreases jupto,
{
    if 0 < jupto {
        let di = t.scopes[s].local_defs[i];
        let dj = t.scopes[s].local_defs[jupto - 1];
        if 0 <= di < t.defs.len() && 0 <= dj < t.defs.len() && t.defs[di].name == t.defs[dj].name
            && t.defs[di].def_range.wire_safe() && t.defs[di].def_range.wf()
            && t.defs[di].def_range.end_byte <= n {
            Some((t.defs[dj].name, t.defs[di].def_range))
        } else {
            dup_j(t, s, i, jupto - 1, n)
        }
    } else {
        None
    }
}

/// The duplicate pair of scope `s` among its first `iupto` definitions,
/// later pairs taking precedence.
pub open spec fn dup_in_scope(
    t: crate::scope::SpecTree,
    s: int,
    iupto: int,
    n: int,
) -> Option<(Seq<u8>, Range)>
    decreases iupto,
{
    if 0 < iupto {
        match dup_j(t, s, iupto - 1, iupto - 1, n) {
            Some(p) => Some(p),
            None => dup_in_scope(t, s, iupto - 1, n),
        }
    } else {
        None
    }
}

/// The duplicate key a `block_node` capture reports, if any: found in
/// the deepest scope containing the capture.
pub open spec fn dup_target(ctx: Context, cap: RawCapture, n: int) -> Option<(Seq<u8>, Range)> {
    match ctx.scope_tree {
        None => None,
        Some(tr) => match tr@.scope_by_range_spec(cap.range) {
            None => None,
            Some(s) => dup_in_scope(tr@, s, tr@.scopes[s].local_defs.len() as int, n),
        },
    }
}

/// The expected duplicate-key occurrences: the captures whose scope
/// holds a duplicate, in order, each paired with the duplicate's name
/// and the later definition's range.
pub open spec fn dup_plan(ctx: Context, caps: Seq<RawCapture>, n: int) -> Seq<(Seq<u8>, Range)>
    decreases caps.len(),
{
    if caps.len() == 0 {
        Seq::empty()
    } else {
        let rest = dup_plan(ctx, caps.drop_first(), n);
        match dup_target(ctx, caps[0], n) {
            Some(p) => seq![p] + rest,
            None => rest,
        }
    }
}

/// Without a scope tree nothing duplicates: the plan is empty.
proof fn lemma_dup_plan_no_tree(ctx: Context, caps: Seq<RawCapture>, n: int)
    requires
        ctx.scope_tree is None,
    ensures
        dup_plan(ctx, caps, n) == Seq::<(Seq<u8>, Range)>::empty(),
    decreases caps.len(),
{
    if caps.len() > 0 {
        lemma_dup_plan_no_tree(ctx, caps.drop_first(), n);
    }
}

/// The duplicate-key message: `Duplicate key `<name>`, already defined
/// on line <l>, col <c>` with the later definition's 1-based position.
pub open spec fn duplicate_key_message(name: Seq<u8>, line: nat, col: nat) -> Seq<u8> {
    encode_utf8("Duplicate key `"@) + name + encode_utf8("`, already defined on line "@)
        + crate::text::decimal_bytes(line) + encode_utf8(", col "@) + crate::text::decimal_bytes(
        col,
    )
}

/// What [`variable_shadowing`] returns: one occurrence per `raise`
/// capture of its query whose scope holds a duplicate key, in order, at
/// the later definition's range, with the duplicate-key message.
pub open spec fn variable_shadowing_post(
    r: Seq<Occurrence>,
    tree: tree_sitter::Tree,
    ctx: Context,
    src: Seq<u8>,
) -> bool {
    let plan = dup_plan(
        ctx,
        rule_captures(
            language_handle("yaml"@),
            VARIABLE_SHADOWING_QUERY@,
            Some(encode_utf8("raise"@)),
            tree,
            src,
        ),
        src.len() as int,
    );
    &&& r.len() == plan.len()
    &&& forall|k: int|
        0 <= k < r.len() ==> {
            let msg = duplicate_key_message(
                (#[trigger] plan[k]).0,
                (plan[k].1.start_point.row + 1) as nat,
                (plan[k].1.start_point.column + 1) as nat,
            );
            &&& r[k].at == plan[k].1
            &&& r[k].lint.name@ == "variable shadowing"@
            &&& r[k].lint.code@ == "YML-W1000"@
            &&& (valid_utf8(msg) ==> encode_utf8(r[k].message@) == msg)
            &&& (!valid_utf8(msg) ==> r[k].message@ == Seq::<char>::empty())
        }
}

/// A mapping key repeated within one scope: the later occurrence is
/// flagged.
pub fn variable_shadowing(tree: &tree_sitter::Tree, ctx: &Context, src: &[u8]) -> (r: Vec<
    Occurrence,
>)
    requires
        crate::ts::tree_within(*tree, src@.len() as int),
        ctx.wf(src@.len() as int),
    ensures
        occurrences_ok(r@, src@.len() as int),
        variable_shadowing_post(r@, *tree, *ctx, src@),
{
    let captures = collect_captures(
        yaml_language(),
        VARIABLE_SHADOWING_QUERY,
        Some("raise"),
        tree,
        src,
    );
    let ghost capsv = captures@;
    let t = match ctx.root_scope() {
        Some(t) => t,
        None => {
            let r: Vec<Occurrence> = Vec::new();
            proof {
                lemma_dup_plan_no_tree(*ctx, capsv, src@.len() as int);
                assert(r@ =~= Seq::<Occurrence>::empty());
            }
            return r;
        },
    };
    let mut out: Vec<Occurrence> = Vec::new();
    let ghost mut planned: Seq<(Seq<u8>, Range)> = Seq::empty();
    proof {
        assert(capsv.skip(0) =~= capsv);
        assert(planned + dup_plan(*ctx, capsv.skip(0), src@.len() as int) =~= dup_plan(
            *ctx,
            capsv,
            src@.len() as int,
        ));
    }
    let mut k: usize = 0;
    while k < captures.len()
        invariant
            k <= capsv.len(),
            capsv == captures@,
            ctx.scope_tree == Some(*t),
            t@.wf(),
            t.scopes.len() == t@.scopes.len(),
            forall|j: int|
                0 <= j < capsv.len() ==> crate::ts::capture_ok(
                    #[trigger] capsv[j],
                    src@.len() as int,
                ),
            dup_plan(*ctx, capsv, src@.len() as int) == planned + dup_plan(
                *ctx,
                capsv.skip(k as int),
                src@.len() as int,
            ),
            out@.len() == planned.len(),
            occurrences_ok(out@, src@.len() as int),
            forall|j: int|
                0 <= j < out@.len() ==> {
                    let msg = duplicate_key_message(
                        (#[trigger] planned[j]).0,
                        (planned[j].1.start_point.row + 1) as nat,
                        (planned[j].1.start_point.column + 1) as nat,
                    );
                    &&& out@[j].at == planned[j].1
                    &&& out@[j].lint.name@ == "variable shadowing"@
                    &&& out@[j].lint.code@ == "YML-W1000"@
                    &&& (valid_utf8(msg) ==> encode_utf8(out@[j].message@) == msg)
                    &&& (!valid_utf8(msg) ==> out@[j].message@ == Seq::<char>::empty())
                },
        decreases captures.len() - k,
    {
        let c = captures[k];
        proof {
            assert(capsv.skip(k as int)[0] == c);
            assert(capsv.skip(k as int).drop_first() =~= capsv.skip(k as int + 1));
        }
        let mut dup: Option<(usize, Range)> = None;
        let ghost mut dupg: Option<(Seq<u8>, Range)> = None;
        match t.scope_by_range(&c.range) {
            Some(s) => {
                let n = t.scopes[s].local_defs.len();
                let mut i: usize = 0;
                while i < n
                    invariant
                        t@.wf(),
                        t.scopes.len() == t@.scopes.len(),
                        s < t.scopes.len(),
                        n == t@.scopes[s as int].local_defs.len(),
                        i <= n,
                        dupg == dup_in_scope(t@, s as int, i as int, src@.len() as int),
                        match (dup, dupg) {
                            (Some((dj, rg)), Some(p)) => dj < t.defs.len() && t.defs@[dj as int]@.name
                                == p.0 && rg == p.1 && rg.wf() && rg.wire_safe() && rg.end_byte
                                <= src@.len(),
                            (None, None) => true,
                            _ => false,
                        },
                    decreases n - i,
                {
                    let di = t.scopes[s].local_defs[i];
                    assert(di as int == t@.scopes[s as int].local_defs[i as int]);
                    assert(di < t.defs.len());
                    let mut found: Option<(usize, Range)> = None;
                    let ghost mut foundg: Option<(Seq<u8>, Range)> = None;
                    let mut j: usize = 0;
                    while j < i
                        invariant
                            t@.wf(),
                            t.scopes.len() == t@.scopes.len(),
                            s < t.scopes.len(),
                            i < n == t@.scopes[s as int].local_defs.len(),
                            di < t.defs.len(),
                            di as int == t@.scopes[s as int].local_defs[i as int],
                            j <= i,
                            foundg == dup_j(t@, s as int, i as int, j as int, src@.len() as int),
                            match (found, foundg) {
                                (Some((dj, rg)), Some(p)) => dj < t.defs.len() && t.defs@[dj as int]@.name
                                    == p.0 && rg == p.1 && rg.wf() && rg.wire_safe() && rg.end_byte
                                    <= src@.len(),
                                (None, None) => true,
                                _ => false,
                            },
                        decreases i - j,
                    {
                        let dj = t.scopes[s].local_defs[j];
                        assert(dj as int == t@.scopes[s as int].local_defs[j as int]);
                        assert(dj < t.defs.len());
                        if bytes_eq(t.defs[di].name.as_slice(), t.defs[dj].name.as_slice()) {
                            let rg = t.defs[di].def_range;
                            if rg.is_wire_safe() && rg.start_byte <= rg.end_byte && rg.end_byte
                                <= src.len() {
                                found = Some((dj, rg));
                                proof {
                                    foundg = Some((t.defs@[dj as int]@.name, rg));
                                }
                            }
                        }
                        j += 1;
                    }
                    match found {
                        Some(p) => {
                            dup = Some(p);
                            proof {
                                dupg = foundg;
                            }
                        },
                        None => {},
                    }
                    i += 1;
                }
                proof {
                    assert(dupg == dup_target(*ctx, c, src@.len() as int));
                    assert(match (dup, dupg) {
                        (Some((dj2, rg2)), Some(p)) => dj2 < t.defs.len() && t.defs@[dj2 as int]@.name
                            == p.0 && rg2 == p.1 && rg2.wf() && rg2.wire_safe() && rg2.end_byte
                            <= src@.len(),
                        (None, None) => true,
                        _ => false,
                    });
                }
            },
            None => {
                proof {
                    assert(dupg == dup_target(*ctx, c, src@.len() as int));
                    assert(match (dup, dupg) {
                        (Some((dj2, rg2)), Some(p)) => dj2 < t.defs.len() && t.defs@[dj2 as int]@.name
                            == p.0 && rg2 == p.1 && rg2.wf() && rg2.wire_safe() && rg2.end_byte
                            <= src@.len(),
                        (None, None) => true,
                        _ => false,
                    });
                }
            },
        }
        match dup {
            Some((dj, rg)) => {
                let line = inc_sat(rg.start_point.row);
                let col = inc_sat(rg.start_point.column);
                let mut msg: Vec<u8> = Vec::new();
                push_str_bytes(&mut msg, "Duplicate key `");
                push_tail(&mut msg, t.defs[dj].name.as_slice(), 0);
                push_str_bytes(&mut msg, "`, already defined on line ");
                push_decimal(&mut msg, line);
                push_str_bytes(&mut msg, ", col ");
                push_decimal(&mut msg, col);
                proof {
                    assert(msg@ =~= duplicate_key_message(
                        (dupg->0).0,
                        line as nat,
                        col as nat,
                    ));
                }
                out.push(
                    Lint { name: "variable shadowing", code: "YML-W1000" }.raise(
                        rg,
                        string_from_utf8_or_empty(msg),
                    ),
                );
                proof {
                    let planned0 = planned;
                    planned = planned.push(dupg->0);
                    assert(seq![dupg->0] + dup_plan(*ctx, capsv.skip(k as int + 1), src@.len() as int)
                        =~= dup_plan(*ctx, capsv.skip(k as int), src@.len() as int));
                    assert(planned + dup_plan(*ctx, capsv.skip(k as int + 1), src@.len() as int)
                        =~= dup_plan(*ctx, capsv, src@.len() as int));
                    assert forall|j: int| 0 <= j < out@.len() implies {
                        let msg2 = duplicate_key_message(
                            (#[trigger] planned[j]).0,
                            (planned[j].1.start_point.row + 1) as nat,
                            (planned[j].1.start_point.column + 1) as nat,
                        );
                        &&& out@[j].at == planned[j].1
                        &&& out@[j].lint.name@ == "variable shadowing"@
                        &&& out@[j].lint.code@ == "YML-W1000"@
                        &&& (valid_utf8(msg2) ==> encode_utf8(out@[j].message@) == msg2)
                        &&& (!valid_utf8(msg2) ==> out@[j].message@ == Seq::<char>::empty())
                    } by {
                        if j < out@.len() - 1 {
                            assert(planned[j] == planned0[j]);
                        } else {
                            assert(planned[j] == dupg->0);
                            assert(out@[j] == out@.last());
                        }
                    }
                }
            },
            None => {},
        }
        proof {
            assert(forall|j: int|
                0 <= j < out@.len() ==> {
                    let msg = duplicate_key_message(
                        (#[trigger] planned[j]).0,
                        (planned[j].1.start_point.row + 1) as nat,
                        (planned[j].1.start_point.column + 1) as nat,
                    );
                    &&& out@[j].at == planned[j].1
                    &&& out@[j].lint.name@ == "variable shadowing"@
                    &&& out@[j].lint.code@ == "YML-W1000"@
                    &&& (valid_utf8(msg) ==> encode_utf8(out@[j].message@) == msg)
                    &&& (!valid_utf8(msg) ==> out@[j].message@ == Seq::<char>::empty())
                });
        }
        k += 1;
    }
    proof {
        assert(capsv.skip(capsv.len() as int) =~= Seq::<RawCapture>::empty());
        assert(dup_plan(*ctx, capsv, src@.len() as int) =~= planned);
        let plan = dup_plan(
            *ctx,
            rule_captures(
                language_handle("yaml"@),
                VARIABLE_SHADOWING_QUERY@,
                Some(encode_utf8("raise"@)),
                *tree,
                src@,
            ),
            src@.len() as int,
        );
        assert(plan == planned);
        assert forall|k: int| 0 <= k < out@.len() implies {
            let msg = duplicate_key_message(
                (#[trigger] plan[k]).0,
                (plan[k].1.start_point.row + 1) as nat,
                (plan[k].1.start_point.column + 1) as nat,
            );
            &&& out@[k].at == plan[k].1
            &&& out@[k].lint.name@ == "variable shadowing"@
            &&& out@[k].lint.code@ == "YML-W1000"@
            &&& (valid_utf8(msg) ==> encode_utf8(out@[k].message@) == msg)
            &&& (!valid_utf8(msg) ==> out@[k].message@ == Seq::<char>::empty())
        } by {
            assert(plan[k] == planned[k]);
        }
        assert(variable_shadowing_post(out@, *tree, *ctx, src@));
    }
    out
}


/// Law: the duplicate-key rule is deterministic. Any two occurrence
/// lists meeting its description agree observably.
pub proof fn lemma_variable_shadowing_post_deterministic(
    r1: Seq<Occurrence>,
    r2: Seq<Occurrence>,
    tree: tree_sitter::Tree,
    ctx: Context,
    src: Seq<u8>,
)
    requires
        variable_shadowing_post(r1, tree, ctx, src),
        variable_shadowing_post(r2, tree, ctx, src),
    ensures
        crate::rules::occs_similar(r1, r2),
{
    let plan = dup_plan(
        ctx,
        crate::rules::rule_captures(
            language_handle("yaml"@),
            VARIABLE_SHADOWING_QUERY@,
            Some(encode_utf8("raise"@)),
            tree,
            src,
        ),
        src.len() as int,
    );
    assert forall|k: int| 0 <= k < r1.len() implies {
        &&& (#[trigger] r1[k]).at == r2[k].at
        &&& r1[k].lint.name@ == r2[k].lint.name@
        &&& r1[k].lint.code@ == r2[k].lint.code@
        &&& encode_utf8(r1[k].message@) == encode_utf8(r2[k].message@)
    } by {
        assert(plan[k] == plan[k]);
        let msg = duplicate_key_message(
            plan[k].0,
            (plan[k].1.start_point.row + 1) as nat,
            (plan[k].1.start_point.column + 1) as nat,
        );
        if !valid_utf8(msg) {
            assert(r1[k].message@ == Seq::<char>::empty());
            assert(r2[k].message@ == Seq::<char>::empty());
        }
    }
}

/// Law: the version-pinning rule is deterministic. Any two occurrence
/// lists meeting its description agree observably.
pub proof fn lemma_vcs_latest_post_deterministic(
    r1: Seq<Occurrence>,
    r2: Seq<Occurrence>,
    tree: tree_sitter::Tree,
    src: Seq<u8>,
)
    requires
        vcs_latest_post(r1, tree, src),
        vcs_latest_post(r2, tree, src),
    ensures
        crate::rules::occs_similar(r1, r2),
{
    let lang = language_handle("yaml"@);
    if crate::ts::query_compiles(lang, VCS_LATEST_QUERY@) {
        let q = crate::ts::compiled_query(lang, VCS_LATEST_QUERY@);
        let names = crate::ts::query_capture_names(q);
        match (
            crate::resolver::first_name_index(names, encode_utf8("vcs-node"@)),
            crate::resolver::first_name_index(names, encode_utf8("version-node"@)),
            crate::resolver::first_name_index(names, encode_utf8("version-value"@)),
        ) {
            (Some(a), Some(b), Some(cc)) => {
                let plan = vcs_plan(crate::ts::matches_of(q, tree, src), a, b, cc, src);
                assert forall|k: int| 0 <= k < r1.len() implies {
                    &&& (#[trigger] r1[k]).at == r2[k].at
                    &&& r1[k].lint.name@ == r2[k].lint.name@
                    &&& r1[k].lint.code@ == r2[k].lint.code@
                    &&& encode_utf8(r1[k].message@) == encode_utf8(r2[k].message@)
                } by {
                    assert(vcs_occurrence_matches(r1[k], plan[k]));
                    assert(vcs_occurrence_matches(r2[k], plan[k]));
                }
            },
            _ => {},
        }
    }
}

/// Law: the module-advice rule is deterministic. Any two occurrence
/// lists meeting its description agree observably.
pub proof fn lemma_command_instead_of_module_post_deterministic(
    r1: Seq<Occurrence>,
    r2: Seq<Occurrence>,
    tree: tree_sitter::Tree,
    ctx: Context,
    src: Seq<u8>,
)
    requires
        command_instead_of_module_post(r1, tree, ctx, src),
        command_instead_of_module_post(r2, tree, ctx, src),
    ensures
        crate::rules::occs_similar(r1, r2),
{
    let plan = cim_plan(
        ctx,
        crate::rules::rule_captures(
            language_handle("yaml"@),
            COMMAND_INSTEAD_OF_MODULE_QUERY@,
            Some(encode_utf8("value-node"@)),
            tree,
            src,
        ),
        src,
    );
    assert forall|k: int| 0 <= k < r1.len() implies {
        &&& (#[trigger] r1[k]).at == r2[k].at
        &&& r1[k].lint.name@ == r2[k].lint.name@
        &&& r1[k].lint.code@ == r2[k].lint.code@
        &&& encode_utf8(r1[k].message@) == encode_utf8(r2[k].message@)
    } by {
        assert(plan[k] == plan[k]);
        let b = advice_message(plan[k].1, module_alternative_spec(plan[k].1)->0);
        if !valid_utf8(b) {
            assert(r1[k].message@ == Seq::<char>::empty());
            assert(r2[k].message@ == Seq::<char>::empty());
        }
    }
}

/// The duplicate target reads only the context's observable content.
proof fn lemma_dup_target_congruent(c1: Context, c2: Context, cap: RawCapture, n: int)
    requires
        crate::rules::ctx_similar(c1, c2),
    ensures
        dup_target(c1, cap, n) == dup_target(c2, cap, n),
{
}

/// The duplicate plan reads only the context's observable content.
pub proof fn lemma_dup_plan_congruent(c1: Context, c2: Context, caps: Seq<RawCapture>, n: int)
    requires
        crate::rules::ctx_similar(c1, c2),
    ensures
        dup_plan(c1, caps, n) == dup_plan(c2, caps, n),
    decreases caps.len(),
{
    if caps.len() > 0 {
        lemma_dup_target_congruent(c1, c2, caps[0], n);
        lemma_dup_plan_congruent(c1, c2, caps.drop_first(), n);
    }
}

/// The advice plan reads only the context's observable content.
pub proof fn lemma_cim_plan_congruent(c1: Context, c2: Context, caps: Seq<RawCapture>, src: Seq<u8>)
    requires
        crate::rules::ctx_similar(c1, c2),
    ensures
        cim_plan(c1, caps, src) == cim_plan(c2, caps, src),
    decreases caps.len(),
{
    if caps.len() > 0 {
        assert(cim_target(c1, caps[0], src) == cim_target(c2, caps[0], src));
        lemma_cim_plan_congruent(c1, c2, caps.drop_first(), src);
    }
}

/// The `become` check reads only the context's observable content.
pub proof fn lemma_partial_become_plan_congruent(c1: Context, c2: Context, caps: Seq<RawCapture>)
    requires
        crate::rules::ctx_similar(c1, c2),
    ensures
        partial_become_plan(c1, caps) == partial_become_plan(c2, caps),
    decreases caps.len(),
{
    if caps.len() > 0 {
        assert(partial_become_applies(c1, caps[0]) == partial_become_applies(c2, caps[0]));
        lemma_partial_become_plan_congruent(c1, c2, caps.drop_first());
    }
}

/// The duplicate-key rule's description reads only the context's
/// observable content.
pub proof fn lemma_variable_shadowing_post_transfer(
    r: Seq<Occurrence>,
    tree: tree_sitter::Tree,
    c1: Context,
    c2: Context,
    src: Seq<u8>,
)
    requires
        crate::rules::ctx_similar(c1, c2),
        variable_shadowing_post(r, tree, c1, src),
    ensures
        variable_shadowing_post(r, tree, c2, src),
{
    let caps = crate::rules::rule_captures(
        language_handle("yaml"@),
        VARIABLE_SHADOWING_QUERY@,
        Some(encode_utf8("raise"@)),
        tree,
        src,
    );
    lemma_dup_plan_congruent(c1, c2, caps, src.len() as int);
    let p1 = dup_plan(c1, caps, src.len() as int);
    let p2 = dup_plan(c2, caps, src.len() as int);
    assert forall|k: int| 0 <= k < r.len() implies {
        let msg = duplicate_key_message(
            (#[trigger] p2[k]).0,
            (p2[k].1.start_point.row + 1) as nat,
            (p2[k].1.start_point.column + 1) as nat,
        );
        &&& r[k].at == p2[k].1
        &&& r[k].lint.name@ == "variable shadowing"@
        &&& r[k].lint.code@ == "YML-W1000"@
        &&& (valid_utf8(msg) ==> encode_utf8(r[k].message@) == msg)
        &&& (!valid_utf8(msg) ==> r[k].message@ == Seq::<char>::empty())
    } by {
        assert(p2[k] == p1[k]);
    }
}

/// The `become` rule's description reads only the context's observable
/// content.
pub proof fn lemma_partial_become_post_transfer(
    r: Seq<Occurrence>,
    tree: tree_sitter::Tree,
    c1: Context,
    c2: Context,
    src: Seq<u8>,
)
    requires
        crate::rules::ctx_similar(c1, c2),
        partial_become_post(r, tree, c1, src),
    ensures
        partial_become_post(r, tree, c2, src),
{
    let caps = crate::rules::rule_captures(
        language_handle("yaml"@),
        PARTIAL_BECOME_QUERY@,
        Some(encode_utf8("key"@)),
        tree,
        src,
    );
    lemma_partial_become_plan_congruent(c1, c2, caps);
    let p1 = partial_become_plan(c1, caps);
    let p2 = partial_become_plan(c2, caps);
    assert forall|k: int| 0 <= k < r.len() implies {
        &&& (#[trigger] r[k]).at == p2[k].range
        &&& r[k].lint.name@ == "partial-become"@
        &&& r[k].lint.code@ == "YML-W1001"@
        &&& r[k].message@ == "Using `become_user` without `become`"@
    } by {
        assert(p2[k] == p1[k]);
    }
}

/// The module-advice rule's description reads only the context's
/// observable content.
pub proof fn lemma_command_instead_of_module_post_transfer(
    r: Seq<Occurrence>,
    tree: tree_sitter::Tree,
    c1: Context,
    c2: Context,
    src: Seq<u8>,
)
    requires
        crate::rules::ctx_similar(c1, c2),
        command_instead_of_module_post(r, tree, c1, src),
    ensures
        command_instead_of_module_post(r, tree, c2, src),
{
    let caps = crate::rules::rule_captures(
        language_handle("yaml"@),
        COMMAND_INSTEAD_OF_MODULE_QUERY@,
        Some(encode_utf8("value-node"@)),
        tree,
        src,
    );
    lemma_cim_plan_congruent(c1, c2, caps, src);
    let p1 = cim_plan(c1, caps, src);
    let p2 = cim_plan(c2, caps, src);
    assert forall|k: int| 0 <= k < r.len() implies {
        let b = advice_message((#[trigger] p2[k]).1, module_alternative_spec(p2[k].1)->0);
        &&& r[k].at == p2[k].0
        &&& r[k].lint.name@ == "command-instead-of-module"@
        &&& r[k].lint.code@ == "YML-W1006"@
        &&& (valid_utf8(b) ==> encode_utf8(r[k].message@) == b)
        &&& (!valid_utf8(b) ==> r[k].message@ == Seq::<char>::empty())
    } by {
        assert(p2[k] == p1[k]);
    }
}

} // verus!
