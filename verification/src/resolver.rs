//! The scope resolver: consumes the captures of a scope query, in the
//! order the query engine produces them, and builds the scope tree.
//!
//! A scope query names four special captures. `local.scope` opens a
//! nested scope over the captured node; `local.definition` defines the
//! captured text; `local.reference` binds a use-site to the innermost
//! enclosing definition of the same text; `local.definition-value` is
//! reserved. Any other capture names are ignored.
//!
//! The construction is a pure fold over the capture stream, and its
//! result is pinned exactly by [`resolve_captures`]: the same captures
//! always build the same tree.

use vstd::prelude::*;

use crate::range::Range;
use crate::scope::{ScopeTree, SpecTree};
use crate::text::bytes_eq;
use crate::ts::{
    capture_names, capture_ok, captures_of, query_capture_names, query_captures, tree_root_range,
    tree_within, RawCapture,
};

verus! {

/// The capture indices a scope query assigns to the four reserved
/// capture names, where it uses them.
#[derive(Clone, Copy, Debug)]
pub struct ScopeCaptureIndices {
    /// Index of `local.definition`.
    pub definition: Option<u32>,
    /// Index of `local.definition-value`.
    pub definition_value: Option<u32>,
    /// Index of `local.reference`.
    pub reference: Option<u32>,
    /// Index of `local.scope`.
    pub scope: Option<u32>,
}

/// The first position of `want` in `names`, from position `k` on.
pub open spec fn first_name_index_from(names: Seq<Seq<u8>>, want: Seq<u8>, k: int) -> Option<u32>
    decreases names.len() - k,
{
    if 0 <= k < names.len() {
        if names[k] == want {
            Some(k as u32)
        } else {
            first_name_index_from(names, want, k + 1)
        }
    } else {
        None
    }
}

/// The first position of `want` in `names`.
pub open spec fn first_name_index(names: Seq<Seq<u8>>, want: Seq<u8>) -> Option<u32> {
    first_name_index_from(names, want, 0)
}

/// The first position of the byte string `want` in the name table.
pub(crate) fn find_name_index(names: &Vec<String>, want: &str) -> (r: Option<u32>)
    requires
        names@.len() <= u32::MAX,
    ensures
        r == first_name_index(
            names@.map_values(|s: String| vstd::utf8::encode_utf8(s@)),
            vstd::utf8::encode_utf8(want@),
        ),
{
    let ghost bnames = names@.map_values(|s: String| vstd::utf8::encode_utf8(s@));
    let ghost bwant = vstd::utf8::encode_utf8(want@);
    let mut k: usize = 0;
    while k < names.len()
        invariant
            k <= names@.len() <= u32::MAX,
            bnames == names@.map_values(|s: String| vstd::utf8::encode_utf8(s@)),
            bwant == vstd::utf8::encode_utf8(want@),
            first_name_index(bnames, bwant) == first_name_index_from(bnames, bwant, k as int),
        decreases names.len() - k,
    {
        if bytes_eq(names[k].as_str().as_bytes(), want.as_bytes()) {
            assert(bnames[k as int] == bwant);
            return Some(k as u32);
        }
        assert(bnames[k as int] != bwant);
        k += 1;
    }
    None
}

/// The reserved capture indices of a scope query with the given capture
/// names.
pub open spec fn scope_capture_indices_spec(names: Seq<Seq<u8>>) -> ScopeCaptureIndices {
    ScopeCaptureIndices {
        definition: first_name_index(names, vstd::utf8::encode_utf8("local.definition"@)),
        definition_value: first_name_index(
            names,
            vstd::utf8::encode_utf8("local.definition-value"@),
        ),
        reference: first_name_index(names, vstd::utf8::encode_utf8("local.reference"@)),
        scope: first_name_index(names, vstd::utf8::encode_utf8("local.scope"@)),
    }
}

/// Resolve the four reserved capture names against a name table.
pub fn scope_capture_indices(names: &Vec<String>) -> (r: ScopeCaptureIndices)
    requires
        names@.len() <= u32::MAX,
    ensures
        r == scope_capture_indices_spec(names@.map_values(|s: String| vstd::utf8::encode_utf8(s@))),
{
    ScopeCaptureIndices {
        definition: find_name_index(names, "local.definition"),
        definition_value: find_name_index(names, "local.definition-value"),
        reference: find_name_index(names, "local.reference"),
        scope: find_name_index(names, "local.scope"),
    }
}

impl SpecTree {
    /// The tree holding only a root scope over `root_range`.
    pub open spec fn initial(root_range: Range) -> SpecTree {
        SpecTree {
            scopes: seq![
                (crate::scope::SpecScope {
                    range: root_range,
                    local_defs: Seq::empty(),
                    child_scopes: Seq::empty(),
                    parent_scope: None,
                }),
            ],
            defs: Seq::empty(),
            refs: Seq::empty(),
        }
    }

    /// The tree after a scope over `r` is inserted at the deepest scope
    /// containing it; unchanged when the root does not contain `r`.
    pub open spec fn spec_insert_scope(self, r: Range) -> SpecTree {
        if self.scopes.len() >= 1 && self.scopes[0].range.spec_contains(r) {
            self.with_child_scope(self.descend(0, r), r)
        } else {
            self
        }
    }

    /// The tree after a definition of `name` at `r` is appended to the
    /// deepest scope containing it; unchanged when the root does not
    /// contain `r`.
    pub open spec fn spec_insert_def(self, name: Seq<u8>, r: Range, vr: Option<Range>) -> SpecTree {
        if self.scopes.len() >= 1 && self.scopes[0].range.spec_contains(r) {
            self.with_def(self.descend(0, r), name, r, vr)
        } else {
            self
        }
    }

    /// The tree after a use of `name` at `r` is bound to the innermost
    /// enclosing definition of that name; unchanged when there is none.
    pub open spec fn spec_insert_ref(self, name: Seq<u8>, r: Range) -> SpecTree {
        match self.scope_by_range_spec(r) {
            None => self,
            Some(s) => match self.resolve(s, name) {
                None => self,
                Some(d) => self.with_ref(d, r),
            },
        }
    }
}

/// The captured node's text: the bytes of the source it covers.
pub open spec fn capture_text(src: Seq<u8>, c: RawCapture) -> Seq<u8> {
    src.subrange(c.range.start_byte as int, c.range.end_byte as int)
}

/// One step of scope resolution: dispatch a capture on its index.
pub open spec fn apply_capture(
    t: SpecTree,
    idx: ScopeCaptureIndices,
    c: RawCapture,
    src: Seq<u8>,
) -> SpecTree {
    if idx.scope == Some(c.index) {
        t.spec_insert_scope(c.range)
    } else if idx.definition == Some(c.index) {
        t.spec_insert_def(capture_text(src, c), c.range, None)
    } else if idx.reference == Some(c.index) {
        t.spec_insert_ref(capture_text(src, c), c.range)
    } else {
        t
    }
}

/// Scope resolution as a fold: apply every capture in order to `t`.
pub open spec fn resolve_captures(
    t: SpecTree,
    idx: ScopeCaptureIndices,
    captures: Seq<RawCapture>,
    src: Seq<u8>,
) -> SpecTree
    decreases captures.len(),
{
    if captures.len() == 0 {
        t
    } else {
        resolve_captures(apply_capture(t, idx, captures[0], src), idx, captures.drop_first(), src)
    }
}

/// Build the scope tree of one file from its capture stream: open a root
/// scope over the whole file, then dispatch each capture in the order
/// the query engine produced them.
///
/// The result is pinned exactly: it is the fold [`resolve_captures`]
/// over the stream, so the same captures always build the same tree.
pub fn build_scope_tree(
    idx: &ScopeCaptureIndices,
    captures: &Vec<RawCapture>,
    root_range: &Range,
    src: &[u8],
) -> (t: ScopeTree)
    requires
        forall|i: int| 0 <= i < captures@.len() ==> capture_ok(#[trigger] captures@[i], src@.len() as int),
    ensures
        t@.wf(),
        t@ == resolve_captures(SpecTree::initial(*root_range), *idx, captures@, src@),
{
    let mut t = ScopeTree::new(root_range);
    proof {
        assert(t@ =~~= SpecTree::initial(*root_range));
    }
    let ghost goal = resolve_captures(SpecTree::initial(*root_range), *idx, captures@, src@);
    proof {
        assert(captures@.skip(0) =~= captures@);
    }
    let mut k: usize = 0;
    while k < captures.len()
        invariant
            k <= captures@.len(),
            forall|i: int|
                0 <= i < captures@.len() ==> capture_ok(
                    #[trigger] captures@[i],
                    src@.len() as int,
                ),
            t@.wf(),
            goal == resolve_captures(t@, *idx, captures@.skip(k as int), src@),
        decreases captures.len() - k,
    {
        let c = captures[k];
        let ghost rest = captures@.skip(k as int);
        proof {
            assert(rest[0] == c);
            assert(rest.drop_first() =~= captures@.skip(k as int + 1));
        }
        let is_scope = match idx.scope {
            Some(i) => i == c.index,
            None => false,
        };
        let is_def = match idx.definition {
            Some(i) => i == c.index,
            None => false,
        };
        let is_ref = match idx.reference {
            Some(i) => i == c.index,
            None => false,
        };
        let ghost t0 = t@;
        if is_scope {
            t.insert_scope(&c.range);
        } else if is_def {
            let name = &src[c.range.start_byte..c.range.end_byte];
            assert(name@ =~= capture_text(src@, c));
            t.insert_def(name, &c.range, None);
        } else if is_ref {
            let name = &src[c.range.start_byte..c.range.end_byte];
            assert(name@ =~= capture_text(src@, c));
            t.insert_ref(name, &c.range);
        }
        proof {
            assert(t@ == apply_capture(t0, *idx, c, src@));
            assert(goal == resolve_captures(t@, *idx, captures@.skip(k as int + 1), src@));
        }
        k += 1;
    }
    proof {
        assert(captures@.skip(captures@.len() as int) =~= Seq::<RawCapture>::empty());
    }
    t
}

/// Law: scope resolution is deterministic. Two trees built from the same
/// capture stream over the same source are identical, so running the
/// analysis twice on one file yields identical scope trees; what the
/// parser hands the fold is the parser's affair.
pub proof fn lemma_resolution_deterministic(
    t1: SpecTree,
    t2: SpecTree,
    init: SpecTree,
    idx: ScopeCaptureIndices,
    captures: Seq<RawCapture>,
    src: Seq<u8>,
)
    requires
        t1 == resolve_captures(init, idx, captures, src),
        t2 == resolve_captures(init, idx, captures, src),
    ensures
        t1 == t2,
{
}

/// The scope tree that resolving `q`'s captures over `t` and `src`
/// builds: the fold of the capture stream, dispatched on the reserved
/// capture indices of `q`'s name table, over a root scope spanning the
/// tree's root.
pub open spec fn scope_resolution_spec(
    q: tree_sitter::Query,
    t: tree_sitter::Tree,
    src: Seq<u8>,
) -> SpecTree {
    resolve_captures(
        SpecTree::initial(crate::ts::root_range_of(t)),
        scope_capture_indices_spec(query_capture_names(q)),
        captures_of(q, t, src),
        src,
    )
}

/// How a scope query's captures are turned into a scope tree.
#[non_exhaustive]
#[derive(Debug, PartialEq, Eq, Clone, Copy, Structural)]
pub enum ResolutionMethod {
    /// The generic resolver: the four reserved capture names drive the
    /// construction, and any other capture is ignored.
    Generic,
}

impl ResolutionMethod {
    /// Build the scope tree of one file: run the scope query over the
    /// tree and fold its captures.
    pub fn build_scope(&self, query: &tree_sitter::Query, tree: &tree_sitter::Tree, src: &[u8]) -> (t:
        ScopeTree)
        requires
            tree_within(*tree, src@.len() as int),
        ensures
            t@.wf(),
            t@ == scope_resolution_spec(*query, *tree, src@),
    {
        match self {
            ResolutionMethod::Generic => scope_res_generic(query, tree, src),
        }
    }
}

/// Run a scope query and fold its captures, in the order the query
/// engine produces them, into the scope tree of the file.
pub fn scope_res_generic(query: &tree_sitter::Query, tree: &tree_sitter::Tree, src: &[u8]) -> (t:
    ScopeTree)
    requires
        tree_within(*tree, src@.len() as int),
    ensures
        t@.wf(),
        t@ == scope_resolution_spec(*query, *tree, src@),
{
    let names = capture_names(query);
    let idx = scope_capture_indices(&names);
    let root_range = tree_root_range(tree);
    let captures = query_captures(query, tree, src);
    build_scope_tree(&idx, &captures, &root_range, src)
}

} // verus!
