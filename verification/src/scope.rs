//! The in-memory nested-scope structure with definitions, references, and
//! parent links.
//!
//! The scope graph is naturally cyclic (parent and child edges, plus
//! reference-to-definition edges), so the nodes live in arenas inside
//! [`ScopeTree`] and all links are integer indices. Scopes are appended as
//! they are discovered, so a child's index is always strictly greater than
//! its parent's; walks toward the root therefore terminate.

use vstd::prelude::*;

use crate::range::{contains_range, Range};
use crate::text::{bytes_eq, copy_vec};

verus! {

/// A node in the scope tree: a lexical region of source within which
/// definitions are visible.
#[derive(Clone, Debug)]
pub struct LocalScope {
    /// The source extent this scope covers.
    pub range: Range,
    /// Definitions introduced within this scope (not its children), as
    /// indices into [`ScopeTree::defs`], in insertion order.
    pub local_defs: Vec<usize>,
    /// Directly nested scopes, as indices into [`ScopeTree::scopes`], in
    /// insertion order.
    pub child_scopes: Vec<usize>,
    /// The enclosing scope; absent only at the root.
    pub parent_scope: Option<usize>,
}

/// A named definition captured by the scope query.
#[derive(Clone, Debug)]
pub struct LocalDef {
    /// The definition's name: the bytes of the source slice it was captured
    /// from.
    pub name: Vec<u8>,
    /// The extent of the defining occurrence.
    pub def_range: Range,
    /// The extent of the value bound to the definition, when one was
    /// captured.
    pub value_range: Option<Range>,
    /// Whether the definition is mutable.
    pub is_mutable: bool,
    /// The owning scope, as an index into [`ScopeTree::scopes`].
    pub scope: usize,
    /// Use-sites resolved to this definition, as indices into
    /// [`ScopeTree::refs`], in insertion order.
    pub references: Vec<usize>,
}

/// A use-site captured by the scope query, bound to the definition it
/// resolves to.
#[derive(Clone, Debug)]
pub struct Reference {
    /// The extent of the use-site.
    pub range: Range,
    /// The definition this reference resolves to, as an index into
    /// [`ScopeTree::defs`].
    pub original_def: usize,
}

/// The scope tree of one file: arenas of scopes, definitions and
/// references, linked by indices. `scopes[0]` is the root.
#[derive(Clone, Debug)]
pub struct ScopeTree {
    /// All scopes; the root is at index 0 and every later scope's parent
    /// precedes it.
    pub scopes: Vec<LocalScope>,
    /// All definitions, in insertion order.
    pub defs: Vec<LocalDef>,
    /// All resolved references, in insertion order.
    pub refs: Vec<Reference>,
}

/// The mathematical model of a scope node.
#[verifier::ext_equal]
pub ghost struct SpecScope {
    pub range: Range,
    pub local_defs: Seq<int>,
    pub child_scopes: Seq<int>,
    pub parent_scope: Option<int>,
}

/// The mathematical model of a definition.
#[verifier::ext_equal]
pub ghost struct SpecDef {
    pub name: Seq<u8>,
    pub def_range: Range,
    pub value_range: Option<Range>,
    pub is_mutable: bool,
    pub scope: int,
    pub references: Seq<int>,
}

/// The mathematical model of a reference.
#[verifier::ext_equal]
pub ghost struct SpecRef {
    pub range: Range,
    pub original_def: int,
}

/// The mathematical model of a whole scope tree.
#[verifier::ext_equal]
pub ghost struct SpecTree {
    pub scopes: Seq<SpecScope>,
    pub defs: Seq<SpecDef>,
    pub refs: Seq<SpecRef>,
}

impl View for LocalScope {
    type V = SpecScope;

    open spec fn view(&self) -> SpecScope {
        SpecScope {
            range: self.range,
            local_defs: self.local_defs@.map_values(|i: usize| i as int),
            child_scopes: self.child_scopes@.map_values(|i: usize| i as int),
            parent_scope: match self.parent_scope {
                Some(p) => Some(p as int),
                None => None,
            },
        }
    }
}

impl View for LocalDef {
    type V = SpecDef;

    open spec fn view(&self) -> SpecDef {
        SpecDef {
            name: self.name@,
            def_range: self.def_range,
            value_range: self.value_range,
            is_mutable: self.is_mutable,
            scope: self.scope as int,
            references: self.references@.map_values(|i: usize| i as int),
        }
    }
}

impl View for Reference {
    type V = SpecRef;

    open spec fn view(&self) -> SpecRef {
        SpecRef { range: self.range, original_def: self.original_def as int }
    }
}

impl View for ScopeTree {
    type V = SpecTree;

    open spec fn view(&self) -> SpecTree {
        SpecTree {
            scopes: self.scopes@.map_values(|s: LocalScope| s@),
            defs: self.defs@.map_values(|d: LocalDef| d@),
            refs: self.refs@.map_values(|r: Reference| r@),
        }
    }
}

impl SpecTree {
    /// Index `i` names a scope of the tree.
    pub open spec fn valid_scope(self, i: int) -> bool {
        0 <= i < self.scopes.len()
    }

    /// The invariants of a well-formed scope tree.
    ///
    /// - the root exists, is at index 0, and has no parent;
    /// - every other scope has a parent that precedes it, is listed among
    ///   that parent's children, and whose range contains its own;
    /// - child lists point forward, and back-link to their owner;
    /// - every definition's range is contained in its owning scope's range,
    ///   and the owner lists it;
    /// - definition lists back-link to their owner;
    /// - every reference names a definition, and the definitions' reference
    ///   lists back-link to them.
    pub open spec fn wf(self) -> bool {
        &&& self.scopes.len() >= 1
        &&& self.scopes[0].parent_scope is None
        &&& forall|i: int| #![trigger self.scopes[i]]
            1 <= i < self.scopes.len() ==> {
                &&& self.scopes[i].parent_scope is Some
                &&& {
                    let p = self.scopes[i].parent_scope->0;
                    &&& 0 <= p < i
                    &&& self.scopes[p].child_scopes.contains(i)
                    &&& self.scopes[p].range.spec_contains(self.scopes[i].range)
                }
            }
        &&& forall|i: int, k: int| #![trigger self.scopes[i].child_scopes[k]]
            0 <= i < self.scopes.len() && 0 <= k < self.scopes[i].child_scopes.len() ==> {
                let c = self.scopes[i].child_scopes[k];
                &&& i < c < self.scopes.len()
                &&& self.scopes[c].parent_scope == Some(i)
            }
        &&& forall|d: int| #![trigger self.defs[d]]
            0 <= d < self.defs.len() ==> {
                let s = self.defs[d].scope;
                &&& 0 <= s < self.scopes.len()
                &&& self.scopes[s].range.spec_contains(self.defs[d].def_range)
                &&& self.scopes[s].local_defs.contains(d)
            }
        &&& forall|i: int, k: int| #![trigger self.scopes[i].local_defs[k]]
            0 <= i < self.scopes.len() && 0 <= k < self.scopes[i].local_defs.len() ==> {
                let d = self.scopes[i].local_defs[k];
                &&& 0 <= d < self.defs.len()
                &&& self.defs[d].scope == i
            }
        &&& forall|r: int| #![trigger self.refs[r]]
            0 <= r < self.refs.len() ==> 0 <= self.refs[r].original_def < self.defs.len()
        &&& forall|d: int, k: int| #![trigger self.defs[d].references[k]]
            0 <= d < self.defs.len() && 0 <= k < self.defs[d].references.len() ==> {
                let r = self.defs[d].references[k];
                &&& 0 <= r < self.refs.len()
                &&& self.refs[r].original_def == d
            }
    }

    /// The first child of scope `i`, at position `k` or later, whose range
    /// contains `r`.
    pub open spec fn first_containing_child_from(self, i: int, k: int, r: Range) -> Option<int>
        decreases self.scopes[i].child_scopes.len() - k,
    {
        if 0 <= i < self.scopes.len() && 0 <= k < self.scopes[i].child_scopes.len() {
            let c = self.scopes[i].child_scopes[k];
            if self.scopes[c].range.spec_contains(r) {
                Some(c)
            } else {
                self.first_containing_child_from(i, k + 1, r)
            }
        } else {
            None
        }
    }

    /// The first child of scope `i`, in order, whose range contains `r`.
    pub open spec fn first_containing_child(self, i: int, r: Range) -> Option<int> {
        self.first_containing_child_from(i, 0, r)
    }

    /// Starting from scope `i`, descend into the first child containing `r`
    /// until no child contains it: the insertion point for `r` below `i`.
    pub open spec fn descend(self, i: int, r: Range) -> int
        decreases self.scopes.len() - i,
    {
        match self.first_containing_child(i, r) {
            Some(c) => if i < c < self.scopes.len() {
                self.descend(c, r)
            } else {
                i
            },
            None => i,
        }
    }

    /// The deepest scope containing `r`, reached from the root by always
    /// entering the first child that contains `r`; `None` when the root
    /// itself does not contain `r`.
    pub open spec fn scope_by_range_spec(self, r: Range) -> Option<int> {
        if self.scopes.len() >= 1 && self.scopes[0].range.spec_contains(r) {
            Some(self.descend(0, r))
        } else {
            None
        }
    }

    /// The first definition, in order, among scope `i`'s `local_defs` at
    /// position `k` or later whose name is `name`.
    pub open spec fn first_def_named_from(self, i: int, k: int, name: Seq<u8>) -> Option<int>
        decreases self.scopes[i].local_defs.len() - k,
    {
        if 0 <= i < self.scopes.len() && 0 <= k < self.scopes[i].local_defs.len() {
            let d = self.scopes[i].local_defs[k];
            if 0 <= d < self.defs.len() && self.defs[d].name == name {
                Some(d)
            } else {
                self.first_def_named_from(i, k + 1, name)
            }
        } else {
            None
        }
    }

    /// The first definition named `name` among scope `i`'s own definitions.
    pub open spec fn first_def_named(self, i: int, name: Seq<u8>) -> Option<int> {
        self.first_def_named_from(i, 0, name)
    }

    /// Lexical resolution: the definition a use of `name` in scope `i`
    /// binds to. Each scope from `i` up to the root is searched in turn;
    /// the innermost scope that has a definition of the name wins.
    pub open spec fn resolve(self, i: int, name: Seq<u8>) -> Option<int>
        decreases i,
    {
        if 0 <= i < self.scopes.len() {
            match self.first_def_named(i, name) {
                Some(d) => Some(d),
                None => match self.scopes[i].parent_scope {
                    Some(p) => if 0 <= p < i {
                        self.resolve(p, name)
                    } else {
                        None
                    },
                    None => None,
                },
            }
        } else {
            None
        }
    }

    /// The chain of scopes from `i` up to and including the root.
    pub open spec fn stack_seq(self, i: int) -> Seq<int>
        decreases i,
    {
        if 0 <= i < self.scopes.len() {
            match self.scopes[i].parent_scope {
                Some(p) => if 0 <= p < i {
                    seq![i] + self.stack_seq(p)
                } else {
                    seq![i]
                },
                None => seq![i],
            }
        } else {
            Seq::empty()
        }
    }

    /// Scope `i` lies in the subtree rooted at `anc`: `anc` is reached from
    /// `i` by following parent links zero or more times.
    pub open spec fn in_subtree(self, anc: int, i: int) -> bool
        decreases i,
    {
        if 0 <= i < self.scopes.len() {
            if i == anc {
                true
            } else {
                match self.scopes[i].parent_scope {
                    Some(p) => if 0 <= p < i {
                        self.in_subtree(anc, p)
                    } else {
                        false
                    },
                    None => false,
                }
            }
        } else {
            false
        }
    }
}





impl LocalScope {
    /// A fresh scope over `range`, with no definitions, children or
    /// parent yet.
    pub fn new(range: &Range) -> (s: LocalScope)
        ensures
            s@ =~~= (SpecScope {
                range: *range,
                local_defs: Seq::empty(),
                child_scopes: Seq::empty(),
                parent_scope: None,
            }),
    {
        LocalScope {
            range: *range,
            local_defs: Vec::new(),
            child_scopes: Vec::new(),
            parent_scope: None,
        }
    }
}

impl LocalDef {
    /// A fresh immutable definition of `name` at `def_range`, owned by
    /// the scope at index `scope`, with no references yet.
    pub fn new(name: &[u8], def_range: &Range, scope: usize) -> (d: LocalDef)
        ensures
            d@ =~~= (SpecDef {
                name: name@,
                def_range: *def_range,
                value_range: None,
                is_mutable: false,
                scope: scope as int,
                references: Seq::empty(),
            }),
    {
        LocalDef {
            name: copy_vec_u8(name),
            def_range: *def_range,
            value_range: None,
            is_mutable: false,
            scope,
            references: Vec::new(),
        }
    }

    /// As [`LocalDef::new`], with the range of the bound value attached.
    pub fn new_with_value(name: &[u8], def_range: &Range, value_range: &Range, scope: usize) -> (d:
        LocalDef)
        ensures
            d@ =~~= (SpecDef {
                name: name@,
                def_range: *def_range,
                value_range: Some(*value_range),
                is_mutable: false,
                scope: scope as int,
                references: Seq::empty(),
            }),
    {
        LocalDef {
            name: copy_vec_u8(name),
            def_range: *def_range,
            value_range: Some(*value_range),
            is_mutable: false,
            scope,
            references: Vec::new(),
        }
    }
}

/// A fresh vector holding the bytes of `s`.
fn copy_vec_u8(s: &[u8]) -> (r: Vec<u8>)
    ensures
        r@ =~= s@,
{
    let mut r: Vec<u8> = Vec::new();
    let mut k: usize = 0;
    while k < s.len()
        invariant
            k <= s.len(),
            r@ =~= s@.subrange(0, k as int),
        decreases s.len() - k,
    {
        r.push(s[k]);
        k += 1;
    }
    r
}

impl ScopeTree {
    /// Create a scope tree holding only a root scope that spans
    /// `root_range`.
    pub fn new(root_range: &Range) -> (t: ScopeTree)
        ensures
            t@.wf(),
            t@.scopes =~~= seq![
                (SpecScope {
                    range: *root_range,
                    local_defs: Seq::empty(),
                    child_scopes: Seq::empty(),
                    parent_scope: None,
                }),
            ],
            t@.defs =~= Seq::<SpecDef>::empty(),
            t@.refs =~= Seq::<SpecRef>::empty(),
    {
        let root = LocalScope {
            range: *root_range,
            local_defs: Vec::new(),
            child_scopes: Vec::new(),
            parent_scope: None,
        };
        let t = ScopeTree { scopes: vec![root], defs: Vec::new(), refs: Vec::new() };
        proof {
            assert(t@.scopes =~~= seq![t.scopes@[0]@]);
        }
        t
    }

    /// The first child of scope `i`, in order, whose range contains `*r`.
    fn find_containing_child(&self, i: usize, r: &Range) -> (res: Option<usize>)
        requires
            self@.wf(),
            i < self.scopes.len(),
        ensures
            match res {
                Some(c) => {
                    &&& self@.first_containing_child(i as int, *r) == Some(c as int)
                    &&& i < c < self@.scopes.len()
                    &&& self@.scopes[c as int].range.spec_contains(*r)
                },
                None => self@.first_containing_child(i as int, *r) is None,
            },
    {
        let ghost iv = i as int;
        let n = self.scopes[i].child_scopes.len();
        let mut k: usize = 0;
        while k < n
            invariant
                self@.wf(),
                iv == i as int,
                i < self.scopes.len(),
                n == self@.scopes[iv].child_scopes.len(),
                k <= n,
                self@.first_containing_child_from(iv, k as int, *r) == self@.first_containing_child(
                    iv,
                    *r,
                ),
            decreases n - k,
        {
            let c = self.scopes[i].child_scopes[k];
            assert(c as int == self@.scopes[iv].child_scopes[k as int]);
            assert(i < c < self@.scopes.len());
            if contains_range(&self.scopes[c].range, r) {
                return Some(c);
            }
            k += 1;
        }
        None
    }

    /// From `start`, descend into the first child containing `*r` until no
    /// child does: the deepest scope below `start` that contains `*r`,
    /// along the first-child path.
    fn descend_from(&self, start: usize, r: &Range) -> (res: usize)
        requires
            self@.wf(),
            start < self.scopes.len(),
            self@.scopes[start as int].range.spec_contains(*r),
        ensures
            res as int == self@.descend(start as int, *r),
            start <= res < self@.scopes.len(),
            self@.scopes[res as int].range.spec_contains(*r),
            self@.first_containing_child(res as int, *r) is None,
    {
        let mut cur = start;
        loop
            invariant
                self@.wf(),
                start <= cur < self.scopes.len(),
                self@.scopes[cur as int].range.spec_contains(*r),
                self@.descend(cur as int, *r) == self@.descend(start as int, *r),
            decreases self.scopes.len() - cur,
        {
            match self.find_containing_child(cur, r) {
                Some(c) => {
                    cur = c;
                },
                None => {
                    return cur;
                },
            }
        }
    }

    /// The deepest scope whose range contains `*range`: descend from the
    /// root into the first containing child until no child contains it.
    /// `None` when even the root does not contain `*range`.
    pub fn scope_by_range(&self, range: &Range) -> (res: Option<usize>)
        requires
            self@.wf(),
        ensures
            match res {
                Some(s) => {
                    &&& self@.scope_by_range_spec(*range) == Some(s as int)
                    &&& s < self@.scopes.len()
                    &&& self@.scopes[s as int].range.spec_contains(*range)
                    &&& self@.first_containing_child(s as int, *range) is None
                },
                None => {
                    &&& self@.scope_by_range_spec(*range) is None
                    &&& !self@.scopes[0].range.spec_contains(*range)
                },
            },
    {
        if contains_range(&self.scopes[0].range, range) {
            Some(self.descend_from(0, range))
        } else {
            None
        }
    }

    /// The first definition, in order, among scope `i`'s own definitions
    /// whose name equals `name`.
    pub fn find_def_named(&self, i: usize, name: &[u8]) -> (res: Option<usize>)
        requires
            self@.wf(),
            i < self.scopes.len(),
        ensures
            match res {
                Some(d) => {
                    &&& self@.first_def_named(i as int, name@) == Some(d as int)
                    &&& d < self.defs.len()
                    &&& self@.defs[d as int].name == name@
                    &&& self@.defs[d as int].scope == i as int
                },
                None => self@.first_def_named(i as int, name@) is None,
            },
    {
        let ghost iv = i as int;
        let n = self.scopes[i].local_defs.len();
        let mut k: usize = 0;
        while k < n
            invariant
                self@.wf(),
                iv == i as int,
                i < self.scopes.len(),
                n == self@.scopes[iv].local_defs.len(),
                k <= n,
                self@.first_def_named_from(iv, k as int, name@) == self@.first_def_named(
                    iv,
                    name@,
                ),
            decreases n - k,
        {
            let d = self.scopes[i].local_defs[k];
            assert(d as int == self@.scopes[iv].local_defs[k as int]);
            assert(d < self.defs.len());
            if bytes_eq(self.defs[d].name.as_slice(), name) {
                assert(self@.defs[d as int].name == name@);
                return Some(d);
            }
            k += 1;
        }
        None
    }

    /// Lexical resolution: search scope `start`, then each enclosing scope
    /// in turn, for a definition named `name`; the innermost match wins.
    fn resolve_name(&self, start: usize, name: &[u8]) -> (res: Option<usize>)
        requires
            self@.wf(),
            start < self.scopes.len(),
        ensures
            match res {
                Some(d) => {
                    &&& self@.resolve(start as int, name@) == Some(d as int)
                    &&& d < self.defs.len()
                },
                None => self@.resolve(start as int, name@) is None,
            },
    {
        let mut cur = start;
        loop
            invariant
                self@.wf(),
                cur < self.scopes.len(),
                self@.resolve(cur as int, name@) == self@.resolve(start as int, name@),
            decreases cur,
        {
            match self.find_def_named(cur, name) {
                Some(d) => {
                    return Some(d);
                },
                None => {
                    match self.scopes[cur].parent_scope {
                        Some(p) => {
                            assert(cur >= 1 && 0 <= p < cur) by {
                                assert(self@.scopes[cur as int].parent_scope == Some(p as int));
                            }
                            cur = p;
                        },
                        None => {
                            assert(self@.scopes[cur as int].parent_scope is None);
                            return None;
                        },
                    }
                },
            }
        }
    }

    /// The chain of scopes from `start` up to and including the root.
    pub fn scope_stack(&self, start: usize) -> (st: Vec<usize>)
        requires
            self@.wf(),
            start < self.scopes.len(),
        ensures
            st@.map_values(|i: usize| i as int) =~= self@.stack_seq(start as int),
            st@.len() >= 1,
            st@[0] == start,
            forall|j: int| 0 <= j < st@.len() ==> #[trigger] st@[j] < self.scopes.len(),
    {
        let mut st: Vec<usize> = Vec::new();
        let mut cur = start;
        loop
            invariant
                self@.wf(),
                cur < self.scopes.len(),
                st@.map_values(|i: usize| i as int) + self@.stack_seq(cur as int)
                    =~= self@.stack_seq(start as int),
                st@.len() == 0 ==> cur == start,
                st@.len() >= 1 ==> st@[0] == start,
                forall|j: int| 0 <= j < st@.len() ==> #[trigger] st@[j] < self.scopes.len(),
            decreases cur,
        {
            st.push(cur);
            match self.scopes[cur].parent_scope {
                Some(p) => {
                    assert(0 <= p < cur) by {
                        assert(self@.scopes[cur as int].parent_scope == Some(p as int));
                    }
                    proof {
                        assert(st@.map_values(|i: usize| i as int) + self@.stack_seq(p as int)
                            =~= self@.stack_seq(start as int));
                    }
                    cur = p;
                },
                None => {
                    proof {
                        assert(self@.stack_seq(cur as int) =~= seq![cur as int]);
                        assert(st@.map_values(|i: usize| i as int) =~= self@.stack_seq(
                            start as int,
                        ));
                    }
                    return st;
                },
            }
        }
    }

    /// Install a new scope covering `*range` at the deepest existing scope
    /// that contains it. Fails, leaving the tree unchanged, exactly when
    /// the root does not contain `*range`.
    pub fn insert_scope(&mut self, range: &Range) -> (ok: bool)
        requires
            old(self)@.wf(),
        ensures
            final(self)@.wf(),
            ok == old(self)@.scopes[0].range.spec_contains(*range),
            !ok ==> final(self)@ == old(self)@,
            ok ==> old(self)@.scope_by_range_spec(*range) is Some && final(self)@ =~~= old(
                self,
            )@.with_child_scope(old(self)@.scope_by_range_spec(*range)->0, *range),
    {
        if !contains_range(&self.scopes[0].range, range) {
            return false;
        }
        let s = self.descend_from(0, range);
        let n = self.scopes.len();
        let node = LocalScope {
            range: *range,
            local_defs: Vec::new(),
            child_scopes: Vec::new(),
            parent_scope: Some(s),
        };
        let mut children = copy_vec(&self.scopes[s].child_scopes);
        children.push(n);
        let parent = LocalScope {
            range: self.scopes[s].range,
            local_defs: copy_vec(&self.scopes[s].local_defs),
            child_scopes: children,
            parent_scope: self.scopes[s].parent_scope,
        };
        self.scopes[s] = parent;
        self.scopes.push(node);
        proof {
            assert(self@ =~~= old(self)@.with_child_scope(s as int, *range));
            old(self)@.lemma_with_child_scope_wf(s as int, *range);
        }
        true
    }

    /// Record a definition of `name` at `*def_range` in the deepest scope
    /// that contains it. Fails, leaving the tree unchanged, exactly when
    /// the root does not contain `*def_range`.
    pub fn insert_def(&mut self, name: &[u8], def_range: &Range, value_range: Option<&Range>) -> (ok:
        bool)
        requires
            old(self)@.wf(),
        ensures
            final(self)@.wf(),
            ok == old(self)@.scopes[0].range.spec_contains(*def_range),
            !ok ==> final(self)@ == old(self)@,
            ok ==> old(self)@.scope_by_range_spec(*def_range) is Some && final(self)@ =~~= old(
                self,
            )@.with_def(
                old(self)@.scope_by_range_spec(*def_range)->0,
                name@,
                *def_range,
                match value_range {
                    Some(r) => Some(*r),
                    None => None,
                },
            ),
    {
        if !contains_range(&self.scopes[0].range, def_range) {
            return false;
        }
        let s = self.descend_from(0, def_range);
        let n = self.defs.len();
        let vr: Option<Range> = match value_range {
            Some(r) => Some(*r),
            None => None,
        };
        let mut name_bytes: Vec<u8> = Vec::new();
        let mut k: usize = 0;
        while k < name.len()
            invariant
                k <= name.len(),
                name_bytes@ =~= name@.subrange(0, k as int),
            decreases name.len() - k,
        {
            name_bytes.push(name[k]);
            k += 1;
        }
        assert(name_bytes@ =~= name@);
        let def = LocalDef {
            name: name_bytes,
            def_range: *def_range,
            value_range: vr,
            is_mutable: false,
            scope: s,
            references: Vec::new(),
        };
        let mut defs_list = copy_vec(&self.scopes[s].local_defs);
        defs_list.push(n);
        let owner = LocalScope {
            range: self.scopes[s].range,
            local_defs: defs_list,
            child_scopes: copy_vec(&self.scopes[s].child_scopes),
            parent_scope: self.scopes[s].parent_scope,
        };
        self.scopes[s] = owner;
        self.defs.push(def);
        proof {
            let vrs = match value_range {
                Some(r) => Some(*r),
                None => None,
            };
            assert(self@ =~~= old(self)@.with_def(s as int, name@, *def_range, vrs));
            old(self)@.lemma_with_def_wf(s as int, name@, *def_range, vrs);
        }
        true
    }

    /// Bind a use of `name` at `*range`: find the deepest scope containing
    /// `*range`, resolve the name lexically from there, and append a
    /// reference to the definition found. Fails, leaving the tree
    /// unchanged, exactly when the root does not contain `*range` or no
    /// enclosing scope defines the name.
    pub fn insert_ref(&mut self, name: &[u8], range: &Range) -> (ok: bool)
        requires
            old(self)@.wf(),
        ensures
            final(self)@.wf(),
            ok == (old(self)@.scope_by_range_spec(*range) is Some && old(self)@.resolve(
                old(self)@.scope_by_range_spec(*range)->0,
                name@,
            ) is Some),
            !ok ==> final(self)@ == old(self)@,
            ok ==> final(self)@ =~~= old(self)@.with_ref(
                old(self)@.resolve(old(self)@.scope_by_range_spec(*range)->0, name@)->0,
                *range,
            ),
    {
        let s = match self.scope_by_range(range) {
            Some(s) => s,
            None => {
                return false;
            },
        };
        let d = match self.resolve_name(s, name) {
            Some(d) => d,
            None => {
                return false;
            },
        };
        let m = self.refs.len();
        self.refs.push(Reference { range: *range, original_def: d });
        let mut ref_list = copy_vec(&self.defs[d].references);
        ref_list.push(m);
        let def = LocalDef {
            name: copy_vec(&self.defs[d].name),
            def_range: self.defs[d].def_range,
            value_range: self.defs[d].value_range,
            is_mutable: self.defs[d].is_mutable,
            scope: self.defs[d].scope,
            references: ref_list,
        };
        self.defs[d] = def;
        proof {
            assert(self@ =~~= old(self)@.with_ref(d as int, *range));
            old(self)@.lemma_with_ref_wf(d as int, *range);
        }
        true
    }
}

impl SpecTree {
    /// The tree after a new scope covering `r` is installed as the last
    /// child of scope `s`.
    pub open spec fn with_child_scope(self, s: int, r: Range) -> SpecTree {
        let n = self.scopes.len() as int;
        let parent = self.scopes[s];
        SpecTree {
            scopes: self.scopes.update(
                s,
                (SpecScope {
                    range: parent.range,
                    local_defs: parent.local_defs,
                    child_scopes: parent.child_scopes.push(n),
                    parent_scope: parent.parent_scope,
                }),
            ).push(
                (SpecScope {
                    range: r,
                    local_defs: Seq::empty(),
                    child_scopes: Seq::empty(),
                    parent_scope: Some(s),
                }),
            ),
            defs: self.defs,
            refs: self.refs,
        }
    }

    /// The tree after a new definition is appended to scope `s`.
    pub open spec fn with_def(
        self,
        s: int,
        name: Seq<u8>,
        def_range: Range,
        value_range: Option<Range>,
    ) -> SpecTree {
        let n = self.defs.len() as int;
        let owner = self.scopes[s];
        SpecTree {
            scopes: self.scopes.update(
                s,
                (SpecScope {
                    range: owner.range,
                    local_defs: owner.local_defs.push(n),
                    child_scopes: owner.child_scopes,
                    parent_scope: owner.parent_scope,
                }),
            ),
            defs: self.defs.push(
                (SpecDef {
                    name: name,
                    def_range: def_range,
                    value_range: value_range,
                    is_mutable: false,
                    scope: s,
                    references: Seq::empty(),
                }),
            ),
            refs: self.refs,
        }
    }

    /// The tree after a new reference covering `r` is bound to
    /// definition `d`.
    pub open spec fn with_ref(self, d: int, r: Range) -> SpecTree {
        let m = self.refs.len() as int;
        let def = self.defs[d];
        SpecTree {
            scopes: self.scopes,
            defs: self.defs.update(
                d,
                (SpecDef {
                    name: def.name,
                    def_range: def.def_range,
                    value_range: def.value_range,
                    is_mutable: def.is_mutable,
                    scope: def.scope,
                    references: def.references.push(m),
                }),
            ),
            refs: self.refs.push((SpecRef { range: r, original_def: d })),
        }
    }

    /// Installing a new scope under a scope whose range contains it keeps
    /// the tree well formed.
    pub proof fn lemma_with_child_scope_wf(self, s: int, r: Range)
        requires
            self.wf(),
            0 <= s < self.scopes.len(),
            self.scopes[s].range.spec_contains(r),
        ensures
            self.with_child_scope(s, r).wf(),
    {
        let u = self.with_child_scope(s, r);
        let n = self.scopes.len() as int;
        assert forall|i: int| #![trigger u.scopes[i]] 1 <= i < u.scopes.len() implies {
            &&& u.scopes[i].parent_scope is Some
            &&& {
                let p = u.scopes[i].parent_scope->0;
                &&& 0 <= p < i
                &&& u.scopes[p].child_scopes.contains(i)
                &&& u.scopes[p].range.spec_contains(u.scopes[i].range)
            }
        } by {
            if i < n {
                assert(self.scopes[i].parent_scope is Some);
                let p = self.scopes[i].parent_scope->0;
                assert(u.scopes[i].parent_scope == self.scopes[i].parent_scope);
                let k = choose|k: int|
                    0 <= k < self.scopes[p].child_scopes.len() && self.scopes[p].child_scopes[k]
                        == i;
                assert(self.scopes[p].child_scopes[k] == i);
                assert(u.scopes[p].child_scopes[k] == i);
            } else {
                assert(u.scopes[i] == u.scopes.last());
                assert(u.scopes[s].child_scopes[self.scopes[s].child_scopes.len() as int] == n);
            }
        }
        assert forall|i: int, k: int| #![trigger u.scopes[i].child_scopes[k]]
            0 <= i < u.scopes.len() && 0 <= k < u.scopes[i].child_scopes.len() implies {
                let c = u.scopes[i].child_scopes[k];
                &&& i < c < u.scopes.len()
                &&& u.scopes[c].parent_scope == Some(i)
            } by {
            if i < n {
                if i == s && k == self.scopes[s].child_scopes.len() {
                    assert(u.scopes[i].child_scopes[k] == n);
                } else {
                    assert(u.scopes[i].child_scopes[k] == self.scopes[i].child_scopes[k]);
                    let c = self.scopes[i].child_scopes[k];
                    assert(u.scopes[c].parent_scope == self.scopes[c].parent_scope);
                }
            }
        }
        assert forall|d: int| #![trigger u.defs[d]] 0 <= d < u.defs.len() implies {
            let so = u.defs[d].scope;
            &&& 0 <= so < u.scopes.len()
            &&& u.scopes[so].range.spec_contains(u.defs[d].def_range)
            &&& u.scopes[so].local_defs.contains(d)
        } by {
            assert(u.defs[d] == self.defs[d]);
            let so = self.defs[d].scope;
            let k = choose|k: int|
                0 <= k < self.scopes[so].local_defs.len() && self.scopes[so].local_defs[k] == d;
            assert(self.scopes[so].local_defs[k] == d);
            assert(u.scopes[so].local_defs[k] == d);
            assert(u.scopes[so].range == self.scopes[so].range);
        }
        assert forall|i: int, k: int| #![trigger u.scopes[i].local_defs[k]]
            0 <= i < u.scopes.len() && 0 <= k < u.scopes[i].local_defs.len() implies {
                let d = u.scopes[i].local_defs[k];
                &&& 0 <= d < u.defs.len()
                &&& u.defs[d].scope == i
            } by {
            if i < n {
                assert(u.scopes[i].local_defs == self.scopes[i].local_defs);
                let d = self.scopes[i].local_defs[k];
                assert(u.defs[d] == self.defs[d]);
            }
        }
        assert forall|rr: int| #![trigger u.refs[rr]] 0 <= rr < u.refs.len() implies 0 <= u.refs[rr].original_def
            < u.defs.len() by {
            assert(u.refs[rr] == self.refs[rr]);
        }
        assert forall|d: int, k: int| #![trigger u.defs[d].references[k]]
            0 <= d < u.defs.len() && 0 <= k < u.defs[d].references.len() implies {
                let rr = u.defs[d].references[k];
                &&& 0 <= rr < u.refs.len()
                &&& u.refs[rr].original_def == d
            } by {
            assert(u.defs[d] == self.defs[d]);
            let rr = self.defs[d].references[k];
            assert(u.refs[rr] == self.refs[rr]);
        }
    }

    /// Appending a definition to a scope whose range contains it keeps the
    /// tree well formed.
    pub proof fn lemma_with_def_wf(
        self,
        s: int,
        name: Seq<u8>,
        def_range: Range,
        value_range: Option<Range>,
    )
        requires
            self.wf(),
            0 <= s < self.scopes.len(),
            self.scopes[s].range.spec_contains(def_range),
        ensures
            self.with_def(s, name, def_range, value_range).wf(),
    {
        let u = self.with_def(s, name, def_range, value_range);
        let n = self.defs.len() as int;
        assert forall|i: int| #![trigger u.scopes[i]] 1 <= i < u.scopes.len() implies {
            &&& u.scopes[i].parent_scope is Some
            &&& {
                let p = u.scopes[i].parent_scope->0;
                &&& 0 <= p < i
                &&& u.scopes[p].child_scopes.contains(i)
                &&& u.scopes[p].range.spec_contains(u.scopes[i].range)
            }
        } by {
            assert(self.scopes[i].parent_scope is Some);
            let p = self.scopes[i].parent_scope->0;
            assert(u.scopes[i].parent_scope == self.scopes[i].parent_scope);
            assert(u.scopes[i].range == self.scopes[i].range);
            assert(u.scopes[p].range == self.scopes[p].range);
            let k = choose|k: int|
                0 <= k < self.scopes[p].child_scopes.len() && self.scopes[p].child_scopes[k] == i;
            assert(self.scopes[p].child_scopes[k] == i);
            assert(u.scopes[p].child_scopes[k] == i);
        }
        assert forall|i: int, k: int| #![trigger u.scopes[i].child_scopes[k]]
            0 <= i < u.scopes.len() && 0 <= k < u.scopes[i].child_scopes.len() implies {
                let c = u.scopes[i].child_scopes[k];
                &&& i < c < u.scopes.len()
                &&& u.scopes[c].parent_scope == Some(i)
            } by {
            assert(u.scopes[i].child_scopes[k] == self.scopes[i].child_scopes[k]);
            let c = self.scopes[i].child_scopes[k];
            assert(u.scopes[c].parent_scope == self.scopes[c].parent_scope);
        }
        assert forall|d: int| #![trigger u.defs[d]] 0 <= d < u.defs.len() implies {
            let so = u.defs[d].scope;
            &&& 0 <= so < u.scopes.len()
            &&& u.scopes[so].range.spec_contains(u.defs[d].def_range)
            &&& u.scopes[so].local_defs.contains(d)
        } by {
            if d < n {
                assert(u.defs[d] == self.defs[d]);
                let so = self.defs[d].scope;
                assert(u.scopes[so].range == self.scopes[so].range);
                let k = choose|k: int|
                    0 <= k < self.scopes[so].local_defs.len() && self.scopes[so].local_defs[k]
                        == d;
                assert(self.scopes[so].local_defs[k] == d);
                assert(u.scopes[so].local_defs[k] == d);
            } else {
                assert(u.defs[d] == u.defs.last());
                assert(u.scopes[s].local_defs[self.scopes[s].local_defs.len() as int] == n);
            }
        }
        assert forall|i: int, k: int| #![trigger u.scopes[i].local_defs[k]]
            0 <= i < u.scopes.len() && 0 <= k < u.scopes[i].local_defs.len() implies {
                let d = u.scopes[i].local_defs[k];
                &&& 0 <= d < u.defs.len()
                &&& u.defs[d].scope == i
            } by {
            if i == s && k == self.scopes[s].local_defs.len() {
                assert(u.scopes[i].local_defs[k] == n);
                assert(u.defs[n] == u.defs.last());
            } else {
                assert(u.scopes[i].local_defs[k] == self.scopes[i].local_defs[k]);
                let d = self.scopes[i].local_defs[k];
                assert(u.defs[d] == self.defs[d]);
            }
        }
        assert forall|rr: int| #![trigger u.refs[rr]] 0 <= rr < u.refs.len() implies 0 <= u.refs[rr].original_def
            < u.defs.len() by {
            assert(u.refs[rr] == self.refs[rr]);
        }
        assert forall|d: int, k: int| #![trigger u.defs[d].references[k]]
            0 <= d < u.defs.len() && 0 <= k < u.defs[d].references.len() implies {
                let rr = u.defs[d].references[k];
                &&& 0 <= rr < u.refs.len()
                &&& u.refs[rr].original_def == d
            } by {
            if d < n {
                assert(u.defs[d] == self.defs[d]);
                let rr = self.defs[d].references[k];
                assert(u.refs[rr] == self.refs[rr]);
            } else {
                assert(u.defs[d] == u.defs.last());
            }
        }
    }

    /// Binding a new reference to an existing definition keeps the tree
    /// well formed.
    pub proof fn lemma_with_ref_wf(self, d: int, r: Range)
        requires
            self.wf(),
            0 <= d < self.defs.len(),
        ensures
            self.with_ref(d, r).wf(),
    {
        let u = self.with_ref(d, r);
        let m = self.refs.len() as int;
        assert forall|i: int| #![trigger u.scopes[i]] 1 <= i < u.scopes.len() implies {
            &&& u.scopes[i].parent_scope is Some
            &&& {
                let p = u.scopes[i].parent_scope->0;
                &&& 0 <= p < i
                &&& u.scopes[p].child_scopes.contains(i)
                &&& u.scopes[p].range.spec_contains(u.scopes[i].range)
            }
        } by {
            assert(u.scopes == self.scopes);
            assert(self.scopes[i].parent_scope is Some);
        }
        assert forall|i: int, k: int| #![trigger u.scopes[i].child_scopes[k]]
            0 <= i < u.scopes.len() && 0 <= k < u.scopes[i].child_scopes.len() implies {
                let c = u.scopes[i].child_scopes[k];
                &&& i < c < u.scopes.len()
                &&& u.scopes[c].parent_scope == Some(i)
            } by {
            assert(self.scopes[i].child_scopes[k] == u.scopes[i].child_scopes[k]);
        }
        assert forall|dd: int| #![trigger u.defs[dd]] 0 <= dd < u.defs.len() implies {
            let so = u.defs[dd].scope;
            &&& 0 <= so < u.scopes.len()
            &&& u.scopes[so].range.spec_contains(u.defs[dd].def_range)
            &&& u.scopes[so].local_defs.contains(dd)
        } by {
            assert(u.defs[dd].scope == self.defs[dd].scope);
            assert(u.defs[dd].def_range == self.defs[dd].def_range);
            let so = self.defs[dd].scope;
            let k = choose|k: int|
                0 <= k < self.scopes[so].local_defs.len() && self.scopes[so].local_defs[k] == dd;
            assert(self.scopes[so].local_defs[k] == dd);
            assert(u.scopes[so].local_defs[k] == dd);
        }
        assert forall|i: int, k: int| #![trigger u.scopes[i].local_defs[k]]
            0 <= i < u.scopes.len() && 0 <= k < u.scopes[i].local_defs.len() implies {
                let dd = u.scopes[i].local_defs[k];
                &&& 0 <= dd < u.defs.len()
                &&& u.defs[dd].scope == i
            } by {
            assert(u.scopes[i].local_defs[k] == self.scopes[i].local_defs[k]);
            let dd = self.scopes[i].local_defs[k];
            assert(u.defs[dd].scope == self.defs[dd].scope);
        }
        assert forall|rr: int| #![trigger u.refs[rr]] 0 <= rr < u.refs.len() implies 0 <= u.refs[rr].original_def
            < u.defs.len() by {
            if rr < m {
                assert(u.refs[rr] == self.refs[rr]);
            } else {
                assert(u.refs[rr] == u.refs.last());
            }
        }
        assert forall|dd: int, k: int| #![trigger u.defs[dd].references[k]]
            0 <= dd < u.defs.len() && 0 <= k < u.defs[dd].references.len() implies {
                let rr = u.defs[dd].references[k];
                &&& 0 <= rr < u.refs.len()
                &&& u.refs[rr].original_def == dd
            } by {
            if dd == d && k == self.defs[d].references.len() {
                assert(u.defs[dd].references[k] == m);
                assert(u.refs[m].original_def == d);
            } else {
                assert(u.defs[dd].references[k] == self.defs[dd].references[k]);
                let rr = self.defs[dd].references[k];
                if rr < m {
                    assert(u.refs[rr] == self.refs[rr]);
                }
            }
        }
    }
}

impl SpecTree {
    /// Law: in a well-formed tree, every child scope's range is contained
    /// in its parent's range, and every definition's range is contained in
    /// its owning scope's range.
    pub proof fn lemma_scope_containment(self)
        requires
            self.wf(),
        ensures
            forall|i: int, k: int|
                0 <= i < self.scopes.len() && 0 <= k < self.scopes[i].child_scopes.len()
                    ==> self.scopes[i].range.spec_contains(
                    self.scopes[#[trigger] self.scopes[i].child_scopes[k]].range,
                ),
            forall|i: int, k: int|
                0 <= i < self.scopes.len() && 0 <= k < self.scopes[i].local_defs.len()
                    ==> self.scopes[i].range.spec_contains(
                    self.defs[#[trigger] self.scopes[i].local_defs[k]].def_range,
                ),
    {
        assert forall|i: int, k: int|
            0 <= i < self.scopes.len() && 0 <= k
                < self.scopes[i].child_scopes.len() implies self.scopes[i].range.spec_contains(
            self.scopes[#[trigger] self.scopes[i].child_scopes[k]].range,
        ) by {
            let c = self.scopes[i].child_scopes[k];
            assert(self.scopes[c].parent_scope == Some(i));
        }
        assert forall|i: int, k: int|
            0 <= i < self.scopes.len() && 0 <= k
                < self.scopes[i].local_defs.len() implies self.scopes[i].range.spec_contains(
            self.defs[#[trigger] self.scopes[i].local_defs[k]].def_range,
        ) by {
            let d = self.scopes[i].local_defs[k];
            assert(self.defs[d].scope == i);
        }
    }

    /// When the search over scope `i`'s children from position `k` found
    /// nothing, no child at position `k` or later contains `r`.
    proof fn lemma_fcc_none(self, i: int, k: int, r: Range)
        requires
            0 <= i < self.scopes.len(),
            0 <= k,
            self.first_containing_child_from(i, k, r) is None,
        ensures
            forall|j: int|
                k <= j < self.scopes[i].child_scopes.len() ==> !self.scopes[#[trigger] self.scopes[i].child_scopes[j]].range.spec_contains(
                    r,
                ),
        decreases self.scopes[i].child_scopes.len() - k,
    {
        if k < self.scopes[i].child_scopes.len() {
            let c = self.scopes[i].child_scopes[k];
            assert(!self.scopes[c].range.spec_contains(r));
            self.lemma_fcc_none(i, k + 1, r);
            assert forall|j: int|
                k <= j < self.scopes[i].child_scopes.len() implies !self.scopes[#[trigger] self.scopes[i].child_scopes[j]].range.spec_contains(
                r,
            ) by {
                if j == k {
                    assert(self.scopes[i].child_scopes[j] == c);
                }
            }
        }
    }

    /// Law: the lookup result is innermost. The scope found for `r`
    /// contains `r`, and no proper descendant of it contains `r`.
    pub proof fn lemma_scope_by_range_innermost(self, r: Range)
        requires
            self.wf(),
            self.scope_by_range_spec(r) is Some,
        ensures
            ({
                let s = self.scope_by_range_spec(r)->0;
                &&& self.valid_scope(s)
                &&& self.scopes[s].range.spec_contains(r)
                &&& forall|d: int|
                    self.in_subtree(s, d) && d != s ==> !(#[trigger] self.scopes[d].range).spec_contains(
                        r,
                    )
            }),
    {
        self.lemma_descend_props(0, r);
        let s = self.scope_by_range_spec(r)->0;
        assert forall|d: int| self.in_subtree(s, d) && d != s implies !(
        #[trigger] self.scopes[d].range).spec_contains(r) by {
            self.lemma_subtree_not_contains(s, d, r);
        }
    }

    /// Descending from a scope that contains `r` ends at a scope that
    /// still contains `r` and none of whose children contains `r`.
    pub proof fn lemma_descend_props(self, i: int, r: Range)
        requires
            self.wf(),
            0 <= i < self.scopes.len(),
            self.scopes[i].range.spec_contains(r),
        ensures
            ({
                let s = self.descend(i, r);
                &&& i <= s < self.scopes.len()
                &&& self.scopes[s].range.spec_contains(r)
                &&& self.first_containing_child(s, r) is None
            }),
        decreases self.scopes.len() - i,
    {
        match self.first_containing_child(i, r) {
            Some(c) => {
                self.lemma_fcc_some(i, 0, r);
                self.lemma_descend_props(c, r);
            },
            None => {},
        }
    }

    /// When the search over scope `i`'s children from position `k` found a
    /// child, that child is one of `i`'s children and contains `r`.
    proof fn lemma_fcc_some(self, i: int, k: int, r: Range)
        requires
            0 <= i < self.scopes.len(),
            self.first_containing_child_from(i, k, r) is Some,
        ensures
            ({
                let c = self.first_containing_child_from(i, k, r)->0;
                &&& self.scopes[i].child_scopes.contains(c)
                &&& self.scopes[c].range.spec_contains(r)
            }),
        decreases self.scopes[i].child_scopes.len() - k,
    {
        let c = self.scopes[i].child_scopes[k];
        if self.scopes[c].range.spec_contains(r) {
            assert(self.scopes[i].child_scopes[k] == c);
        } else {
            self.lemma_fcc_some(i, k + 1, r);
        }
    }

    /// No proper descendant of a scope none of whose children contains
    /// `r` can contain `r` itself.
    proof fn lemma_subtree_not_contains(self, s: int, d: int, r: Range)
        requires
            self.wf(),
            0 <= s < self.scopes.len(),
            self.first_containing_child(s, r) is None,
            self.in_subtree(s, d),
            d != s,
        ensures
            !self.scopes[d].range.spec_contains(r),
        decreases d,
    {
        let p = self.scopes[d].parent_scope->0;
        if p == s {
            let k = choose|k: int|
                0 <= k < self.scopes[s].child_scopes.len() && self.scopes[s].child_scopes[k] == d;
            self.lemma_fcc_none(s, 0, r);
            assert(self.scopes[s].child_scopes[k] == d);
        } else {
            self.lemma_subtree_not_contains(s, p, r);
            assert(self.scopes[p].range.spec_contains(self.scopes[d].range));
        }
    }

    /// When the search over scope `i`'s definitions found one, it is a
    /// definition of scope `i` bearing the name sought.
    proof fn lemma_fdn_some(self, i: int, k: int, name: Seq<u8>)
        requires
            self.wf(),
            0 <= i < self.scopes.len(),
            self.first_def_named_from(i, k, name) is Some,
        ensures
            ({
                let d = self.first_def_named_from(i, k, name)->0;
                &&& 0 <= d < self.defs.len()
                &&& self.defs[d].name == name
                &&& self.defs[d].scope == i
            }),
        decreases self.scopes[i].local_defs.len() - k,
    {
        let d = self.scopes[i].local_defs[k];
        if 0 <= d < self.defs.len() && self.defs[d].name == name {
            assert(self.scopes[i].local_defs[k] == d);
        } else {
            self.lemma_fdn_some(i, k + 1, name);
        }
    }

    /// Law, inner half of innermost-first resolution: when the scope a
    /// reference falls in defines the name itself, resolution binds to
    /// that scope's own (first) definition, never to an outer one.
    pub proof fn lemma_resolve_innermost(self, s: int, name: Seq<u8>)
        requires
            self.wf(),
            0 <= s < self.scopes.len(),
            self.first_def_named(s, name) is Some,
        ensures
            self.resolve(s, name) == self.first_def_named(s, name),
            self.defs[self.resolve(s, name)->0].scope == s,
    {
        self.lemma_fdn_some(s, 0, name);
    }

    /// Law, outer half of innermost-first resolution: when the scope a
    /// reference falls in does not define the name, resolution is exactly
    /// resolution from the enclosing scope — the walk continues outward
    /// unchanged.
    pub proof fn lemma_resolve_outward(self, s: int, name: Seq<u8>)
        requires
            self.wf(),
            0 <= s < self.scopes.len(),
            self.first_def_named(s, name) is None,
        ensures
            self.resolve(s, name) == match self.scopes[s].parent_scope {
                Some(p) => self.resolve(p, name),
                None => None::<int>,
            },
    {
    }

    /// Law: reference resolution is innermost-first. A reference binds
    /// inside the deepest scope containing it: when that scope defines
    /// the name itself, it binds to that scope's own definition; when it
    /// does not, it binds exactly as the enclosing scope would, walking
    /// outward until a definition is found.
    pub proof fn lemma_reference_binds_innermost(self, name: Seq<u8>, r: Range)
        requires
            self.wf(),
            self.scope_by_range_spec(r) is Some,
        ensures
            ({
                let s = self.scope_by_range_spec(r)->0;
                &&& self.valid_scope(s)
                &&& (self.first_def_named(s, name) is Some ==> self.resolve(s, name)
                    == self.first_def_named(s, name) && self.defs[self.resolve(s, name)->0].scope
                    == s)
                &&& (self.first_def_named(s, name) is None ==> self.resolve(s, name)
                    == match self.scopes[s].parent_scope {
                    Some(p) => self.resolve(p, name),
                    None => None::<int>,
                })
            }),
    {
        self.lemma_descend_props(0, r);
        let s = self.scope_by_range_spec(r)->0;
        if self.first_def_named(s, name) is Some {
            self.lemma_resolve_innermost(s, name);
        } else {
            self.lemma_resolve_outward(s, name);
        }
    }
}

} // verus!
