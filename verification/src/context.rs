//! The per-file context handed to every validator: the scope tree, when
//! a scope query was configured, and the injected trees, when injections
//! were configured.
//!
//! A context is built once per file and read by every validator; lookups
//! are by byte range.

use vstd::prelude::*;

use crate::injection::{injected_tree_ok, InjectedTree};
use crate::range::{contains_range, Range};
use crate::scope::ScopeTree;

verus! {

/// Scope and injection data for one file, shared by its validators.
pub struct Context {
    /// The file's scope tree, when a scope query was configured.
    pub scope_tree: Option<ScopeTree>,
    /// The file's injected trees, in capture order.
    pub injected_trees: Vec<InjectedTree>,
}

impl Context {
    /// The scope tree, when present, is well formed.
    pub open spec fn scopes_wf(self) -> bool {
        match self.scope_tree {
            Some(t) => t@.wf(),
            None => true,
        }
    }

    /// The context is sound for a source of length `n`: its scope tree,
    /// when present, is well formed, and every injected tree is a
    /// well-formed sub-range of the source whose inner tree spans it.
    pub open spec fn wf(self, n: int) -> bool {
        &&& self.scopes_wf()
        &&& forall|i: int|
            0 <= i < self.injected_trees@.len() ==> injected_tree_ok(
                #[trigger] self.injected_trees@[i],
                n,
            )
    }

    /// The file's scope tree, when scope resolution ran.
    pub fn root_scope(&self) -> (r: &Option<ScopeTree>)
        ensures
            r == &self.scope_tree,
    {
        &self.scope_tree
    }

    /// The deepest scope whose range contains `*range`, as an index into
    /// the scope tree; `None` when no scope query was configured or no
    /// scope contains the range.
    pub fn scope_by_range(&self, range: &Range) -> (r: Option<usize>)
        requires
            self.scopes_wf(),
        ensures
            match r {
                Some(s) => {
                    &&& self.scope_tree is Some
                    &&& self.scope_tree->0@.scope_by_range_spec(*range) == Some(s as int)
                    &&& s < self.scope_tree->0@.scopes.len()
                },
                None => match self.scope_tree {
                    Some(t) => t@.scope_by_range_spec(*range) is None,
                    None => true,
                },
            },
    {
        match &self.scope_tree {
            Some(t) => t.scope_by_range(range),
            None => None,
        }
    }

    /// The chain of scopes from the deepest scope containing `*range` up
    /// to the root, as indices; `None` when no scope contains it.
    pub fn scope_stack_by_range(&self, range: &Range) -> (r: Option<Vec<usize>>)
        requires
            self.scopes_wf(),
        ensures
            match r {
                Some(st) => {
                    &&& self.scope_tree is Some
                    &&& st@.len() >= 1
                    &&& self.scope_tree->0@.scope_by_range_spec(*range) == Some(st@[0] as int)
                    &&& st@.map_values(|i: usize| i as int) == self.scope_tree->0@.stack_seq(
                        st@[0] as int,
                    )
                    &&& forall|j: int|
                        0 <= j < st@.len() ==> #[trigger] st@[j]
                            < self.scope_tree->0@.scopes.len()
                },
                None => match self.scope_tree {
                    Some(t) => t@.scope_by_range_spec(*range) is None,
                    None => true,
                },
            },
    {
        match &self.scope_tree {
            Some(t) => match t.scope_by_range(range) {
                Some(s) => Some(t.scope_stack(s)),
                None => None,
            },
            None => None,
        }
    }

    /// The deepest scope the captured node belongs to: sugar for
    /// [`Context::scope_by_range`] on the capture's range.
    pub fn scope_of(&self, capture: &crate::ts::RawCapture) -> (r: Option<usize>)
        requires
            self.scopes_wf(),
        ensures
            match r {
                Some(s) => {
                    &&& self.scope_tree is Some
                    &&& self.scope_tree->0@.scope_by_range_spec(capture.range) == Some(s as int)
                    &&& s < self.scope_tree->0@.scopes.len()
                },
                None => match self.scope_tree {
                    Some(t) => t@.scope_by_range_spec(capture.range) is None,
                    None => true,
                },
            },
    {
        self.scope_by_range(&capture.range)
    }

    /// The chain of scopes the captured node belongs to, up to the root:
    /// sugar for [`Context::scope_stack_by_range`] on the capture's
    /// range.
    pub fn scope_stack_of(&self, capture: &crate::ts::RawCapture) -> (r: Option<Vec<usize>>)
        requires
            self.scopes_wf(),
        ensures
            match r {
                Some(st) => {
                    &&& self.scope_tree is Some
                    &&& st@.len() >= 1
                    &&& self.scope_tree->0@.scope_by_range_spec(capture.range) == Some(
                        st@[0] as int,
                    )
                },
                None => match self.scope_tree {
                    Some(t) => t@.scope_by_range_spec(capture.range) is None,
                    None => true,
                },
            },
    {
        self.scope_stack_by_range(&capture.range)
    }

    /// The first injected tree containing the captured node: sugar for
    /// [`Context::injected_tree_by_range`] on the capture's range.
    pub fn injected_tree_of(&self, capture: &crate::ts::RawCapture) -> (r: Option<&InjectedTree>)
        ensures
            match r {
                Some(t) => {
                    &&& first_injected_from(self.injected_trees@, capture.range, 0) matches Some(i)
                        && t == &self.injected_trees@[i]
                    &&& t.original_range.spec_contains(capture.range)
                },
                None => first_injected_from(self.injected_trees@, capture.range, 0) is None,
            },
    {
        self.injected_tree_by_range(&capture.range)
    }

    /// The first injected tree whose original range contains `*range`.
    pub fn injected_tree_by_range(&self, range: &Range) -> (r: Option<&InjectedTree>)
        ensures
            match r {
                Some(t) => {
                    &&& first_injected_from(self.injected_trees@, *range, 0) matches Some(i) && t
                        == &self.injected_trees@[i]
                    &&& t.original_range.spec_contains(*range)
                },
                None => first_injected_from(self.injected_trees@, *range, 0) is None,
            },
    {
        let mut k: usize = 0;
        while k < self.injected_trees.len()
            invariant
                k <= self.injected_trees@.len(),
                first_injected_from(self.injected_trees@, *range, 0) == first_injected_from(
                    self.injected_trees@,
                    *range,
                    k as int,
                ),
            decreases self.injected_trees.len() - k,
        {
            if contains_range(&self.injected_trees[k].original_range, range) {
                return Some(&self.injected_trees[k]);
            }
            k += 1;
        }
        None
    }
}

/// The index of the first injected tree, at position `k` or later, whose
/// original range contains `r`.
pub open spec fn first_injected_from(trees: Seq<InjectedTree>, r: Range, k: int) -> Option<int>
    decreases trees.len() - k,
{
    if 0 <= k < trees.len() {
        if trees[k].original_range.spec_contains(r) {
            Some(k)
        } else {
            first_injected_from(trees, r, k + 1)
        }
    } else {
        None
    }
}

/// When the search found an injected tree, its index lies in the list
/// and its range contains `r`.
pub proof fn lemma_first_injected_bounds(trees: Seq<InjectedTree>, r: Range, k: int)
    requires
        0 <= k,
        first_injected_from(trees, r, k) is Some,
    ensures
        ({
            let i = first_injected_from(trees, r, k)->0;
            &&& k <= i < trees.len()
            &&& trees[i].original_range.spec_contains(r)
        }),
    decreases trees.len() - k,
{
    if k < trees.len() && !trees[k].original_range.spec_contains(r) {
        lemma_first_injected_bounds(trees, r, k + 1);
    }
}

} // verus!
