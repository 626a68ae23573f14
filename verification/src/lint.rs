//! Lint metadata, occurrences and diagnostics.
//!
//! A [`Lint`] is static metadata: a stable code and a human-readable name.
//! An [`Occurrence`] is one reported instance of a lint at a byte range
//! with a context-aware message; validators produce them through
//! [`Lint::raise`].

use vstd::prelude::*;
use vstd::utf8::{encode_utf8, valid_utf8};

use crate::range::Range;
use crate::text::{decimal_bytes, push_decimal, push_str_bytes, string_from_utf8_or_empty};

verus! {

/// Static metadata about an antipattern the linter can raise.
#[derive(Clone, Copy, Debug)]
pub struct Lint {
    /// The name of this lint, e.g. `unused-variable`.
    pub name: &'static str,
    /// A unique, stable code identifying this lint.
    pub code: &'static str,
}

/// One reported instance of a [`Lint`]: where it occurred and a
/// context-aware message.
#[derive(Clone, Debug)]
pub struct Occurrence {
    /// The lint this occurrence is an instance of.
    pub lint: Lint,
    /// The byte range the occurrence covers.
    pub at: Range,
    /// A context-aware message describing the occurrence.
    pub message: String,
}

impl Lint {
    /// Produce an [`Occurrence`] of this lint at `at` with `message`.
    pub fn raise(&self, at: Range, message: String) -> (o: Occurrence)
        ensures
            o.lint.name == self.name,
            o.lint.code == self.code,
            o.at == at,
            o.message == message,
    {
        Occurrence { lint: *self, at, message }
    }
}

/// Every occurrence in the sequence lies within a source of length `n`,
/// with a well-formed range and wire-safe positions.
pub open spec fn occurrences_ok(occs: Seq<Occurrence>, n: int) -> bool {
    forall|k: int|
        0 <= k < occs.len() ==> {
            &&& (#[trigger] occs[k]).at.wf()
            &&& occs[k].at.wire_safe()
            &&& occs[k].at.end_byte <= n
        }
}

/// The stable display form of an occurrence, as bytes:
/// `<name>, <code>, <message>: (<row>, <col>)..(<row>, <col>)` with the
/// 0-based start and end points of its range.
pub open spec fn occurrence_display_spec(o: Occurrence) -> Seq<u8> {
    encode_utf8(o.lint.name@) + encode_utf8(", "@) + encode_utf8(o.lint.code@) + encode_utf8(", "@)
        + encode_utf8(o.message@) + encode_utf8(": ("@) + decimal_bytes(o.at.start_point.row as nat)
        + encode_utf8(", "@) + decimal_bytes(o.at.start_point.column as nat) + encode_utf8(")..("@)
        + decimal_bytes(o.at.end_point.row as nat) + encode_utf8(", "@) + decimal_bytes(
        o.at.end_point.column as nat,
    ) + encode_utf8(")"@)
}

impl Occurrence {
    /// The stable display form of this occurrence, as bytes.
    pub fn display_bytes(&self) -> (r: Vec<u8>)
        ensures
            r@ == occurrence_display_spec(*self),
    {
        let mut out: Vec<u8> = Vec::new();
        push_str_bytes(&mut out, self.lint.name);
        push_str_bytes(&mut out, ", ");
        push_str_bytes(&mut out, self.lint.code);
        push_str_bytes(&mut out, ", ");
        push_str_bytes(&mut out, self.message.as_str());
        push_str_bytes(&mut out, ": (");
        push_decimal(&mut out, self.at.start_point.row);
        push_str_bytes(&mut out, ", ");
        push_decimal(&mut out, self.at.start_point.column);
        push_str_bytes(&mut out, ")..(");
        push_decimal(&mut out, self.at.end_point.row);
        push_str_bytes(&mut out, ", ");
        push_decimal(&mut out, self.at.end_point.column);
        push_str_bytes(&mut out, ")");
        proof {
            assert(out@ =~= occurrence_display_spec(*self));
        }
        out
    }

    /// The stable display form of this occurrence, as a string.
    pub fn display_string(&self) -> (r: String)
        ensures
            valid_utf8(occurrence_display_spec(*self)) ==> encode_utf8(r@)
                == occurrence_display_spec(*self),
    {
        string_from_utf8_or_empty(self.display_bytes())
    }
}

} // verus!
