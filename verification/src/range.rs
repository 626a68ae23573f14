//! Byte-range containment and ordering primitives used throughout the
//! analysis engine.
//!
//! A [`Range`] is a half-open byte interval `[start_byte, end_byte)` paired
//! with two-dimensional start and end points. Points are 0-based here;
//! the reporting layer converts to 1-based coordinates exactly once, at
//! serialization.

use vstd::prelude::*;

verus! {

/// A 0-based (row, column) position in a source file.
#[derive(Clone, Copy, Debug, PartialEq, Eq, Structural)]
pub struct Point {
    /// 0-based line number.
    pub row: usize,
    /// 0-based byte column within the line.
    pub column: usize,
}

/// A half-open byte interval `[start_byte, end_byte)` in a source file,
/// together with the two-dimensional positions of its endpoints.
///
/// Ranges are produced by the parser, never synthesized by the engine.
#[derive(Clone, Copy, Debug, PartialEq, Eq, Structural)]
pub struct Range {
    /// Byte offset of the first byte covered.
    pub start_byte: usize,
    /// Byte offset one past the last byte covered.
    pub end_byte: usize,
    /// Position of the start of the range.
    pub start_point: Point,
    /// Position of the end of the range.
    pub end_point: Point,
}

impl Range {
    /// An interval is well formed when it does not end before it starts.
    pub open spec fn wf(self) -> bool {
        self.start_byte <= self.end_byte
    }

    /// Containment as a spec-level predicate: `a` contains `b` iff
    /// `a.start_byte <= b.start_byte && b.end_byte <= a.end_byte`.
    pub open spec fn spec_contains(self, b: Range) -> bool {
        b.start_byte >= self.start_byte && b.end_byte <= self.end_byte
    }

    /// The range's points can be moved to a 1-based scheme without
    /// overflow. Every range a parser produces satisfies this: parsers
    /// store positions in 32 bits.
    pub open spec fn wire_safe(self) -> bool {
        &&& self.start_point.row < usize::MAX
        &&& self.start_point.column < usize::MAX
        &&& self.end_point.row < usize::MAX
        &&& self.end_point.column < usize::MAX
    }
}

impl Range {
    /// `true` iff the range's points can be moved to a 1-based scheme
    /// without overflow.
    pub fn is_wire_safe(&self) -> (r: bool)
        ensures
            r == self.wire_safe(),
    {
        self.start_point.row < usize::MAX && self.start_point.column < usize::MAX
            && self.end_point.row < usize::MAX && self.end_point.column < usize::MAX
    }
}

/// `true` iff `a` contains `b`: every byte of `b` lies within `a`.
pub fn contains_range(a: &Range, b: &Range) -> (r: bool)
    ensures
        r == a.spec_contains(*b),
{
    b.start_byte >= a.start_byte && b.end_byte <= a.end_byte
}

} // verus!
