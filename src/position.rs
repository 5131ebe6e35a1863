use vstd::prelude::*;

verus! {

/// A position in a multi-line text document, in terms of rows and columns.
#[derive(Clone, Copy, Debug, Default, PartialEq, Eq, Hash, PartialOrd, Ord, Structural)]
pub struct Point {
    /// A row number in source code (zero-based).
    pub row: usize,
    /// A column number in source code (zero-based).
    pub col: usize,
}

/// A range of positions in a multi-line text document, both in terms of bytes
/// and of rows and columns.
#[derive(Debug, PartialEq, Eq, Hash)]
pub struct Range {
    /// The byte range in the source code.
    pub bytes: std::ops::Range<usize>,
    /// The logical start point of the represented range.
    pub start_point: Point,
    /// The logical end point of the represented range.
    pub end_point: Point,
}

/// Lexicographic (row-major) order on points.
pub open spec fn point_le(a: Point, b: Point) -> bool {
    a.row < b.row || (a.row == b.row && a.col <= b.col)
}

/// The order in which findings are reported: by start point, then by end point.
pub open spec fn range_le(a: Range, b: Range) -> bool {
    point_le(a.start_point, b.start_point) && (a.start_point == b.start_point ==> point_le(
        a.end_point,
        b.end_point,
    ))
}

impl Point {
    /// Whether `self` comes no later than `other` in row-major order.
    pub fn le(&self, other: &Point) -> (r: bool)
        ensures
            r == point_le(*self, *other),
    {
        self.row < other.row || (self.row == other.row && self.col <= other.col)
    }
}

impl Clone for Range {
    fn clone(&self) -> (r: Range)
        ensures
            r == *self,
    {
        Range {
            bytes: self.bytes.start..self.bytes.end,
            start_point: self.start_point,
            end_point: self.end_point,
        }
    }
}

impl Range {
    /// The invariant of a range: its start lies no later than its end.
    pub open spec fn wf(self) -> bool {
        self.bytes.start <= self.bytes.end && point_le(self.start_point, self.end_point)
    }

    /// Whether the range covers no byte at all.
    pub fn is_empty(&self) -> (r: bool)
        ensures
            r == (self.bytes.start >= self.bytes.end),
    {
        self.bytes.start >= self.bytes.end
    }

    /// Whether `self` is reported no later than `other`.
    pub fn order_le(&self, other: &Range) -> (r: bool)
        ensures
            r == range_le(*self, *other),
    {
        if self.start_point == other.start_point {
            self.end_point.le(&other.end_point)
        } else {
            self.start_point.le(&other.start_point)
        }
    }
}

} // verus!
