//! Triangles as index triples into a companion point list.

use vstd::prelude::*;

verus! {

/// Triangle, referring to three points of a point list by index.
#[derive(Clone, Copy, Debug, Default, PartialEq, Eq, Structural)]
pub struct Triangle {
    /// First point.
    pub a: usize,
    /// Second point.
    pub b: usize,
    /// Third point.
    pub c: usize,
}

impl Triangle {
    /// All three indices point into a list of `n` points.
    pub open spec fn in_range(self, n: int) -> bool {
        self.a < n && self.b < n && self.c < n
    }

    /// The triangle refers to point index `i`.
    pub open spec fn references(self, i: int) -> bool {
        self.a == i || self.b == i || self.c == i
    }

    /// Create a triangle from three point indices.
    pub fn new(a: usize, b: usize, c: usize) -> (r: Triangle)
        ensures
            r == (Triangle { a, b, c }),
    {
        Triangle { a, b, c }
    }
}

/// Every triangle of the list indexes into a list of `n` points.
pub open spec fn triangles_in_range(triangles: Seq<Triangle>, n: int) -> bool {
    forall|i: int| 0 <= i < triangles.len() ==> #[trigger] triangles[i].in_range(n)
}

} // verus!
