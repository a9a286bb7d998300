//! Canonical edge keys and triangles over point indices.
//!
//! An edge is an unordered pair of point indices.  The constructor stores the
//! smaller index first, so two edges built from the same pair in either order
//! are equal as values and hash identically.

use vstd::prelude::*;

verus! {

/// An unordered pair of distinct point indices, stored with `a < b`.
#[derive(Clone, Copy, PartialEq, Eq, Structural, Hash, Debug)]
pub struct Edge {
    pub a: usize,
    pub b: usize,
}

/// The canonical edge over the pair `{x, y}`: smaller index first.
pub open spec fn edge_of(x: usize, y: usize) -> Edge {
    if x < y {
        (Edge { a: x, b: y })
    } else {
        (Edge { a: y, b: x })
    }
}

/// The edge is canonical: its endpoints are distinct and ordered.
pub open spec fn edge_wf(e: Edge) -> bool {
    e.a < e.b
}

impl Edge {
    /// Build the canonical edge over `{x, y}`.  The two indices must differ:
    /// an edge from a point to itself would be a degenerate triangle side.
    pub fn new(x: usize, y: usize) -> (r: Edge)
        requires
            x != y,
        ensures
            r == edge_of(x, y),
            edge_wf(r),
    {
        if x < y {
            Edge { a: x, b: y }
        } else {
            Edge { a: y, b: x }
        }
    }
}

/// The edge key does not depend on the order of its endpoints:
/// `Edge::new(x, y)` and `Edge::new(y, x)` are the same value, so they are
/// equal under `==` and every hash of them agrees.
pub proof fn lemma_edge_symmetry(x: usize, y: usize)
    requires
        x != y,
    ensures
        edge_of(x, y) == edge_of(y, x),
{
}

/// A triangle over three point indices, in the stored vertex order; its three
/// sides are the canonical edges of consecutive vertex pairs.
#[derive(Clone, Copy, PartialEq, Eq, Structural, Debug)]
pub struct Triangle {
    pub a: usize,
    pub b: usize,
    pub c: usize,
}

/// The three vertex indices are pairwise distinct and name existing points.
pub open spec fn tri_wf(t: Triangle, n_points: nat) -> bool {
    &&& t.a < n_points
    &&& t.b < n_points
    &&& t.c < n_points
    &&& t.a != t.b
    &&& t.b != t.c
    &&& t.a != t.c
}

/// The triangle's three canonical edges, as a sequence.
pub open spec fn tri_edges(t: Triangle) -> Seq<Edge> {
    seq![edge_of(t.a, t.b), edge_of(t.b, t.c), edge_of(t.c, t.a)]
}

impl Triangle {
    /// The triangle's three canonical edges.
    pub fn edges(&self) -> (r: [Edge; 3])
        requires
            self.a != self.b,
            self.b != self.c,
            self.a != self.c,
        ensures
            r@ == tri_edges(*self),
    {
        let r = [Edge::new(self.a, self.b), Edge::new(self.b, self.c), Edge::new(self.c, self.a)];
        proof {
            assert(r@ =~= tri_edges(*self));
        }
        r
    }
}

} // verus!
