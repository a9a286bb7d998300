//! Derived, whole-mesh checks on a triangulation: the Delaunay property,
//! manifoldness of the edge set, and the point-adjacency index.  All three
//! are recomputed from the triangle set; none is a source of truth.

use vstd::prelude::*;

use crate::geometry::{in_circumcircle_spec, point_in_circumcircle, Point};
use crate::mesh::{edge_of, edge_wf, tri_edges, tri_wf, Edge, Triangle};
use crate::store::Triangulation;

verus! {

/// The edges of all triangles, three per triangle, in slot order.
pub open spec fn all_edges(tris: Seq<Triangle>) -> Seq<Edge>
    decreases tris.len(),
{
    if tris.len() == 0 {
        Seq::empty()
    } else {
        all_edges(tris.drop_last()) + tri_edges(tris.last())
    }
}

/// How many triangles the edge `e` belongs to.  A well-formed triangle has
/// three distinct canonical edges, so each triangle holding `e` counts once.
pub open spec fn edge_count(tris: Seq<Triangle>, e: Edge) -> nat {
    all_edges(tris).to_multiset().count(e)
}

/// No point other than a triangle's own vertices lies strictly inside that
/// triangle's circumcircle.
pub open spec fn delaunay_spec(pts: Seq<Point>, tris: Seq<Triangle>) -> bool {
    forall|i: int, j: int|
        #![trigger tris[i], pts[j]]
        0 <= i < tris.len() && 0 <= j < pts.len() && j != tris[i].a && j != tris[i].b && j
            != tris[i].c ==> !in_circumcircle_spec(
            pts[j],
            pts[tris[i].a as int],
            pts[tris[i].b as int],
            pts[tris[i].c as int],
        )
}

/// Every edge of the mesh belongs to one or two triangles: one for a
/// boundary edge of the triangulated region, two for an interior edge.
pub open spec fn manifold_spec(tris: Seq<Triangle>) -> bool {
    forall|k: int|
        0 <= k < all_edges(tris).len() ==> 1 <= edge_count(tris, #[trigger] all_edges(tris)[k])
            <= 2
}

/// Points `i` and `j` share an edge of some triangle.
pub open spec fn adjacent(tris: Seq<Triangle>, i: usize, j: usize) -> bool {
    i != j && all_edges(tris).contains(edge_of(i, j))
}

/// The edges of well-formed triangles are canonical, with endpoints below
/// the point count.
pub proof fn lemma_all_edges_ok(tris: Seq<Triangle>, np: nat)
    requires
        crate::store::tris_wf(tris, np),
    ensures
        forall|k: int|
            0 <= k < all_edges(tris).len() ==> edge_wf(#[trigger] all_edges(tris)[k]) && (
            all_edges(tris)[k].b as nat) < np,
    decreases tris.len(),
{
    if tris.len() > 0 {
        let rest = tris.drop_last();
        assert(crate::store::tris_wf(rest, np)) by {
            assert(forall|k: int| 0 <= k < rest.len() ==> (#[trigger] rest[k]) == tris[k]);
        }
        lemma_all_edges_ok(rest, np);
        let t = tris.last();
        assert(tri_wf(t, np));
        let pre = all_edges(rest);
        let whole = all_edges(tris);
        assert(whole == pre + tri_edges(t));
        assert forall|k: int| 0 <= k < whole.len() implies edge_wf(#[trigger] whole[k]) && (
        whole[k].b as nat) < np by {
            if k < pre.len() {
                assert(whole[k] == pre[k]);
            } else {
                assert(whole[k] == tri_edges(t)[k - pre.len()]);
            }
        }
    }
}

/// The bootstrap triangulation is Delaunay: the two seed triangles share
/// one circumcircle, and the square's remaining corner lies exactly on it,
/// never strictly inside.
pub proof fn lemma_seed_delaunay()
    ensures
        delaunay_spec(crate::store::seed_points(), crate::store::seed_triangles()),
{
    let pts = crate::store::seed_points();
    let tris = crate::store::seed_triangles();
    let u = crate::geometry::MAX_COORD;
    let p0 = Point { x: 0, y: 0 };
    let p1 = Point { x: u, y: 0 };
    let p2 = Point { x: u, y: u };
    let p3 = Point { x: 0, y: u };
    assert(crate::geometry::circum_det(p2, p0, p1, p3) == 0) by (nonlinear_arith)
        requires
            p0.x == 0 && p0.y == 0,
            p1.x == 16384 && p1.y == 0,
            p2.x == 16384 && p2.y == 16384,
            p3.x == 0 && p3.y == 16384,
    ;
    assert(crate::geometry::circum_det(p0, p1, p2, p3) == 0) by (nonlinear_arith)
        requires
            p0.x == 0 && p0.y == 0,
            p1.x == 16384 && p1.y == 0,
            p2.x == 16384 && p2.y == 16384,
            p3.x == 0 && p3.y == 16384,
    ;
    assert(pts[0] == p0 && pts[1] == p1 && pts[2] == p2 && pts[3] == p3);
    assert forall|i: int, j: int|
        #![trigger tris[i], pts[j]]
        0 <= i < tris.len() && 0 <= j < pts.len() && j != tris[i].a && j != tris[i].b && j
            != tris[i].c implies !in_circumcircle_spec(
        pts[j],
        pts[tris[i].a as int],
        pts[tris[i].b as int],
        pts[tris[i].c as int],
    ) by {
        if i == 0 {
            assert(j == 2);
        } else {
            assert(j == 0);
        }
    }
}

/// The bootstrap triangulation is manifold: the shared diagonal belongs to
/// both seed triangles, the four outer edges to one each.
pub proof fn lemma_seed_manifold()
    ensures
        manifold_spec(crate::store::seed_triangles()),
{
    let tris = crate::store::seed_triangles();
    let es = all_edges(tris);
    let e01 = edge_of(0, 1);
    let e13 = edge_of(1, 3);
    let e03 = edge_of(3, 0);
    let e12 = edge_of(1, 2);
    let e23 = edge_of(2, 3);
    let s1 = tris.drop_last();
    reveal_with_fuel(all_edges, 4);
    assert(s1.drop_last() =~= Seq::<Triangle>::empty());
    assert(all_edges(s1.drop_last()) == Seq::<Edge>::empty());
    assert(s1.len() == 1 && s1.last() == (Triangle { a: 0, b: 1, c: 3 }));
    assert(all_edges(s1) == Seq::<Edge>::empty() + tri_edges(s1.last()));
    assert(es == all_edges(s1) + tri_edges(tris.last()));
    assert(es =~= seq![e01, e13, e03, e12, e23, e13]);
    let m0 = Seq::<Edge>::empty();
    m0.to_multiset_ensures();
    assert(m0.to_multiset() =~= vstd::multiset::Multiset::<Edge>::empty());
    vstd::seq_lib::to_multiset_build(m0, e01);
    vstd::seq_lib::to_multiset_build(m0.push(e01), e13);
    vstd::seq_lib::to_multiset_build(m0.push(e01).push(e13), e03);
    vstd::seq_lib::to_multiset_build(m0.push(e01).push(e13).push(e03), e12);
    vstd::seq_lib::to_multiset_build(m0.push(e01).push(e13).push(e03).push(e12), e23);
    vstd::seq_lib::to_multiset_build(m0.push(e01).push(e13).push(e03).push(e12).push(e23), e13);
    assert(es == m0.push(e01).push(e13).push(e03).push(e12).push(e23).push(e13));
    assert(es.to_multiset().count(e01) == 1);
    assert(es.to_multiset().count(e13) == 2);
    assert(es.to_multiset().count(e03) == 1);
    assert(es.to_multiset().count(e12) == 1);
    assert(es.to_multiset().count(e23) == 1);
    assert forall|k: int| 0 <= k < es.len() implies 1 <= edge_count(tris, #[trigger] es[k])
        <= 2 by {
        if k == 0 {
            assert(es[k] == e01);
        } else if k == 1 || k == 5 {
            assert(es[k] == e13);
        } else if k == 2 {
            assert(es[k] == e03);
        } else if k == 3 {
            assert(es[k] == e12);
        } else {
            assert(es[k] == e23);
        }
    }
}

/// How often `e` occurs in `v`, by a front-to-back scan.
fn count_edge(v: &Vec<Edge>, e: Edge) -> (c: usize)
    ensures
        c == v@.to_multiset().count(e),
{
    let n = v.len();
    let mut c: usize = 0;
    let mut j: usize = 0;
    proof {
        assert(v@.take(0) =~= Seq::<Edge>::empty());
        Seq::<Edge>::empty().to_multiset_ensures();
        assert(Seq::<Edge>::empty().to_multiset().count(e) == 0);
    }
    while j < n
        invariant
            j <= n,
            n == v@.len(),
            c <= j,
            c == v@.take(j as int).to_multiset().count(e),
        decreases n - j,
    {
        let ej = v[j];
        proof {
            assert(v@.take(j + 1).drop_last() =~= v@.take(j as int));
            assert(v@.take(j + 1) =~= v@.take(j as int).push(v@[j as int]));
            vstd::seq_lib::to_multiset_build(v@.take(j as int), v@[j as int]);
        }
        if ej == e {
            c = c + 1;
        }
        j = j + 1;
    }
    proof {
        assert(v@.take(n as int) =~= v@);
    }
    c
}

/// `v` holds the index `x`.
fn contains_idx(v: &Vec<usize>, x: usize) -> (r: bool)
    ensures
        r == v@.contains(x),
{
    let n = v.len();
    let mut j: usize = 0;
    while j < n
        invariant
            j <= n,
            n == v@.len(),
            forall|k: int| 0 <= k < j ==> v@[k] != x,
        decreases n - j,
    {
        if v[j] == x {
            proof {
                assert(v@[j as int] == x);
            }
            return true;
        }
        j = j + 1;
    }
    proof {
        if v@.contains(x) {
            let k = choose|k: int| 0 <= k < v@.len() && v@[k] == x;
            assert(v@[k] != x);
        }
    }
    false
}

impl Triangulation {
    /// The edges of all current triangles, three per triangle in slot order.
    fn collect_edges(&self) -> (r: Vec<Edge>)
        requires
            self.wf(),
        ensures
            r@ == all_edges(self.triangles@),
    {
        let mut ev: Vec<Edge> = Vec::new();
        let nt = self.triangles.len();
        let mut i: usize = 0;
        proof {
            assert(self.triangles@.take(0) =~= Seq::<Triangle>::empty());
        }
        while i < nt
            invariant
                i <= nt,
                nt == self.triangles@.len(),
                self.wf(),
                ev@ == all_edges(self.triangles@.take(i as int)),
            decreases nt - i,
        {
            let t = self.triangles[i];
            proof {
                assert(tri_wf(t, self.points@.len()));
            }
            let es = t.edges();
            let ghost pre = ev@;
            ev.push(es[0]);
            ev.push(es[1]);
            ev.push(es[2]);
            proof {
                let take1 = self.triangles@.take(i + 1);
                assert(take1.drop_last() =~= self.triangles@.take(i as int));
                assert(take1.last() == t);
                assert(ev@ =~= pre + tri_edges(t));
                assert(ev@ == all_edges(take1));
            }
            i = i + 1;
        }
        proof {
            assert(self.triangles@.take(nt as int) =~= self.triangles@);
        }
        ev
    }

    /// Check the Delaunay invariant: no point other than a triangle's own
    /// vertices lies strictly inside that triangle's circumcircle.
    pub fn is_delaunay(&self) -> (r: bool)
        requires
            self.wf(),
        ensures
            r == delaunay_spec(self.points@, self.triangles@),
    {
        let nt = self.triangles.len();
        let np = self.points.len();
        let mut i: usize = 0;
        while i < nt
            invariant
                i <= nt,
                nt == self.triangles@.len(),
                np == self.points@.len(),
                self.wf(),
                forall|i2: int, j2: int|
                    #![trigger self.triangles@[i2], self.points@[j2]]
                    0 <= i2 < i && 0 <= j2 < np && j2 != self.triangles@[i2].a && j2
                        != self.triangles@[i2].b && j2 != self.triangles@[i2].c
                        ==> !in_circumcircle_spec(
                        self.points@[j2],
                        self.points@[self.triangles@[i2].a as int],
                        self.points@[self.triangles@[i2].b as int],
                        self.points@[self.triangles@[i2].c as int],
                    ),
            decreases nt - i,
        {
            let t = self.triangles[i];
            proof {
                assert(tri_wf(t, self.points@.len()));
            }
            let pa = self.points[t.a];
            let pb = self.points[t.b];
            let pc = self.points[t.c];
            let mut j: usize = 0;
            while j < np
                invariant
                    j <= np,
                    i < nt,
                    nt == self.triangles@.len(),
                    np == self.points@.len(),
                    self.wf(),
                    t == self.triangles@[i as int],
                    pa == self.points@[t.a as int],
                    pb == self.points@[t.b as int],
                    pc == self.points@[t.c as int],
                    forall|i2: int, j2: int|
                        #![trigger self.triangles@[i2], self.points@[j2]]
                        0 <= i2 < i && 0 <= j2 < np && j2 != self.triangles@[i2].a && j2
                            != self.triangles@[i2].b && j2 != self.triangles@[i2].c
                            ==> !in_circumcircle_spec(
                            self.points@[j2],
                            self.points@[self.triangles@[i2].a as int],
                            self.points@[self.triangles@[i2].b as int],
                            self.points@[self.triangles@[i2].c as int],
                        ),
                    forall|j2: int|
                        0 <= j2 < j && j2 != t.a && j2 != t.b && j2 != t.c
                            ==> !in_circumcircle_spec(#[trigger] self.points@[j2], pa, pb, pc),
                decreases np - j,
            {
                if j != t.a && j != t.b && j != t.c {
                    let q = self.points[j];
                    if point_in_circumcircle(q, pa, pb, pc) {
                        proof {
                            assert(!delaunay_spec(self.points@, self.triangles@)) by {
                                assert(in_circumcircle_spec(
                                    self.points@[j as int],
                                    self.points@[self.triangles@[i as int].a as int],
                                    self.points@[self.triangles@[i as int].b as int],
                                    self.points@[self.triangles@[i as int].c as int],
                                ));
                            }
                        }
                        return false;
                    }
                }
                j = j + 1;
            }
            i = i + 1;
        }
        true
    }

    /// Check manifoldness: every edge of the mesh belongs to exactly one or
    /// two triangles.
    pub fn is_manifold(&self) -> (r: bool)
        requires
            self.wf(),
        ensures
            r == manifold_spec(self.triangles@),
    {
        let ev = self.collect_edges();
        let ne = ev.len();
        let mut k: usize = 0;
        while k < ne
            invariant
                k <= ne,
                ne == ev@.len(),
                ev@ == all_edges(self.triangles@),
                forall|k2: int|
                    0 <= k2 < k ==> 1 <= edge_count(self.triangles@, #[trigger] ev@[k2]) <= 2,
            decreases ne - k,
        {
            let e = ev[k];
            let c = count_edge(&ev, e);
            proof {
                ev@.to_multiset_ensures();
                assert(ev@.contains(e)) by {
                    assert(ev@[k as int] == e);
                }
            }
            if c > 2 {
                proof {
                    assert(!manifold_spec(self.triangles@)) by {
                        assert(edge_count(self.triangles@, all_edges(self.triangles@)[k as int])
                            > 2);
                    }
                }
                return false;
            }
            k = k + 1;
        }
        true
    }

    /// The adjacency index, derived from the edge set: for each point, the
    /// points it shares an edge with, without duplicates.
    pub fn adjacency(&self) -> (r: Vec<Vec<usize>>)
        requires
            self.wf(),
        ensures
            r@.len() == self.points@.len(),
            forall|i: int| 0 <= i < r@.len() ==> (#[trigger] r@[i])@.no_duplicates(),
            forall|i: int, j: usize|
                0 <= i < r@.len() ==> (#[trigger] r@[i]@.contains(j) <==> adjacent(
                    self.triangles@,
                    i as usize,
                    j,
                )),
    {
        let ev = self.collect_edges();
        proof {
            lemma_all_edges_ok(self.triangles@, self.points@.len());
        }
        let np = self.points.len();
        let ne = ev.len();
        let mut r: Vec<Vec<usize>> = Vec::new();
        let mut i: usize = 0;
        while i < np
            invariant
                i <= np,
                np == self.points@.len(),
                ne == ev@.len(),
                ev@ == all_edges(self.triangles@),
                self.wf(),
                forall|k: int|
                    0 <= k < ev@.len() ==> edge_wf(#[trigger] ev@[k]) && (ev@[k].b as nat)
                        < self.points@.len(),
                r@.len() == i,
                forall|i2: int| 0 <= i2 < i ==> (#[trigger] r@[i2])@.no_duplicates(),
                forall|i2: int, j: usize|
                    0 <= i2 < i ==> (#[trigger] r@[i2]@.contains(j) <==> adjacent(
                        self.triangles@,
                        i2 as usize,
                        j,
                    )),
            decreases np - i,
        {
            let mut nbrs: Vec<usize> = Vec::new();
            let mut k: usize = 0;
            while k < ne
                invariant
                    k <= ne,
                    ne == ev@.len(),
                    ev@ == all_edges(self.triangles@),
                    forall|k2: int|
                        0 <= k2 < ev@.len() ==> edge_wf(#[trigger] ev@[k2]),
                    nbrs@.no_duplicates(),
                    forall|j: usize|
                        #[trigger] nbrs@.contains(j) <==> (j != i && exists|k2: int|
                            0 <= k2 < k && ev@[k2] == edge_of(i, j)),
                decreases ne - k,
            {
                let e = ev[k];
                proof {
                    assert(edge_wf(ev@[k as int]));
                }
                let other: usize = if e.a == i {
                    e.b
                } else if e.b == i {
                    e.a
                } else {
                    i
                };
                let ghost nbrs_pre = nbrs@;
                if other != i {
                    if !contains_idx(&nbrs, other) {
                        nbrs.push(other);
                    }
                }
                proof {
                    if other != i {
                        assert(e == edge_of(i, other));
                        if !nbrs_pre.contains(other) {
                            assert(nbrs@ == nbrs_pre.push(other));
                            assert(nbrs@.no_duplicates()) by {
                                assert(forall|k1: int|
                                    0 <= k1 < nbrs_pre.len() ==> nbrs@[k1] == nbrs_pre[k1]);
                                if exists|k1: int|
                                    0 <= k1 < nbrs_pre.len() && nbrs_pre[k1] == other {
                                    let k1 = choose|k1: int|
                                        0 <= k1 < nbrs_pre.len() && nbrs_pre[k1] == other;
                                    assert(nbrs_pre.contains(other));
                                }
                            }
                        }
                    }
                    assert forall|j: usize| #[trigger] nbrs@.contains(j) implies (j != i
                        && exists|k2: int| 0 <= k2 < k + 1 && ev@[k2] == edge_of(i, j)) by {
                        if other != i && !nbrs_pre.contains(other) {
                            vstd::seq_lib::lemma_seq_contains_after_push(nbrs_pre, other, j);
                            if j == other {
                                assert(ev@[k as int] == edge_of(i, j));
                            }
                        }
                    }
                    assert forall|j: usize| (j != i && exists|k2: int|
                        0 <= k2 < k + 1 && ev@[k2] == edge_of(i, j)) implies #[trigger] nbrs@.contains(
                        j,
                    ) by {
                        let k2 = choose|k2: int| 0 <= k2 < k + 1 && ev@[k2] == edge_of(i, j);
                        if other != i && !nbrs_pre.contains(other) {
                            vstd::seq_lib::lemma_seq_contains_after_push(nbrs_pre, other, j);
                        }
                        if k2 < k {
                            assert(nbrs_pre.contains(j));
                        } else {
                            assert(ev@[k as int] == edge_of(i, j));
                            assert(edge_of(i, j).a == i || edge_of(i, j).b == i);
                            assert(j == other);
                        }
                    }
                }
                k = k + 1;
            }
            proof {
                assert forall|j: usize| #[trigger] nbrs@.contains(j) <==> adjacent(
                    self.triangles@,
                    i as usize,
                    j,
                ) by {
                    if j != i && ev@.contains(edge_of(i, j)) {
                        let k2 = choose|k2: int| 0 <= k2 < ev@.len() && ev@[k2] == edge_of(i, j);
                        assert(0 <= k2 < ne && ev@[k2] == edge_of(i, j));
                    }
                    if j != i && (exists|k2: int| 0 <= k2 < ne && ev@[k2] == edge_of(i, j)) {
                        let k2 = choose|k2: int| 0 <= k2 < ne && ev@[k2] == edge_of(i, j);
                        assert(ev@.contains(edge_of(i, j)));
                    }
                }
            }
            r.push(nbrs);
            i = i + 1;
        }
        r
    }
}

} // verus!
