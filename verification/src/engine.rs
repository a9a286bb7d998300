//! The incremental insertion engine: Bowyer-Watson point insertion against a
//! triangulation store, runnable either atomically (`insert`) or one phase
//! per call (`step`) so a visualizer can draw the intermediate state.  Both
//! ways produce the same triangulation, which is stated and proved here.

use vstd::prelude::*;

use crate::geometry::{in_circumcircle_spec, orient_spec, point_in_circumcircle, pt_ok, Point};
use vstd::multiset::Multiset;
use crate::mesh::{edge_of, edge_wf, tri_edges, tri_wf, Edge, Triangle};
use crate::store::{
    elems_at, idxs_ok, pts_ok, remove_desc, seed_points, seed_triangles, swap_remove_seq, tris_wf,
    Triangulation,
};

verus! {

/// The phase the insertion cycle is about to perform.  A full cycle runs
/// `Idle -> FindBadTriangles -> ComputeBoundary -> Retriangulate -> Idle`,
/// one transition per `step` call.
#[derive(Clone, Copy, PartialEq, Eq, Structural, Debug)]
pub enum Phase {
    Idle,
    FindBadTriangles,
    ComputeBoundary,
    Retriangulate,
}

/// Why an insertion could not start.
#[derive(Clone, Copy, PartialEq, Eq, Structural, Debug)]
pub enum InsertError {
    /// The new point lies in no triangle's circumcircle, so it is outside
    /// the triangulated region and there is no cavity to retriangulate.
    PointOutsideRegion,
}

/// The abstract state of the engine: the mathematical contents of the store
/// and of the per-cycle scratch sets.
pub struct EngineState {
    pub points: Seq<Point>,
    pub triangles: Seq<Triangle>,
    pub bad: Seq<usize>,
    pub poly: Seq<Edge>,
    pub discarded: Seq<Edge>,
    pub pending: Option<Point>,
    pub phase: Phase,
}

/// The new point `p` lies strictly inside the circumcircle of triangle `t`.
pub open spec fn is_bad(pts: Seq<Point>, t: Triangle, p: Point) -> bool {
    in_circumcircle_spec(p, pts[t.a as int], pts[t.b as int], pts[t.c as int])
}

/// The indices below `n` of the triangles whose circumcircle contains `p`,
/// in ascending scan order.
pub open spec fn bad_upto(tris: Seq<Triangle>, pts: Seq<Point>, p: Point, n: int) -> Seq<usize>
    decreases n,
{
    if n <= 0 {
        Seq::empty()
    } else if is_bad(pts, tris[n - 1], p) {
        bad_upto(tris, pts, p, n - 1).push((n - 1) as usize)
    } else {
        bad_upto(tris, pts, p, n - 1)
    }
}

/// The indices of all bad triangles for `p`, in ascending scan order.
pub open spec fn bad_indices(tris: Seq<Triangle>, pts: Seq<Point>, p: Point) -> Seq<usize> {
    bad_upto(tris, pts, p, tris.len() as int)
}

/// The canonical edges of the selected triangles, three per triangle, in
/// selection order.
pub open spec fn edges_of_tris(tris: Seq<Triangle>, sel: Seq<usize>) -> Seq<Edge>
    decreases sel.len(),
{
    if sel.len() == 0 {
        Seq::empty()
    } else {
        edges_of_tris(tris, sel.drop_last()) + tri_edges(tris[sel.last() as int])
    }
}

/// Index of the first occurrence of `e` in `s`, or `-1` if absent.
pub open spec fn find_edge(s: Seq<Edge>, e: Edge) -> int
    decreases s.len(),
{
    if s.len() == 0 {
        -1
    } else if s[0] == e {
        0
    } else {
        let r = find_edge(s.drop_first(), e);
        if r < 0 {
            -1
        } else {
            r + 1
        }
    }
}

/// Edge-parity cancellation over the edge stream `edges`, starting from the
/// accumulated boundary `poly` and discard pile `disc`: an edge seen while
/// already on the boundary moves to the discard pile (it is interior to the
/// bad region); an edge seen for the first time joins the boundary.
pub open spec fn poly_fold(poly: Seq<Edge>, disc: Seq<Edge>, edges: Seq<Edge>) -> (Seq<Edge>, Seq<
    Edge,
>)
    decreases edges.len(),
{
    if edges.len() == 0 {
        (poly, disc)
    } else {
        let e = edges[0];
        let i = find_edge(poly, e);
        if i >= 0 {
            poly_fold(swap_remove_seq(poly, i), disc.push(e), edges.drop_first())
        } else {
            poly_fold(poly.push(e), disc, edges.drop_first())
        }
    }
}

/// The boundary of the cavity of `p`: what edge-parity cancellation leaves
/// of the bad triangles' edges.
pub open spec fn cycle_poly(tris: Seq<Triangle>, pts: Seq<Point>, p: Point) -> Seq<Edge> {
    poly_fold(Seq::empty(), Seq::empty(), edges_of_tris(tris, bad_indices(tris, pts, p))).0
}

/// The fan triangle over boundary edge `e` anchored at the new point `pidx`,
/// ordered counterclockwise (for a degenerate, collinear fan the stored
/// order is the edge's own).
pub open spec fn fan_tri(pts: Seq<Point>, e: Edge, pidx: usize) -> Triangle {
    if orient_spec(pts[e.a as int], pts[e.b as int], pts[pidx as int]) >= 0 {
        (Triangle { a: e.a, b: e.b, c: pidx })
    } else {
        (Triangle { a: e.b, b: e.a, c: pidx })
    }
}

/// One fan triangle per boundary edge, in boundary order.
pub open spec fn fan_seq(pts: Seq<Point>, poly: Seq<Edge>, pidx: usize) -> Seq<Triangle>
    decreases poly.len(),
{
    if poly.len() == 0 {
        Seq::empty()
    } else {
        fan_seq(pts, poly.drop_last(), pidx).push(fan_tri(pts, poly.last(), pidx))
    }
}

/// Phase `Idle -> FindBadTriangles`: append `p` and record the bad-triangle
/// set.  An empty bad set means `p` is outside the triangulated region; the
/// cycle does not start and the state is unchanged.
pub open spec fn phase_find_spec(s: EngineState, p: Point) -> EngineState {
    let bad = bad_indices(s.triangles, s.points, p);
    if bad.len() == 0 {
        s
    } else {
        EngineState {
            points: s.points.push(p),
            bad,
            pending: Some(p),
            phase: Phase::FindBadTriangles,
            ..s
        }
    }
}

/// Phase `FindBadTriangles -> ComputeBoundary`: cancel paired edges to get
/// the cavity boundary, set aside the interior edges, and remove the bad
/// triangles (largest slot first).
pub open spec fn phase_boundary_spec(s: EngineState) -> EngineState {
    let pd = poly_fold(Seq::empty(), Seq::empty(), edges_of_tris(s.triangles, s.bad));
    EngineState {
        triangles: remove_desc(s.triangles, s.bad),
        poly: pd.0,
        discarded: pd.1,
        phase: Phase::ComputeBoundary,
        ..s
    }
}

/// Phase `ComputeBoundary -> Retriangulate`: fill the cavity with a fan of
/// triangles anchored at the new point; no other triangle is touched.
pub open spec fn phase_fill_spec(s: EngineState) -> EngineState {
    let pidx = (s.points.len() - 1) as usize;
    EngineState {
        triangles: s.triangles + fan_seq(s.points, s.poly, pidx),
        phase: Phase::Retriangulate,
        ..s
    }
}

/// Phase `Retriangulate -> Idle`: the cycle is complete.
pub open spec fn phase_rest_spec(s: EngineState) -> EngineState {
    EngineState { phase: Phase::Idle, ..s }
}

/// One `step` call: exactly one phase of the cycle.
pub open spec fn step_spec(s: EngineState, p: Point) -> EngineState {
    match s.phase {
        Phase::Idle => phase_find_spec(s, p),
        Phase::FindBadTriangles => phase_boundary_spec(s),
        Phase::ComputeBoundary => phase_fill_spec(s),
        Phase::Retriangulate => phase_rest_spec(s),
    }
}

/// A `step` from `Idle` fails exactly when the new point has an empty
/// bad-triangle set.
pub open spec fn step_err(s: EngineState, p: Point) -> bool {
    s.phase == Phase::Idle && bad_indices(s.triangles, s.points, p).len() == 0
}

/// A whole insertion cycle at once: what the four phases jointly do to the
/// state, written as one transformation.
pub open spec fn insert_spec(s: EngineState, p: Point) -> EngineState {
    let bad = bad_indices(s.triangles, s.points, p);
    if bad.len() == 0 {
        s
    } else {
        let pd = poly_fold(Seq::empty(), Seq::empty(), edges_of_tris(s.triangles, bad));
        EngineState {
            points: s.points.push(p),
            triangles: remove_desc(s.triangles, bad) + fan_seq(
                s.points.push(p),
                pd.0,
                s.points.len() as usize,
            ),
            bad,
            poly: pd.0,
            discarded: pd.1,
            pending: Some(p),
            phase: Phase::Idle,
        }
    }
}

/// Every edge is canonical and both endpoints name points below `n`.
pub open spec fn edges_ok(es: Seq<Edge>, n: nat) -> bool {
    forall|k: int|
        0 <= k < es.len() ==> edge_wf(#[trigger] es[k]) && (es[k].b as nat) < n
}

/// The engine's invariant, phase by phase.  Between cycles only the store
/// matters; mid-cycle the scratch sets must be consistent with the phase
/// about to run.
pub open spec fn state_wf(s: EngineState) -> bool {
    &&& pts_ok(s.points)
    &&& tris_wf(s.triangles, s.points.len())
    &&& match s.phase {
        Phase::Idle => true,
        Phase::FindBadTriangles => {
            &&& s.points.len() >= 1
            &&& s.pending == Some(s.points.last())
            &&& idxs_ok(s.bad, s.triangles.len() as nat)
            &&& s.bad.len() >= 1
            &&& tris_wf(s.triangles, (s.points.len() - 1) as nat)
        },
        Phase::ComputeBoundary => {
            &&& s.points.len() >= 1
            &&& s.pending is Some
            &&& edges_ok(s.poly, (s.points.len() - 1) as nat)
        },
        Phase::Retriangulate => true,
    }
}

/// The bad-index scan below `n` yields ascending, in-range indices, and an
/// index is listed exactly when its triangle is bad.
pub proof fn lemma_bad_upto(tris: Seq<Triangle>, pts: Seq<Point>, p: Point, n: int)
    requires
        0 <= n <= tris.len(),
        tris.len() <= usize::MAX,
    ensures
        idxs_ok(bad_upto(tris, pts, p, n), tris.len() as nat),
        forall|k: int|
            0 <= k < bad_upto(tris, pts, p, n).len() ==> (#[trigger] bad_upto(
                tris,
                pts,
                p,
                n,
            )[k]) < n,
        forall|i: usize|
            bad_upto(tris, pts, p, n).contains(i) <==> i < n && is_bad(
                pts,
                tris[i as int],
                p,
            ),
    decreases n,
{
    if n > 0 {
        lemma_bad_upto(tris, pts, p, n - 1);
        let b1 = bad_upto(tris, pts, p, n - 1);
        let b2 = bad_upto(tris, pts, p, n);
        if is_bad(pts, tris[n - 1], p) {
            assert(b2 == b1.push((n - 1) as usize));
            assert forall|i: usize| b2.contains(i) implies i < n && is_bad(
                pts,
                tris[i as int],
                p,
            ) by {
                vstd::seq_lib::lemma_seq_contains_after_push(b1, (n - 1) as usize, i);
            }
            assert forall|i: usize| i < n && is_bad(pts, tris[i as int], p) implies b2.contains(
                i,
            ) by {
                vstd::seq_lib::lemma_seq_contains_after_push(b1, (n - 1) as usize, i);
            }
        } else {
            assert(b2 == b1);
            assert forall|i: usize| b2.contains(i) implies i < n && is_bad(
                pts,
                tris[i as int],
                p,
            ) by {}
            assert forall|i: usize| i < n && is_bad(pts, tris[i as int], p) implies b2.contains(
                i,
            ) by {
                if i < n - 1 {
                } else {
                    assert(i == n - 1);
                    assert(!is_bad(pts, tris[i as int], p));
                }
            }
        }
    }
}

/// `find_edge` finds the first occurrence: a `-1` answer means the edge is
/// absent, any other answer is the least index holding it.
pub proof fn lemma_find_edge(s: Seq<Edge>, e: Edge)
    ensures
        find_edge(s, e) == -1 ==> !s.contains(e),
        find_edge(s, e) != -1 ==> 0 <= find_edge(s, e) < s.len() && s[find_edge(s, e)] == e && (
        forall|j: int| 0 <= j < find_edge(s, e) ==> s[j] != e),
    decreases s.len(),
{
    if s.len() == 0 {
    } else if s[0] == e {
    } else {
        lemma_find_edge(s.drop_first(), e);
        let r1 = find_edge(s.drop_first(), e);
        if r1 < 0 {
            assert forall|j: int| 0 <= j < s.len() implies s[j] != e by {
                if j > 0 {
                    assert(s[j] == s.drop_first()[j - 1]);
                }
            }
        } else {
            assert(s[r1 + 1] == s.drop_first()[r1]);
            assert forall|j: int| 0 <= j < r1 + 1 implies s[j] != e by {
                if j > 0 {
                    assert(s[j] == s.drop_first()[j - 1]);
                }
            }
        }
    }
}

/// The edges of well-formed triangles are canonical and stay below the
/// point-count bound.
pub proof fn lemma_edges_of_tris_ok(tris: Seq<Triangle>, sel: Seq<usize>, np: nat)
    requires
        tris_wf(tris, np),
        forall|k: int| 0 <= k < sel.len() ==> (#[trigger] sel[k]) < tris.len(),
    ensures
        edges_ok(edges_of_tris(tris, sel), np),
    decreases sel.len(),
{
    if sel.len() == 0 {
    } else {
        let rest = sel.drop_last();
        lemma_edges_of_tris_ok(tris, rest, np);
        let t = tris[sel.last() as int];
        assert(tri_wf(t, np));
        let pre = edges_of_tris(tris, rest);
        let whole = edges_of_tris(tris, sel);
        assert(whole == pre + tri_edges(t));
        assert forall|k: int| 0 <= k < whole.len() implies edge_wf(#[trigger] whole[k]) && (
        whole[k].b as nat) < np by {
            if k < pre.len() {
                assert(whole[k] == pre[k]);
            } else {
                assert(whole[k] == tri_edges(t)[k - pre.len()]);
            }
        }
    }
}

/// Edge-parity cancellation only ever keeps edges it was given.
pub proof fn lemma_poly_fold_ok(poly: Seq<Edge>, disc: Seq<Edge>, edges: Seq<Edge>, np: nat)
    requires
        edges_ok(poly, np),
        edges_ok(edges, np),
    ensures
        edges_ok(poly_fold(poly, disc, edges).0, np),
    decreases edges.len(),
{
    if edges.len() == 0 {
    } else {
        let e = edges[0];
        let i = find_edge(poly, e);
        let tail = edges.drop_first();
        assert(edges_ok(tail, np)) by {
            assert(forall|k: int| 0 <= k < tail.len() ==> (#[trigger] tail[k]) == edges[k + 1]);
        }
        if i >= 0 {
            lemma_find_edge(poly, e);
            let p2 = swap_remove_seq(poly, i);
            assert(edges_ok(p2, np)) by {
                assert(forall|k: int|
                    0 <= k < p2.len() ==> (#[trigger] p2[k]) == if k == i {
                        poly.last()
                    } else {
                        poly[k]
                    });
            }
            lemma_poly_fold_ok(p2, disc.push(e), tail, np);
        } else {
            let p2 = poly.push(e);
            assert(edges_ok(p2, np)) by {
                assert(forall|k: int|
                    0 <= k < poly.len() ==> (#[trigger] p2[k]) == poly[k]);
            }
            lemma_poly_fold_ok(p2, disc, tail, np);
        }
    }
}

/// First slot of `v` holding `e`, scanning from the front.
fn find_in(v: &Vec<Edge>, e: Edge) -> (r: Option<usize>)
    ensures
        r matches Some(i) ==> i < v@.len() && v@[i as int] == e && find_edge(v@, e) == i as int,
        r is None ==> find_edge(v@, e) == -1,
{
    let n = v.len();
    let mut k: usize = 0;
    while k < n
        invariant
            k <= n,
            n == v@.len(),
            forall|j: int| 0 <= j < k ==> v@[j] != e,
        decreases n - k,
    {
        let ek = v[k];
        if ek == e {
            proof {
                lemma_find_edge(v@, e);
                assert(v@.contains(e)) by {
                    assert(v@[k as int] == e);
                }
            }
            return Some(k);
        }
        k = k + 1;
    }
    proof {
        lemma_find_edge(v@, e);
        if find_edge(v@, e) != -1 {
            assert(v@[find_edge(v@, e)] == e);
        }
    }
    None
}

/// The engine: a triangulation store plus the scratch state of the cycle in
/// progress.  `bad_triangles` holds the slots of the triangles to remove,
/// `poly` the cavity boundary, `bad_edges` the cancelled interior edges,
/// `new_point` the point of the current cycle.
///
/// The engine holds no clock and never blocks: `step` is made to be driven
/// from a caller's frame loop, one phase per call, and the caller serializes
/// the calls.  A cycle can be left standing between phases, but once the bad
/// triangles are removed the remaining phases must run for the mesh to be
/// whole again.
pub struct Engine {
    pub store: Triangulation,
    pub bad_triangles: Vec<usize>,
    pub poly: Vec<Edge>,
    pub bad_edges: Vec<Edge>,
    pub new_point: Option<Point>,
    pub state: Phase,
}

impl View for Engine {
    type V = EngineState;

    open spec fn view(&self) -> EngineState {
        EngineState {
            points: self.store.points@,
            triangles: self.store.triangles@,
            bad: self.bad_triangles@,
            poly: self.poly@,
            discarded: self.bad_edges@,
            pending: self.new_point,
            phase: self.state,
        }
    }
}

impl Engine {
    /// A fresh engine over the bootstrap seed triangulation, idle.
    pub fn new() -> (e: Engine)
        ensures
            e@.points == seed_points(),
            e@.triangles == seed_triangles(),
            e@.bad == Seq::<usize>::empty(),
            e@.poly == Seq::<Edge>::empty(),
            e@.discarded == Seq::<Edge>::empty(),
            e@.pending is None,
            e@.phase == Phase::Idle,
            state_wf(e@),
    {
        Engine {
            store: Triangulation::new(),
            bad_triangles: Vec::new(),
            poly: Vec::new(),
            bad_edges: Vec::new(),
            new_point: None,
            state: Phase::Idle,
        }
    }

    /// Phase 1: scan every triangle, record the bad ones; if any, append the
    /// point and start the cycle, else report `p` outside the region.
    fn phase_find(&mut self, p: Point) -> (ok: bool)
        requires
            state_wf(old(self)@),
            old(self).state == Phase::Idle,
            pt_ok(p),
        ensures
            final(self)@ == phase_find_spec(old(self)@, p),
            state_wf(final(self)@),
            ok <==> bad_indices(old(self)@.triangles, old(self)@.points, p).len() != 0,
    {
        let ghost s0 = self@;
        let mut bad: Vec<usize> = Vec::new();
        let n = self.store.triangles.len();
        let mut i: usize = 0;
        while i < n
            invariant
                i <= n,
                n == self.store.triangles@.len(),
                *self == *old(self),
                state_wf(s0),
                s0 == self@,
                pt_ok(p),
                bad@ == bad_upto(self.store.triangles@, self.store.points@, p, i as int),
            decreases n - i,
        {
            let t = self.store.triangles[i];
            proof {
                assert(tri_wf(t, self.store.points@.len()));
            }
            let pa = self.store.points[t.a];
            let pb = self.store.points[t.b];
            let pc = self.store.points[t.c];
            if point_in_circumcircle(p, pa, pb, pc) {
                bad.push(i);
            }
            i = i + 1;
        }
        if bad.len() == 0 {
            proof {
                assert(self@ == phase_find_spec(s0, p));
            }
            return false;
        }
        proof {
            lemma_bad_upto(self.store.triangles@, self.store.points@, p, n as int);
        }
        self.store.add_point(p);
        self.bad_triangles = bad;
        self.new_point = Some(p);
        self.state = Phase::FindBadTriangles;
        proof {
            assert(self@.points == s0.points.push(p));
            assert(self@.points.last() == p);
            assert(tris_wf(self@.triangles, (self@.points.len() - 1) as nat));
            assert forall|j: int| 0 <= j < self@.triangles.len() implies tri_wf(
                #[trigger] self@.triangles[j],
                self@.points.len(),
            ) by {
                assert(tri_wf(self@.triangles[j], s0.points.len()));
            }
            assert(self@ == phase_find_spec(s0, p));
        }
        true
    }

    /// Phase 2: cancel paired edges across the bad triangles to find the
    /// cavity boundary, set the interior edges aside, and delete the bad
    /// triangles from the largest slot down.
    fn phase_boundary(&mut self)
        requires
            state_wf(old(self)@),
            old(self).state == Phase::FindBadTriangles,
        ensures
            final(self)@ == phase_boundary_spec(old(self)@),
            state_wf(final(self)@),
    {
        let ghost s0 = self@;
        let ghost np = (s0.points.len() - 1) as nat;
        // Collect the bad triangles' edges in scan order.
        let mut edges: Vec<Edge> = Vec::new();
        let m = self.bad_triangles.len();
        let mut k: usize = 0;
        while k < m
            invariant
                k <= m,
                *self == *old(self),
                s0 == self@,
                state_wf(s0),
                self.state == Phase::FindBadTriangles,
                m == self.bad_triangles@.len(),
                edges@ == edges_of_tris(self.store.triangles@, self.bad_triangles@.take(k as int)),
            decreases m - k,
        {
            let bi = self.bad_triangles[k];
            proof {
                assert(self.bad_triangles@[k as int] < self.store.triangles@.len());
            }
            let t = self.store.triangles[bi];
            proof {
                assert(tri_wf(t, self.store.points@.len()));
            }
            let es = t.edges();
            let ghost pre = edges@;
            edges.push(es[0]);
            edges.push(es[1]);
            edges.push(es[2]);
            proof {
                let sel1 = self.bad_triangles@.take(k + 1);
                assert(sel1.drop_last() =~= self.bad_triangles@.take(k as int));
                assert(sel1.last() == bi);
                assert(edges@ =~= pre + tri_edges(t));
                assert(edges@ == edges_of_tris(self.store.triangles@, sel1));
            }
            k = k + 1;
        }
        proof {
            assert(self.bad_triangles@.take(m as int) =~= self.bad_triangles@);
        }
        let ghost all_edges = edges@;
        proof {
            assert(all_edges.skip(0) =~= all_edges);
        }
        // Edge-parity cancellation.
        let mut poly: Vec<Edge> = Vec::new();
        let mut disc: Vec<Edge> = Vec::new();
        let ne = edges.len();
        let mut j: usize = 0;
        while j < ne
            invariant
                j <= ne,
                *self == *old(self),
                s0 == self@,
                state_wf(s0),
                self.state == Phase::FindBadTriangles,
                ne == all_edges.len(),
                edges@ == all_edges,
                poly_fold(poly@, disc@, all_edges.skip(j as int)) == poly_fold(
                    Seq::empty(),
                    Seq::empty(),
                    all_edges,
                ),
            decreases ne - j,
        {
            let e = edges[j];
            let ghost poly_pre = poly@;
            let ghost disc_pre = disc@;
            let ghost remaining = all_edges.skip(j as int);
            proof {
                assert(remaining[0] == all_edges[j as int]);
                assert(remaining.drop_first() =~= all_edges.skip(j + 1));
            }
            match find_in(&poly, e) {
                Some(ix) => {
                    poly.swap_remove(ix);
                    disc.push(e);
                    proof {
                        assert(poly@ == swap_remove_seq(poly_pre, find_edge(poly_pre, e)));
                        assert(poly_fold(poly@, disc@, all_edges.skip(j + 1)) == poly_fold(
                            poly_pre,
                            disc_pre,
                            remaining,
                        ));
                    }
                },
                None => {
                    poly.push(e);
                    proof {
                        assert(poly_fold(poly@, disc@, all_edges.skip(j + 1)) == poly_fold(
                            poly_pre,
                            disc_pre,
                            remaining,
                        ));
                    }
                },
            }
            j = j + 1;
        }
        proof {
            assert(all_edges.skip(ne as int) =~= Seq::<Edge>::empty());
            assert((poly@, disc@) == poly_fold(Seq::empty(), Seq::empty(), all_edges));
        }
        // Delete the bad triangles, largest slot first.
        let ghost tris0 = self.store.triangles@;
        self.store.remove_triangles(&self.bad_triangles);
        self.poly = poly;
        self.bad_edges = disc;
        self.state = Phase::ComputeBoundary;
        proof {
            assert(self@ == phase_boundary_spec(s0));
            // Well-formedness for the next phase: the surviving triangles
            // already stood in the store, and the boundary edges come from
            // well-formed triangles over the pre-insertion points.
            crate::store::lemma_remove_desc_subset(tris0, s0.bad);
            assert forall|i: int| 0 <= i < self@.triangles.len() implies tri_wf(
                #[trigger] self@.triangles[i],
                self@.points.len(),
            ) by {
                assert(self@.triangles.contains(self@.triangles[i]));
                let jj = choose|jj: int|
                    0 <= jj < tris0.len() && tris0[jj] == self@.triangles[i];
                assert(tri_wf(tris0[jj], s0.points.len()));
            }
            lemma_edges_of_tris_ok(tris0, s0.bad, np);
            assert(edges_ok(Seq::<Edge>::empty(), np));
            lemma_poly_fold_ok(Seq::empty(), Seq::empty(), all_edges, np);
        }
    }

    /// Phase 3: re-fill the cavity with one counterclockwise triangle per
    /// boundary edge, all anchored at the new point.
    fn phase_fill(&mut self)
        requires
            state_wf(old(self)@),
            old(self).state == Phase::ComputeBoundary,
        ensures
            final(self)@ == phase_fill_spec(old(self)@),
            state_wf(final(self)@),
    {
        let ghost s0 = self@;
        let pidx = self.store.points.len() - 1;
        let np = self.poly.len();
        let mut k: usize = 0;
        proof {
            assert(s0.poly.take(0) =~= Seq::<Edge>::empty());
        }
        while k < np
            invariant
                k <= np,
                state_wf(s0),
                s0.phase == Phase::ComputeBoundary,
                np == s0.poly.len(),
                pidx as int == s0.points.len() - 1,
                self.store.points@ == s0.points,
                self.poly@ == s0.poly,
                self.bad_triangles@ == s0.bad,
                self.bad_edges@ == s0.discarded,
                self.new_point == s0.pending,
                self.state == s0.phase,
                self.store.triangles@ == s0.triangles + fan_seq(
                    s0.points,
                    s0.poly.take(k as int),
                    pidx,
                ),
            decreases np - k,
        {
            let e = self.poly[k];
            proof {
                assert(edge_wf(e) && (e.b as nat) < (s0.points.len() - 1) as nat);
            }
            let pa = self.store.points[e.a];
            let pb = self.store.points[e.b];
            let pp = self.store.points[pidx];
            let ghost pre = self.store.triangles@;
            let o = crate::geometry::orient2d(pa, pb, pp);
            if o >= 0 {
                self.store.add_triangle(e.a, e.b, pidx);
            } else {
                self.store.add_triangle(e.b, e.a, pidx);
            }
            proof {
                let take1 = s0.poly.take(k + 1);
                assert(take1.drop_last() =~= s0.poly.take(k as int));
                assert(take1.last() == e);
                assert(self.store.triangles@ == pre.push(fan_tri(s0.points, e, pidx)));
                assert(s0.triangles + fan_seq(s0.points, take1, pidx) =~= (s0.triangles + fan_seq(
                    s0.points,
                    s0.poly.take(k as int),
                    pidx,
                )).push(fan_tri(s0.points, e, pidx)));
            }
            k = k + 1;
        }
        self.state = Phase::Retriangulate;
        proof {
            assert(s0.poly.take(np as int) =~= s0.poly);
            assert(self@ == phase_fill_spec(s0));
            assert forall|i: int| 0 <= i < self@.triangles.len() implies tri_wf(
                #[trigger] self@.triangles[i],
                self@.points.len(),
            ) by {
                let fan = fan_seq(s0.points, s0.poly, pidx);
                if i < s0.triangles.len() {
                    assert(self@.triangles[i] == s0.triangles[i]);
                } else {
                    lemma_fan_seq_wf(s0.points, s0.poly, pidx);
                    assert(self@.triangles[i] == fan[i - s0.triangles.len()]);
                }
            }
        }
    }

    /// Phase 4: nothing to do; the triangulation is Delaunay again and the
    /// engine is ready for the next point.
    fn phase_rest(&mut self)
        requires
            state_wf(old(self)@),
            old(self).state == Phase::Retriangulate,
        ensures
            final(self)@ == phase_rest_spec(old(self)@),
            state_wf(final(self)@),
    {
        self.state = Phase::Idle;
    }

    /// Advance the cycle by exactly one phase.  From `Idle` the caller
    /// supplies the point to insert; in every other phase `p` is ignored.
    /// Fails exactly when a cycle is being started with a point whose
    /// bad-triangle set is empty (the point lies outside the triangulated
    /// region); the state is then unchanged.
    pub fn step(&mut self, p: Point) -> (r: Result<(), InsertError>)
        requires
            state_wf(old(self)@),
            pt_ok(p),
        ensures
            final(self)@ == step_spec(old(self)@, p),
            state_wf(final(self)@),
            r is Err <==> step_err(old(self)@, p),
    {
        match self.state {
            Phase::Idle => {
                if self.phase_find(p) {
                    Ok(())
                } else {
                    Err(InsertError::PointOutsideRegion)
                }
            },
            Phase::FindBadTriangles => {
                self.phase_boundary();
                Ok(())
            },
            Phase::ComputeBoundary => {
                self.phase_fill();
                Ok(())
            },
            Phase::Retriangulate => {
                self.phase_rest();
                Ok(())
            },
        }
    }

    /// Insert one point atomically: run all four phases back to back, so the
    /// triangulation is Delaunay again on return.  Fails, leaving the state
    /// unchanged, exactly when the point lies in no triangle's circumcircle.
    pub fn insert(&mut self, p: Point) -> (r: Result<(), InsertError>)
        requires
            state_wf(old(self)@),
            old(self)@.phase == Phase::Idle,
            pt_ok(p),
        ensures
            final(self)@ == insert_spec(old(self)@, p),
            state_wf(final(self)@),
            r is Err <==> bad_indices(old(self)@.triangles, old(self)@.points, p).len() == 0,
    {
        let ghost s0 = self@;
        proof {
            lemma_mode_equivalence(s0, p);
        }
        if let Err(e) = self.step(p) {
            return Err(e);
        }
        let _ = self.step(p);
        let _ = self.step(p);
        let _ = self.step(p);
        Ok(())
    }
}

/// Each fan triangle is well-formed: its base edge's endpoints are older
/// points, its apex is the new one.
pub proof fn lemma_fan_seq_wf(pts: Seq<Point>, poly: Seq<Edge>, pidx: usize)
    requires
        pts.len() >= 1,
        pidx as int == pts.len() - 1,
        edges_ok(poly, (pts.len() - 1) as nat),
    ensures
        forall|i: int|
            0 <= i < fan_seq(pts, poly, pidx).len() ==> tri_wf(
                #[trigger] fan_seq(pts, poly, pidx)[i],
                pts.len(),
            ),
        fan_seq(pts, poly, pidx).len() == poly.len(),
    decreases poly.len(),
{
    if poly.len() == 0 {
    } else {
        let rest = poly.drop_last();
        assert(edges_ok(rest, (pts.len() - 1) as nat)) by {
            assert(forall|k: int| 0 <= k < rest.len() ==> (#[trigger] rest[k]) == poly[k]);
        }
        lemma_fan_seq_wf(pts, rest, pidx);
        let e = poly.last();
        assert(edge_wf(e) && (e.b as nat) < (pts.len() - 1) as nat);
        assert(tri_wf(fan_tri(pts, e, pidx), pts.len()));
    }
}

/// A fan has exactly one triangle per boundary edge.
pub proof fn lemma_fan_seq_len(pts: Seq<Point>, poly: Seq<Edge>, pidx: usize)
    ensures
        fan_seq(pts, poly, pidx).len() == poly.len(),
    decreases poly.len(),
{
    if poly.len() > 0 {
        lemma_fan_seq_len(pts, poly.drop_last(), pidx);
    }
}

/// What one successful insertion cycle does to the counts and the contents.
/// The point set grows by exactly the new point.  The triangle count changes
/// by the cavity's boundary-edge count minus its bad-triangle count.  And up
/// to order, the removed triangles are exactly the bad ones and the added
/// triangles exactly the fan: no other triangle is touched.
pub proof fn lemma_insert_effect(s: EngineState, p: Point)
    requires
        state_wf(s),
        s.phase == Phase::Idle,
        s.triangles.len() <= usize::MAX,
        bad_indices(s.triangles, s.points, p).len() > 0,
    ensures
        insert_spec(s, p).points == s.points.push(p),
        insert_spec(s, p).triangles.len() == s.triangles.len() - bad_indices(
            s.triangles,
            s.points,
            p,
        ).len() + cycle_poly(s.triangles, s.points, p).len(),
        insert_spec(s, p).triangles.to_multiset().add(
            elems_at(s.triangles, bad_indices(s.triangles, s.points, p)).to_multiset(),
        ) == s.triangles.to_multiset().add(
            fan_seq(
                s.points.push(p),
                cycle_poly(s.triangles, s.points, p),
                s.points.len() as usize,
            ).to_multiset(),
        ),
        forall|k: int|
            0 <= k < bad_indices(s.triangles, s.points, p).len() ==> is_bad(
                s.points,
                elems_at(s.triangles, bad_indices(s.triangles, s.points, p))[k],
                p,
            ),
        forall|i: int|
            0 <= i < s.triangles.len() && is_bad(s.points, #[trigger] s.triangles[i], p)
                ==> bad_indices(s.triangles, s.points, p).contains(i as usize),
{
    let bad = bad_indices(s.triangles, s.points, p);
    let kept = remove_desc(s.triangles, bad);
    let poly = cycle_poly(s.triangles, s.points, p);
    let fan = fan_seq(s.points.push(p), poly, s.points.len() as usize);
    lemma_bad_upto(s.triangles, s.points, p, s.triangles.len() as int);
    crate::store::lemma_remove_desc_multiset(s.triangles, bad);
    lemma_fan_seq_len(s.points.push(p), poly, s.points.len() as usize);
    assert(insert_spec(s, p).triangles == kept + fan);
    vstd::seq_lib::lemma_multiset_commutative(kept, fan);
    assert((kept + fan).to_multiset().add(elems_at(s.triangles, bad).to_multiset())
        =~= s.triangles.to_multiset().add(fan.to_multiset()));
    assert forall|k: int| 0 <= k < bad.len() implies is_bad(
        s.points,
        elems_at(s.triangles, bad)[k],
        p,
    ) by {
        assert(bad.contains(bad[k]));
        assert(elems_at(s.triangles, bad)[k] == s.triangles[bad[k] as int]);
    }
}

/// Edge-parity cancellation, characterized: starting from a duplicate-free
/// boundary, an edge ends up on the boundary exactly when its membership
/// flips an odd number of times, i.e. when it was on the boundary before
/// XOR it occurs an odd number of times in the stream.
pub proof fn lemma_poly_fold_parity(poly: Seq<Edge>, disc: Seq<Edge>, edges: Seq<Edge>)
    requires
        poly.no_duplicates(),
    ensures
        poly_fold(poly, disc, edges).0.no_duplicates(),
        forall|e: Edge|
            poly_fold(poly, disc, edges).0.contains(e) <==> (poly.contains(e) != (
            edges.to_multiset().count(e) % 2 == 1)),
    decreases edges.len(),
{
    if edges.len() == 0 {
        edges.to_multiset_ensures();
        assert forall|e: Edge|
            poly_fold(poly, disc, edges).0.contains(e) <==> (poly.contains(e) != (
            edges.to_multiset().count(e) % 2 == 1)) by {
            assert(!edges.contains(e));
            assert(edges.to_multiset().count(e) == 0);
        }
    } else {
        let e0 = edges[0];
        let tail = edges.drop_first();
        let n = poly.len() as int;
        assert(edges =~= seq![e0] + tail);
        vstd::seq_lib::lemma_multiset_commutative(seq![e0], tail);
        assert(seq![e0] =~= Seq::<Edge>::empty().push(e0));
        vstd::seq_lib::to_multiset_build(Seq::<Edge>::empty(), e0);
        Seq::<Edge>::empty().to_multiset_ensures();
        assert(Seq::<Edge>::empty().to_multiset() =~= Multiset::<Edge>::empty());
        assert forall|e: Edge|
            edges.to_multiset().count(e) == tail.to_multiset().count(e) + (if e == e0 {
                1nat
            } else {
                0nat
            }) by {
            assert(edges.to_multiset() == Multiset::<Edge>::empty().insert(e0).add(
                tail.to_multiset(),
            ));
        }
        let i = find_edge(poly, e0);
        lemma_find_edge(poly, e0);
        if i >= 0 {
            let p2 = swap_remove_seq(poly, i);
            assert(p2.len() == n - 1);
            assert(forall|k: int|
                0 <= k < n - 1 ==> #[trigger] p2[k] == (if k == i {
                    poly[n - 1]
                } else {
                    poly[k]
                }));
            assert(p2.no_duplicates()) by {
                assert forall|k1: int, k2: int|
                    0 <= k1 < p2.len() && 0 <= k2 < p2.len() && k1 != k2 implies p2[k1]
                    != p2[k2] by {
                    assert(p2[k1] == (if k1 == i { poly[n - 1] } else { poly[k1] }));
                    assert(p2[k2] == (if k2 == i { poly[n - 1] } else { poly[k2] }));
                }
            }
            assert forall|e: Edge| p2.contains(e) <==> (poly.contains(e) && e != e0) by {
                if p2.contains(e) {
                    let k = choose|k: int| 0 <= k < p2.len() && p2[k] == e;
                    if k == i {
                        assert(poly[n - 1] == e);
                        if e == e0 {
                            assert(poly[n - 1] == poly[i]);
                        }
                    } else {
                        assert(poly[k] == e);
                        if e == e0 {
                            assert(poly[k] == poly[i]);
                        }
                    }
                    assert(poly.contains(e) && e != e0);
                }
                if poly.contains(e) && e != e0 {
                    let j = choose|j: int| 0 <= j < n && poly[j] == e;
                    assert(j != i);
                    if j == n - 1 {
                        assert(i < n - 1);
                        assert(p2[i] == e);
                    } else {
                        assert(p2[j] == e);
                    }
                    assert(p2.contains(e));
                }
            }
            lemma_poly_fold_parity(p2, disc.push(e0), tail);
            assert forall|e: Edge|
                poly_fold(poly, disc, edges).0.contains(e) <==> (poly.contains(e) != (
                edges.to_multiset().count(e) % 2 == 1)) by {
                assert(poly_fold(poly, disc, edges).0 == poly_fold(p2, disc.push(e0), tail).0);
                assert(edges.to_multiset().count(e) == tail.to_multiset().count(e) + (if e == e0 {
                    1nat
                } else {
                    0nat
                }));
                assert(p2.contains(e) <==> (poly.contains(e) && e != e0));
                if e == e0 {
                    assert(poly.contains(e0));
                }
            }
        } else {
            assert(!poly.contains(e0));
            let p2 = poly.push(e0);
            assert(p2.no_duplicates()) by {
                assert forall|k1: int, k2: int|
                    0 <= k1 < p2.len() && 0 <= k2 < p2.len() && k1 != k2 implies p2[k1]
                    != p2[k2] by {
                    if k1 < n && k2 < n {
                        assert(p2[k1] == poly[k1] && p2[k2] == poly[k2]);
                    } else if k1 == n {
                        assert(p2[k1] == e0 && p2[k2] == poly[k2]);
                        assert(poly[k2] != e0) by {
                            if poly[k2] == e0 {
                                assert(poly.contains(e0));
                            }
                        }
                    } else {
                        assert(p2[k2] == e0 && p2[k1] == poly[k1]);
                        assert(poly[k1] != e0) by {
                            if poly[k1] == e0 {
                                assert(poly.contains(e0));
                            }
                        }
                    }
                }
            }
            lemma_poly_fold_parity(p2, disc, tail);
            assert forall|e: Edge|
                poly_fold(poly, disc, edges).0.contains(e) <==> (poly.contains(e) != (
                edges.to_multiset().count(e) % 2 == 1)) by {
                assert(poly_fold(poly, disc, edges).0 == poly_fold(p2, disc, tail).0);
                vstd::seq_lib::lemma_seq_contains_after_push(poly, e0, e);
                assert(edges.to_multiset().count(e) == tail.to_multiset().count(e) + (if e == e0 {
                    1nat
                } else {
                    0nat
                }));
            }
        }
    }
}

/// The cavity boundary, characterized: an edge is a boundary edge of the
/// cavity exactly when it occurs an odd number of times among the bad
/// triangles' edges - in a manifold mesh, exactly once.  Edges occurring
/// twice cancel: they are interior to the cavity.  The boundary holds no
/// duplicates.
pub proof fn lemma_boundary_parity(tris: Seq<Triangle>, pts: Seq<Point>, p: Point)
    ensures
        cycle_poly(tris, pts, p).no_duplicates(),
        forall|e: Edge|
            cycle_poly(tris, pts, p).contains(e) <==> edges_of_tris(
                tris,
                bad_indices(tris, pts, p),
            ).to_multiset().count(e) % 2 == 1,
{
    let stream = edges_of_tris(tris, bad_indices(tris, pts, p));
    lemma_poly_fold_parity(Seq::empty(), Seq::empty(), stream);
    assert forall|e: Edge|
        cycle_poly(tris, pts, p).contains(e) <==> stream.to_multiset().count(e) % 2 == 1 by {
        assert(!Seq::<Edge>::empty().contains(e));
    }
}

/// Mode equivalence: one atomic insertion and four stepped calls perform the
/// identical transformation of the engine state, for every starting state at
/// `Idle` and every point - stepping is observability only, not a different
/// algorithm.
pub proof fn lemma_mode_equivalence(s: EngineState, p: Point)
    requires
        s.phase == Phase::Idle,
    ensures
        step_spec(step_spec(step_spec(step_spec(s, p), p), p), p) == insert_spec(s, p),
{
    let bad = bad_indices(s.triangles, s.points, p);
    let s1 = step_spec(s, p);
    if bad.len() == 0 {
        assert(s1 == s);
        assert(step_spec(step_spec(step_spec(s1, p), p), p) == s);
    } else {
        let s2 = step_spec(s1, p);
        let s3 = step_spec(s2, p);
        let s4 = step_spec(s3, p);
        assert(s1 == phase_find_spec(s, p));
        assert(s2 == phase_boundary_spec(s1));
        assert(s3 == phase_fill_spec(s2));
        assert(s4 == phase_rest_spec(s3));
        assert((s2.points.len() - 1) as usize == s.points.len() as usize);
        assert(s4 == insert_spec(s, p));
    }
}

} // verus!
