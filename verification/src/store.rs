//! The triangulation store: the append-only point set and the current
//! triangle set.  Triangle slots are positional; removal swaps the victim
//! with the last slot and truncates, so a batch removal processes its indices
//! in descending order.

use vstd::prelude::*;

use crate::geometry::{pt_ok, Point, MAX_COORD};
use vstd::multiset::Multiset;
use crate::mesh::{tri_wf, Triangle};

verus! {

/// Every point lies on the accepted part of the grid.
pub open spec fn pts_ok(pts: Seq<Point>) -> bool {
    forall|i: int| 0 <= i < pts.len() ==> pt_ok(#[trigger] pts[i])
}

/// Every triangle names three distinct existing points.
pub open spec fn tris_wf(tris: Seq<Triangle>, n_points: nat) -> bool {
    forall|i: int| 0 <= i < tris.len() ==> tri_wf(#[trigger] tris[i], n_points)
}

/// The sequence after a swap-with-last-and-truncate removal of slot `i`.
pub open spec fn swap_remove_seq<T>(s: Seq<T>, i: int) -> Seq<T> {
    s.update(i, s.last()).drop_last()
}

/// A batch of removal indices: strictly ascending and within bounds, so that
/// processing them from the largest down never invalidates a later one.
pub open spec fn idxs_ok(idxs: Seq<usize>, n: nat) -> bool {
    &&& forall|k: int| 0 <= k < idxs.len() ==> (#[trigger] idxs[k]) < n
    &&& forall|k1: int, k2: int|
        0 <= k1 < k2 < idxs.len() ==> #[trigger] idxs[k1] < #[trigger] idxs[k2]
}

/// The sequence left after swap-removing the slots `idxs` (given ascending),
/// largest slot first.
pub open spec fn remove_desc<T>(s: Seq<T>, idxs: Seq<usize>) -> Seq<T>
    decreases idxs.len(),
{
    if idxs.len() == 0 {
        s
    } else {
        remove_desc(swap_remove_seq(s, idxs.last() as int), idxs.drop_last())
    }
}

/// The elements of `s` standing at the slots `idxs`.
pub open spec fn elems_at<T>(s: Seq<T>, idxs: Seq<usize>) -> Seq<T> {
    Seq::new(idxs.len(), |k: int| s[idxs[k] as int])
}

/// Swap-removal of one slot drops exactly that slot's element, up to order.
pub proof fn lemma_swap_remove_multiset<T>(s: Seq<T>, i: int)
    requires
        0 <= i < s.len(),
    ensures
        swap_remove_seq(s, i).to_multiset() == s.to_multiset().remove(s[i]),
{
    let n = s.len() as int;
    let t = s.update(i, s.last());
    if i == n - 1 {
        assert(t =~= s);
        assert(t.drop_last() =~= s.remove(i));
        vstd::seq_lib::to_multiset_remove(s, i);
    } else {
        assert(t.drop_last() =~= t.remove(n - 1));
        vstd::seq_lib::to_multiset_remove(t, n - 1);
        assert(t.remove(i) =~= s.remove(i));
        vstd::seq_lib::to_multiset_remove(t, i);
        vstd::seq_lib::to_multiset_remove(s, i);
    }
}

/// Removing the slots `idxs` (ascending, in descending processing order)
/// drops exactly the elements at those slots, up to order: the remaining
/// multiset plus the removed elements gives back the contents before.
pub proof fn lemma_remove_desc_multiset<T>(s: Seq<T>, idxs: Seq<usize>)
    requires
        idxs_ok(idxs, s.len()),
    ensures
        remove_desc(s, idxs).len() == s.len() - idxs.len(),
        remove_desc(s, idxs).to_multiset().add(elems_at(s, idxs).to_multiset())
            == s.to_multiset(),
    decreases idxs.len(),
{
    if idxs.len() == 0 {
        assert(remove_desc(s, idxs) == s);
        assert(elems_at(s, idxs) =~= Seq::<T>::empty());
        elems_at(s, idxs).to_multiset_ensures();
        assert(elems_at(s, idxs).to_multiset() =~= Multiset::<T>::empty());
        assert(remove_desc(s, idxs).to_multiset().add(elems_at(s, idxs).to_multiset())
            =~= s.to_multiset());
    } else {
        let i = idxs.last() as int;
        let s2 = swap_remove_seq(s, i);
        let rest = idxs.drop_last();
        assert(idxs_ok(rest, s2.len())) by {
            assert(forall|k: int| 0 <= k < rest.len() ==> (#[trigger] rest[k]) == idxs[k]);
            assert(forall|k: int| 0 <= k < rest.len() ==> (#[trigger] idxs[k]) < idxs[idxs.len() - 1]);
        }
        lemma_remove_desc_multiset(s2, rest);
        lemma_swap_remove_multiset(s, i);
        assert(elems_at(s2, rest) =~= elems_at(s, rest)) by {
            assert(forall|k: int| 0 <= k < rest.len() ==> rest[k] < idxs.last());
            assert(forall|j: int| 0 <= j < i ==> s2[j] == s[j]);
        }
        assert(elems_at(s, idxs) =~= elems_at(s, rest).push(s[i]));
        vstd::seq_lib::to_multiset_build(elems_at(s, rest), s[i]);
        assert(elems_at(s, idxs).to_multiset() == elems_at(s, rest).to_multiset().insert(s[i]));
        s.to_multiset_ensures();
        assert(s.contains(s[i]));
        assert(s.to_multiset().count(s[i]) > 0);
        let r = remove_desc(s, idxs);
        assert(r == remove_desc(s2, rest));
        assert(r.to_multiset().add(elems_at(s, rest).to_multiset().insert(s[i])) =~= r.to_multiset().add(
            elems_at(s, rest).to_multiset(),
        ).insert(s[i]));
        assert(r.to_multiset().add(elems_at(s, rest).to_multiset()).insert(s[i])
            == s2.to_multiset().insert(s[i]));
        assert(s2.to_multiset().insert(s[i]) =~= s.to_multiset());
        assert(remove_desc(s, idxs).to_multiset().add(elems_at(s, idxs).to_multiset())
            == s.to_multiset());
    }
}

/// Whatever survives a batch removal already stood in the sequence before.
pub proof fn lemma_remove_desc_subset<T>(s: Seq<T>, idxs: Seq<usize>)
    requires
        idxs_ok(idxs, s.len()),
    ensures
        forall|t: T| #[trigger] remove_desc(s, idxs).contains(t) ==> s.contains(t),
{
    lemma_remove_desc_multiset(s, idxs);
    let r = remove_desc(s, idxs);
    assert forall|t: T| #[trigger] r.contains(t) implies s.contains(t) by {
        r.to_multiset_ensures();
        s.to_multiset_ensures();
        assert(r.to_multiset().count(t) > 0);
        assert(s.to_multiset().count(t) == r.to_multiset().count(t) + elems_at(
            s,
            idxs,
        ).to_multiset().count(t));
    }
}

/// The four corners of the bootstrap square, one spatial unit on a side at
/// the fixed-point scale `MAX_COORD`: indices 0..3 counterclockwise from the
/// origin.
pub open spec fn seed_points() -> Seq<Point> {
    seq![
        (Point { x: 0, y: 0 }),
        (Point { x: MAX_COORD, y: 0 }),
        (Point { x: MAX_COORD, y: MAX_COORD }),
        (Point { x: 0, y: MAX_COORD }),
    ]
}

/// The bootstrap square split along its diagonal into two counterclockwise
/// triangles.
pub open spec fn seed_triangles() -> Seq<Triangle> {
    seq![(Triangle { a: 0, b: 1, c: 3 }), (Triangle { a: 1, b: 2, c: 3 })]
}

/// The point set and the current triangle set of a triangulation.  Points are
/// append-only, so an index is a permanent identity; triangle slots are not
/// stable across removals.
pub struct Triangulation {
    pub points: Vec<Point>,
    pub triangles: Vec<Triangle>,
}

impl Triangulation {
    /// All points on the grid, all triangles over distinct existing points.
    pub open spec fn wf(&self) -> bool {
        &&& pts_ok(self.points@)
        &&& tris_wf(self.triangles@, self.points@.len())
    }

    /// A fresh store holding the bootstrap seed triangulation.
    pub fn new() -> (t: Triangulation)
        ensures
            t.points@ == seed_points(),
            t.triangles@ == seed_triangles(),
            t.wf(),
    {
        let mut t = Triangulation { points: Vec::new(), triangles: Vec::new() };
        t.bootstrap();
        t
    }

    /// Reset to the known-good seed state: the four corners of the unit
    /// square and the two triangles splitting it, from which the Delaunay
    /// invariant holds.
    pub fn bootstrap(&mut self)
        ensures
            final(self).points@ == seed_points(),
            final(self).triangles@ == seed_triangles(),
            final(self).wf(),
    {
        self.points = Vec::new();
        self.triangles = Vec::new();
        self.points.push(Point { x: 0, y: 0 });
        self.points.push(Point { x: MAX_COORD, y: 0 });
        self.points.push(Point { x: MAX_COORD, y: MAX_COORD });
        self.points.push(Point { x: 0, y: MAX_COORD });
        self.triangles.push(Triangle { a: 0, b: 1, c: 3 });
        self.triangles.push(Triangle { a: 1, b: 2, c: 3 });
        proof {
            assert(self.points@ =~= seed_points());
            assert(self.triangles@ =~= seed_triangles());
        }
    }

    /// Append a point and return its new, permanent index.
    pub fn add_point(&mut self, p: Point) -> (idx: usize)
        requires
            pt_ok(p),
        ensures
            final(self).points@ == old(self).points@.push(p),
            final(self).triangles@ == old(self).triangles@,
            idx == old(self).points@.len(),
            old(self).wf() ==> final(self).wf(),
    {
        let idx = self.points.len();
        self.points.push(p);
        idx
    }

    /// The current triangle list; slot order carries no meaning.
    pub fn triangles(&self) -> (r: &Vec<Triangle>)
        ensures
            r@ == self.triangles@,
    {
        &self.triangles
    }

    /// Append a triangle over three distinct existing points.
    pub fn add_triangle(&mut self, a: usize, b: usize, c: usize)
        requires
            a < old(self).points@.len(),
            b < old(self).points@.len(),
            c < old(self).points@.len(),
            a != b,
            b != c,
            a != c,
        ensures
            final(self).points@ == old(self).points@,
            final(self).triangles@ == old(self).triangles@.push((Triangle { a, b, c })),
            old(self).wf() ==> final(self).wf(),
    {
        self.triangles.push(Triangle { a, b, c });
    }

    /// Remove the given triangle slots.  The indices come strictly ascending
    /// and are processed from the largest down, because each removal swaps
    /// the last slot into the vacated one and truncates.
    pub fn remove_triangles(&mut self, idxs: &Vec<usize>)
        requires
            idxs_ok(idxs@, old(self).triangles@.len() as nat),
        ensures
            final(self).points@ == old(self).points@,
            final(self).triangles@ == remove_desc(old(self).triangles@, idxs@),
    {
        let ghost tris0 = old(self).triangles@;
        let n = idxs.len();
        proof {
            assert(idxs@.take(n as int) =~= idxs@);
        }
        let mut k: usize = 0;
        while k < n
            invariant
                k <= n,
                n == idxs@.len(),
                self.points@ == old(self).points@,
                self.triangles@.len() == tris0.len() - k,
                idxs_ok(idxs@.take(n - k), self.triangles@.len() as nat),
                remove_desc(tris0, idxs@) == remove_desc(self.triangles@, idxs@.take(n - k)),
            decreases n - k,
        {
            let ghost pre = self.triangles@;
            let ghost m = (n - k) as int;
            let i = idxs[n - 1 - k];
            proof {
                assert(idxs@.take(m)[m - 1] == idxs@[m - 1]);
                assert(i < self.triangles@.len());
            }
            self.triangles.swap_remove(i);
            proof {
                assert(idxs@.take(m).last() == i);
                assert(idxs@.take(m).drop_last() =~= idxs@.take(m - 1));
                assert(self.triangles@ == swap_remove_seq(pre, i as int));
                assert(remove_desc(pre, idxs@.take(m)) == remove_desc(
                    self.triangles@,
                    idxs@.take(m - 1),
                ));
                assert(idxs_ok(idxs@.take(m - 1), self.triangles@.len() as nat)) by {
                    assert(forall|k1: int| 0 <= k1 < m - 1 ==> idxs@.take(m - 1)[k1] == idxs@[k1]);
                    assert(forall|k1: int| 0 <= k1 < m - 1 ==> (#[trigger] idxs@[k1]) < idxs@[m
                        - 1]);
                }
            }
            k = k + 1;
        }
        proof {
            assert(idxs@.take(0) =~= Seq::<usize>::empty());
            assert(remove_desc(self.triangles@, idxs@.take(0)) == self.triangles@);
        }
    }
}

} // verus!
