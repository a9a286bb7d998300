//! A keyed min-heap: `push` files a value under a `u64` key, `pop` hands
//! back an entry with the smallest key.  The heap shape is the classic
//! implicit binary tree over a vector.

use vstd::prelude::*;

use vstd::multiset::Multiset;

verus! {

/// Slot of the parent of heap slot `i`.
pub open spec fn parent(i: int) -> int {
    (i - 1) / 2
}

/// The min-heap ordering: every slot's key is at least its parent's key.
pub open spec fn heap_wf<T>(s: Seq<(u64, T)>) -> bool {
    forall|i: int| 1 <= i < s.len() ==> (#[trigger] s[i]).0 >= s[parent(i)].0
}

/// Sift-up state: the ordering holds everywhere except possibly between
/// `idx` and its parent, and `idx`'s children already clear `idx`'s parent,
/// so a swap upward cannot break them.
spec fn up_ok<T>(s: Seq<(u64, T)>, idx: int) -> bool {
    &&& forall|i: int|
        1 <= i < s.len() && i != idx ==> (#[trigger] s[i]).0 >= s[parent(i)].0
    &&& forall|i: int|
        1 <= i < s.len() && parent(i) == idx && idx >= 1 ==> (#[trigger] s[i]).0 >= s[parent(
            idx,
        )].0
}

/// Sift-down state: the ordering holds on every edge not below `idx`, and
/// `idx`'s children clear `idx`'s parent, so a swap downward cannot break
/// the edge above.
spec fn down_ok<T>(s: Seq<(u64, T)>, idx: int) -> bool {
    &&& forall|i: int|
        1 <= i < s.len() && parent(i) != idx ==> (#[trigger] s[i]).0 >= s[parent(i)].0
    &&& forall|i: int|
        1 <= i < s.len() && parent(i) == idx && idx >= 1 ==> (#[trigger] s[i]).0 >= s[parent(
            idx,
        )].0
}

/// In a min-heap every slot's key is at least the root's.
proof fn lemma_root_min<T>(s: Seq<(u64, T)>, i: int)
    requires
        heap_wf(s),
        0 <= i < s.len(),
    ensures
        s[i].0 >= s[0].0,
    decreases i,
{
    if i >= 1 {
        lemma_root_min(s, parent(i));
    }
}

/// Overwriting one slot trades its old element for the new one, up to order.
proof fn lemma_update_multiset<T>(s: Seq<T>, i: int, v: T)
    requires
        0 <= i < s.len(),
    ensures
        s.update(i, v).to_multiset() == s.to_multiset().remove(s[i]).insert(v),
{
    let t = s.update(i, v);
    assert(t.remove(i) =~= s.remove(i));
    vstd::seq_lib::to_multiset_remove(t, i);
    vstd::seq_lib::to_multiset_remove(s, i);
    t.to_multiset_ensures();
    assert(t.contains(v)) by {
        assert(t[i] == v);
    }
    assert(t.to_multiset().count(v) > 0);
    assert(t.to_multiset() =~= t.to_multiset().remove(v).insert(v));
    assert(t.to_multiset() =~= s.to_multiset().remove(s[i]).insert(v));
}

/// Swapping two slots leaves the contents unchanged, up to order.
proof fn lemma_swap_multiset<T>(s: Seq<T>, i: int, j: int)
    requires
        0 <= i < s.len(),
        0 <= j < s.len(),
        i != j,
    ensures
        s.update(i, s[j]).update(j, s[i]).to_multiset() == s.to_multiset(),
{
    let t = s.update(i, s[j]);
    lemma_update_multiset(s, i, s[j]);
    assert(t[j] == s[j]);
    lemma_update_multiset(t, j, s[i]);
    s.to_multiset_ensures();
    assert(s.contains(s[i])) by {
        assert(s[i] == s[i]);
    }
    assert(s.to_multiset().count(s[i]) > 0);
    assert(t.update(j, s[i]).to_multiset() =~= s.to_multiset());
}

/// A priority queue of values filed under `u64` keys, with the least key
/// served first.  Viewed abstractly it is the multiset of its entries.
pub struct PriorityQueue<T> {
    heap: Vec<(u64, T)>,
}

impl<T> View for PriorityQueue<T> {
    type V = Multiset<(u64, T)>;

    closed spec fn view(&self) -> Multiset<(u64, T)> {
        self.heap@.to_multiset()
    }
}

impl<T: Copy> PriorityQueue<T> {
    /// The heap ordering holds; established by `new` and kept by every
    /// operation.
    pub closed spec fn wf(&self) -> bool {
        heap_wf(self.heap@)
    }

    /// An empty queue.
    pub fn new() -> (q: PriorityQueue<T>)
        ensures
            q@ == Multiset::<(u64, T)>::empty(),
            q.wf(),
    {
        let q = PriorityQueue { heap: Vec::new() };
        proof {
            q.heap@.to_multiset_ensures();
            assert(q.heap@.to_multiset() =~= Multiset::<(u64, T)>::empty());
        }
        q
    }

    /// File `v` under key `k`.
    pub fn push(&mut self, k: u64, v: T)
        requires
            old(self).wf(),
        ensures
            final(self).wf(),
            final(self)@ == old(self)@.insert((k, v)),
    {
        let ghost pre = self.heap@;
        self.heap.push((k, v));
        proof {
            vstd::seq_lib::to_multiset_build(pre, (k, v));
            let s = self.heap@;
            let n = s.len() as int;
            assert forall|i: int| 1 <= i < n && i != n - 1 implies (#[trigger] s[i]).0
                >= s[parent(i)].0 by {
                assert(s[i] == pre[i]);
                assert(parent(i) < i);
                assert(s[parent(i)] == pre[parent(i)]);
            }
            assert(up_ok(s, n - 1));
        }
        let n = self.heap.len();
        self.upheap(n - 1);
    }

    /// Serve an entry with the smallest key, or nothing if the queue is
    /// empty.
    pub fn pop(&mut self) -> (r: Option<(u64, T)>)
        requires
            old(self).wf(),
        ensures
            final(self).wf(),
            old(self)@.len() == 0 ==> r is None && final(self)@ == old(self)@,
            old(self)@.len() > 0 ==> r is Some,
            r matches Some(p) ==> old(self)@.count(p) > 0 && final(self)@ == old(self)@.remove(p)
                && (forall|q: (u64, T)| #[trigger] old(self)@.count(q) > 0 ==> p.0 <= q.0),
    {
        proof {
            self.heap@.to_multiset_ensures();
        }
        let n = self.heap.len();
        if n == 0 {
            return None;
        }
        let ghost pre = self.heap@;
        let top = self.heap.swap_remove(0);
        proof {
            crate::store::lemma_swap_remove_multiset(pre, 0);
            let s = self.heap@;
            assert forall|i: int| 1 <= i < s.len() && parent(i) != 0 implies (#[trigger] s[i]).0
                >= s[parent(i)].0 by {
                assert(s[i] == pre[i]);
                assert(1 <= parent(i) < s.len());
                assert(s[parent(i)] == pre[parent(i)]);
            }
            assert(down_ok(s, 0));
        }
        if self.heap.len() > 0 {
            self.downheap(0);
        }
        proof {
            assert forall|q: (u64, T)| #[trigger] pre.to_multiset().count(q) > 0 implies top.0
                <= q.0 by {
                pre.to_multiset_ensures();
                assert(pre.contains(q));
                let idx = choose|idx: int| 0 <= idx < pre.len() && pre[idx] == q;
                lemma_root_min(pre, idx);
            }
        }
        Some(top)
    }

    /// Sift slot `idx` upward until its key clears its parent's.
    fn upheap(&mut self, idx: usize)
        requires
            idx < old(self).heap@.len(),
            up_ok(old(self).heap@, idx as int),
        ensures
            heap_wf(final(self).heap@),
            final(self).heap@.to_multiset() == old(self).heap@.to_multiset(),
            final(self).heap@.len() == old(self).heap@.len(),
    {
        let mut i: usize = idx;
        loop
            invariant_except_break
                i < self.heap@.len(),
                up_ok(self.heap@, i as int),
            invariant
                self.heap@.len() == old(self).heap@.len(),
                self.heap@.to_multiset() == old(self).heap@.to_multiset(),
            ensures
                heap_wf(self.heap@),
            decreases i,
        {
            if i == 0 {
                break ;
            }
            let p = (i - 1) / 2;
            let ki = self.heap[i].0;
            let kp = self.heap[p].0;
            if kp <= ki {
                break ;
            }
            let ghost pre = self.heap@;
            let ei = self.heap[i];
            let ep = self.heap[p];
            self.heap[i] = ep;
            self.heap[p] = ei;
            proof {
                let s = self.heap@;
                let n = s.len() as int;
                let io = i as int;
                let po = p as int;
                assert(s == pre.update(io, pre[po]).update(po, pre[io]));
                lemma_swap_multiset(pre, io, po);
                assert(forall|x: int|
                    0 <= x < n ==> #[trigger] s[x] == (if x == io {
                        pre[po]
                    } else if x == po {
                        pre[io]
                    } else {
                        pre[x]
                    }));
                assert forall|t: int| 1 <= t < n && t != po implies (#[trigger] s[t]).0
                    >= s[parent(t)].0 by {
                    if t == io {
                        assert(s[t] == pre[po]);
                        assert(parent(t) == po);
                        assert(s[po] == pre[io]);
                    } else if parent(t) == io {
                        assert(s[t] == pre[t]);
                        assert(pre[t].0 >= pre[parent(io)].0);
                        assert(s[parent(t)] == pre[po]);
                    } else if parent(t) == po {
                        assert(s[t] == pre[t]);
                        assert(pre[t].0 >= pre[parent(t)].0);
                        assert(s[parent(t)] == pre[io]);
                    } else {
                        assert(s[t] == pre[t]);
                        assert(s[parent(t)] == pre[parent(t)]);
                    }
                }
                assert forall|t: int| 1 <= t < n && parent(t) == po && po >= 1 implies (
                #[trigger] s[t]).0 >= s[parent(po)].0 by {
                    if t == io {
                        assert(s[t] == pre[po]);
                        assert(pre[po].0 >= pre[parent(po)].0);
                    } else {
                        assert(s[t] == pre[t]);
                        assert(pre[t].0 >= pre[po].0);
                        assert(pre[po].0 >= pre[parent(po)].0);
                    }
                    assert(s[parent(po)] == pre[parent(po)]);
                }
                assert(up_ok(s, po));
            }
            i = p;
        }
    }

    /// Sift slot `idx` downward until both children's keys clear its own.
    fn downheap(&mut self, idx: usize)
        requires
            idx < old(self).heap@.len(),
            down_ok(old(self).heap@, idx as int),
        ensures
            heap_wf(final(self).heap@),
            final(self).heap@.to_multiset() == old(self).heap@.to_multiset(),
            final(self).heap@.len() == old(self).heap@.len(),
    {
        let mut i: usize = idx;
        loop
            invariant_except_break
                i < self.heap@.len(),
                down_ok(self.heap@, i as int),
            invariant
                self.heap@.len() == old(self).heap@.len(),
                self.heap@.to_multiset() == old(self).heap@.to_multiset(),
            ensures
                heap_wf(self.heap@),
            decreases self.heap@.len() - i,
        {
            let n = self.heap.len();
            if !(i + 1 < n - i) {
                // No children: every edge below `i` is vacuous.
                proof {
                    assert forall|t: int| 1 <= t < n implies (#[trigger] self.heap@[t]).0
                        >= self.heap@[parent(t)].0 by {
                        if parent(t) == i as int {
                            assert(t >= 2 * (i as int) + 1);
                            assert(false);
                        }
                    }
                }
                break ;
            }
            let l = 2 * i + 1;
            let c: usize = if l + 1 < n {
                if self.heap[l].0 < self.heap[l + 1].0 {
                    l
                } else {
                    l + 1
                }
            } else {
                l
            };
            proof {
                assert(parent(l as int) == i as int);
                assert(parent(l as int + 1) == i as int);
            }
            if !(self.heap[c].0 < self.heap[i].0) {
                // The smallest child clears `i`: the heap is restored.
                proof {
                    let s = self.heap@;
                    assert forall|t: int| 1 <= t < n implies (#[trigger] s[t]).0
                        >= s[parent(t)].0 by {
                        if parent(t) == i as int {
                            assert(2 * (i as int) + 1 <= t <= 2 * (i as int) + 2);
                            assert(s[c as int].0 >= s[i as int].0);
                        }
                    }
                }
                break ;
            }
            let ghost pre = self.heap@;
            let ei = self.heap[i];
            let ec = self.heap[c];
            self.heap[i] = ec;
            self.heap[c] = ei;
            proof {
                let s = self.heap@;
                let nn = s.len() as int;
                let io = i as int;
                let co = c as int;
                assert(s == pre.update(io, pre[co]).update(co, pre[io]));
                lemma_swap_multiset(pre, io, co);
                assert(forall|x: int|
                    0 <= x < nn ==> #[trigger] s[x] == (if x == io {
                        pre[co]
                    } else if x == co {
                        pre[io]
                    } else {
                        pre[x]
                    }));
                assert(parent(co) == io);
                assert forall|t: int| 1 <= t < nn && parent(t) != co implies (#[trigger] s[t]).0
                    >= s[parent(t)].0 by {
                    if t == io {
                        assert(s[t] == pre[co]);
                        assert(pre[co].0 >= pre[parent(io)].0);
                        assert(s[parent(t)] == pre[parent(io)]);
                    } else if t == co {
                        assert(s[t] == pre[io]);
                        assert(s[parent(t)] == s[io]);
                        assert(s[io] == pre[co]);
                    } else if parent(t) == io {
                        // The other child of `i`, if any: it clears the
                        // smallest child, which now sits at `i`.
                        assert(s[t] == pre[t]);
                        assert(2 * io + 1 <= t <= 2 * io + 2);
                        assert(pre[t].0 >= pre[co].0);
                        assert(s[parent(t)] == pre[co]);
                    } else {
                        assert(s[t] == pre[t]);
                        assert(s[parent(t)] == pre[parent(t)]);
                        assert(pre[t].0 >= pre[parent(t)].0);
                    }
                }
                assert forall|t: int| 1 <= t < nn && parent(t) == co && co >= 1 implies (
                #[trigger] s[t]).0 >= s[parent(co)].0 by {
                    assert(t > co);
                    assert(s[t] == pre[t]);
                    assert(pre[t].0 >= pre[co].0);
                    assert(s[parent(co)] == s[io]);
                    assert(s[io] == pre[co]);
                }
                assert(down_ok(s, co));
            }
            i = c;
        }
    }
}

} // verus!
