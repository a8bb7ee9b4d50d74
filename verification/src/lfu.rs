//! The LFU core: a fixed-capacity binary min-heap of (key, frequency)
//! entries ordered by frequency, paired with an index from key to heap
//! slot so that a key's frequency can be bumped without a linear scan.

use vstd::prelude::*;
use crate::index::KeyIndex;
use crate::index::index_map_of;
use crate::LfuError;

verus! {

/// One tracked entry: a key and its access-frequency count.
pub struct CacheEntry {
    pub key: String,
    pub count: usize,
}

/// The slot of the parent of heap slot `c`.
pub open spec fn hp(c: int) -> int {
    (c - 1) / 2
}

/// A frequency saturates at the top of its representable range instead of
/// wrapping: a count at `usize::MAX` stays there on further accesses.
pub open spec fn bumped(f: usize) -> usize {
    if f == usize::MAX {
        f
    } else {
        (f + 1) as usize
    }
}

/// Min-heap order over the first `n` slots of `s`: every parent's count is
/// at most its children's counts.
pub open spec fn heap_le(s: Seq<CacheEntry>, n: int) -> bool {
    forall|c: int| 1 <= c < n ==> s[hp(c)].count <= #[trigger] s[c].count
}

/// Heap order over the first `n` slots, except that the pairs whose parent
/// is slot `i` may be out of order (the state sift-down walks through).
pub open spec fn ordered_except_below(s: Seq<CacheEntry>, n: int, i: int) -> bool {
    forall|c: int| 1 <= c < n && hp(c) != i ==> s[hp(c)].count <= #[trigger] s[c].count
}

/// Heap order over the first `n` slots, except that the single pair whose
/// child is slot `i` may be out of order (the state sift-up walks through).
pub open spec fn ordered_except_at(s: Seq<CacheEntry>, n: int, i: int) -> bool {
    forall|c: int| 1 <= c < n && c != i ==> s[hp(c)].count <= #[trigger] s[c].count
}

/// The entry above slot `i` bounds the entries below slot `i`: when `i` has
/// a parent, that parent's count is at most the counts of `i`'s children.
/// Both sift walks keep this across their swaps.
pub open spec fn above_bounds_below(s: Seq<CacheEntry>, n: int, i: int) -> bool {
    i > 0 ==> forall|c: int| 1 <= c < n && hp(c) == i ==> s[hp(i)].count <= #[trigger] s[c].count
}

/// Under heap order, slot 0 holds a count that is at most the count at
/// any slot within `[0, n)`.
pub proof fn lemma_root_min(s: Seq<CacheEntry>, n: int, i: int)
    requires
        heap_le(s, n),
        0 <= i < n,
    ensures
        s[0].count <= s[i].count,
    decreases i,
{
    if i > 0 {
        assert(s[hp(i)].count <= s[i].count);
        lemma_root_min(s, n, hp(i));
    }
}

/// The LFU core structure.
pub struct LfuInner {
    heap: Vec<CacheEntry>,
    indices: KeyIndex,
    max_size: usize,
    num_items: usize,
}

impl View for LfuInner {
    type V = Map<Seq<char>, usize>;

    /// The abstract state: the map from each tracked key to its current
    /// access-frequency count.
    closed spec fn view(&self) -> Map<Seq<char>, usize> {
        Map::new(
            |k: Seq<char>| index_map_of(self.indices).contains_key(k),
            |k: Seq<char>| self.heap@[index_map_of(self.indices)[k] as int].count,
        )
    }
}

impl LfuInner {
    /// The fixed capacity the tracker was constructed with.
    pub closed spec fn spec_capacity(self) -> int {
        self.max_size as int
    }

    /// The number of keys currently tracked.
    pub closed spec fn spec_size(self) -> int {
        self.num_items as int
    }

    spec fn idx(self) -> Map<Seq<char>, usize> {
        index_map_of(self.indices)
    }

    /// Index consistency: the index maps exactly the keys stored in heap
    /// slots `[0, size)`, and maps each to the slot that stores it.
    pub closed spec fn index_consistent(self) -> bool {
        &&& forall|k: Seq<char>| #[trigger] self.idx().contains_key(k)
                ==> self.idx()[k] < self.num_items && self.heap@[self.idx()[k] as int].key@ == k
        &&& forall|i: int| 0 <= i < self.num_items
                ==> self.idx().contains_key((#[trigger] self.heap@[i]).key@)
                    && self.idx()[self.heap@[i].key@] == i
    }

    /// Heap order: within `[0, size)`, every parent's count is at most its
    /// children's counts, so slot 0 holds a globally minimal count.
    pub closed spec fn heap_ordered(self) -> bool {
        heap_le(self.heap@, self.num_items as int)
    }

    /// Bounded size: the heap array holds exactly `size` entries, the size
    /// never exceeds the capacity, and the capacity is at least 1.
    pub closed spec fn size_ok(self) -> bool {
        &&& self.heap@.len() == self.num_items
        &&& self.num_items <= self.max_size
        &&& self.max_size >= 1
    }

    /// The structure's invariant, established at construction and
    /// preserved by every operation.
    pub open spec fn inv(self) -> bool {
        self.size_ok() && self.index_consistent() && self.heap_ordered()
    }

    /// Constructs an empty tracker of the given capacity; a capacity of
    /// zero is rejected, since such a tracker could never admit a key and
    /// its first miss would have no root to evict.
    pub fn new(capacity: usize) -> (r: Result<LfuInner, LfuError>)
        ensures
            capacity == 0 <==> r is Err,
            r is Err ==> r == Err::<LfuInner, LfuError>(LfuError::InvalidCapacity),
            r is Ok ==> {
                &&& r.unwrap().inv()
                &&& r.unwrap()@ == Map::<Seq<char>, usize>::empty()
                &&& r.unwrap().spec_size() == 0
                &&& r.unwrap().spec_capacity() == capacity
            },
    {
        if capacity == 0 {
            return Err(LfuError::InvalidCapacity);
        }
        let l = LfuInner {
            heap: Vec::with_capacity(capacity),
            indices: KeyIndex::new(),
            max_size: capacity,
            num_items: 0,
        };
        proof {
            assert(l@ =~= Map::<Seq<char>, usize>::empty());
        }
        Ok(l)
    }

    /// Swaps heap slots `i` and `j` and re-points both keys' index entries
    /// in the same step, so the index never drifts from the array.
    fn swap_slots(&mut self, i: usize, j: usize)
        requires
            old(self).size_ok(),
            old(self).index_consistent(),
            i < old(self).num_items,
            j < old(self).num_items,
            i != j,
        ensures
            final(self).size_ok(),
            final(self).index_consistent(),
            final(self).num_items == old(self).num_items,
            final(self).max_size == old(self).max_size,
            final(self).heap@ == old(self).heap@
                .update(i as int, old(self).heap@[j as int])
                .update(j as int, old(self).heap@[i as int]),
            final(self)@ == old(self)@,
    {
        let key_i = self.heap[i].key.clone();
        let key_i_again = self.heap[i].key.clone();
        let count_i = self.heap[i].count;
        let key_j = self.heap[j].key.clone();
        let key_j_again = self.heap[j].key.clone();
        let count_j = self.heap[j].count;
        self.indices.set(key_i, j);
        self.indices.set(key_j, i);
        self.heap[i] = CacheEntry { key: key_j_again, count: count_j };
        self.heap[j] = CacheEntry { key: key_i_again, count: count_i };
        proof {
            let m0 = index_map_of(old(self).indices);
            let m1 = index_map_of(self.indices);
            let h0 = old(self).heap@;
            let h1 = self.heap@;
            let n = self.num_items as int;
            let ki = h0[i as int].key@;
            let kj = h0[j as int].key@;
            assert(m0.contains_key(ki) && m0[ki] == i);
            assert(m0.contains_key(kj) && m0[kj] == j);
            assert(h1 =~= h0.update(i as int, h0[j as int]).update(j as int, h0[i as int]));
            assert forall|k: Seq<char>| #[trigger] m1.contains_key(k)
                implies m1[k] < n && h1[m1[k] as int].key@ == k by {
                if k != ki && k != kj {
                    assert(m0.contains_key(k));
                    assert(h0[m0[k] as int].key@ == k);
                }
            }
            assert forall|t: int| 0 <= t < n
                implies m1.contains_key((#[trigger] h1[t]).key@) && m1[h1[t].key@] == t by {
                if t != i && t != j {
                    assert(m0.contains_key(h0[t].key@) && m0[h0[t].key@] == t);
                }
            }
            assert forall|k: Seq<char>| true implies
                (old(self)@.contains_key(k) == self@.contains_key(k))
                && (self@.contains_key(k) ==> self@[k] == old(self)@[k]) by {
                if m0.contains_key(k) {
                    if k != ki && k != kj {
                        assert(h0[m0[k] as int].key@ == k);
                    }
                }
            }
            assert(self@ =~= old(self)@);
        }
    }

    /// Restores heap order downward from `index` by an iterative walk,
    /// re-pointing index entries at every swap; used after a frequency
    /// bump and after the root refill that eviction performs.
    #[verifier::rlimit(50)]
    fn heapify(&mut self, index: usize)
        requires
            old(self).size_ok(),
            old(self).index_consistent(),
            index < old(self).num_items,
            ordered_except_below(old(self).heap@, old(self).num_items as int, index as int),
            above_bounds_below(old(self).heap@, old(self).num_items as int, index as int),
        ensures
            final(self).size_ok(),
            final(self).index_consistent(),
            final(self).heap_ordered(),
            final(self).num_items == old(self).num_items,
            final(self).max_size == old(self).max_size,
            final(self)@ == old(self)@,
    {
        let ghost m0: Map<Seq<char>, usize> = self@;
        let ghost n0: usize = self.num_items;
        let ghost c0: usize = self.max_size;
        let mut i: usize = index;
        loop
            invariant
                self.size_ok(),
                self.index_consistent(),
                i < self.num_items,
                self.num_items == n0,
                self.max_size == c0,
                self@ == m0,
                ordered_except_below(self.heap@, self.num_items as int, i as int),
                above_bounds_below(self.heap@, self.num_items as int, i as int),
            ensures
                self.size_ok(),
                self.index_consistent(),
                self.num_items == n0,
                self.max_size == c0,
                self@ == m0,
                heap_le(self.heap@, self.num_items as int),
            decreases self.num_items - i,
        {
            if i >= self.num_items / 2 {
                proof {
                    let n = self.num_items as int;
                    assert forall|c: int| 1 <= c < n
                        implies self.heap@[hp(c)].count <= (#[trigger] self.heap@[c]).count by {
                        assert(2 * (i as int) + 1 >= n);
                        assert(hp(c) != i as int);
                    }
                }
                break;
            }
            let left = 2 * i + 1;
            let right = 2 * i + 2;
            let mut minim = i;
            if self.heap[left].count < self.heap[minim].count {
                minim = left;
            }
            if right < self.num_items && self.heap[right].count < self.heap[minim].count {
                minim = right;
            }
            if minim == i {
                proof {
                    let n = self.num_items as int;
                    assert forall|c: int| 1 <= c < n
                        implies self.heap@[hp(c)].count <= (#[trigger] self.heap@[c]).count by {
                        if hp(c) == i as int {
                            assert(c == 2 * (i as int) + 1 || c == 2 * (i as int) + 2);
                        }
                    }
                }
                break;
            }
            proof {
                let n = self.num_items as int;
                let h = self.heap@;
                let ii = i as int;
                let mm = minim as int;
                // the chosen child is strictly smaller than the current
                // slot and at most its sibling
                assert(h[mm].count < h[ii].count);
                assert(mm == 2 * ii + 1 || mm == 2 * ii + 2);
                assert(2 * ii + 1 < n && h[2 * ii + 1].count >= h[mm].count);
                assert(2 * ii + 2 < n ==> h[2 * ii + 2].count >= h[mm].count);
            }
            let ghost h_pre = self.heap@;
            self.swap_slots(i, minim);
            proof {
                let n = self.num_items as int;
                let h = self.heap@;
                let ii = i as int;
                let mm = minim as int;
                assert forall|c: int| 1 <= c < n && hp(c) != mm
                    implies h[hp(c)].count <= (#[trigger] h[c]).count by {
                    if hp(c) == ii {
                        assert(c == 2 * ii + 1 || c == 2 * ii + 2);
                    } else if c == ii {
                        assert(hp(mm) == ii);
                        assert(h_pre[hp(ii)].count <= h_pre[mm].count);
                    } else {
                        assert(h_pre[hp(c)].count <= h_pre[c].count);
                    }
                }
                assert forall|c: int| 1 <= c < n && hp(c) == mm
                    implies h[hp(mm)].count <= (#[trigger] h[c]).count by {
                    assert(mm < c);
                    assert(h_pre[hp(c)].count <= h_pre[c].count);
                }
            }
            i = minim;
        }
    }

    /// Bumps the frequency at `index` by one — saturating at the top of
    /// the representable range rather than wrapping — then restores heap
    /// order below it; a frequency increase can only disturb the order
    /// towards the children, never towards the parent.
    fn increment(&mut self, index: usize)
        requires
            old(self).inv(),
            index < old(self).num_items,
        ensures
            final(self).inv(),
            final(self).num_items == old(self).num_items,
            final(self).max_size == old(self).max_size,
            final(self)@ == old(self)@.insert(
                old(self).heap@[index as int].key@,
                bumped(old(self).heap@[index as int].count),
            ),
    {
        let k = self.heap[index].key.clone();
        let c = self.heap[index].count;
        let newc = if c == usize::MAX { c } else { c + 1 };
        self.heap[index] = CacheEntry { key: k, count: newc };
        proof {
            let h0 = old(self).heap@;
            let h1 = self.heap@;
            let n = self.num_items as int;
            let ix = index as int;
            let key = h0[ix].key@;
            assert forall|t: int| 0 <= t < n implies (#[trigger] h1[t]).key@ == h0[t].key@ by {}
            assert forall|cc: int| 1 <= cc < n && hp(cc) != ix
                implies h1[hp(cc)].count <= (#[trigger] h1[cc]).count by {
                assert(h0[hp(cc)].count <= h0[cc].count);
            }
            assert forall|cc: int| 1 <= cc < n && hp(cc) == ix && ix > 0
                implies h1[hp(ix)].count <= (#[trigger] h1[cc]).count by {
                assert(h0[hp(ix)].count <= h0[ix].count);
                assert(h0[ix].count <= h0[cc].count);
            }
            assert(self@ =~= old(self)@.insert(key, bumped(h0[ix].count)));
        }
        self.heapify(index);
    }

    /// Admits an untracked key with frequency 1, evicting the root entry
    /// first when the structure is at capacity, and sifts the new entry
    /// upward; returns the evicted key, if an eviction occurred.
    #[verifier::rlimit(50)]
    fn insert(&mut self, val: &String) -> (evicted: Option<String>)
        requires
            old(self).inv(),
            !old(self)@.contains_key(val@),
        ensures
            final(self).inv(),
            final(self).max_size == old(self).max_size,
            old(self).num_items < old(self).max_size ==> {
                &&& evicted is None
                &&& final(self)@ == old(self)@.insert(val@, 1usize)
                &&& final(self).num_items == old(self).num_items + 1
            },
            old(self).num_items == old(self).max_size ==> {
                &&& evicted is Some
                &&& old(self)@.contains_key(evicted.unwrap()@)
                &&& forall|k: Seq<char>| #[trigger] old(self)@.contains_key(k)
                        ==> old(self)@[evicted.unwrap()@] <= old(self)@[k]
                &&& final(self)@ == old(self)@.remove(evicted.unwrap()@).insert(val@, 1usize)
                &&& final(self).num_items == old(self).num_items
            },
    {
        let mut evicted_item: Option<String> = None;
        if self.num_items == self.max_size {
            // the root holds a globally minimal frequency: that key leaves
            proof {
                let h0 = self.heap@;
                let n = self.num_items as int;
                let rk = h0[0].key@;
                assert forall|k: Seq<char>| #[trigger] old(self)@.contains_key(k)
                    implies old(self)@[rk] <= old(self)@[k] by {
                    lemma_root_min(h0, n, self.idx()[k] as int);
                }
            }
            let last = self.num_items - 1;
            if last != 0 {
                self.swap_slots(0, last);
            }
            let ghost sw = *self;
            let root_key = self.heap[last].key.clone();
            self.indices.remove(&root_key);
            let _removed_entry = self.heap.pop();
            self.num_items -= 1;
            proof {
                let h1 = self.heap@;
                let n = self.num_items as int;
                assert(sw.idx()[root_key@] == last);
                assert forall|k: Seq<char>| #[trigger] self.idx().contains_key(k)
                    implies self.idx()[k] < n && h1[self.idx()[k] as int].key@ == k by {
                    assert(sw.idx().contains_key(k));
                    assert(sw.heap@[sw.idx()[k] as int].key@ == k);
                }
                assert forall|t: int| 0 <= t < n
                    implies self.idx().contains_key((#[trigger] h1[t]).key@)
                        && self.idx()[h1[t].key@] == t by {
                    assert(sw.idx().contains_key(sw.heap@[t].key@));
                    assert(sw.idx()[sw.heap@[t].key@] == t);
                }
                assert forall|k: Seq<char>| #[trigger] self@.contains_key(k)
                    implies self@[k] == old(self)@[k] by {
                    assert(sw.heap@[sw.idx()[k] as int].key@ == k);
                    assert(old(self).heap@[old(self).idx()[k] as int].key@ == k);
                }
                assert(self@ =~= old(self)@.remove(root_key@));
                assert forall|cc: int| 1 <= cc < n && hp(cc) != 0
                    implies h1[hp(cc)].count <= (#[trigger] h1[cc]).count by {
                    assert(old(self).heap@[hp(cc)].count <= old(self).heap@[cc].count);
                }
            }
            if self.num_items != 0 {
                self.heapify(0);
            }
            evicted_item = Some(root_key);
        }
        let ghost mid = *self;
        let slot = self.num_items;
        self.heap.push(CacheEntry { key: val.clone(), count: 1 });
        self.indices.set(val.clone(), slot);
        self.num_items += 1;
        proof {
            let h1 = self.heap@;
            let n = self.num_items as int;
            let s = slot as int;
            assert forall|k: Seq<char>| #[trigger] self.idx().contains_key(k)
                implies self.idx()[k] < n && h1[self.idx()[k] as int].key@ == k by {
                if k != val@ {
                    assert(mid.idx().contains_key(k));
                    assert(mid.heap@[mid.idx()[k] as int].key@ == k);
                }
            }
            assert forall|t: int| 0 <= t < n
                implies self.idx().contains_key((#[trigger] h1[t]).key@)
                    && self.idx()[h1[t].key@] == t by {
                if t < s {
                    assert(mid.idx().contains_key(mid.heap@[t].key@));
                    assert(mid.idx()[mid.heap@[t].key@] == t);
                }
            }
            assert forall|k: Seq<char>| #[trigger] mid.idx().contains_key(k) && k != val@
                implies self@.contains_key(k) && self@[k] == mid@[k] by {
                assert(mid.idx()[k] < s);
                assert(h1[mid.idx()[k] as int] == mid.heap@[mid.idx()[k] as int]);
            }
            assert(self@.contains_key(val@) && self@[val@] == 1usize);
            assert(self@ =~= mid@.insert(val@, 1usize));
            assert forall|cc: int| 1 <= cc < n && cc != s
                implies h1[hp(cc)].count <= (#[trigger] h1[cc]).count by {
                assert(mid.heap@[hp(cc)].count <= mid.heap@[cc].count);
            }
        }
        let ghost m1: Map<Seq<char>, usize> = self@;
        let ghost n1: usize = self.num_items;
        let ghost c1: usize = self.max_size;
        let mut i: usize = slot;
        while i != 0
            invariant
                self.size_ok(),
                self.index_consistent(),
                i < self.num_items,
                self.num_items == n1,
                self.max_size == c1,
                self@ == m1,
                ordered_except_at(self.heap@, self.num_items as int, i as int),
                above_bounds_below(self.heap@, self.num_items as int, i as int),
            ensures
                self.size_ok(),
                self.index_consistent(),
                self.num_items == n1,
                self.max_size == c1,
                self@ == m1,
                heap_le(self.heap@, self.num_items as int),
            decreases i,
        {
            let parent = (i - 1) / 2;
            if self.heap[parent].count <= self.heap[i].count {
                proof {
                    let h = self.heap@;
                    let n = self.num_items as int;
                    assert forall|c: int| 1 <= c < n
                        implies h[hp(c)].count <= (#[trigger] h[c]).count by {}
                }
                break;
            }
            let ghost h_pre = self.heap@;
            self.swap_slots(parent, i);
            proof {
                let h = self.heap@;
                let n = self.num_items as int;
                let ii = i as int;
                let pp = parent as int;
                assert(pp == hp(ii));
                assert forall|c: int| 1 <= c < n && c != pp
                    implies h[hp(c)].count <= (#[trigger] h[c]).count by {
                    if c == ii {
                    } else if hp(c) == pp {
                        assert(h_pre[hp(c)].count <= h_pre[c].count);
                    } else if hp(c) == ii {
                        assert(h_pre[hp(ii)].count <= h_pre[c].count);
                    } else {
                        assert(h_pre[hp(c)].count <= h_pre[c].count);
                    }
                }
                assert forall|c: int| 1 <= c < n && hp(c) == pp && pp > 0
                    implies h[hp(pp)].count <= (#[trigger] h[c]).count by {
                    assert(h_pre[hp(pp)].count <= h_pre[pp].count);
                    if c != ii {
                        assert(h_pre[hp(c)].count <= h_pre[c].count);
                    }
                }
            }
            i = parent;
        }
        evicted_item
    }

    /// Records an access to `val`. On a hit the key's frequency rises by
    /// one (saturating at the top of its range); on a miss the key is
    /// admitted with frequency 1, a least-frequently-used key being
    /// evicted first when the structure is at capacity. Returns the
    /// evicted key, if one had to leave.
    pub fn refer(&mut self, val: String) -> (evicted: Option<String>)
        requires
            old(self).inv(),
        ensures
            final(self).inv(),
            final(self).spec_capacity() == old(self).spec_capacity(),
            old(self)@.contains_key(val@) ==> {
                &&& evicted is None
                &&& final(self)@ == old(self)@.insert(val@, bumped(old(self)@[val@]))
                &&& final(self).spec_size() == old(self).spec_size()
            },
            !old(self)@.contains_key(val@) && old(self).spec_size() < old(self).spec_capacity()
                ==> {
                &&& evicted is None
                &&& final(self)@ == old(self)@.insert(val@, 1usize)
                &&& final(self).spec_size() == old(self).spec_size() + 1
            },
            !old(self)@.contains_key(val@) && old(self).spec_size() == old(self).spec_capacity()
                ==> {
                &&& evicted is Some
                &&& old(self)@.contains_key(evicted.unwrap()@)
                &&& forall|k: Seq<char>| #[trigger] old(self)@.contains_key(k)
                        ==> old(self)@[evicted.unwrap()@] <= old(self)@[k]
                &&& final(self)@ == old(self)@.remove(evicted.unwrap()@).insert(val@, 1usize)
                &&& final(self).spec_size() == old(self).spec_size()
            },
    {
        let index_item = self.indices.lookup(&val);
        match index_item {
            Some(slot) => {
                proof {
                    assert(self.idx().contains_key(val@));
                    assert(self.heap@[self.idx()[val@] as int].key@ == val@);
                }
                self.increment(slot);
                None
            },
            None => self.insert(&val),
        }
    }
}

/// Bounded size: a tracker satisfying the invariant never tracks more
/// keys than its capacity, and never a negative number of them.
pub proof fn lemma_size_bounded(l: LfuInner)
    requires
        l.inv(),
    ensures
        0 <= l.spec_size() <= l.spec_capacity(),
{
}

/// Monotonic frequency: a bump never decreases a count, and below the
/// saturation point it increases it by exactly one.
pub proof fn lemma_bumped_monotonic(f: usize)
    ensures
        bumped(f) >= f,
        f < usize::MAX ==> bumped(f) == f + 1,
{
}

/// The keys stored in the first `t` heap slots.
spec fn keys_below(s: Seq<CacheEntry>, t: int) -> Set<Seq<char>> {
    Set::new(|k: Seq<char>| exists|i: int| 0 <= i < t && (#[trigger] s[i]).key@ == k)
}

proof fn lemma_keys_below_len(s: Seq<CacheEntry>, t: int)
    requires
        0 <= t <= s.len(),
        forall|i: int, j: int| 0 <= i < j < t ==> s[i].key@ != s[j].key@,
    ensures
        keys_below(s, t).finite(),
        keys_below(s, t).len() == t,
    decreases t,
{
    if t == 0 {
        assert(keys_below(s, 0) =~= Set::<Seq<char>>::empty());
    } else {
        lemma_keys_below_len(s, t - 1);
        assert(keys_below(s, t) =~= keys_below(s, t - 1).insert(s[t - 1].key@));
        assert(!keys_below(s, t - 1).contains(s[t - 1].key@));
    }
}

/// The size is the number of tracked keys: under the invariant the domain
/// of the abstract frequency map has exactly `spec_size` elements.
pub proof fn lemma_size_is_tracked_count(l: LfuInner)
    requires
        l.inv(),
    ensures
        l@.dom().finite(),
        l@.dom().len() == l.spec_size(),
{
    let s = l.heap@;
    let n = l.spec_size();
    assert forall|i: int, j: int| 0 <= i < j < n implies s[i].key@ != s[j].key@ by {
        assert(l.idx()[s[i].key@] == i && l.idx()[s[j].key@] == j);
    }
    lemma_keys_below_len(s, n);
    assert forall|k: Seq<char>| #[trigger] l@.dom().contains(k)
        implies keys_below(s, n).contains(k) by {
        assert(s[l.idx()[k] as int].key@ == k);
    }
    assert(l@.dom() =~= keys_below(s, n));
}

} // verus!
