//! A bounded-capacity least-frequently-used (LFU) eviction tracker.
//!
//! The tracker records access events by key and decides which key, if any,
//! must be evicted to keep the tracked set within a fixed capacity. It
//! stores only key identity and an access-frequency count; payload storage
//! is the caller's concern.

use vstd::prelude::*;

mod index;
pub mod lfu;

use crate::lfu::LfuInner;
use crate::lfu::bumped;

verus! {

/// The one failure the tracker reports at construction time.
#[derive(Clone, Copy, Debug, PartialEq, Eq, Structural)]
pub enum LfuError {
    /// The requested capacity was zero: such a tracker could never admit a
    /// key, and its first miss would have no root to evict.
    InvalidCapacity,
}

/// The tracker specialised to string keys, as the host boundary exposes
/// it: construction and a single record-access entry point.
pub struct Lfu {
    lfu: LfuInner,
}

impl View for Lfu {
    type V = Map<Seq<char>, usize>;

    /// The abstract state: the map from each tracked key to its current
    /// access-frequency count.
    closed spec fn view(&self) -> Map<Seq<char>, usize> {
        self.lfu@
    }
}

impl Lfu {
    /// The structure's invariant, established at construction and
    /// preserved by every access.
    pub closed spec fn inv(self) -> bool {
        self.lfu.inv()
    }

    /// The fixed capacity the tracker was constructed with.
    pub closed spec fn spec_capacity(self) -> int {
        self.lfu.spec_capacity()
    }

    /// The number of keys currently tracked.
    pub closed spec fn spec_size(self) -> int {
        self.lfu.spec_size()
    }

    /// Constructs an empty tracker of the given capacity; a capacity of
    /// zero is rejected rather than accepted and left to fail on the
    /// first miss.
    pub fn new(capacity: u32) -> (r: Result<Lfu, LfuError>)
        ensures
            capacity == 0 <==> r is Err,
            r is Err ==> r == Err::<Lfu, LfuError>(LfuError::InvalidCapacity),
            r is Ok ==> {
                &&& r.unwrap().inv()
                &&& r.unwrap()@ == Map::<Seq<char>, usize>::empty()
                &&& r.unwrap().spec_size() == 0
                &&& r.unwrap().spec_capacity() == capacity
            },
    {
        match LfuInner::new(capacity as usize) {
            Ok(inner) => Ok(Lfu { lfu: inner }),
            Err(e) => Err(e),
        }
    }

    /// Records an access to `val`; see [`LfuInner::refer`]. Returns the
    /// evicted key when one had to leave, and `None` otherwise.
    pub fn refer(&mut self, val: String) -> (evicted: Option<String>)
        requires
            old(self).inv(),
        ensures
            final(self).inv(),
            final(self).spec_capacity() == old(self).spec_capacity(),
            old(self)@.contains_key(val@) ==> {
                &&& evicted is None
                &&& final(self)@ == old(self)@.insert(val@, bumped(old(self)@[val@]))
                &&& final(self).spec_size() == old(self).spec_size()
            },
            !old(self)@.contains_key(val@) && old(self).spec_size() < old(self).spec_capacity()
                ==> {
                &&& evicted is None
                &&& final(self)@ == old(self)@.insert(val@, 1usize)
                &&& final(self).spec_size() == old(self).spec_size() + 1
            },
            !old(self)@.contains_key(val@) && old(self).spec_size() == old(self).spec_capacity()
                ==> {
                &&& evicted is Some
                &&& old(self)@.contains_key(evicted.unwrap()@)
                &&& forall|k: Seq<char>| #[trigger] old(self)@.contains_key(k)
                        ==> old(self)@[evicted.unwrap()@] <= old(self)@[k]
                &&& final(self)@ == old(self)@.remove(evicted.unwrap()@).insert(val@, 1usize)
                &&& final(self).spec_size() == old(self).spec_size()
            },
    {
        self.lfu.refer(val)
    }
}

/// Bounded size: a tracker satisfying the invariant never tracks more
/// keys than its capacity, and never a negative number of them.
pub proof fn lemma_size_bounded(t: Lfu)
    requires
        t.inv(),
    ensures
        0 <= t.spec_size() <= t.spec_capacity(),
{
    crate::lfu::lemma_size_bounded(t.lfu);
}

} // verus!
