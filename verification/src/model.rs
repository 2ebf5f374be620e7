use crate::error::{SurfelReconsResult, SurfelReconstError};
use crate::math::{is_unit3, Vec3};
use crate::surfel::{surfel_valid, Surfel};
use vstd::prelude::*;

verus! {

/// Stable identifier of a storage slot; slots are reused in place, so an
/// identifier stays meaningful across retirements.
pub type SlotId = usize;

/// Largest accepted model capacity.
pub const CAPACITY_LIMIT: usize = 0x1000_0000;

/// The bounded, slot-addressed store of live surfels.
///
/// Slot contents are `None` while free; `free_slots` lists exactly the free
/// slot identifiers. The store never grows beyond its fixed capacity: when
/// no free slot is left, `insert` fails and the caller decides what to
/// retire.
pub struct SurfelModel {
    pub capacity: usize,
    pub slots: Vec<Option<Surfel>>,
    pub free_slots: Vec<SlotId>,
}

/// Number of live surfels among the first `k` slots.
pub open spec fn live_count_prefix(s: Seq<Option<Surfel>>, k: int) -> nat
    decreases k,
{
    if k <= 0 {
        0
    } else {
        live_count_prefix(s, k - 1) + if s[k - 1] is Some {
            1nat
        } else {
            0nat
        }
    }
}

/// Number of live surfels in a slot sequence.
pub open spec fn live_count(s: Seq<Option<Surfel>>) -> nat {
    live_count_prefix(s, s.len() as int)
}

/// The index of the first free slot, scanning upward from `k`.
pub open spec fn first_free_from(s: Seq<Option<Surfel>>, k: int) -> Option<int>
    decreases s.len() - k,
{
    if k < 0 || k >= s.len() {
        None
    } else if s[k] is None {
        Some(k)
    } else {
        first_free_from(s, k + 1)
    }
}

/// The index of the first free slot, if any.
pub open spec fn first_free(s: Seq<Option<Surfel>>) -> Option<int> {
    first_free_from(s, 0)
}

/// The live `(slot, surfel)` pairs among the first `k` slots, in slot
/// order.
pub open spec fn live_entries(s: Seq<Option<Surfel>>, k: int) -> Seq<(SlotId, Surfel)>
    decreases k,
{
    if k <= 0 {
        Seq::empty()
    } else {
        let pre = live_entries(s, k - 1);
        if s[k - 1] is Some {
            pre.push((((k - 1) as usize), s[k - 1].unwrap()))
        } else {
            pre
        }
    }
}

impl SurfelModel {
    /// Well-formedness: the slot array has exactly `capacity` entries, the
    /// free list holds exactly the free slot identifiers (each once), and
    /// every live surfel satisfies its invariant.
    pub open spec fn wf(self) -> bool {
        &&& self.capacity <= CAPACITY_LIMIT
        &&& self.slots@.len() == self.capacity as int
        &&& forall|j: int|
            0 <= j < self.free_slots@.len() ==> (self.free_slots@[j] as int) < self.capacity as int
                && self.slots@[self.free_slots@[j] as int] is None
        &&& forall|j1: int, j2: int|
            0 <= j1 < j2 < self.free_slots@.len() ==> self.free_slots@[j1] != self.free_slots@[j2]
        &&& forall|i: int|
            0 <= i < self.slots@.len() && self.slots@[i] is None ==> self.free_slots@.contains(
                i as usize,
            )
        &&& forall|i: int|
            0 <= i < self.slots@.len() && self.slots@[i] is Some ==> surfel_valid(
                self.slots@[i].unwrap(),
            )
    }

    /// Allocates a model with all slots free; a zero capacity is rejected
    /// as an invalid configuration.
    pub fn new(capacity: usize) -> (r: SurfelReconsResult<SurfelModel>)
        ensures
            r is Ok <==> 1 <= capacity <= CAPACITY_LIMIT,
            r is Ok ==> {
                let m = r.unwrap();
                &&& m.wf()
                &&& m.capacity == capacity
                &&& m.slots@.len() == capacity as int
                &&& forall|i: int| 0 <= i < capacity as int ==> m.slots@[i] is None
                &&& m.free_slots@.len() == capacity as int
            },
    {
        if capacity < 1 || capacity > CAPACITY_LIMIT {
            return Err(
                SurfelReconstError::InvalidArgument(
                    ("surfel model capacity out of range").to_string(),
                ),
            );
        }
        let mut slots: Vec<Option<Surfel>> = Vec::new();
        let mut free_slots: Vec<SlotId> = Vec::new();
        let mut i: usize = 0;
        while i < capacity
            invariant
                i <= capacity,
                slots@.len() == i as int,
                free_slots@.len() == i as int,
                forall|k: int| 0 <= k < i as int ==> slots@[k] is None,
                forall|k: int| 0 <= k < i as int ==> free_slots@[k] == k as usize,
            decreases capacity - i,
        {
            slots.push(None);
            free_slots.push(i);
            i = i + 1;
        }
        let m = SurfelModel { capacity, slots, free_slots };
        assert forall|k: int| 0 <= k < m.slots@.len() && m.slots@[k] is None implies m
            .free_slots@.contains(k as usize) by {
            assert(m.free_slots@[k] == k as usize);
        }
        Ok(m)
    }

    /// Number of live surfels, counted over the slots.
    pub fn live(&self) -> (r: usize)
        requires
            self.wf(),
        ensures
            r as nat == live_count(self.slots@),
            r <= self.capacity,
    {
        let n = self.slots.len();
        let mut cnt: usize = 0;
        let mut i: usize = 0;
        while i < n
            invariant
                i <= n,
                n == self.slots@.len(),
                cnt as nat == live_count_prefix(self.slots@, i as int),
                cnt <= i,
            decreases n - i,
        {
            if self.slots[i].is_some() {
                cnt = cnt + 1;
            }
            i = i + 1;
        }
        cnt
    }

    /// The surfel in a slot, if the slot is live.
    pub fn get(&self, id: SlotId) -> (r: Option<Surfel>)
        requires
            self.wf(),
            id < self.capacity,
        ensures
            r == self.slots@[id as int],
    {
        self.slots[id]
    }

    /// Inserts a surfel into the first free slot. Fails with
    /// `CapacityExceeded`, leaving the model untouched, exactly when no
    /// free slot is left; retiring a surfel to make room is the caller's
    /// decision, the model never drops data on its own.
    pub fn insert(&mut self, s: Surfel) -> (r: SurfelReconsResult<SlotId>)
        requires
            old(self).wf(),
            surfel_valid(s),
        ensures
            final(self).wf(),
            final(self).capacity == old(self).capacity,
            r is Ok <==> first_free(old(self).slots@) is Some,
            r is Ok <==> (exists|k: int|
                0 <= k < old(self).slots@.len() && old(self).slots@[k] is None),
            r is Err ==> r == Err::<SlotId, SurfelReconstError>(SurfelReconstError::CapacityExceeded)
                && *final(self) == *old(self),
            r is Ok ==> {
                let id = r.unwrap();
                &&& Some(id as int) == first_free(old(self).slots@)
                &&& id < final(self).capacity
                &&& old(self).slots@[id as int] is None
                &&& final(self).slots@ == old(self).slots@.update(id as int, Some(s))
                &&& final(self).free_slots@.len() == old(self).free_slots@.len() - 1
            },
    {
        let n = self.slots.len();
        let mut i: usize = 0;
        while i < n && self.slots[i].is_some()
            invariant
                i <= n,
                n == self.slots@.len(),
                forall|k: int| 0 <= k < i as int ==> self.slots@[k] is Some,
                first_free(self.slots@) == first_free_from(self.slots@, i as int),
            decreases n - i,
        {
            i = i + 1;
        }
        if i == n {
            assert(first_free(self.slots@) is None);
            assert(forall|k: int|
                0 <= k < self.slots@.len() ==> self.slots@[k] is Some);
            return Err(SurfelReconstError::CapacityExceeded);
        }
        assert(self.slots@[i as int] is None);
        assert(first_free(self.slots@) == Some(i as int));
        // The free list must mention slot i; find and drop that entry.
        assert(self.free_slots@.contains(i));
        let ghost old_free = self.free_slots@;
        let m = self.free_slots.len();
        let mut j: usize = 0;
        while j < m && self.free_slots[j] != i
            invariant
                j <= m,
                m == self.free_slots@.len(),
                self.free_slots@ == old_free,
                forall|k: int| 0 <= k < j as int ==> self.free_slots@[k] != i,
                self.free_slots@.contains(i),
            decreases m - j,
        {
            j = j + 1;
        }
        if j == m {
            proof {
                let w = choose|w: int| 0 <= w < old_free.len() && old_free[w] == i;
                assert(old_free[w] != i);
            }
            // Unreachable: the free list always mentions a free slot.
            return Err(SurfelReconstError::CapacityExceeded);
        }
        self.free_slots.swap_remove(j);
        self.slots[i] = Some(s);
        proof {
            let pre = old(self).slots@;
            let post = self.slots@;
            let nf = self.free_slots@;
            assert forall|k: int| 0 <= k < post.len() && post[k] is None implies nf.contains(
                k as usize,
            ) by {
                assert(pre[k] is None && k != i as int);
                assert(old_free.contains(k as usize));
                let w = choose|w: int| 0 <= w < old_free.len() && old_free[w] == k as usize;
                assert(old_free[j as int] == i);
                assert(w != j as int);
                if w < old_free.len() - 1 {
                    assert(nf[w] == k as usize);
                } else {
                    assert((j as int) < old_free.len() - 1);
                    assert(nf[j as int] == old_free[w]);
                    assert(nf[j as int] == k as usize);
                }
            }
            assert forall|j1: int, j2: int|
                0 <= j1 < j2 < nf.len() implies nf[j1] != nf[j2] by {
                let a: int = if j1 == j as int {
                    old_free.len() - 1
                } else {
                    j1
                };
                let b: int = if j2 == j as int {
                    old_free.len() - 1
                } else {
                    j2
                };
                assert(nf[j1] == old_free[a]);
                assert(nf[j2] == old_free[b]);
                if a < b {
                    assert(old_free[a] != old_free[b]);
                } else {
                    assert(old_free[b] != old_free[a]);
                }
            }
        }
        Ok(i)
    }

    /// Replaces the surfel in a live slot, in place.
    pub fn update(&mut self, id: SlotId, s: Surfel)
        requires
            old(self).wf(),
            id < old(self).capacity,
            old(self).slots@[id as int] is Some,
            surfel_valid(s),
        ensures
            final(self).wf(),
            final(self).capacity == old(self).capacity,
            final(self).slots@ == old(self).slots@.update(id as int, Some(s)),
            final(self).free_slots@ == old(self).free_slots@,
    {
        self.slots[id] = Some(s);
    }

    /// Frees a live slot, making it available for reuse.
    pub fn remove(&mut self, id: SlotId)
        requires
            old(self).wf(),
            id < old(self).capacity,
            old(self).slots@[id as int] is Some,
        ensures
            final(self).wf(),
            final(self).capacity == old(self).capacity,
            final(self).slots@ == old(self).slots@.update(id as int, None),
            final(self).free_slots@ == old(self).free_slots@.push(id),
    {
        self.slots[id] = None;
        proof {
            assert forall|j: int|
                0 <= j < old(self).free_slots@.len() implies old(self).free_slots@[j] != id by {
                assert(old(self).slots@[old(self).free_slots@[j] as int] is None);
            }
        }
        self.free_slots.push(id);
        proof {
            let nf = self.free_slots@;
            let of = old(self).free_slots@;
            assert forall|k: int| 0 <= k < self.slots@.len() && self.slots@[k] is None implies nf
                .contains(k as usize) by {
                if k == id as int {
                    assert(nf[nf.len() - 1] == id);
                } else {
                    assert(old(self).slots@[k] is None);
                    let w = choose|w: int| 0 <= w < of.len() && of[w] == k as usize;
                    assert(nf[w] == k as usize);
                }
            }
        }
    }

    /// A consistent snapshot of the live surfels with their slot
    /// identifiers, in slot order, for the render consumer.
    pub fn snapshot_for_render(&self) -> (r: Vec<(SlotId, Surfel)>)
        requires
            self.wf(),
        ensures
            r@ == live_entries(self.slots@, self.capacity as int),
            r@.len() == live_count(self.slots@),
    {
        proof {
            lemma_live_entries_len(self.slots@, self.capacity as int);
        }
        let n = self.slots.len();
        let mut out: Vec<(SlotId, Surfel)> = Vec::new();
        let mut i: usize = 0;
        while i < n
            invariant
                i <= n,
                n == self.slots@.len(),
                self.wf(),
                out@ == live_entries(self.slots@, i as int),
            decreases n - i,
        {
            match self.slots[i] {
                Some(s) => {
                    out.push((i, s));
                },
                None => {},
            }
            i = i + 1;
        }
        out
    }
}

/// The live-entry listing has one pair per live slot.
pub proof fn lemma_live_entries_len(s: Seq<Option<Surfel>>, k: int)
    requires
        k <= s.len(),
    ensures
        live_entries(s, k).len() == live_count_prefix(s, k),
    decreases k,
{
    if k > 0 {
        lemma_live_entries_len(s, k - 1);
    }
}

/// There are never more live surfels than slots.
pub proof fn lemma_live_count_le(s: Seq<Option<Surfel>>, k: int)
    requires
        k <= s.len(),
    ensures
        live_count_prefix(s, k) <= if k >= 0 {
            k
        } else {
            0
        },
    decreases k,
{
    if k > 0 {
        lemma_live_count_le(s, k - 1);
    }
}

/// Capacity invariant: a well-formed model never holds more surfels than
/// its capacity.
pub proof fn lemma_capacity_invariant(m: SurfelModel)
    requires
        m.wf(),
    ensures
        live_count(m.slots@) <= m.capacity,
{
    lemma_live_count_le(m.slots@, m.slots@.len() as int);
}

/// Surfel invariant: every live surfel of a well-formed model has a unit
/// normal and a positive, capped confidence.
pub proof fn lemma_live_surfels_valid(m: SurfelModel, i: int)
    requires
        m.wf(),
        0 <= i < m.slots@.len(),
        m.slots@[i] is Some,
    ensures
        surfel_valid(m.slots@[i].unwrap()),
        is_unit3(m.slots@[i].unwrap().normal),
        m.slots@[i].unwrap().confidence >= 1,
{
}

} // verus!
