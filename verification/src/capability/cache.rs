//! The per-CPU validation cache: sixteen slot indices that recent lookups left
//! behind. A cached index is only a hint; every lookup holds it against the
//! slot array before it is used.

use vstd::prelude::*;
use super::resource::{ResourceId, HASH_MULTIPLIER};
use super::slot::CapabilityEntry;

verus! {

/// The number of CPUs that have a cache.
pub const MAX_CPUS: usize = 256;

/// The number of entries of one cache.
pub const CACHE_SLOTS: usize = 16;

/// The cache entry that holds no index.
pub const NO_SLOT: u32 = u32::MAX;

/// The entry of the cache under which process `pid` and the resource with
/// hash `rid_hash` are filed: `(pid × 0x9E3779B97F4A7C15 XOR rid_hash) mod 16`.
pub open spec fn cache_slot(pid: u32, rid_hash: u64) -> int {
    (((pid as u64).wrapping_mul(HASH_MULTIPLIER) ^ rid_hash) & 15) as int
}

/// The entry of a key lies within the cache.
pub proof fn lemma_cache_slot_range(pid: u32, rid_hash: u64)
    ensures
        0 <= cache_slot(pid, rid_hash) < CACHE_SLOTS,
{
    let h = (pid as u64).wrapping_mul(HASH_MULTIPLIER) ^ rid_hash;
    assert(h & 15 < 16) by (bit_vector);
}

/// One cache as plain values.
pub struct CacheView {
    pub recent: Seq<u32>,
    pub hits: u64,
    pub misses: u64,
}

impl CacheView {
    /// The cache that holds nothing and has counted nothing.
    pub open spec fn empty() -> CacheView {
        CacheView { recent: Seq::new(CACHE_SLOTS as nat, |i: int| NO_SLOT), hits: 0, misses: 0 }
    }

    /// The index that the cache holds for `pid` and `rid`, where it names a
    /// slot that is a live capability of `pid` on `rid`.
    pub open spec fn hit(self, slots: Seq<CapabilityEntry>, pid: u32, rid: ResourceId) -> Option<
        u32,
    > {
        let idx = self.recent[cache_slot(pid, rid.spec_fast_hash())];
        if idx != NO_SLOT && idx < slots.len() && slots[idx as int].is_live_for(pid, rid) {
            Some(idx)
        } else {
            None
        }
    }

    /// The cache after a lookup for `pid` and `rid`: one more hit or one more miss.
    pub open spec fn counted(self, slots: Seq<CapabilityEntry>, pid: u32, rid: ResourceId)
        -> CacheView {
        if self.hit(slots, pid, rid) is Some {
            CacheView { hits: self.hits.wrapping_add(1), ..self }
        } else {
            CacheView { misses: self.misses.wrapping_add(1), ..self }
        }
    }

    /// The cache after `idx` was filed for `pid` and the resource with hash `rid_hash`.
    pub open spec fn inserted(self, pid: u32, rid_hash: u64, idx: u32) -> CacheView {
        CacheView { recent: self.recent.update(cache_slot(pid, rid_hash), idx), ..self }
    }

    /// The cache after every entry that held `idx` was emptied.
    pub open spec fn invalidated(self, idx: u32) -> CacheView {
        CacheView {
            recent: Seq::new(
                self.recent.len(),
                |i: int|
                    if self.recent[i] == idx {
                        NO_SLOT
                    } else {
                        self.recent[i]
                    },
            ),
            ..self
        }
    }
}

/// The cache of one CPU.
pub struct PerCpuCache {
    recent_caps: Vec<u32>,
    hits: u64,
    misses: u64,
}

impl View for PerCpuCache {
    type V = CacheView;

    closed spec fn view(&self) -> CacheView {
        CacheView { recent: self.recent_caps@, hits: self.hits, misses: self.misses }
    }
}

impl PerCpuCache {
    pub fn new() -> (r: Self)
        ensures
            r@ == CacheView::empty(),
    {
        let mut recent: Vec<u32> = Vec::new();
        let mut i: usize = 0;
        while i < CACHE_SLOTS
            invariant
                i <= CACHE_SLOTS,
                recent@.len() == i,
                forall|j: int| 0 <= j < i ==> recent@[j] == NO_SLOT,
            decreases CACHE_SLOTS - i,
        {
            recent.push(NO_SLOT);
            i = i + 1;
        }
        assert(recent@ =~= CacheView::empty().recent);
        PerCpuCache { recent_caps: recent, hits: 0, misses: 0 }
    }

    /// The entry under which `pid` and `rid_hash` are filed.
    pub fn slot(&self, pid: u32, rid_hash: u64) -> (s: usize)
        ensures
            s == cache_slot(pid, rid_hash),
            s < CACHE_SLOTS,
    {
        let h = (pid as u64).wrapping_mul(HASH_MULTIPLIER) ^ rid_hash;
        assert(h & 15 < 16) by (bit_vector);
        (h & 15) as usize
    }

    /// Looks `pid` and `rid` up and holds what the cache says against the
    /// slot array: the result is an index only where that slot is a live
    /// capability of `pid` on `rid`. Counts a hit or a miss.
    pub fn lookup_validated(&mut self, slots: &Vec<CapabilityEntry>, pid: u32, rid: &ResourceId) -> (r:
        Option<u32>)
        requires
            old(self)@.recent.len() == CACHE_SLOTS,
        ensures
            r == old(self)@.hit(slots@, pid, *rid),
            final(self)@ == old(self)@.counted(slots@, pid, *rid),
    {
        let s = self.slot(pid, rid.fast_hash());
        let idx = self.recent_caps[s];
        if idx == NO_SLOT {
            self.misses = self.misses.wrapping_add(1);
            return None;
        }
        if (idx as usize) < slots.len() {
            if slots[idx as usize].live_for(pid, rid) {
                self.hits = self.hits.wrapping_add(1);
                return Some(idx);
            }
        }
        self.misses = self.misses.wrapping_add(1);
        None
    }

    /// Files `idx` for `pid` and `rid_hash`.
    pub fn insert(&mut self, pid: u32, rid_hash: u64, idx: u32)
        requires
            old(self)@.recent.len() == CACHE_SLOTS,
        ensures
            final(self)@ == old(self)@.inserted(pid, rid_hash, idx),
    {
        let s = self.slot(pid, rid_hash);
        self.recent_caps[s] = idx;
    }

    /// Empties every entry that holds `idx`.
    pub fn invalidate_idx(&mut self, idx: u32)
        ensures
            final(self)@ == old(self)@.invalidated(idx),
    {
        let n = self.recent_caps.len();
        let mut i: usize = 0;
        while i < n
            invariant
                i <= n,
                n == self.recent_caps@.len(),
                n == old(self).recent_caps@.len(),
                self.hits == old(self).hits,
                self.misses == old(self).misses,
                forall|j: int|
                    0 <= j < i ==> self.recent_caps@[j] == old(self)@.invalidated(idx).recent[j],
                forall|j: int| i <= j < n ==> self.recent_caps@[j] == old(self).recent_caps@[j],
            decreases n - i,
        {
            if self.recent_caps[i] == idx {
                self.recent_caps[i] = NO_SLOT;
            }
            i = i + 1;
        }
        assert(self@.recent =~= old(self)@.invalidated(idx).recent);
    }

    pub fn hits(&self) -> (h: u64)
        ensures
            h == self@.hits,
    {
        self.hits
    }

    pub fn misses(&self) -> (m: u64)
        ensures
            m == self@.misses,
    {
        self.misses
    }
}

} // verus!
