//! The capability table: a slot array that is the source of truth, the
//! write-side indices over it, and the per-CPU validation caches.

use vstd::prelude::*;
use std::collections::BTreeMap;
use super::borrow::{BorrowView, ResourceBorrowState};
use super::cache::{CacheView, PerCpuCache, MAX_CPUS};
use super::index::lists;
use super::resource::{CapError, CapabilityHandle};
use super::slot::{CapabilityEntry, SlotState, MAX_CAPABILITIES};
use super::state::TableState;

verus! {

/// The borrow states as a map of plain values.
pub open spec fn borrow_views(m: Map<(u64, u8), ResourceBorrowState>) -> Map<(u64, u8), BorrowView> {
    Map::new(|k: (u64, u8)| m.contains_key(k), |k: (u64, u8)| m[k]@)
}

/// The caches as a sequence of plain values.
pub open spec fn cache_views(v: Seq<PerCpuCache>) -> Seq<CacheView> {
    Seq::new(v.len(), |i: int| v[i]@)
}

/// The write side of the table: the free stack, the indices, the delegation
/// graph, the borrow states and the queue of pending revocations.
pub struct WriteData {
    pub(crate) free_slots: Vec<u32>,
    pub(crate) quick_cache: BTreeMap<(u32, u64, u8), Vec<u32>>,
    pub(crate) process_caps: BTreeMap<u32, Vec<u32>>,
    pub(crate) thread_caps: BTreeMap<u64, Vec<u32>>,
    pub(crate) syscall_caps: BTreeMap<(u64, u64), Vec<u32>>,
    pub(crate) children_of: BTreeMap<u32, Vec<u32>>,
    pub(crate) parent_of: BTreeMap<u32, u32>,
    pub(crate) resource_borrows: BTreeMap<(u64, u8), ResourceBorrowState>,
    pub(crate) pending_revoke: BTreeMap<(u64, u8), Vec<u32>>,
    pub(crate) used_count: u32,
}

/// The capability table.
pub struct CapabilityTable {
    pub(crate) ro: Vec<CapabilityEntry>,
    pub(crate) wr: WriteData,
    pub(crate) per_cpu: Vec<PerCpuCache>,
    pub(crate) global_timestamp: u64,
    pub(crate) creation_seq: u64,
    pub(crate) birth: Ghost<Seq<nat>>,
    pub(crate) next_birth: Ghost<nat>,
}

impl View for CapabilityTable {
    type V = TableState;

    open(crate) spec fn view(&self) -> TableState {
        TableState {
            slots: self.ro@,
            free_slots: self.wr.free_slots@,
            quick_cache: lists(self.wr.quick_cache@),
            process_caps: lists(self.wr.process_caps@),
            thread_caps: lists(self.wr.thread_caps@),
            syscall_caps: lists(self.wr.syscall_caps@),
            children_of: lists(self.wr.children_of@),
            parent_of: self.wr.parent_of@,
            resource_borrows: borrow_views(self.wr.resource_borrows@),
            pending_revoke: lists(self.wr.pending_revoke@),
            used_count: self.wr.used_count,
            caches: cache_views(self.per_cpu@),
            timestamp: self.global_timestamp,
            creation_seq: self.creation_seq,
            birth: self.birth@,
            next_birth: self.next_birth@,
        }
    }
}

/// The usage of the table and of its caches.
#[derive(Debug, Clone, Copy)]
pub struct CapabilityStats {
    pub total_slots: usize,
    pub used_slots: usize,
    pub free_slots: usize,
    pub cache_hits: u64,
    pub cache_misses: u64,
}

impl CapabilityTable {
    /// The table is well formed, see [`TableState::wf`].
    pub open spec fn wf(&self) -> bool {
        self@.wf()
    }

    /// A table in its initial state.
    pub fn new() -> (t: Self)
        ensures
            t@ == TableState::initial(),
            t.wf(),
    {
        let mut t = CapabilityTable {
            ro: Vec::new(),
            wr: WriteData {
                free_slots: Vec::new(),
                quick_cache: BTreeMap::new(),
                process_caps: BTreeMap::new(),
                thread_caps: BTreeMap::new(),
                syscall_caps: BTreeMap::new(),
                children_of: BTreeMap::new(),
                parent_of: BTreeMap::new(),
                resource_borrows: BTreeMap::new(),
                pending_revoke: BTreeMap::new(),
                used_count: 0,
            },
            per_cpu: Vec::new(),
            global_timestamp: 0,
            creation_seq: 0,
            birth: Ghost(Seq::empty()),
            next_birth: Ghost(0),
        };
        init(&mut t);
        t
    }
}

/// The CPU on which the table runs.
pub fn cpu_id() -> (c: usize)
    ensures
        c == 0,
{
    0
}

/// The initial state is well formed.
pub proof fn lemma_initial_wf()
    ensures
        TableState::initial().wf(),
{
    let s = TableState::initial();
    assert(s.free_slots.no_duplicates());
    assert forall|x: u32| #[trigger]
        s.free_slots.contains(x) <==> (x < MAX_CAPABILITIES && s.slots[x as int].state
            == SlotState::Free) by {
        if x < MAX_CAPABILITIES {
            assert(s.free_slots[MAX_CAPABILITIES - 1 - x] == x);
        }
    }
    assert(s.shape_ok());
    assert(s.free_ok());
    assert(s.owner_index_ok());
    assert(s.scope_index_ok());
    assert(s.graph_ok());
    assert(s.borrows_ok());
    assert(s.pending_ok());
    assert(s.unique_ok());
}

/// Puts the table into its initial state: every slot free, every index,
/// queue and cache empty, the counters at zero.
pub fn init(table: &mut CapabilityTable)
    ensures
        final(table)@ == TableState::initial(),
        final(table).wf(),
{
    let mut free_slots: Vec<u32> = Vec::new();
    let mut ro: Vec<CapabilityEntry> = Vec::new();
    let mut i: usize = 0;
    while i < MAX_CAPABILITIES
        invariant
            i <= MAX_CAPABILITIES,
            free_slots@.len() == i,
            ro@.len() == i,
            forall|j: int| 0 <= j < i ==> free_slots@[j] == (MAX_CAPABILITIES - 1 - j) as u32,
            forall|j: int| 0 <= j < i ==> ro@[j] == CapabilityEntry::spec_empty(),
        decreases MAX_CAPABILITIES - i,
    {
        free_slots.push((MAX_CAPABILITIES - 1 - i) as u32);
        ro.push(CapabilityEntry::empty());
        i = i + 1;
    }
    let mut per_cpu: Vec<PerCpuCache> = Vec::new();
    let mut c: usize = 0;
    while c < MAX_CPUS
        invariant
            c <= MAX_CPUS,
            per_cpu@.len() == c,
            forall|j: int| 0 <= j < c ==> per_cpu@[j]@ == CacheView::empty(),
        decreases MAX_CPUS - c,
    {
        per_cpu.push(PerCpuCache::new());
        c = c + 1;
    }
    table.ro = ro;
    table.wr.free_slots = free_slots;
    table.wr.quick_cache = BTreeMap::new();
    table.wr.process_caps = BTreeMap::new();
    table.wr.thread_caps = BTreeMap::new();
    table.wr.syscall_caps = BTreeMap::new();
    table.wr.children_of = BTreeMap::new();
    table.wr.parent_of = BTreeMap::new();
    table.wr.resource_borrows = BTreeMap::new();
    table.wr.pending_revoke = BTreeMap::new();
    table.wr.used_count = 0;
    table.per_cpu = per_cpu;
    table.global_timestamp = 0;
    table.creation_seq = 0;
    table.birth = Ghost(Seq::new(MAX_CAPABILITIES as nat, |i: int| 0nat));
    table.next_birth = Ghost(0);
    proof {
        let s = TableState::initial();
        let t = table@;
        assert(t.slots =~= s.slots);
        assert(t.free_slots =~= s.free_slots);
        assert(t.quick_cache =~= s.quick_cache);
        assert(t.process_caps =~= s.process_caps);
        assert(t.thread_caps =~= s.thread_caps);
        assert(t.syscall_caps =~= s.syscall_caps);
        assert(t.children_of =~= s.children_of);
        assert(t.parent_of =~= s.parent_of);
        assert(t.resource_borrows =~= s.resource_borrows);
        assert(t.pending_revoke =~= s.pending_revoke);
        assert(t.caches =~= s.caches);
        lemma_initial_wf();
    }
}

/// Validation of a handle: `InvalidHandle` unless its slot exists, is live,
/// and has the generation and the scope that the handle names.
pub fn fast_validate<A, S>(table: &CapabilityTable, h: &CapabilityHandle<A, S>) -> (r: Result<
    (),
    CapError,
>)
    requires
        table.wf(),
    ensures
        r is Ok <==> table@.valid_handle(h@),
        r is Err ==> r == Err::<(), CapError>(CapError::InvalidHandle),
{
    let idx = h.index() as usize;
    if idx >= MAX_CAPABILITIES {
        return Err(CapError::InvalidHandle);
    }
    let e = &table.ro[idx];
    if !e.is_live() {
        return Err(CapError::InvalidHandle);
    }
    if e.generation != h.generation() {
        return Err(CapError::InvalidHandle);
    }
    if !e.scope.same(&h.scope()) {
        return Err(CapError::InvalidHandle);
    }
    Ok(())
}

/// The usage of the table: the slots in use and free, and the hits and
/// misses of all caches, summed modulo 2^64.
pub fn get_stats(table: &CapabilityTable) -> (st: CapabilityStats)
    requires
        table.wf(),
    ensures
        st.total_slots == MAX_CAPABILITIES,
        st.used_slots == table@.used_count,
        st.free_slots == MAX_CAPABILITIES - table@.used_count,
        st.free_slots == table@.free_slots.len(),
        st.cache_hits == sum_hits(table@.caches, MAX_CPUS as int),
        st.cache_misses == sum_misses(table@.caches, MAX_CPUS as int),
{
    let mut hits: u64 = 0;
    let mut misses: u64 = 0;
    let mut c: usize = 0;
    while c < MAX_CPUS
        invariant
            c <= MAX_CPUS,
            table.per_cpu@.len() == MAX_CPUS,
            hits == sum_hits(table@.caches, c as int),
            misses == sum_misses(table@.caches, c as int),
        decreases MAX_CPUS - c,
    {
        hits = hits.wrapping_add(table.per_cpu[c].hits());
        misses = misses.wrapping_add(table.per_cpu[c].misses());
        c = c + 1;
    }
    CapabilityStats {
        total_slots: MAX_CAPABILITIES,
        used_slots: table.wr.used_count as usize,
        free_slots: MAX_CAPABILITIES - table.wr.used_count as usize,
        cache_hits: hits,
        cache_misses: misses,
    }
}

/// The hits of the first `n` caches, summed modulo 2^64.
pub open spec fn sum_hits(caches: Seq<CacheView>, n: int) -> u64
    decreases n,
{
    if n <= 0 {
        0
    } else {
        sum_hits(caches, n - 1).wrapping_add(caches[n - 1].hits)
    }
}

/// The misses of the first `n` caches, summed modulo 2^64.
pub open spec fn sum_misses(caches: Seq<CacheView>, n: int) -> u64
    decreases n,
{
    if n <= 0 {
        0
    } else {
        sum_misses(caches, n - 1).wrapping_add(caches[n - 1].misses)
    }
}

} // verus!
