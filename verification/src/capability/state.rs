//! The capability table as a mathematical value, and every operation of the
//! table as a function on such values. The contracts of the executable
//! operations say that they compute these functions.

use vstd::prelude::*;
use super::borrow::BorrowView;
use super::cache::{CacheView, MAX_CPUS};
use super::caps;
use super::index::{list_of, pushed, removed};
use super::resource::{CapError, HandleView, ResourceId, ScopeKind, ThreadId};
use super::slot::{CapabilityEntry, SlotState, MAX_CAPABILITIES, MAX_CHILDREN_PER_CAP};

verus! {

/// The outcome of an operation that returns nothing on success.
pub type Outcome = Result<(), CapError>;

/// The capability table as plain values.
pub struct TableState {
    /// The slot array: the source of truth.
    pub slots: Seq<CapabilityEntry>,
    /// The free slots, as a stack whose top is the last entry.
    pub free_slots: Seq<u32>,
    /// Owner and resource to the slots with that owner and resource.
    pub quick_cache: Map<(u32, u64, u8), Seq<u32>>,
    /// Process to its slots of process scope.
    pub process_caps: Map<u32, Seq<u32>>,
    /// Thread to the slots of thread scope on it.
    pub thread_caps: Map<u64, Seq<u32>>,
    /// Thread and system call number to the slots of system call scope on them.
    pub syscall_caps: Map<(u64, u64), Seq<u32>>,
    /// A capability to those derived directly from it.
    pub children_of: Map<u32, Seq<u32>>,
    /// A derived capability to the one it was derived from.
    pub parent_of: Map<u32, u32>,
    /// Resource to the state of its borrows.
    pub resource_borrows: Map<(u64, u8), BorrowView>,
    /// Resource to the slots whose revocation waits for its borrows to end.
    pub pending_revoke: Map<(u64, u8), Seq<u32>>,
    /// The number of slots in use.
    pub used_count: u32,
    /// The validation cache of each CPU.
    pub caches: Seq<CacheView>,
    /// The next time stamp.
    pub timestamp: u64,
    /// The next creation sequence number.
    pub creation_seq: u64,
    /// For each slot, the number of the binding that filled it last. A
    /// capability is always bound after the one it derives from, which is why
    /// the delegation graph has no cycle.
    pub birth: Seq<nat>,
    /// The number of the next binding.
    pub next_birth: nat,
}

/// The CPU on which the table runs.
pub open spec fn this_cpu() -> int {
    0
}

impl TableState {
    /// The table after initialisation: every slot free and unused, the free
    /// stack with slot 0 on top, every index and cache empty.
    pub open spec fn initial() -> TableState {
        TableState {
            slots: Seq::new(MAX_CAPABILITIES as nat, |i: int| CapabilityEntry::spec_empty()),
            free_slots: Seq::new(
                MAX_CAPABILITIES as nat,
                |i: int| (MAX_CAPABILITIES - 1 - i) as u32,
            ),
            quick_cache: Map::empty(),
            process_caps: Map::empty(),
            thread_caps: Map::empty(),
            syscall_caps: Map::empty(),
            children_of: Map::empty(),
            parent_of: Map::empty(),
            resource_borrows: Map::empty(),
            pending_revoke: Map::empty(),
            used_count: 0,
            caches: Seq::new(MAX_CPUS as nat, |i: int| CacheView::empty()),
            timestamp: 0,
            creation_seq: 0,
            birth: Seq::new(MAX_CAPABILITIES as nat, |i: int| 0nat),
            next_birth: 0,
        }
    }

    /// Whether slot `idx` exists and is not free.
    pub open spec fn in_use(self, idx: u32) -> bool {
        idx < MAX_CAPABILITIES && self.slots[idx as int].state != SlotState::Free
    }

    /// Whether slot `idx` is a live capability of process `pid` on resource `rid`.
    pub open spec fn live_at(self, idx: u32, pid: u32, rid: ResourceId) -> bool {
        idx < self.slots.len() && self.slots[idx as int].is_live_for(pid, rid)
    }

    /// Whether slot `idx` is a live capability on resource `rid`.
    pub open spec fn live_on(self, idx: u32, rid: ResourceId) -> bool {
        idx < MAX_CAPABILITIES && self.slots[idx as int].state == SlotState::Live
            && self.slots[idx as int].resource_id == rid
    }

    /// Whether `h` passes validation: its slot exists, is live, and has the
    /// generation and the scope that `h` names.
    pub open spec fn valid_handle(self, h: HandleView) -> bool {
        &&& h.index < MAX_CAPABILITIES
        &&& self.slots[h.index as int].state == SlotState::Live
        &&& self.slots[h.index as int].generation == h.generation
        &&& self.slots[h.index as int].scope == h.scope
    }

    /// The handle that refers to slot `idx` as it is now.
    pub open spec fn handle_at(self, idx: u32) -> HandleView {
        self.slots[idx as int].handle(idx)
    }

    /// Whether process `pid` holds a live capability on `rid` with every right of `required`.
    pub open spec fn holds(self, pid: u32, rid: ResourceId, required: u32) -> bool {
        exists|i: int|
            0 <= i < self.slots.len() && (#[trigger] self.slots[i]).is_live_for(pid, rid)
                && caps::has_all(self.slots[i].capabilities, required)
    }

    /// Whether any borrow of the resource with key `rk` is outstanding.
    pub open spec fn borrowed(self, rk: (u64, u8)) -> bool {
        self.resource_borrows.contains_key(rk) && self.resource_borrows[rk].has_active()
    }

    /// The first entry of `list` that is a live capability of `pid` on `rid`.
    pub open spec fn find_live(self, list: Seq<u32>, pid: u32, rid: ResourceId) -> Option<u32>
        decreases list.len(),
    {
        if list.len() == 0 {
            None
        } else if self.live_at(list[0], pid, rid) {
            Some(list[0])
        } else {
            self.find_live(list.drop_first(), pid, rid)
        }
    }

    /// The live capability of `pid` on `rid` that the owner index knows.
    pub open spec fn lookup(self, pid: u32, rid: ResourceId) -> Option<u32> {
        self.find_live(list_of(self.quick_cache, (pid, rid.id, rid.typ.spec_code())), pid, rid)
    }

    /// The table after a cache lookup for `pid` and `rid` on this CPU.
    pub open spec fn cache_counted(self, pid: u32, rid: ResourceId) -> TableState {
        TableState {
            caches: self.caches.update(
                this_cpu(),
                self.caches[this_cpu()].counted(self.slots, pid, rid),
            ),
            ..self
        }
    }

    /// What the cache of this CPU answers for `pid` and `rid`.
    pub open spec fn cache_hit(self, pid: u32, rid: ResourceId) -> Option<u32> {
        self.caches[this_cpu()].hit(self.slots, pid, rid)
    }

    /// The table with `idx` filed in the scope index that `scope` asks for.
    pub open spec fn scope_filed(self, scope: ScopeKind, pid: u32, idx: u32) -> TableState {
        match scope {
            ScopeKind::Process => TableState {
                process_caps: pushed(self.process_caps, pid, idx),
                ..self
            },
            ScopeKind::Thread(t) => TableState {
                thread_caps: pushed(self.thread_caps, t.0, idx),
                ..self
            },
            ScopeKind::Syscall(t, n) => TableState {
                syscall_caps: pushed(self.syscall_caps, (t.0, n), idx),
                ..self
            },
            ScopeKind::Permanent => self,
        }
    }

    /// The table with `idx` taken out of the scope index that `scope` names.
    pub open spec fn scope_unfiled(self, scope: ScopeKind, pid: u32, idx: u32) -> TableState {
        match scope {
            ScopeKind::Process => TableState {
                process_caps: removed(self.process_caps, pid, idx),
                ..self
            },
            ScopeKind::Thread(t) => TableState {
                thread_caps: removed(self.thread_caps, t.0, idx),
                ..self
            },
            ScopeKind::Syscall(t, n) => TableState {
                syscall_caps: removed(self.syscall_caps, (t.0, n), idx),
                ..self
            },
            ScopeKind::Permanent => self,
        }
    }

    /// The table after a free slot was filled with a live capability of `pid`
    /// on `rid`: the top of the free stack leaves it, keeps its generation,
    /// and is filed in the owner index, the cache of this CPU and the scope
    /// index; the resource gets a borrow state if it has none.
    pub open spec fn filled(
        self,
        pid: u32,
        rid: ResourceId,
        caps_bits: u32,
        scope: ScopeKind,
        creation_order: u64,
    ) -> TableState {
        let idx = self.free_slots.last();
        let entry = CapabilityEntry {
            resource_id: rid,
            owner_pid: pid,
            capabilities: caps_bits,
            generation: self.slots[idx as int].generation,
            state: SlotState::Live,
            created_at: self.timestamp,
            creation_order,
            scope,
        };
        TableState {
            slots: self.slots.update(idx as int, entry),
            free_slots: self.free_slots.drop_last(),
            quick_cache: pushed(self.quick_cache, (pid, rid.id, rid.typ.spec_code()), idx),
            used_count: (self.used_count + 1) as u32,
            caches: self.caches.update(
                this_cpu(),
                self.caches[this_cpu()].inserted(pid, rid.spec_fast_hash(), idx),
            ),
            resource_borrows: if self.resource_borrows.contains_key(rid.key()) {
                self.resource_borrows
            } else {
                self.resource_borrows.insert(rid.key(), BorrowView::empty())
            },
            timestamp: self.timestamp.wrapping_add(1),
            birth: self.birth.update(idx as int, self.next_birth),
            next_birth: self.next_birth + 1,
            ..self
        }.scope_filed(scope, pid, idx)
    }

    /// The table with `child` recorded as derived from `parent`.
    pub open spec fn linked(self, parent: u32, child: u32) -> TableState {
        TableState {
            children_of: pushed(self.children_of, parent, child),
            parent_of: self.parent_of.insert(child, parent),
            ..self
        }
    }

    /// Whether the capability in slot `p` has as many children as it can have.
    pub open spec fn full_below(self, p: u32) -> bool {
        list_of(self.children_of, p).len() >= MAX_CHILDREN_PER_CAP
    }

    /// Binding: where `pid` already holds a live capability on `rid`, its
    /// handle and no change. Otherwise, with a `parent` that already has the
    /// most children it can have, `TooManyChildren` and no change; without a
    /// free slot, `TableFull` and no change. Otherwise a free slot is filled,
    /// and with a `parent` the new capability is recorded as derived from it.
    pub open spec fn bind(
        self,
        pid: u32,
        rid: ResourceId,
        caps_bits: u32,
        scope: ScopeKind,
        creation_order: u64,
        parent: Option<u32>,
    ) -> (TableState, Result<HandleView, CapError>) {
        if let Some(idx) = self.lookup(pid, rid) {
            (self, Ok(self.handle_at(idx)))
        } else if parent matches Some(p) && self.full_below(p) {
            (self, Err(CapError::TooManyChildren))
        } else if self.free_slots.len() == 0 {
            (self, Err(CapError::TableFull))
        } else {
            let idx = self.free_slots.last();
            let s = self.filled(pid, rid, caps_bits, scope, creation_order);
            match parent {
                Some(p) => (s.linked(p, idx), Ok(s.handle_at(idx))),
                None => (s, Ok(s.handle_at(idx))),
            }
        }
    }

    /// The table with the next creation sequence number taken.
    pub open spec fn sequenced(self) -> TableState {
        TableState { creation_seq: self.creation_seq.wrapping_add(1), ..self }
    }

    /// A read-only binding of process scope. A hit in the cache of this CPU
    /// answers with the capability it names; otherwise as [`Self::bind`].
    pub open spec fn bind_readonly(self, pid: u32, rid: ResourceId) -> (
        TableState,
        Result<HandleView, CapError>,
    ) {
        let s = self.sequenced().cache_counted(pid, rid);
        match self.cache_hit(pid, rid) {
            Some(idx) => (s, Ok(s.handle_at(idx))),
            None => s.bind(pid, rid, caps::READ, ScopeKind::Process, self.creation_seq, None),
        }
    }

    /// A binding with the rights `caps_bits` and the scope `scope`.
    pub open spec fn bind_scoped(
        self,
        pid: u32,
        rid: ResourceId,
        caps_bits: u32,
        scope: ScopeKind,
    ) -> (TableState, Result<HandleView, CapError>) {
        self.sequenced().bind(pid, rid, caps_bits, scope, self.creation_seq, None)
    }

    /// An exclusive binding of process scope, with `READ | WRITE | MAP`.
    pub open spec fn bind_exclusive(self, pid: u32, rid: ResourceId) -> (
        TableState,
        Result<HandleView, CapError>,
    ) {
        self.bind_scoped(pid, rid, caps::RW_MAP, ScopeKind::Process)
    }

    /// The live capability of `pid` on `rid` and its rights, where it has the
    /// right `right`; `ResourceNotFound` without such a capability,
    /// `PermissionDenied` without the right.
    pub open spec fn source_of(self, pid: u32, rid: ResourceId, right: u32) -> Result<
        (u32, u32),
        CapError,
    > {
        match self.lookup(pid, rid) {
            None => Err(CapError::ResourceNotFound),
            Some(idx) => if self.slots[idx as int].capabilities & right == 0 {
                Err(CapError::PermissionDenied)
            } else {
                Ok((idx, self.slots[idx as int].capabilities))
            },
        }
    }

    /// A grant of the rights `granted` from `grantor` to `grantee` on `rid`:
    /// the grantor needs a live capability with `GRANT` and with every right
    /// of `granted`, all of which can be passed on. The grantee's capability
    /// is bound as derived from the grantor's.
    pub open spec fn grant(self, grantor: u32, grantee: u32, rid: ResourceId, granted: u32) -> (
        TableState,
        Result<HandleView, CapError>,
    ) {
        match self.source_of(grantor, rid, caps::GRANT) {
            Err(e) => (self, Err(e)),
            Ok((parent, parent_caps)) => if !caps::has_all(
                parent_caps & caps::TRANSFERABLE_MASK,
                granted,
            ) {
                (self, Err(CapError::PermissionDenied))
            } else {
                self.sequenced().bind(
                    grantee,
                    rid,
                    granted,
                    ScopeKind::Process,
                    self.creation_seq,
                    Some(parent),
                )
            },
        }
    }

    /// The table with the delegation edges at `idx` cut: the edge to its
    /// parent, and the edges from its children, which become roots.
    pub open spec fn unlinked(self, idx: u32) -> TableState {
        let below = if self.parent_of.contains_key(idx) {
            removed(self.children_of, self.parent_of[idx], idx)
        } else {
            self.children_of
        };
        let orphans = list_of(below, idx);
        TableState {
            children_of: below.remove(idx),
            parent_of: Map::new(
                |c: u32| self.parent_of.contains_key(c) && c != idx && !orphans.contains(c),
                |c: u32| self.parent_of[c],
            ),
            ..self
        }
    }

    /// The table with slot `idx` released: its generation grows by one,
    /// wrapping, it goes on top of the free stack, and no cache names it any more.
    pub open spec fn released(self, idx: u32) -> TableState {
        TableState {
            slots: self.slots.update(
                idx as int,
                CapabilityEntry {
                    generation: self.slots[idx as int].generation.wrapping_add(1),
                    state: SlotState::Free,
                    ..self.slots[idx as int]
                },
            ),
            used_count: self.used_count.saturating_sub(1),
            free_slots: self.free_slots.push(idx),
            caches: Seq::new(self.caches.len(), |c: int| self.caches[c].invalidated(idx)),
            ..self
        }
    }

    /// The table with slot `idx` taken out of every index and released.
    pub open spec fn detached(self, idx: u32) -> TableState {
        let e = self.slots[idx as int];
        TableState { quick_cache: removed(self.quick_cache, e.owner_key(), idx), ..self }.scope_unfiled(
            e.scope,
            e.owner_pid,
            idx,
        ).unlinked(idx).released(idx)
    }

    /// The table with the revocation of slot `idx` queued behind the borrows
    /// of its resource. A slot that is queued already stays as it is.
    pub open spec fn queued(self, idx: u32) -> TableState {
        let e = self.slots[idx as int];
        if e.state == SlotState::PendingRevoke {
            self
        } else {
            TableState {
                pending_revoke: pushed(self.pending_revoke, e.resource_id.key(), idx),
                slots: self.slots.update(
                    idx as int,
                    CapabilityEntry { state: SlotState::PendingRevoke, ..e },
                ),
                ..self
            }
        }
    }

    /// Revocation of the one slot `idx`. While its resource is borrowed, the
    /// strict mode refuses with `BorrowConflict` and the deferred mode queues
    /// the slot. Otherwise the slot is detached and released.
    pub open spec fn revoke_one(self, idx: u32, strict: bool) -> (TableState, Outcome) {
        if self.borrowed(self.slots[idx as int].resource_id.key()) {
            if strict {
                (self, Err(CapError::BorrowConflict))
            } else {
                (self.queued(idx), Ok(()))
            }
        } else {
            (self.detached(idx), Ok(()))
        }
    }

    /// How far the binding of slot `idx` lies behind the next binding.
    pub open spec fn age(self, idx: u32) -> nat {
        if idx < self.birth.len() && self.birth[idx as int] < self.next_birth {
            (self.next_birth - self.birth[idx as int]) as nat
        } else {
            0
        }
    }

    /// Revocation of the subtree under slot `idx`, children first: each child
    /// in the order of derivation, with all that derives from it, then `idx`
    /// itself. The first refusal ends the walk and is the result; what was
    /// revoked before it stays revoked. A slot that is free or out of range
    /// is passed over.
    pub open spec fn revoke_tree(self, idx: u32, strict: bool) -> (TableState, Outcome)
        decreases self.age(idx) + 1, 0nat,
    {
        if idx >= MAX_CAPABILITIES || self.slots[idx as int].state == SlotState::Free {
            (self, Ok(()))
        } else {
            let (s, r) = self.revoke_each(list_of(self.children_of, idx), self.age(idx), strict);
            if r is Err {
                (s, r)
            } else {
                s.revoke_one(idx, strict)
            }
        }
    }

    /// Revocation of the subtrees under the slots of `children`, in order,
    /// up to the first refusal. Every child is younger than `limit`, the age
    /// of the capability they derive from.
    pub open spec fn revoke_each(self, children: Seq<u32>, limit: nat, strict: bool) -> (
        TableState,
        Outcome,
    )
        decreases limit, children.len(),
    {
        if children.len() == 0 {
            (self, Ok(()))
        } else if self.age(children[0]) >= limit {
            self.revoke_each(children.drop_first(), limit, strict)
        } else {
            let (s, r) = self.revoke_tree(children[0], strict);
            if r is Err {
                (s, r)
            } else {
                s.revoke_each(children.drop_first(), limit, strict)
            }
        }
    }

    /// Revocation through a handle: `InvalidHandle` where `h` does not pass
    /// validation, else the revocation of the subtree under its slot.
    pub open spec fn revoke(self, h: HandleView, strict: bool) -> (TableState, Outcome) {
        if !self.valid_handle(h) {
            (self, Err(CapError::InvalidHandle))
        } else {
            self.revoke_tree(h.index, strict)
        }
    }

    /// Strict revocation of each slot of `list` in order; a refusal leaves
    /// that slot as it is and the walk goes on.
    pub open spec fn complete_each(self, list: Seq<u32>) -> TableState
        decreases list.len(),
    {
        if list.len() == 0 {
            self
        } else {
            self.revoke_one(list[0], true).0.complete_each(list.drop_first())
        }
    }

    /// Completion of the queued revocations of `rid`: once no borrow of the
    /// resource is outstanding, every queued slot is revoked and the queue is
    /// gone.
    pub open spec fn completed(self, rid: ResourceId) -> TableState {
        let rk = rid.key();
        if !self.pending_revoke.contains_key(rk) || self.borrowed(rk) {
            self
        } else {
            TableState { pending_revoke: self.pending_revoke.remove(rk), ..self }.complete_each(
                self.pending_revoke[rk],
            )
        }
    }

    /// The table with the borrow state of the resource with key `rk` replaced.
    pub open spec fn with_borrows(self, rk: (u64, u8), b: BorrowView) -> TableState {
        TableState { resource_borrows: self.resource_borrows.insert(rk, b), ..self }
    }

    /// What every borrow operation checks first: the handle, then that the
    /// scope of the borrow is contained in the scope of the capability, then
    /// that the resource has a borrow state.
    pub open spec fn borrow_gate(self, h: HandleView, borrow_scope: Option<ScopeKind>) -> Outcome {
        if !self.valid_handle(h) {
            Err(CapError::InvalidHandle)
        } else if borrow_scope matches Some(b) && !b.contained_in(self.slots[h.index as int].scope) {
            Err(CapError::PermissionDenied)
        } else if !self.resource_borrows.contains_key(
            self.slots[h.index as int].resource_id.key(),
        ) {
            Err(CapError::ResourceNotFound)
        } else {
            Ok(())
        }
    }

    /// A shared borrow through `h` by thread `tid` with scope `borrow_scope`.
    pub open spec fn borrow_shared(self, h: HandleView, tid: ThreadId, borrow_scope: ScopeKind) -> (
        TableState,
        Outcome,
    ) {
        match self.borrow_gate(h, Some(borrow_scope)) {
            Err(e) => (self, Err(e)),
            Ok(_) => {
                let e = self.slots[h.index as int];
                let rk = e.resource_id.key();
                let (b, r) = self.resource_borrows[rk].try_shared(h.index, tid, e.capabilities);
                (self.with_borrows(rk, b), r)
            },
        }
    }

    /// An exclusive borrow through `h` by thread `tid` with scope `borrow_scope`.
    pub open spec fn borrow_exclusive(self, h: HandleView, tid: ThreadId, borrow_scope: ScopeKind)
        -> (TableState, Outcome) {
        match self.borrow_gate(h, Some(borrow_scope)) {
            Err(e) => (self, Err(e)),
            Ok(_) => {
                let e = self.slots[h.index as int];
                let rk = e.resource_id.key();
                let (b, r) = self.resource_borrows[rk].try_exclusive(
                    h.index,
                    tid,
                    borrow_scope,
                    e.capabilities,
                    e.resource_id.typ,
                );
                (self.with_borrows(rk, b), r)
            },
        }
    }

    /// The end of the shared borrow through `h` by thread `tid`, and then the
    /// completion of what waited for the borrows of the resource.
    pub open spec fn release_shared(self, h: HandleView, tid: ThreadId) -> (TableState, Outcome) {
        match self.borrow_gate(h, None) {
            Err(e) => (self, Err(e)),
            Ok(_) => {
                let rid = self.slots[h.index as int].resource_id;
                let (b, r) = self.resource_borrows[rid.key()].release_shared(h.index, tid);
                if r is Err {
                    (self, r)
                } else {
                    (self.with_borrows(rid.key(), b).completed(rid), Ok(()))
                }
            },
        }
    }

    /// The end of the exclusive borrow through `h` by thread `tid`, and then
    /// the completion of what waited for the borrows of the resource.
    pub open spec fn release_exclusive(self, h: HandleView, tid: ThreadId) -> (
        TableState,
        Outcome,
    ) {
        match self.borrow_gate(h, None) {
            Err(e) => (self, Err(e)),
            Ok(_) => {
                let rid = self.slots[h.index as int].resource_id;
                let (b, r) = self.resource_borrows[rid.key()].release_exclusive(h.index, tid);
                if r is Err {
                    (self, r)
                } else {
                    (self.with_borrows(rid.key(), b).completed(rid), Ok(()))
                }
            },
        }
    }

    /// One more freeze of the exclusive borrow through `h` by thread `tid`.
    pub open spec fn freeze(self, h: HandleView, tid: ThreadId) -> (TableState, Outcome) {
        match self.borrow_gate(h, None) {
            Err(e) => (self, Err(e)),
            Ok(_) => {
                let rk = self.slots[h.index as int].resource_id.key();
                let (b, r) = self.resource_borrows[rk].freeze(h.index, tid);
                (self.with_borrows(rk, b), r)
            },
        }
    }

    /// One freeze less of the exclusive borrow through `h` by thread `tid`.
    pub open spec fn unfreeze(self, h: HandleView, tid: ThreadId) -> (TableState, Outcome) {
        match self.borrow_gate(h, None) {
            Err(e) => (self, Err(e)),
            Ok(_) => {
                let rk = self.slots[h.index as int].resource_id.key();
                let (b, r) = self.resource_borrows[rk].unfreeze(h.index, tid);
                (self.with_borrows(rk, b), r)
            },
        }
    }

    /// Whether the cache of this CPU confirms that `pid` holds a live
    /// capability on `rid` with every right of `required`.
    pub open spec fn verify_fast(self, pid: u32, rid: ResourceId, required: u32) -> bool {
        self.cache_hit(pid, rid) matches Some(idx) && caps::has_all(
            self.slots[idx as int].capabilities,
            required,
        )
    }

    /// A transfer of `rid` from `from` to `to`: the source needs a live
    /// capability with `TRANSFER`. Its subtree is revoked strictly; then `to`
    /// is bound with the rights of the source that can be passed on, and no
    /// others.
    pub open spec fn transfer(self, from: u32, to: u32, rid: ResourceId) -> (TableState, Outcome) {
        match self.source_of(from, rid, caps::TRANSFER) {
            Err(e) => (self, Err(e)),
            Ok((idx, source_caps)) => {
                let (s, r) = self.revoke_tree(idx, true);
                if r is Err {
                    (s, r)
                } else {
                    let (t, b) = s.sequenced().bind(
                        to,
                        rid,
                        source_caps & caps::TRANSFERABLE_MASK,
                        ScopeKind::Process,
                        s.creation_seq,
                        None,
                    );
                    match b {
                        Ok(_) => (t, Ok(())),
                        Err(e) => (t, Err(e)),
                    }
                }
            },
        }
    }
}

} // verus!
