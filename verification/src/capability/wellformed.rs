//! What holds of the capability table between any two operations.

use vstd::prelude::*;
use super::cache::{CACHE_SLOTS, MAX_CPUS};
use super::index::{list_of, tidy};
use super::resource::{ScopeKind, ThreadId};
use super::slot::{SlotState, MAX_CAPABILITIES, MAX_CHILDREN_PER_CAP};
use super::state::TableState;

verus! {

impl TableState {
    /// The tables have their fixed sizes, no slot is half allocated, and
    /// every slot in use was bound before the next binding.
    pub open spec fn shape_ok(self) -> bool {
        &&& self.slots.len() == MAX_CAPABILITIES
        &&& self.birth.len() == MAX_CAPABILITIES
        &&& self.caches.len() == MAX_CPUS
        &&& forall|c: int| 0 <= c < MAX_CPUS ==> (#[trigger] self.caches[c]).recent.len() == CACHE_SLOTS
        &&& forall|i: int|
            0 <= i < MAX_CAPABILITIES ==> (#[trigger] self.slots[i]).state != SlotState::Allocating
        &&& forall|i: int|
            0 <= i < MAX_CAPABILITIES && (#[trigger] self.slots[i]).state != SlotState::Free
                ==> self.birth[i] < self.next_birth
    }

    /// The free stack holds exactly the free slots, each once, and the count
    /// of used slots is the number of all others.
    pub open spec fn free_ok(self) -> bool {
        &&& self.free_slots.no_duplicates()
        &&& forall|x: u32| #[trigger]
            self.free_slots.contains(x) <==> (x < MAX_CAPABILITIES && self.slots[x as int].state
                == SlotState::Free)
        &&& self.free_slots.len() + self.used_count == MAX_CAPABILITIES
    }

    /// The owner index holds, under each owner and resource, exactly the
    /// slots in use with that owner and resource.
    pub open spec fn owner_index_ok(self) -> bool {
        &&& tidy(self.quick_cache)
        &&& forall|k: (u32, u64, u8), x: u32| #[trigger]
            list_of(self.quick_cache, k).contains(x) <==> (self.in_use(x)
                && self.slots[x as int].owner_key() == k)
    }

    /// Every entry of a scope index is a slot in use with that scope, filed
    /// under its owner, its thread, or its thread and system call.
    pub open spec fn scope_index_ok(self) -> bool {
        &&& tidy(self.process_caps)
        &&& tidy(self.thread_caps)
        &&& tidy(self.syscall_caps)
        &&& forall|p: u32, x: u32| #[trigger]
            list_of(self.process_caps, p).contains(x) ==> self.in_use(x) && self.slots[x as int].scope
                == ScopeKind::Process && self.slots[x as int].owner_pid == p
        &&& forall|t: u64, x: u32| #[trigger]
            list_of(self.thread_caps, t).contains(x) ==> self.in_use(x) && self.slots[x as int].scope
                == ScopeKind::Thread(ThreadId(t))
        &&& forall|k: (u64, u64), x: u32| #[trigger]
            list_of(self.syscall_caps, k).contains(x) ==> self.in_use(x)
                && self.slots[x as int].scope == ScopeKind::Syscall(ThreadId(k.0), k.1)
    }

    /// Every slot in use with a scope other than `Permanent` is filed in the
    /// scope index of its scope.
    pub open spec fn scope_index_complete(self) -> bool {
        forall|x: u32|
            self.in_use(x) ==> match (#[trigger] self.slots[x as int]).scope {
                ScopeKind::Process => list_of(
                    self.process_caps,
                    self.slots[x as int].owner_pid,
                ).contains(x),
                ScopeKind::Thread(t) => list_of(self.thread_caps, t.0).contains(x),
                ScopeKind::Syscall(t, n) => list_of(self.syscall_caps, (t.0, n)).contains(x),
                ScopeKind::Permanent => true,
            }
    }

    /// Delegation consistency: `children_of` and `parent_of` agree on every
    /// edge, both ends of an edge are in use and name the same resource, the
    /// child was bound after the parent, no capability has more than 32
    /// children, and no live capability derives from one that is not live.
    pub open spec fn graph_ok(self) -> bool {
        &&& tidy(self.children_of)
        &&& forall|p: u32| #[trigger]
            self.children_of.contains_key(p) ==> self.children_of[p].len() <= MAX_CHILDREN_PER_CAP
        &&& forall|p: u32, c: u32| #[trigger]
            list_of(self.children_of, p).contains(c) <==> (self.parent_of.contains_key(c)
                && self.parent_of[c] == p)
        &&& forall|c: u32| #[trigger]
            self.parent_of.contains_key(c) ==> self.in_use(c) && self.in_use(self.parent_of[c])
                && self.birth[self.parent_of[c] as int] < self.birth[c as int]
        &&& forall|c: u32| #[trigger]
            self.parent_of.contains_key(c) ==> self.slots[c as int].resource_id
                == self.slots[self.parent_of[c] as int].resource_id && (self.slots[c as int].state
                == SlotState::Live ==> self.slots[self.parent_of[c] as int].state
                == SlotState::Live)
    }

    /// Whether nothing that derives directly from slot `idx` is live.
    pub open spec fn settled_below(self, idx: u32) -> bool {
        forall|c: u32| #[trigger]
            self.parent_of.contains_key(c) && self.parent_of[c] == idx ==> self.slots[c as int].state
                != SlotState::Live
    }

    /// Every slot in use has a borrow state for its resource, and every
    /// borrow state keeps its shared borrows distinct and within the cap.
    pub open spec fn borrows_ok(self) -> bool {
        &&& forall|x: u32|
            self.in_use(x) ==> self.resource_borrows.contains_key(
                (#[trigger] self.slots[x as int]).resource_id.key(),
            )
        &&& forall|k: (u64, u8)| #[trigger]
            self.resource_borrows.contains_key(k) ==> self.resource_borrows[k].wf()
    }

    /// The queue of a resource holds exactly the slots on that resource whose
    /// revocation is pending, and exists only while the resource is borrowed.
    pub open spec fn pending_ok(self) -> bool {
        &&& tidy(self.pending_revoke)
        &&& forall|k: (u64, u8), x: u32| #[trigger]
            list_of(self.pending_revoke, k).contains(x) <==> (x < MAX_CAPABILITIES
                && self.slots[x as int].state == SlotState::PendingRevoke
                && self.slots[x as int].resource_id.key() == k)
        &&& forall|k: (u64, u8)| #[trigger]
            self.pending_revoke.contains_key(k) ==> self.borrowed(k)
    }

    /// No duplication: a process has at most one live capability on a resource.
    pub open spec fn unique_ok(self) -> bool {
        forall|i: int, j: int|
            0 <= i < MAX_CAPABILITIES && 0 <= j < MAX_CAPABILITIES && i != j && (
            #[trigger] self.slots[i]).state == SlotState::Live && (#[trigger] self.slots[j]).state
                == SlotState::Live ==> self.slots[i].owner_key() != self.slots[j].owner_key()
    }

    /// Everything that well-formedness asks, but for the queues of pending
    /// revocations.
    pub open spec fn core_ok(self) -> bool {
        &&& self.shape_ok()
        &&& self.free_ok()
        &&& self.owner_index_ok()
        &&& self.scope_index_ok()
        &&& self.graph_ok()
        &&& self.borrows_ok()
        &&& self.unique_ok()
    }

    /// The table is well formed.
    pub open spec fn wf(self) -> bool {
        &&& self.core_ok()
        &&& self.pending_ok()
    }
}

} // verus!
