//! Capabilities: identifiers, handles, the borrow state machine and the table.

pub mod access;
pub mod bind;
pub mod bind_proofs;
pub mod borrow;
pub mod cache;
pub mod caps;
pub mod detach_proofs;
pub mod index;
pub mod keyed;
pub mod laws;
pub mod lend;
pub mod lend_proofs;
pub mod lifetime;
pub mod resource;
pub mod revoke;
pub mod revoke_proofs;
pub mod scope;
pub mod scope_laws;
pub mod slot;
pub mod state;
pub mod subtree;
pub mod table;
pub mod wellformed;

use vstd::prelude::*;

pub use bind::{
    bind_resource_exclusive, bind_resource_readonly, bind_resource_scoped, grant_exclusive,
    grant_readonly, transfer_resource, verify_capability, verify_capability_fast,
};
pub use lend::{
    borrow_exclusive, borrow_shared_from_frozen, borrow_shared_ro, freeze_exclusive,
    release_exclusive, release_shared, release_shared_frozen, unfreeze_exclusive,
};
pub use resource::{CapError, CapabilityHandle, ResourceId, ResourceType, ScopeKind, ThreadId};
pub use revoke::{revoke_capability, revoke_capability_deferred};
pub use scope::{on_process_exit, on_syscall_return, on_thread_exit};
pub use slot::{CapabilityEntry, SlotState, MAX_CAPABILITIES};
pub use table::{get_stats, CapabilityStats, CapabilityTable};

verus! {

/// Identifier of a process.
#[derive(Debug, Clone, Copy, PartialEq, Eq, Structural)]
pub struct ProcessId(pub u32);

impl ProcessId {
    pub fn new(id: u32) -> (r: Self)
        ensures
            r.0 == id,
    {
        ProcessId(id)
    }

    pub fn as_u32(self) -> (r: u32)
        ensures
            r == self.0,
    {
        self.0
    }
}

/// The counter from which process identifiers are handed out.
pub struct PidAllocator {
    next_pid: u32,
}

impl PidAllocator {
    /// The identifier that the next call of [`allocate_pid`] returns.
    pub closed spec fn next(&self) -> u32 {
        self.next_pid
    }

    /// A counter whose first identifier is 1.
    pub fn new() -> (r: Self)
        ensures
            r.next() == 1,
    {
        PidAllocator { next_pid: 1 }
    }
}

/// Resets the counter: the next identifier is 1 again.
pub fn init(pids: &mut PidAllocator)
    ensures
        final(pids).next() == 1,
{
    pids.next_pid = 1;
}

/// Hands out the next identifier. Identifiers grow by one per call, starting
/// at 1, and wrap to 0 after `u32::MAX`.
pub fn allocate_pid(pids: &mut PidAllocator) -> (pid: ProcessId)
    ensures
        pid.0 == old(pids).next(),
        final(pids).next() == old(pids).next().wrapping_add(1),
{
    let pid = pids.next_pid;
    pids.next_pid = pid.wrapping_add(1);
    ProcessId(pid)
}

} // verus!
