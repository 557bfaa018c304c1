//! The slots of the capability table.

use vstd::prelude::*;
use super::resource::{HandleView, ResourceId, ResourceType, ScopeKind};

verus! {

/// The number of slots of the capability table.
pub const MAX_CAPABILITIES: usize = 8192;

/// The most capabilities that can be derived directly from one capability.
pub const MAX_CHILDREN_PER_CAP: usize = 32;

/// Where a slot stands in its life: `Free → Allocating → Live → (PendingRevoke →) Free`.
#[derive(Debug, Clone, Copy, PartialEq, Eq, Structural)]
pub enum SlotState {
    Free,
    Allocating,
    Live,
    PendingRevoke,
}

/// One slot of the capability table.
#[derive(Debug, Clone, Copy)]
pub struct CapabilityEntry {
    pub resource_id: ResourceId,
    pub owner_pid: u32,
    pub capabilities: u32,
    pub generation: u32,
    pub state: SlotState,
    pub created_at: u64,
    pub creation_order: u64,
    pub scope: ScopeKind,
}

impl CapabilityEntry {
    /// The content of a slot that was never used.
    pub open spec fn spec_empty() -> CapabilityEntry {
        CapabilityEntry {
            resource_id: ResourceId { id: 0, typ: ResourceType::Custom },
            owner_pid: 0,
            capabilities: 0,
            generation: 0,
            state: SlotState::Free,
            created_at: 0,
            creation_order: 0,
            scope: ScopeKind::Permanent,
        }
    }

    #[verifier::when_used_as_spec(spec_empty)]
    pub fn empty() -> (e: Self)
        ensures
            e == Self::spec_empty(),
    {
        CapabilityEntry {
            resource_id: ResourceId { id: 0, typ: ResourceType::Custom },
            owner_pid: 0,
            capabilities: 0,
            generation: 0,
            state: SlotState::Free,
            created_at: 0,
            creation_order: 0,
            scope: ScopeKind::Permanent,
        }
    }

    /// The key of the owner index for this slot: owner, resource number, kind code.
    pub open spec fn owner_key(self) -> (u32, u64, u8) {
        (self.owner_pid, self.resource_id.id, self.resource_id.typ.spec_code())
    }

    /// Whether the slot is a live capability of process `pid` on resource `rid`.
    pub open spec fn is_live_for(self, pid: u32, rid: ResourceId) -> bool {
        self.state == SlotState::Live && self.owner_pid == pid && self.resource_id == rid
    }

    /// The handle that refers to this slot, at index `index`, as it is now.
    pub open spec fn handle(self, index: u32) -> HandleView {
        HandleView {
            index,
            generation: self.generation,
            scope: self.scope,
            creation_order: self.creation_order,
        }
    }

    pub fn is_free(&self) -> (r: bool)
        ensures
            r == (self.state == SlotState::Free),
    {
        match self.state {
            SlotState::Free => true,
            _ => false,
        }
    }

    pub fn is_live(&self) -> (r: bool)
        ensures
            r == (self.state == SlotState::Live),
    {
        match self.state {
            SlotState::Live => true,
            _ => false,
        }
    }

    pub fn is_pending(&self) -> (r: bool)
        ensures
            r == (self.state == SlotState::PendingRevoke),
    {
        match self.state {
            SlotState::PendingRevoke => true,
            _ => false,
        }
    }

    /// Whether the slot is a live capability of process `pid` on resource `rid`.
    pub fn live_for(&self, pid: u32, rid: &ResourceId) -> (r: bool)
        ensures
            r == self.is_live_for(pid, *rid),
    {
        self.is_live() && self.owner_pid == pid && self.resource_id.id == rid.id
            && self.resource_id.typ.code() == rid.typ.code()
    }
}

} // verus!
