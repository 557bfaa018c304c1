use exokernel::capability::borrow::ResourceBorrowState;
use exokernel::capability::cache::PerCpuCache;
use exokernel::capability::caps;
use exokernel::capability::lifetime::Scoped;
use exokernel::capability::{
    CapError, CapabilityEntry, ResourceId, ResourceType, ScopeKind, SlotState, ThreadId,
};

#[test]
fn rights_are_bits() {
    assert_eq!(caps::READ, 1);
    assert_eq!(caps::WRITE, 2);
    assert_eq!(caps::EXECUTE, 4);
    assert_eq!(caps::MAP, 8);
    assert_eq!(caps::DELETE, 16);
    assert_eq!(caps::TRANSFER, 32);
    assert_eq!(caps::GRANT, 64);
    assert_eq!(caps::REVOKE, 128);
    assert_eq!(caps::ALL, 0xFF);
    assert_eq!(caps::RW, caps::READ | caps::WRITE);
    assert_eq!(caps::RO, caps::READ);
    assert_eq!(
        caps::TRANSFERABLE_MASK,
        caps::READ | caps::WRITE | caps::EXECUTE | caps::MAP | caps::DELETE
    );
    assert_eq!(caps::WRITE_MAP, caps::WRITE | caps::MAP);
    assert_eq!(caps::RW_MAP, caps::RW | caps::MAP);
    assert!(caps::holds(caps::RW_MAP, caps::WRITE_MAP));
    assert!(!caps::holds(caps::RW, caps::WRITE_MAP));
    assert!(caps::holds(0, 0));
}

#[test]
fn resource_ids() {
    let r = ResourceId::new(ResourceType::Device, 9);
    assert_eq!(r.resource_type(), ResourceType::Device);
    assert_eq!(r.id(), 9);
    assert_eq!(
        ResourceId::from_page_addr(0x4000),
        ResourceId::new(ResourceType::PhysicalPage, 0x4000)
    );
    assert_eq!(ResourceId::from_interrupt(14), ResourceId::new(ResourceType::Interrupt, 14));
    assert_eq!(ResourceId::from_io_port(0x3f8), ResourceId::new(ResourceType::IoPort, 0x3f8));
    assert!(ResourceId::new(ResourceType::IoPort, 1) < ResourceId::new(ResourceType::Device, 2));
    assert!(
        ResourceId::new(ResourceType::PhysicalPage, 1) < ResourceId::new(ResourceType::Device, 1)
    );
}

#[test]
fn resource_type_codes() {
    assert_eq!(ResourceType::PhysicalPage.code(), 0);
    assert_eq!(ResourceType::VirtualMemory.code(), 1);
    assert_eq!(ResourceType::IoPort.code(), 2);
    assert_eq!(ResourceType::Interrupt.code(), 3);
    assert_eq!(ResourceType::DmaChannel.code(), 4);
    assert_eq!(ResourceType::Device.code(), 5);
    assert_eq!(ResourceType::IpcChannel.code(), 6);
    assert_eq!(ResourceType::Custom.code(), 255);
}

#[test]
fn fast_hash_values() {
    assert_eq!(
        ResourceId::new(ResourceType::PhysicalPage, 1).fast_hash(),
        0x9e3779b97f4a7c15
    );
    assert_eq!(
        ResourceId::new(ResourceType::Custom, 2).fast_hash(),
        0x3c6ef372fe94f8d5
    );
    assert_eq!(ResourceId::new(ResourceType::Device, 0).fast_hash(), 5);
}

#[test]
fn scope_containment() {
    let t1 = ThreadId::new(1);
    let t2 = ThreadId::new(2);
    assert_eq!(t1.as_u64(), 1);
    let all = [
        ScopeKind::Syscall(t1, 7),
        ScopeKind::Thread(t1),
        ScopeKind::Process,
        ScopeKind::Permanent,
    ];
    // The chain: each scope may be borrowed from itself and from what contains it.
    for (i, b) in all.iter().enumerate() {
        for (j, o) in all.iter().enumerate() {
            assert_eq!(b.can_borrow_from(o), i <= j);
        }
    }
    assert!(!ScopeKind::Thread(t1).can_borrow_from(&ScopeKind::Thread(t2)));
    assert!(!ScopeKind::Syscall(t1, 7).can_borrow_from(&ScopeKind::Thread(t2)));
    assert!(!ScopeKind::Syscall(t1, 7).can_borrow_from(&ScopeKind::Syscall(t1, 8)));
    assert!(!ScopeKind::Syscall(t1, 7).can_borrow_from(&ScopeKind::Syscall(t2, 7)));
    assert!(ScopeKind::Thread(t1).same(&ScopeKind::Thread(t1)));
    assert!(!ScopeKind::Thread(t1).same(&ScopeKind::Process));
}

#[test]
fn empty_slot() {
    let e = CapabilityEntry::empty();
    assert_eq!(e.state, SlotState::Free);
    assert_eq!(e.generation, 0);
    assert_eq!(e.owner_pid, 0);
    assert_eq!(e.resource_id, ResourceId::new(ResourceType::Custom, 0));
    assert_eq!(e.scope, ScopeKind::Permanent);
    assert!(e.is_free());
    assert!(!e.is_live());
    assert!(!e.is_pending());
    let _marker: Scoped<u8> = Scoped::new();
}

#[test]
fn borrow_state_machine() {
    let t7 = ThreadId::new(7);
    let t8 = ThreadId::new(8);
    let mut b = ResourceBorrowState::new();
    assert!(!b.has_active());
    assert!(b.can_revoke());
    assert_eq!(b.try_shared(1, t7, caps::WRITE), Err(CapError::PermissionDenied));
    assert_eq!(b.try_shared(1, t7, caps::READ), Ok(()));
    assert_eq!(b.try_shared(1, t7, caps::READ), Err(CapError::AlreadyBorrowed));
    assert_eq!(b.try_shared(1, t8, caps::READ), Ok(()));
    assert_eq!(b.try_shared(2, t7, caps::READ), Ok(()));
    assert!(b.has_active());
    assert!(!b.can_revoke());
    assert_eq!(
        b.try_exclusive(1, t7, ScopeKind::Process, caps::ALL, ResourceType::PhysicalPage),
        Err(CapError::BorrowConflict)
    );
    assert_eq!(b.release_shared(3, t7), Err(CapError::NotBorrowed));
    assert_eq!(b.release_shared(1, t7), Ok(()));
    assert_eq!(b.release_shared(1, t7), Err(CapError::NotBorrowed));
    assert_eq!(b.release_shared(2, t7), Ok(()));
    assert_eq!(b.release_shared(1, t8), Ok(()));
    assert!(!b.has_active());

    assert_eq!(
        b.try_exclusive(1, t7, ScopeKind::Process, caps::RW, ResourceType::VirtualMemory),
        Err(CapError::PermissionDenied)
    );
    assert_eq!(
        b.try_exclusive(1, t7, ScopeKind::Process, caps::WRITE, ResourceType::Interrupt),
        Ok(())
    );
    assert_eq!(b.try_shared(1, t7, caps::READ), Err(CapError::BorrowConflict));
    assert_eq!(b.freeze(1, t8), Err(CapError::NotBorrowed));
    assert_eq!(b.freeze(2, t7), Err(CapError::NotBorrowed));
    assert_eq!(b.unfreeze(1, t7), Err(CapError::NotFrozen));
    assert_eq!(b.freeze(1, t7), Ok(()));
    assert_eq!(b.freeze(1, t7), Ok(()));
    assert_eq!(b.try_shared(1, t8, caps::READ), Err(CapError::BorrowConflict));
    assert_eq!(b.try_shared(1, t7, caps::READ), Ok(()));
    assert_eq!(b.release_exclusive(1, t7), Err(CapError::StillFrozen));
    assert_eq!(b.unfreeze(1, t7), Ok(()));
    assert_eq!(b.unfreeze(1, t7), Ok(()));
    assert_eq!(b.unfreeze(1, t7), Err(CapError::NotFrozen));
    assert_eq!(b.release_exclusive(1, t8), Err(CapError::NotBorrowed));
    assert_eq!(b.release_exclusive(1, t7), Ok(()));
    assert_eq!(b.release_exclusive(1, t7), Err(CapError::NotBorrowed));
    assert!(b.has_active());
    assert_eq!(b.release_shared(1, t7), Ok(()));
    assert!(!b.has_active());
}

#[test]
fn shared_borrows_are_capped() {
    let mut b = ResourceBorrowState::new();
    for i in 0..65535u32 {
        assert_eq!(b.try_shared(i, ThreadId::new(1), caps::READ), Ok(()));
    }
    assert_eq!(
        b.try_shared(70000, ThreadId::new(1), caps::READ),
        Err(CapError::TooManyBorrows)
    );
    assert_eq!(b.release_shared(0, ThreadId::new(1)), Ok(()));
    assert_eq!(b.try_shared(70000, ThreadId::new(1), caps::READ), Ok(()));
}

#[test]
fn cache_holds_hints_only() {
    let mut cache = PerCpuCache::new();
    let rid = ResourceId::new(ResourceType::PhysicalPage, 0x1000);
    let slot = cache.slot(3, rid.fast_hash());
    assert!(slot < 16);
    assert_eq!(
        slot as u64,
        (3u64.wrapping_mul(0x9e3779b97f4a7c15) ^ rid.fast_hash()) & 15
    );
    let mut slots = vec![CapabilityEntry::empty(); 4];
    assert_eq!(cache.lookup_validated(&slots, 3, &rid), None);
    cache.insert(3, rid.fast_hash(), 2);
    // The slot is free: the hint does not count.
    assert_eq!(cache.lookup_validated(&slots, 3, &rid), None);
    slots[2] = CapabilityEntry {
        resource_id: rid,
        owner_pid: 3,
        capabilities: caps::READ,
        generation: 0,
        state: SlotState::Live,
        created_at: 0,
        creation_order: 0,
        scope: ScopeKind::Process,
    };
    assert_eq!(cache.lookup_validated(&slots, 3, &rid), Some(2));
    assert_eq!(cache.hits(), 1);
    assert_eq!(cache.misses(), 2);
    cache.invalidate_idx(2);
    assert_eq!(cache.lookup_validated(&slots, 3, &rid), None);
    // An index beyond the table is a miss.
    cache.insert(3, rid.fast_hash(), 9);
    assert_eq!(cache.lookup_validated(&slots, 3, &rid), None);
}
