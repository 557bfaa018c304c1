use exokernel::capability::access::{Exclusive, ReadOnly};
use exokernel::capability::caps;
use exokernel::capability::lifetime::Permanent;
use exokernel::capability::table::init;
use exokernel::capability::{
    bind_resource_exclusive, bind_resource_readonly, bind_resource_scoped, borrow_exclusive,
    borrow_shared_from_frozen, borrow_shared_ro, freeze_exclusive, get_stats, grant_exclusive,
    grant_readonly, on_process_exit, on_syscall_return, on_thread_exit, release_exclusive,
    release_shared, revoke_capability, revoke_capability_deferred, transfer_resource,
    unfreeze_exclusive, verify_capability, verify_capability_fast, CapError, CapabilityHandle,
    CapabilityTable, ProcessId, ResourceId, ResourceType, ScopeKind, ThreadId,
};

fn page(n: u64) -> ResourceId {
    ResourceId::new(ResourceType::PhysicalPage, n * 4096)
}

#[test]
fn new_table_is_empty() {
    let t = CapabilityTable::new();
    let st = get_stats(&t);
    assert_eq!(st.total_slots, 8192);
    assert_eq!(st.used_slots, 0);
    assert_eq!(st.free_slots, 8192);
    assert_eq!(st.cache_hits, 0);
    assert_eq!(st.cache_misses, 0);
}

#[test]
fn bind_takes_slot_zero_first() {
    let mut t = CapabilityTable::new();
    let h = bind_resource_exclusive(&mut t, ProcessId::new(1), page(1)).unwrap();
    assert_eq!(h.as_raw(), (0, 0));
    let h2 = bind_resource_exclusive(&mut t, ProcessId::new(1), page(2)).unwrap();
    assert_eq!(h2.as_raw(), (1, 0));
    assert_eq!(get_stats(&t).used_slots, 2);
    assert_eq!(get_stats(&t).free_slots, 8190);
}

#[test]
fn bind_twice_gives_one_slot() {
    let mut t = CapabilityTable::new();
    let pid = ProcessId::new(3);
    let a = bind_resource_exclusive(&mut t, pid, page(7)).unwrap();
    let b = bind_resource_exclusive(&mut t, pid, page(7)).unwrap();
    let c = bind_resource_readonly(&mut t, pid, page(7)).unwrap();
    assert_eq!(a.as_raw(), b.as_raw());
    assert_eq!(a.as_raw(), c.as_raw());
    assert_eq!(get_stats(&t).used_slots, 1);
}

#[test]
fn verify_fast_after_bind_and_after_revoke() {
    let mut t = CapabilityTable::new();
    let pid = ProcessId::new(1);
    let h = bind_resource_exclusive(&mut t, pid, page(1)).unwrap();
    assert!(verify_capability_fast(&mut t, pid, page(1), caps::RW | caps::MAP));
    assert!(!verify_capability_fast(&mut t, pid, page(1), caps::GRANT));
    assert!(!verify_capability_fast(&mut t, ProcessId::new(2), page(1), caps::READ));
    assert_eq!(revoke_capability(&mut t, &h), Ok(()));
    assert!(!verify_capability_fast(&mut t, pid, page(1), caps::READ));
    assert!(!verify_capability(&mut t, pid, page(1), caps::READ));
}

#[test]
fn stale_handle_is_invalid_after_reuse() {
    let mut t = CapabilityTable::new();
    let pid = ProcessId::new(1);
    let h = bind_resource_exclusive(&mut t, pid, page(1)).unwrap();
    assert_eq!(revoke_capability(&mut t, &h), Ok(()));
    assert_eq!(revoke_capability(&mut t, &h), Err(CapError::InvalidHandle));
    let h2 = bind_resource_exclusive(&mut t, pid, page(1)).unwrap();
    assert_eq!(h2.as_raw(), (0, 1));
    assert_eq!(revoke_capability(&mut t, &h), Err(CapError::InvalidHandle));
    assert_eq!(
        borrow_exclusive(&mut t, &h, ThreadId::new(1), ScopeKind::Process),
        Err(CapError::InvalidHandle)
    );
    assert_eq!(revoke_capability(&mut t, &h2), Ok(()));
}

#[test]
fn grant_subtree_revoke() {
    let mut t = CapabilityTable::new();
    let one = ProcessId::new(1);
    let two = ProcessId::new(2);
    let root: CapabilityHandle<Exclusive, Permanent> =
        bind_resource_scoped(&mut t, one, page(5), caps::ALL, ScopeKind::Process).unwrap();
    let child = grant_readonly(&mut t, one, two, page(5)).unwrap();
    assert_eq!(child.as_raw(), (1, 0));
    assert!(verify_capability(&mut t, two, page(5), caps::READ));
    assert!(!verify_capability(&mut t, two, page(5), caps::WRITE));
    assert_eq!(get_stats(&t).used_slots, 2);
    assert_eq!(revoke_capability(&mut t, &root), Ok(()));
    assert_eq!(get_stats(&t).used_slots, 0);
    assert!(!verify_capability(&mut t, one, page(5), caps::READ));
    assert!(!verify_capability(&mut t, two, page(5), caps::READ));
    assert_eq!(revoke_capability(&mut t, &child), Err(CapError::InvalidHandle));
}

#[test]
fn grant_needs_the_grant_right() {
    let mut t = CapabilityTable::new();
    let one = ProcessId::new(1);
    let two = ProcessId::new(2);
    assert_eq!(
        grant_readonly(&mut t, one, two, page(1)).unwrap_err(),
        CapError::ResourceNotFound
    );
    let _h = bind_resource_exclusive(&mut t, one, page(1)).unwrap();
    assert_eq!(
        grant_readonly(&mut t, one, two, page(1)).unwrap_err(),
        CapError::PermissionDenied
    );
    assert_eq!(
        grant_exclusive(&mut t, one, two, page(1)).unwrap_err(),
        CapError::PermissionDenied
    );
}

#[test]
fn grant_exclusive_needs_the_rights_granted() {
    let mut t = CapabilityTable::new();
    let one = ProcessId::new(1);
    let two = ProcessId::new(2);
    let _a: CapabilityHandle<ReadOnly, Permanent> = bind_resource_scoped(
        &mut t,
        one,
        page(1),
        caps::READ | caps::GRANT,
        ScopeKind::Process,
    )
    .unwrap();
    assert_eq!(
        grant_exclusive(&mut t, one, two, page(1)).unwrap_err(),
        CapError::PermissionDenied
    );
    let g = grant_readonly(&mut t, one, two, page(1)).unwrap();
    assert_eq!(g.as_raw(), (1, 0));
    let _b: CapabilityHandle<Exclusive, Permanent> =
        bind_resource_scoped(&mut t, one, page(2), caps::ALL, ScopeKind::Process).unwrap();
    let e = grant_exclusive(&mut t, one, two, page(2)).unwrap();
    assert!(verify_capability(&mut t, two, page(2), caps::RW | caps::MAP));
    assert!(!verify_capability(&mut t, two, page(2), caps::GRANT));
    assert_eq!(e.as_raw(), (3, 0));
}

#[test]
fn child_cap_is_thirty_two() {
    let mut t = CapabilityTable::new();
    let one = ProcessId::new(1);
    let _root: CapabilityHandle<Exclusive, Permanent> =
        bind_resource_scoped(&mut t, one, page(9), caps::ALL, ScopeKind::Process).unwrap();
    for i in 0..32u32 {
        assert!(grant_readonly(&mut t, one, ProcessId::new(100 + i), page(9)).is_ok());
    }
    assert_eq!(get_stats(&t).used_slots, 33);
    let late = ProcessId::new(500);
    assert_eq!(
        grant_readonly(&mut t, one, late, page(9)).unwrap_err(),
        CapError::TooManyChildren
    );
    // The refused grant took no slot and left the grantee without a capability.
    assert_eq!(get_stats(&t).used_slots, 33);
    assert!(!verify_capability(&mut t, late, page(9), caps::READ));
    assert_eq!(
        grant_exclusive(&mut t, one, late, page(9)).unwrap_err(),
        CapError::TooManyChildren
    );
    assert_eq!(get_stats(&t).used_slots, 33);
    // A grantee that holds a capability already gets that one back.
    assert!(grant_readonly(&mut t, one, ProcessId::new(100), page(9)).is_ok());
}

#[test]
fn child_cap_comes_before_a_full_table() {
    let mut t = CapabilityTable::new();
    let one = ProcessId::new(1);
    let _root: CapabilityHandle<Exclusive, Permanent> =
        bind_resource_scoped(&mut t, one, page(9), caps::ALL, ScopeKind::Process).unwrap();
    for i in 0..32u32 {
        assert!(grant_readonly(&mut t, one, ProcessId::new(100 + i), page(9)).is_ok());
    }
    for i in 0..(8192u64 - 33) {
        assert!(bind_resource_exclusive(&mut t, one, page(100 + i)).is_ok());
    }
    assert_eq!(get_stats(&t).free_slots, 0);
    assert_eq!(
        grant_readonly(&mut t, one, ProcessId::new(500), page(9)).unwrap_err(),
        CapError::TooManyChildren
    );
    let _other: CapabilityHandle<Exclusive, Permanent> = {
        // Make room for one capability with the grant right and no child.
        let h = bind_resource_exclusive(&mut t, one, page(100)).unwrap();
        assert_eq!(revoke_capability(&mut t, &h), Ok(()));
        bind_resource_scoped(&mut t, one, page(20000), caps::ALL, ScopeKind::Process).unwrap()
    };
    assert_eq!(
        grant_readonly(&mut t, one, ProcessId::new(500), page(20000)).unwrap_err(),
        CapError::TableFull
    );
}

#[test]
fn borrow_conflict() {
    let mut t = CapabilityTable::new();
    let one = ProcessId::new(1);
    let h = bind_resource_exclusive(&mut t, one, page(1)).unwrap();
    let t7 = ThreadId::new(7);
    let t8 = ThreadId::new(8);
    assert_eq!(borrow_exclusive(&mut t, &h, t7, ScopeKind::Process), Ok(()));
    let ro: CapabilityHandle<ReadOnly, Permanent> = h.retag();
    assert_eq!(
        borrow_shared_ro(&mut t, &ro, t8, ScopeKind::Process),
        Err(CapError::BorrowConflict)
    );
    assert_eq!(
        borrow_exclusive(&mut t, &h, t8, ScopeKind::Process),
        Err(CapError::BorrowConflict)
    );
    assert_eq!(revoke_capability(&mut t, &h), Err(CapError::BorrowConflict));
    assert_eq!(release_exclusive(&mut t, &h, t8), Err(CapError::NotBorrowed));
    assert_eq!(release_exclusive(&mut t, &h, t7), Ok(()));
    assert_eq!(revoke_capability(&mut t, &h), Ok(()));
}

#[test]
fn freeze_enables_reborrow() {
    let mut t = CapabilityTable::new();
    let one = ProcessId::new(1);
    let h = bind_resource_exclusive(&mut t, one, page(1)).unwrap();
    let t7 = ThreadId::new(7);
    let t8 = ThreadId::new(8);
    assert_eq!(
        freeze_exclusive(&mut t, &h, t7).unwrap_err(),
        CapError::NotBorrowed
    );
    assert_eq!(borrow_exclusive(&mut t, &h, t7, ScopeKind::Process), Ok(()));
    let frozen = freeze_exclusive(&mut t, &h, t7).unwrap();
    assert_eq!(frozen.as_raw(), h.as_raw());
    assert_eq!(
        borrow_shared_from_frozen(&mut t, &frozen, t7, ScopeKind::Process),
        Ok(())
    );
    assert_eq!(
        borrow_shared_from_frozen(&mut t, &frozen, t8, ScopeKind::Process),
        Err(CapError::BorrowConflict)
    );
    assert_eq!(
        borrow_shared_from_frozen(&mut t, &frozen, t7, ScopeKind::Process),
        Err(CapError::AlreadyBorrowed)
    );
    assert_eq!(release_exclusive(&mut t, &h, t7), Err(CapError::StillFrozen));
    assert_eq!(unfreeze_exclusive(&mut t, &h, t7), Ok(()));
    assert_eq!(unfreeze_exclusive(&mut t, &h, t7), Err(CapError::NotFrozen));
}

#[test]
fn borrow_scope_must_be_contained() {
    let mut t = CapabilityTable::new();
    let one = ProcessId::new(1);
    let t7 = ThreadId::new(7);
    let h: CapabilityHandle<Exclusive, Permanent> = bind_resource_scoped(
        &mut t,
        one,
        page(1),
        caps::RW | caps::MAP,
        ScopeKind::Thread(t7),
    )
    .unwrap();
    assert_eq!(
        borrow_exclusive(&mut t, &h, t7, ScopeKind::Process),
        Err(CapError::PermissionDenied)
    );
    assert_eq!(
        borrow_exclusive(&mut t, &h, t7, ScopeKind::Thread(ThreadId::new(8))),
        Err(CapError::PermissionDenied)
    );
    let ro: CapabilityHandle<ReadOnly, Permanent> = h.retag();
    assert_eq!(
        borrow_shared_ro(&mut t, &ro, t7, ScopeKind::Thread(ThreadId::new(8))),
        Err(CapError::PermissionDenied)
    );
    // The refused borrows left no trace: the resource can still be revoked.
    assert_eq!(
        borrow_exclusive(&mut t, &h, t7, ScopeKind::Syscall(t7, 3)),
        Ok(())
    );
    assert_eq!(
        borrow_exclusive(&mut t, &h, t7, ScopeKind::Thread(t7)),
        Err(CapError::BorrowConflict)
    );
}

#[test]
fn permanent_borrow_from_process_capability_is_refused() {
    let mut t = CapabilityTable::new();
    let h = bind_resource_exclusive(&mut t, ProcessId::new(1), page(1)).unwrap();
    assert_eq!(
        borrow_exclusive(&mut t, &h, ThreadId::new(1), ScopeKind::Permanent),
        Err(CapError::PermissionDenied)
    );
    assert_eq!(revoke_capability(&mut t, &h), Ok(()));
}

#[test]
fn exclusive_borrow_needs_write_and_map_on_pages() {
    let mut t = CapabilityTable::new();
    let one = ProcessId::new(1);
    let h: CapabilityHandle<Exclusive, Permanent> =
        bind_resource_scoped(&mut t, one, page(1), caps::RW, ScopeKind::Process).unwrap();
    assert_eq!(
        borrow_exclusive(&mut t, &h, ThreadId::new(1), ScopeKind::Process),
        Err(CapError::PermissionDenied)
    );
    let port = ResourceId::from_io_port(0x3f8);
    let hp: CapabilityHandle<Exclusive, Permanent> =
        bind_resource_scoped(&mut t, one, port, caps::WRITE, ScopeKind::Process).unwrap();
    assert_eq!(
        borrow_exclusive(&mut t, &hp, ThreadId::new(1), ScopeKind::Process),
        Ok(())
    );
    let hr: CapabilityHandle<ReadOnly, Permanent> = hp.retag();
    assert_eq!(
        borrow_shared_ro(&mut t, &hr, ThreadId::new(2), ScopeKind::Process),
        Err(CapError::PermissionDenied)
    );
}

#[test]
fn deferred_revoke() {
    let mut t = CapabilityTable::new();
    let one = ProcessId::new(1);
    let two = ProcessId::new(2);
    let a = bind_resource_exclusive(&mut t, one, page(1)).unwrap();
    let b = bind_resource_readonly(&mut t, two, page(1)).unwrap();
    let t7 = ThreadId::new(7);
    assert_eq!(borrow_shared_ro(&mut t, &b, t7, ScopeKind::Process), Ok(()));
    assert_eq!(revoke_capability(&mut t, &a), Err(CapError::BorrowConflict));
    assert_eq!(revoke_capability_deferred(&mut t, &a), Ok(()));
    // The slot is pending: it counts as used, and its handle is no longer valid.
    assert_eq!(get_stats(&t).used_slots, 2);
    assert!(!verify_capability(&mut t, one, page(1), caps::READ));
    assert_eq!(revoke_capability_deferred(&mut t, &a), Err(CapError::InvalidHandle));
    assert_eq!(release_shared(&mut t, &b, t7), Ok(()));
    // Completed: the slot is free and its generation has grown.
    assert_eq!(get_stats(&t).used_slots, 1);
    let again = bind_resource_exclusive(&mut t, one, page(1)).unwrap();
    assert_eq!(again.as_raw(), (0, 1));
}

#[test]
fn transfer() {
    let mut t = CapabilityTable::new();
    let one = ProcessId::new(1);
    let two = ProcessId::new(2);
    let _h: CapabilityHandle<Exclusive, Permanent> = bind_resource_scoped(
        &mut t,
        one,
        page(4),
        caps::RW | caps::MAP | caps::TRANSFER,
        ScopeKind::Process,
    )
    .unwrap();
    assert_eq!(transfer_resource(&mut t, one, two, page(4)), Ok(()));
    assert!(!verify_capability(&mut t, one, page(4), caps::READ));
    assert!(verify_capability(&mut t, two, page(4), caps::WRITE | caps::MAP));
    assert_eq!(get_stats(&t).used_slots, 1);
}

#[test]
fn transfer_needs_the_transfer_right() {
    let mut t = CapabilityTable::new();
    let one = ProcessId::new(1);
    let two = ProcessId::new(2);
    assert_eq!(
        transfer_resource(&mut t, one, two, page(4)),
        Err(CapError::ResourceNotFound)
    );
    let _h = bind_resource_exclusive(&mut t, one, page(4)).unwrap();
    assert_eq!(
        transfer_resource(&mut t, one, two, page(4)),
        Err(CapError::PermissionDenied)
    );
}

#[test]
fn transfer_of_read_only_source_binds_read_only() {
    let mut t = CapabilityTable::new();
    let one = ProcessId::new(1);
    let two = ProcessId::new(2);
    let _h: CapabilityHandle<ReadOnly, Permanent> = bind_resource_scoped(
        &mut t,
        one,
        page(4),
        caps::READ | caps::TRANSFER,
        ScopeKind::Process,
    )
    .unwrap();
    assert_eq!(transfer_resource(&mut t, one, two, page(4)), Ok(()));
    assert!(verify_capability(&mut t, two, page(4), caps::READ));
    assert!(!verify_capability(&mut t, two, page(4), caps::WRITE));
}

#[test]
fn transfer_passes_on_no_right_that_the_source_lacks() {
    let mut t = CapabilityTable::new();
    let one = ProcessId::new(1);
    let two = ProcessId::new(2);
    let _h: CapabilityHandle<Exclusive, Permanent> = bind_resource_scoped(
        &mut t,
        one,
        page(4),
        caps::WRITE | caps::MAP | caps::TRANSFER,
        ScopeKind::Process,
    )
    .unwrap();
    assert_eq!(transfer_resource(&mut t, one, two, page(4)), Ok(()));
    assert!(verify_capability(&mut t, two, page(4), caps::WRITE | caps::MAP));
    assert!(!verify_capability(&mut t, two, page(4), caps::READ));
    assert!(!verify_capability(&mut t, two, page(4), caps::TRANSFER));
    // A source with the transfer right alone passes on nothing.
    let _g: CapabilityHandle<ReadOnly, Permanent> =
        bind_resource_scoped(&mut t, one, page(5), caps::TRANSFER, ScopeKind::Process).unwrap();
    assert_eq!(transfer_resource(&mut t, one, two, page(5)), Ok(()));
    assert!(verify_capability(&mut t, two, page(5), 0));
    assert!(!verify_capability(&mut t, two, page(5), caps::READ));
    // Rights beyond the transferable ones stay behind.
    let _k: CapabilityHandle<Exclusive, Permanent> =
        bind_resource_scoped(&mut t, one, page(6), caps::ALL, ScopeKind::Process).unwrap();
    assert_eq!(transfer_resource(&mut t, one, two, page(6)), Ok(()));
    assert!(verify_capability(&mut t, two, page(6), caps::TRANSFERABLE_MASK));
    assert!(!verify_capability(&mut t, two, page(6), caps::GRANT));
    assert!(!verify_capability(&mut t, two, page(6), caps::REVOKE));
}

#[test]
fn process_exit_frees_every_process_capability() {
    let mut t = CapabilityTable::new();
    let five = ProcessId::new(5);
    for i in 0..10u64 {
        bind_resource_exclusive(&mut t, five, page(i + 1)).unwrap();
    }
    let _other = bind_resource_exclusive(&mut t, ProcessId::new(6), page(50)).unwrap();
    assert_eq!(get_stats(&t).used_slots, 11);
    assert_eq!(on_process_exit(&mut t, five), 10);
    assert_eq!(get_stats(&t).used_slots, 1);
    for i in 0..10u64 {
        assert!(!verify_capability_fast(&mut t, five, page(i + 1), caps::READ));
        assert!(!verify_capability(&mut t, five, page(i + 1), caps::READ));
    }
    assert_eq!(on_process_exit(&mut t, five), 0);
}

#[test]
fn process_exit_frees_newest_first() {
    let mut t = CapabilityTable::new();
    let five = ProcessId::new(5);
    for i in 0..3u64 {
        bind_resource_exclusive(&mut t, five, page(i + 1)).unwrap();
    }
    assert_eq!(on_process_exit(&mut t, five), 3);
    // Slots 2, 1, 0 were released in this order, so slot 0 is on top again.
    let h = bind_resource_exclusive(&mut t, five, page(9)).unwrap();
    assert_eq!(h.as_raw(), (0, 1));
    let h = bind_resource_exclusive(&mut t, five, page(10)).unwrap();
    assert_eq!(h.as_raw(), (1, 1));
}

#[test]
fn process_exit_counts_what_derives_from_its_capabilities() {
    let mut t = CapabilityTable::new();
    let one = ProcessId::new(1);
    let two = ProcessId::new(2);
    let _root: CapabilityHandle<Exclusive, Permanent> =
        bind_resource_scoped(&mut t, one, page(5), caps::ALL, ScopeKind::Process).unwrap();
    grant_readonly(&mut t, one, two, page(5)).unwrap();
    assert_eq!(on_process_exit(&mut t, one), 2);
    assert_eq!(get_stats(&t).used_slots, 0);
}

#[test]
fn process_exit_leaves_borrowed_capability() {
    let mut t = CapabilityTable::new();
    let one = ProcessId::new(1);
    let h = bind_resource_exclusive(&mut t, one, page(1)).unwrap();
    bind_resource_exclusive(&mut t, one, page(2)).unwrap();
    assert_eq!(
        borrow_exclusive(&mut t, &h, ThreadId::new(1), ScopeKind::Process),
        Ok(())
    );
    assert_eq!(on_process_exit(&mut t, one), 1);
    assert!(verify_capability(&mut t, one, page(1), caps::READ));
}

#[test]
fn thread_and_syscall_scopes_end_separately() {
    let mut t = CapabilityTable::new();
    let one = ProcessId::new(1);
    let t7 = ThreadId::new(7);
    let _a: CapabilityHandle<ReadOnly, Permanent> =
        bind_resource_scoped(&mut t, one, page(1), caps::READ, ScopeKind::Thread(t7)).unwrap();
    let _b: CapabilityHandle<ReadOnly, Permanent> =
        bind_resource_scoped(&mut t, one, page(2), caps::READ, ScopeKind::Syscall(t7, 4)).unwrap();
    let _c: CapabilityHandle<ReadOnly, Permanent> =
        bind_resource_scoped(&mut t, one, page(3), caps::READ, ScopeKind::Permanent).unwrap();
    assert_eq!(on_syscall_return(&mut t, t7, 5), 0);
    assert_eq!(on_syscall_return(&mut t, t7, 4), 1);
    assert_eq!(on_thread_exit(&mut t, ThreadId::new(8)), 0);
    assert_eq!(on_thread_exit(&mut t, t7), 1);
    assert_eq!(on_process_exit(&mut t, one), 0);
    assert!(verify_capability(&mut t, one, page(3), caps::READ));
    assert_eq!(get_stats(&t).used_slots, 1);
}

#[test]
fn table_full() {
    let mut t = CapabilityTable::new();
    let one = ProcessId::new(1);
    for i in 0..8192u64 {
        assert!(bind_resource_exclusive(&mut t, one, page(i)).is_ok());
    }
    assert_eq!(
        bind_resource_exclusive(&mut t, one, page(9000)).unwrap_err(),
        CapError::TableFull
    );
    assert_eq!(get_stats(&t).free_slots, 0);
}

#[test]
fn init_resets_the_table() {
    let mut t = CapabilityTable::new();
    bind_resource_exclusive(&mut t, ProcessId::new(1), page(1)).unwrap();
    init(&mut t);
    assert_eq!(get_stats(&t).used_slots, 0);
    assert!(!verify_capability(&mut t, ProcessId::new(1), page(1), caps::READ));
    let h = bind_resource_exclusive(&mut t, ProcessId::new(1), page(1)).unwrap();
    assert_eq!(h.as_raw(), (0, 0));
}

#[test]
fn cache_counts_hits_and_misses() {
    let mut t = CapabilityTable::new();
    let one = ProcessId::new(1);
    bind_resource_exclusive(&mut t, one, page(1)).unwrap();
    assert!(verify_capability_fast(&mut t, one, page(1), caps::READ));
    assert!(verify_capability_fast(&mut t, one, page(1), caps::READ));
    assert!(!verify_capability_fast(&mut t, one, page(2), caps::READ));
    let st = get_stats(&t);
    assert_eq!(st.cache_hits, 2);
    assert_eq!(st.cache_misses, 1);
}

#[test]
fn deferred_revoke_reaches_the_subtree() {
    let mut t = CapabilityTable::new();
    let one = ProcessId::new(1);
    let two = ProcessId::new(2);
    let three = ProcessId::new(3);
    let root: CapabilityHandle<Exclusive, Permanent> =
        bind_resource_scoped(&mut t, one, page(5), caps::ALL, ScopeKind::Process).unwrap();
    let child = grant_readonly(&mut t, one, two, page(5)).unwrap();
    let other = bind_resource_readonly(&mut t, three, page(5)).unwrap();
    let tid = ThreadId::new(9);
    assert_eq!(borrow_shared_ro(&mut t, &other, tid, ScopeKind::Process), Ok(()));
    assert_eq!(revoke_capability_deferred(&mut t, &root), Ok(()));
    // Root and child wait for the borrow: neither is live, both are in use.
    assert_eq!(get_stats(&t).used_slots, 3);
    assert!(!verify_capability(&mut t, one, page(5), caps::READ));
    assert!(!verify_capability(&mut t, two, page(5), caps::READ));
    assert_eq!(revoke_capability(&mut t, &child), Err(CapError::InvalidHandle));
    assert!(verify_capability(&mut t, three, page(5), caps::READ));
    // The borrow ends: both complete.
    assert_eq!(release_shared(&mut t, &other, tid), Ok(()));
    assert_eq!(get_stats(&t).used_slots, 1);
    assert_eq!(revoke_capability(&mut t, &other), Ok(()));
    assert_eq!(get_stats(&t).used_slots, 0);
}

#[test]
fn strict_revoke_stops_at_a_borrow_and_keeps_what_it_did() {
    let mut t = CapabilityTable::new();
    let one = ProcessId::new(1);
    let root: CapabilityHandle<Exclusive, Permanent> =
        bind_resource_scoped(&mut t, one, page(5), caps::ALL, ScopeKind::Process).unwrap();
    let child = grant_readonly(&mut t, one, ProcessId::new(2), page(5)).unwrap();
    let tid = ThreadId::new(9);
    assert_eq!(borrow_shared_ro(&mut t, &child, tid, ScopeKind::Process), Ok(()));
    assert_eq!(revoke_capability(&mut t, &root), Err(CapError::BorrowConflict));
    assert_eq!(get_stats(&t).used_slots, 2);
    assert_eq!(release_shared(&mut t, &child, tid), Ok(()));
    assert_eq!(revoke_capability(&mut t, &root), Ok(()));
    assert_eq!(get_stats(&t).used_slots, 0);
}

#[test]
fn regranting_to_a_holder_returns_its_capability() {
    let mut t = CapabilityTable::new();
    let one = ProcessId::new(1);
    let two = ProcessId::new(2);
    let _root: CapabilityHandle<Exclusive, Permanent> =
        bind_resource_scoped(&mut t, one, page(5), caps::ALL, ScopeKind::Process).unwrap();
    let a = grant_readonly(&mut t, one, two, page(5)).unwrap();
    let b = grant_readonly(&mut t, one, two, page(5)).unwrap();
    assert_eq!(a.as_raw(), b.as_raw());
    assert_eq!(get_stats(&t).used_slots, 2);
}

#[test]
fn generation_grows_by_one_per_release() {
    let mut t = CapabilityTable::new();
    let one = ProcessId::new(1);
    for generation in 0..5u32 {
        let h = bind_resource_exclusive(&mut t, one, page(1)).unwrap();
        assert_eq!(h.as_raw(), (0, generation));
        assert_eq!(h.generation(), generation);
        assert_eq!(h.index(), 0);
        assert_eq!(h.scope(), ScopeKind::Process);
        assert_eq!(revoke_capability(&mut t, &h), Ok(()));
    }
}

#[test]
fn creation_order_counts_every_binding_call() {
    let mut t = CapabilityTable::new();
    let one = ProcessId::new(1);
    let a = bind_resource_exclusive(&mut t, one, page(1)).unwrap();
    let again = bind_resource_exclusive(&mut t, one, page(1)).unwrap();
    let b = bind_resource_exclusive(&mut t, one, page(2)).unwrap();
    assert_eq!(a.creation_order(), 0);
    assert_eq!(again.creation_order(), 0);
    assert_eq!(b.creation_order(), 2);
    let frozen = a.freeze();
    assert_eq!(frozen.as_raw(), a.as_raw());
    let ro = b.downgrade();
    assert_eq!(ro.as_raw(), (1, 0));
}
