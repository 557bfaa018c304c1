use exokernel::capability::access::Exclusive;
use exokernel::capability::caps;
use exokernel::capability::lifetime::Permanent;
use exokernel::capability::{
    allocate_pid, bind_resource_scoped, borrow_exclusive, get_stats, grant_readonly,
    release_exclusive, CapabilityHandle, on_process_exit, revoke_capability, verify_capability,
    verify_capability_fast, CapError, CapabilityTable, PidAllocator, ProcessId, ResourceId,
    ScopeKind, ThreadId,
};
use exokernel::libos_interface::{
    AllocError, BorrowedPageRO, BorrowedPageRW, OwnedPage, PageVec, PhysicalAddr, Syscall,
};
use exokernel::mm::physical::{alloc_raw, free_pages, free_raw, init, PhysicalAllocator};

fn system(pages: usize) -> (CapabilityTable, PhysicalAllocator) {
    let mut phys = PhysicalAllocator::empty();
    init(&mut phys, 0x20_0000, pages * 4096);
    (CapabilityTable::new(), phys)
}

#[test]
fn pids_start_at_one() {
    let mut pids = PidAllocator::new();
    assert_eq!(allocate_pid(&mut pids).as_u32(), 1);
    assert_eq!(allocate_pid(&mut pids).as_u32(), 2);
    exokernel::capability::init(&mut pids);
    assert_eq!(allocate_pid(&mut pids), ProcessId::new(1));
}

#[test]
fn physical_addr_conversions() {
    let a = PhysicalAddr::new(0x1234);
    assert_eq!(a.as_usize(), 0x1234);
    assert_eq!(a.as_u64(), 0x1234u64);
}

#[test]
fn alloc_drop_round_trip() {
    let (mut t, mut phys) = system(16);
    let pid = ProcessId::new(1);
    let before = free_pages(&phys);
    let page = Syscall::alloc_page(&mut t, &mut phys, pid).unwrap();
    assert_eq!(page.addr().as_usize(), 0x20_0000);
    assert_eq!(free_pages(&phys), before - 1);
    let rid = ResourceId::from_page_addr(page.addr().as_usize());
    assert!(verify_capability_fast(&mut t, pid, rid, caps::RW | caps::MAP));
    let raw = page.capability().as_raw();
    let stale = page.capability().retag::<Exclusive, Permanent>();
    page.release(&mut t, &mut phys);
    assert_eq!(free_pages(&phys), before);
    assert_eq!(raw, (0, 0));
    assert_eq!(revoke_capability(&mut t, &stale), Err(CapError::InvalidHandle));
    assert!(!verify_capability(&mut t, pid, rid, caps::READ));
}

#[test]
fn alloc_page_out_of_memory() {
    let (mut t, mut phys) = system(1);
    let pid = ProcessId::new(1);
    let _p = Syscall::alloc_page(&mut t, &mut phys, pid).unwrap();
    assert_eq!(
        Syscall::alloc_page(&mut t, &mut phys, pid).err(),
        Some(AllocError::OutOfMemory)
    );
}

#[test]
fn alloc_pages_gives_what_it_can() {
    let (mut t, mut phys) = system(3);
    let pid = ProcessId::new(1);
    let v = Syscall::alloc_pages(&mut t, &mut phys, pid, 5).unwrap();
    assert_eq!(v.len(), 3);
    assert!(!v.is_empty());
    assert_eq!(
        Syscall::alloc_pages(&mut t, &mut phys, pid, 2).err(),
        Some(AllocError::OutOfMemory)
    );
    let empty = Syscall::alloc_pages(&mut t, &mut phys, pid, 0).unwrap();
    assert!(empty.is_empty());
    v.release_all(&mut t, &mut phys);
    assert_eq!(free_pages(&phys), 3);
    assert_eq!(get_stats(&t).used_slots, 0);
}

#[test]
fn process_exit_cleanup() {
    let (mut t, mut phys) = system(32);
    let five = ProcessId::new(5);
    let before = free_pages(&phys);
    let pages = Syscall::alloc_pages(&mut t, &mut phys, five, 10).unwrap();
    assert_eq!(pages.len(), 10);
    assert_eq!(free_pages(&phys), before - 10);
    assert_eq!(on_process_exit(&mut t, five), 10);
    for i in 0..10 {
        let rid = ResourceId::from_page_addr(pages.get(i).unwrap().addr().as_usize());
        assert!(!verify_capability_fast(&mut t, five, rid, caps::READ));
    }
    pages.release_all(&mut t, &mut phys);
    assert_eq!(free_pages(&phys), before);
}

#[test]
fn page_from_addr_needs_the_rights() {
    let (mut t, mut phys) = system(4);
    let one = ProcessId::new(1);
    let page = Syscall::alloc_page(&mut t, &mut phys, one).unwrap();
    let addr = page.addr();
    let same = Syscall::page_from_addr(&mut t, one, addr).unwrap();
    assert_eq!(same.capability().as_raw(), page.capability().as_raw());
    assert_eq!(
        Syscall::page_from_addr(&mut t, ProcessId::new(2), addr).err(),
        Some(AllocError::PermissionDenied)
    );
}

#[test]
fn grant_page_needs_grant() {
    let (mut t, mut phys) = system(4);
    let one = ProcessId::new(1);
    let two = ProcessId::new(2);
    let page = Syscall::alloc_page(&mut t, &mut phys, one).unwrap();
    assert_eq!(
        Syscall::grant_page_readonly(&mut t, one, two, page.addr()).err(),
        Some(AllocError::CapabilityError(CapError::PermissionDenied))
    );
    assert_eq!(
        Syscall::grant_page_exclusive(&mut t, one, two, PhysicalAddr::new(0x9000)).err(),
        Some(AllocError::CapabilityError(CapError::ResourceNotFound))
    );
}

#[test]
fn transfer_page_without_right_releases_the_page() {
    let (mut t, mut phys) = system(4);
    let one = ProcessId::new(1);
    let page = Syscall::alloc_page(&mut t, &mut phys, one).unwrap();
    assert_eq!(free_pages(&phys), 3);
    assert_eq!(
        Syscall::transfer_page(&mut t, &mut phys, page, ProcessId::new(2)),
        Err(AllocError::CapabilityError(CapError::PermissionDenied))
    );
    assert_eq!(free_pages(&phys), 4);
    assert_eq!(get_stats(&t).used_slots, 0);
}

#[test]
fn revoke_now_gives_the_page_back() {
    let (mut t, mut phys) = system(4);
    let before = free_pages(&phys);
    let page = Syscall::alloc_page(&mut t, &mut phys, ProcessId::new(1)).unwrap();
    assert_eq!(free_pages(&phys), before - 1);
    let raw = page.capability().as_raw();
    assert_eq!(page.revoke_now(&mut t, &mut phys), Ok(()));
    assert_eq!(get_stats(&t).used_slots, 0);
    assert_eq!(free_pages(&phys), before);
    // The slot is free in its next generation.
    let again = Syscall::alloc_page(&mut t, &mut phys, ProcessId::new(1)).unwrap();
    assert_eq!(again.capability().as_raw(), (raw.0, raw.1 + 1));
    assert_eq!(again.addr().as_usize(), 0x20_0000);
}

#[test]
fn revoke_now_that_fails_still_gives_the_page_back() {
    let (mut t, mut phys) = system(4);
    let tid = ThreadId::new(1);
    let page = Syscall::alloc_page(&mut t, &mut phys, ProcessId::new(1)).unwrap();
    assert_eq!(
        borrow_exclusive(&mut t, page.capability(), tid, ScopeKind::Process),
        Ok(())
    );
    assert_eq!(page.revoke_now(&mut t, &mut phys), Err(CapError::BorrowConflict));
    assert_eq!(free_pages(&phys), 4);
    assert_eq!(get_stats(&t).used_slots, 1);
}

#[test]
fn revoke_deferred_leaves_the_page_to_its_owner() {
    let (mut t, mut phys) = system(4);
    let page = Syscall::alloc_page(&mut t, &mut phys, ProcessId::new(1)).unwrap();
    let addr = page.addr().as_usize();
    assert_eq!(page.revoke_deferred(&mut t, &mut phys), Ok(()));
    assert_eq!(get_stats(&t).used_slots, 0);
    assert_eq!(free_pages(&phys), 3);
    assert_eq!(free_raw(&mut phys, 1, addr), Ok(()));
    assert_eq!(free_pages(&phys), 4);
}

#[test]
fn borrow_mut_and_release() {
    let (mut t, mut phys) = system(4);
    let tid = ThreadId::new(1);
    let mut page = Syscall::alloc_page(&mut t, &mut phys, ProcessId::new(1)).unwrap();
    let b = BorrowedPageRW::borrow_mut(&mut page, &mut t, tid, ScopeKind::Thread(tid)).unwrap();
    assert_eq!(b.addr().as_usize(), 0x20_0000);
    b.release(&mut t);
    // The borrow is gone: the page can be borrowed again and then revoked.
    let other = page.capability().retag::<Exclusive, Permanent>();
    let b = BorrowedPageRW::borrow_mut(&mut page, &mut t, tid, ScopeKind::Process).unwrap();
    assert_eq!(
        borrow_exclusive(&mut t, &other, ThreadId::new(2), ScopeKind::Process),
        Err(CapError::BorrowConflict)
    );
    b.release(&mut t);
    page.release(&mut t, &mut phys);
    assert_eq!(free_pages(&phys), 4);
    assert_eq!(get_stats(&t).used_slots, 0);
}

#[test]
fn readonly_borrow_freezes_and_thaws() {
    let (mut t, mut phys) = system(4);
    let tid = ThreadId::new(1);
    let page = Syscall::alloc_page(&mut t, &mut phys, ProcessId::new(1)).unwrap();
    assert_eq!(
        page.as_readonly(&mut t, tid).err(),
        Some(CapError::NotBorrowed)
    );
    assert_eq!(
        borrow_exclusive(&mut t, page.capability(), tid, ScopeKind::Process),
        Ok(())
    );
    let ro = BorrowedPageRO::borrow(&page, &mut t, tid, ScopeKind::Process).unwrap();
    assert_eq!(ro.addr(), page.addr());
    assert_eq!(
        release_exclusive(&mut t, page.capability(), tid),
        Err(CapError::StillFrozen)
    );
    ro.release(&mut t);
    let ro2 = page.as_readonly(&mut t, tid).unwrap();
    ro2.release(&mut t);
    // Both freezes are undone, so the exclusive borrow can end.
    assert_eq!(release_exclusive(&mut t, page.capability(), tid), Ok(()));
    assert_eq!(page.revoke_now(&mut t, &mut phys), Ok(()));
}

#[test]
fn page_vec_revoke_all_deferred() {
    let (mut t, mut phys) = system(8);
    let one = ProcessId::new(1);
    let mut v = PageVec::new(1);
    v.push(Syscall::alloc_page(&mut t, &mut phys, one).unwrap());
    v.push(Syscall::alloc_page(&mut t, &mut phys, one).unwrap());
    assert_eq!(v.len(), 2);
    assert_eq!(v.revoke_all_deferred(&mut t, &mut phys), Ok(()));
    assert_eq!(get_stats(&t).used_slots, 0);
    assert_eq!(free_pages(&phys), 6);
    let mut w = PageVec::with_capacity(1, 4);
    let p = Syscall::alloc_page(&mut t, &mut phys, one).unwrap();
    w.push(p);
    let last = w.pop().unwrap();
    assert!(w.pop().is_none());
    last.release(&mut t, &mut phys);
}

#[test]
fn system_info_reports_both_layers() {
    let (mut t, mut phys) = system(8);
    let _p = Syscall::alloc_page(&mut t, &mut phys, ProcessId::new(1)).unwrap();
    let info = Syscall::system_info(&t, &phys);
    assert_eq!(info.free_pages, 7);
    assert_eq!(info.page_size, 4096);
    assert_eq!(info.capability_stats.used_slots, 1);
    assert_eq!(info.capability_stats.free_slots, 8191);
}

#[test]
fn alloc_error_from_cap_error() {
    assert_eq!(
        AllocError::from(CapError::TableFull),
        AllocError::CapabilityError(CapError::TableFull)
    );
}

#[test]
fn shared_page_last_owner_releases() {
    let (mut t, mut phys) = system(4);
    let one = ProcessId::new(1);
    let shared = Syscall::alloc_shared_page(&mut t, &mut phys, one).unwrap();
    assert_eq!(shared.addr().as_usize(), 0x20_0000);
    assert_eq!(shared.ref_count(), 1);
    let second = shared.share();
    assert_eq!(shared.ref_count(), 2);
    assert_eq!(second.addr(), shared.addr());
    assert_eq!(second.record().owner_pid, 1);
    second.release(&mut t, &mut phys);
    // One owner is left: nothing was given back.
    assert_eq!(shared.ref_count(), 1);
    assert_eq!(free_pages(&phys), 3);
    assert_eq!(get_stats(&t).used_slots, 1);
    shared.release(&mut t, &mut phys);
    assert_eq!(free_pages(&phys), 4);
    assert_eq!(get_stats(&t).used_slots, 0);
}

#[test]
fn shared_page_release_counted() {
    let (mut t, mut phys) = system(4);
    let shared = Syscall::alloc_shared_page(&mut t, &mut phys, ProcessId::new(1)).unwrap();
    let other = shared.share();
    other.release_counted(2, &mut t, &mut phys);
    assert_eq!(free_pages(&phys), 3);
    shared.release_counted(1, &mut t, &mut phys);
    assert_eq!(free_pages(&phys), 4);
}

#[test]
fn shared_page_borrow_and_grant() {
    let (mut t, mut phys) = system(4);
    let one = ProcessId::new(1);
    let shared = Syscall::alloc_shared_page(&mut t, &mut phys, one).unwrap();
    let tid = ThreadId::new(3);
    let b = BorrowedPageRO::borrow_shared(&shared, &mut t, tid, ScopeKind::Process).unwrap();
    assert_eq!(b.addr(), shared.addr());
    assert_eq!(
        BorrowedPageRO::borrow_shared(&shared, &mut t, tid, ScopeKind::Process).err(),
        Some(CapError::AlreadyBorrowed)
    );
    b.release(&mut t);
    let b2 = BorrowedPageRO::borrow_shared(&shared, &mut t, tid, ScopeKind::Process).unwrap();
    b2.release(&mut t);
    // The exclusive binding has no GRANT right.
    assert_eq!(
        shared.grant_readonly(&mut t, ProcessId::new(2)).err(),
        Some(CapError::PermissionDenied)
    );
    shared.release(&mut t, &mut phys);
    assert_eq!(free_pages(&phys), 4);
}

#[test]
fn grant_subtree_revoke_leaves_the_page_to_its_owner() {
    let (mut t, mut phys) = system(4);
    let one = ProcessId::new(1);
    let two = ProcessId::new(2);
    let addr = alloc_raw(&mut phys, 1).unwrap();
    let rid = ResourceId::from_page_addr(addr);
    let root: CapabilityHandle<Exclusive, Permanent> =
        bind_resource_scoped(&mut t, one, rid, caps::ALL, ScopeKind::Process).unwrap();
    let _child = grant_readonly(&mut t, one, two, rid).unwrap();
    assert_eq!(free_pages(&phys), 3);
    assert_eq!(revoke_capability(&mut t, &root), Ok(()));
    assert!(!verify_capability(&mut t, one, rid, caps::READ));
    assert!(!verify_capability(&mut t, two, rid, caps::READ));
    // The capabilities are gone; the page is still its owner's.
    assert_eq!(free_pages(&phys), 3);
    assert_eq!(free_raw(&mut phys, 1, addr), Ok(()));
    assert_eq!(free_pages(&phys), 4);
}

#[test]
fn granted_pages_belong_to_the_grantee() {
    let (mut t, _phys) = system(4);
    let one = ProcessId::new(1);
    let two = ProcessId::new(2);
    let addr = PhysicalAddr::new(0x20_0000);
    let rid = ResourceId::from_page_addr(addr.as_usize());
    let _root: CapabilityHandle<Exclusive, Permanent> =
        bind_resource_scoped(&mut t, one, rid, caps::ALL, ScopeKind::Process).unwrap();
    let page = Syscall::grant_page_readonly(&mut t, one, two, addr).unwrap();
    assert_eq!(page.addr(), addr);
    assert_eq!(page.owner(), 2);
    assert_eq!(page.capability().as_raw(), (1, 0));
    assert!(verify_capability(&mut t, two, rid, caps::READ));
    assert!(!verify_capability(&mut t, two, rid, caps::WRITE));
    let three = ProcessId::new(3);
    let ex = Syscall::grant_page_exclusive(&mut t, one, three, addr).unwrap();
    assert_eq!(ex.owner(), 3);
    assert!(verify_capability(&mut t, three, rid, caps::RW | caps::MAP));
}

#[test]
fn transfer_page_moves_the_capability() {
    let (mut t, mut phys) = system(4);
    let one = ProcessId::new(1);
    let two = ProcessId::new(2);
    let addr = PhysicalAddr::new(0x20_0000);
    let rid = ResourceId::from_page_addr(addr.as_usize());
    let _h: CapabilityHandle<Exclusive, Permanent> = bind_resource_scoped(
        &mut t,
        one,
        rid,
        caps::RW | caps::MAP | caps::TRANSFER,
        ScopeKind::Process,
    )
    .unwrap();
    let page = Syscall::page_from_addr(&mut t, one, addr).unwrap();
    assert_eq!(Syscall::transfer_page(&mut t, &mut phys, page, two), Ok(()));
    assert!(!verify_capability(&mut t, one, rid, caps::READ));
    assert!(verify_capability(&mut t, two, rid, caps::WRITE | caps::MAP));
}

#[test]
fn page_vec_get_mut_and_iter() {
    let (mut t, mut phys) = system(8);
    let mut v = Syscall::alloc_pages(&mut t, &mut phys, ProcessId::new(1), 3).unwrap();
    let addrs: Vec<usize> = v.iter().map(|p| p.addr().as_usize()).collect();
    assert_eq!(addrs, vec![0x20_0000, 0x20_1000, 0x20_2000]);
    assert_eq!(v.get_mut(1).unwrap().addr().as_usize(), 0x20_1000);
    assert!(v.get_mut(3).is_none());
    assert!(v.get(3).is_none());
    v.release_all(&mut t, &mut phys);
}
