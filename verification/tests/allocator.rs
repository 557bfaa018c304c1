use exokernel::mm::physical::{
    alloc_raw, change_owner, free_pages, free_raw, init, PhysicalAllocator,
};
use exokernel::mm::{AllocError, AllocationScope, Allocator, OwnedPage, PagePool, PageRegion, PageVec};

fn memory(pages: usize) -> PhysicalAllocator {
    let mut phys = PhysicalAllocator::empty();
    init(&mut phys, 0x10_0000, pages * 4096);
    phys
}

#[test]
fn test_basic_allocation() {
    let mut phys = memory(64);
    let alloc = Allocator::new(1);

    let page = alloc.alloc_page(&mut phys).expect("Failed to allocate");
    assert!(page.address() != 0);

    page.release(&mut phys);
    assert_eq!(free_pages(&phys), 64);
}

#[test]
fn test_batch_allocation() {
    let mut phys = memory(64);
    let alloc = Allocator::new(2);

    let pages = alloc.alloc_pages(&mut phys, 10).expect("Failed to allocate");
    assert_eq!(pages.len(), 10);

    pages.release_all(&mut phys);
    assert_eq!(free_pages(&phys), 64);
}

#[test]
fn test_allocation_scope() {
    let mut phys = memory(64);
    let mut scope = AllocationScope::new(&mut phys, 3, 5).expect("Failed to create scope");

    assert_eq!(scope.remaining(), 5);

    let page1 = scope.take_page().unwrap();
    assert_eq!(scope.remaining(), 4);

    page1.release(&mut phys);
    assert_eq!(free_pages(&phys), 60);

    scope.release(&mut phys);
    assert_eq!(free_pages(&phys), 64);
}

#[test]
fn empty_allocator_has_no_page() {
    let mut phys = PhysicalAllocator::empty();
    assert_eq!(free_pages(&phys), 0);
    assert_eq!(alloc_raw(&mut phys, 1), None);
}

#[test]
fn init_takes_whole_pages_up_to_the_cap() {
    let mut phys = PhysicalAllocator::empty();
    init(&mut phys, 0x8000_0000, 3 * 4096 + 100);
    assert_eq!(free_pages(&phys), 3);
    init(&mut phys, 0x8000_0000, 65537 * 4096);
    assert_eq!(free_pages(&phys), 65536);
    init(&mut phys, 0x8000_0000, 4095);
    assert_eq!(free_pages(&phys), 0);
}

#[test]
fn alloc_raw_takes_the_lowest_free_page() {
    let mut phys = memory(4);
    assert_eq!(alloc_raw(&mut phys, 7), Some(0x10_0000));
    assert_eq!(alloc_raw(&mut phys, 7), Some(0x10_1000));
    assert_eq!(alloc_raw(&mut phys, 8), Some(0x10_2000));
    assert_eq!(free_pages(&phys), 1);
    assert_eq!(free_raw(&mut phys, 7, 0x10_1000), Ok(()));
    assert_eq!(free_pages(&phys), 2);
    assert_eq!(alloc_raw(&mut phys, 9), Some(0x10_1000));
    assert_eq!(alloc_raw(&mut phys, 9), Some(0x10_3000));
    assert_eq!(alloc_raw(&mut phys, 9), None);
    assert_eq!(free_pages(&phys), 0);
}

#[test]
fn alloc_raw_crosses_bitmap_words() {
    let mut phys = memory(130);
    for i in 0..130usize {
        assert_eq!(alloc_raw(&mut phys, 1), Some(0x10_0000 + i * 4096));
    }
    assert_eq!(alloc_raw(&mut phys, 1), None);
    assert_eq!(free_raw(&mut phys, 1, 0x10_0000 + 64 * 4096), Ok(()));
    assert_eq!(alloc_raw(&mut phys, 2), Some(0x10_0000 + 64 * 4096));
}

#[test]
fn free_raw_errors() {
    let mut phys = memory(4);
    let a = alloc_raw(&mut phys, 7).unwrap();
    assert_eq!(free_raw(&mut phys, 7, 0x1000), Err("Invalid address"));
    assert_eq!(
        free_raw(&mut phys, 7, 0x10_0000 + 4 * 4096),
        Err("Page index out of range")
    );
    assert_eq!(free_raw(&mut phys, 8, a), Err("Permission denied"));
    assert_eq!(free_pages(&phys), 3);
    // An address inside the page names the page.
    assert_eq!(free_raw(&mut phys, 7, a + 17), Ok(()));
    assert_eq!(free_pages(&phys), 4);
}

#[test]
fn change_owner_swaps_on_match_only() {
    let mut phys = memory(4);
    let a = alloc_raw(&mut phys, 7).unwrap();
    assert_eq!(change_owner(&mut phys, a, 8, 9), Err("Owner mismatch"));
    assert_eq!(change_owner(&mut phys, a, 7, 9), Ok(()));
    assert_eq!(free_raw(&mut phys, 7, a), Err("Permission denied"));
    assert_eq!(free_raw(&mut phys, 9, a), Ok(()));
}

#[test]
fn owned_page_transfer_changes_the_owner() {
    let mut phys = memory(4);
    let page = OwnedPage::allocate(&mut phys, 1).unwrap();
    assert_eq!(page.owner(), 1);
    let addr = page.address();
    let page = page.transfer_to(&mut phys, 2);
    assert_eq!(page.owner(), 2);
    assert_eq!(page.address(), addr);
    assert_eq!(page.share().address(), addr);
    page.release(&mut phys);
    assert_eq!(free_pages(&phys), 4);
}

#[test]
fn alloc_pages_is_all_or_nothing() {
    let mut phys = memory(4);
    let alloc = Allocator::new(1);
    assert_eq!(alloc.alloc_pages(&mut phys, 0).err(), Some(AllocError::InvalidSize));
    assert_eq!(alloc.alloc_pages(&mut phys, 5).err(), Some(AllocError::OutOfMemory));
    assert_eq!(free_pages(&phys), 4);
    let v = alloc.alloc_pages(&mut phys, 4).unwrap();
    assert_eq!(v.len(), 4);
    assert_eq!(alloc.alloc_page(&mut phys).err(), Some(AllocError::OutOfMemory));
    assert_eq!(v.get(0).unwrap().address(), 0x10_0000);
    assert_eq!(v.get(3).unwrap().address(), 0x10_3000);
    assert!(v.get(4).is_none());
}

#[test]
fn try_alloc_pages_takes_what_is_there() {
    let mut phys = memory(3);
    let alloc = Allocator::new(1);
    let v = alloc.try_alloc_pages(&mut phys, 5);
    assert_eq!(v.len(), 3);
    assert_eq!(free_pages(&phys), 0);
    assert!(AllocationScope::new(&mut phys, 1, 2).is_err());
}

#[test]
fn stats_and_memory_sizes() {
    let phys = memory(16);
    let st = Allocator::new(1).stats(&phys);
    assert_eq!(st.free_pages, 16);
    assert_eq!(st.total_pages, 65536);
    assert_eq!(st.page_size, 4096);
    assert_eq!(st.free_memory(), 16 * 4096);
    assert_eq!(st.total_memory(), 65536 * 4096);
    assert_eq!(st.used_memory(), (65536 - 16) * 4096);
}

#[test]
fn error_messages() {
    assert_eq!(AllocError::OutOfMemory.message(), "Out of memory");
    assert_eq!(AllocError::InvalidSize.message(), "Invalid allocation size");
    assert_eq!(AllocError::InvalidAlignment.message(), "Invalid alignment");
}

#[test]
fn page_region_from_pages() {
    let mut phys = memory(8);
    assert!(PageRegion::from_pages(PageVec::new(1)).is_none());
    let v = Allocator::new(1).alloc_pages(&mut phys, 3).unwrap();
    let region = PageRegion::from_pages(v).unwrap();
    assert_eq!(region.base_address(), 0x10_0000);
    assert_eq!(region.page_count(), 3);
    assert_eq!(region.size(), 3 * 4096);
    assert_eq!(region.get_page(2).unwrap().address(), 0x10_2000);
    assert!(region.get_page(3).is_none());
    region.release(&mut phys);
    assert_eq!(free_pages(&phys), 8);
}

#[test]
fn page_pool_keeps_pages_up_to_its_limit() {
    let mut phys = memory(8);
    let mut pool = PagePool::new(1, 1);
    let a = pool.acquire(&mut phys).unwrap();
    let b = pool.acquire(&mut phys).unwrap();
    assert_eq!(free_pages(&phys), 6);
    let a_addr = a.address();
    pool.release(&mut phys, a);
    assert_eq!(pool.cache_stats(), (1, 1));
    assert_eq!(free_pages(&phys), 6);
    pool.release(&mut phys, b);
    assert_eq!(pool.cache_stats(), (1, 1));
    assert_eq!(free_pages(&phys), 7);
    let again = pool.acquire(&mut phys).unwrap();
    assert_eq!(again.address(), a_addr);
    assert_eq!(pool.cache_stats(), (0, 1));
    pool.release(&mut phys, again);
    pool.clear_cache(&mut phys);
    assert_eq!(pool.cache_stats(), (0, 1));
    assert_eq!(free_pages(&phys), 8);
}

#[test]
fn page_vec_push_and_pop() {
    let mut phys = memory(8);
    let mut v = PageVec::new(4);
    assert_eq!(v.owner(), 4);
    v.push(OwnedPage::allocate(&mut phys, 4).unwrap());
    v.push(OwnedPage::allocate(&mut phys, 4).unwrap());
    assert_eq!(v.len(), 2);
    assert_eq!(v.pop().unwrap().address(), 0x10_1000);
    assert_eq!(v.pop().unwrap().address(), 0x10_0000);
    assert!(v.pop().is_none());
}

#[test]
fn allocation_scope_hands_out_pages_of_its_process() {
    let mut phys = memory(64);
    let mut scope = AllocationScope::new(&mut phys, 3, 5).unwrap();
    let page = scope.take_page().unwrap();
    assert_eq!(page.owner(), 3);
    assert_eq!(page.address(), 0x10_0000 + 4 * 4096);
    assert_eq!(scope.remaining(), 4);
    let mut pool = PagePool::new(7, 2);
    let fresh = pool.acquire(&mut phys).unwrap();
    assert_eq!(fresh.owner(), 7);
    pool.release(&mut phys, fresh);
    assert_eq!(pool.acquire(&mut phys).unwrap().owner(), 7);
}
