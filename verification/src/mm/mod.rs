//! Memory management: the physical page allocator and the typed pages on top of it.

pub mod allocator;
pub mod ownership;
pub mod physical;

use vstd::prelude::*;
use crate::arch::PAGE_SIZE;
use crate::boot::{is_largest_available, largest_available, MemoryRegion};
use physical::{pages_of, PhysicalAllocator, MAX_PAGES};

pub use allocator::{AllocError, AllocationScope, Allocator, AllocatorStats, PagePool, PageRegion};
pub use ownership::{BorrowedPage, OwnedPage, PageVec};

verus! {

/// Whether the allocator can address every page that it would take of `region`.
pub open spec fn addressable(region: MemoryRegion) -> bool {
    region.base + pages_of(region.size) * PAGE_SIZE <= usize::MAX
}

/// Gives the allocator the first among the largest of the available
/// regions, and returns that region. Regions that are not available are
/// passed over; without an available region nothing changes.
pub fn init(phys: &mut PhysicalAllocator, regions: Vec<MemoryRegion>) -> (chosen: Option<MemoryRegion>)
    requires
        old(phys).wf(),
        forall|j: int|
            0 <= j < regions@.len() && regions@[j].available ==> addressable(#[trigger] regions@[j]),
    ensures
        final(phys).wf(),
        match chosen {
            Some(region) => {
                &&& exists|best: int| is_largest_available(regions@, best) && regions@[best] == region
                &&& final(phys)@.base == region.base
                &&& final(phys)@.total_pages == pages_of(region.size)
                &&& final(phys)@.free_pages == pages_of(region.size)
                &&& forall|i: int|
                    0 <= i < MAX_PAGES ==> !final(phys)@.used[i] && final(phys)@.owners[i] == 0
            },
            None => {
                &&& forall|j: int| 0 <= j < regions@.len() ==> !regions@[j].available
                &&& final(phys)@ == old(phys)@
            },
        },
{
    match largest_available(&regions) {
        Some(best) => {
            let region = regions[best];
            physical::init(phys, region.base, region.size);
            Some(region)
        },
        None => None,
    }
}

} // verus!
