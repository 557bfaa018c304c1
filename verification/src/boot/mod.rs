//! What the boot layer hands to the kernel: the regions of memory.

pub mod bytes;
pub mod devicetree;
pub mod multiboot2;

use vstd::prelude::*;

verus! {

/// The format of the boot information, which follows from the architecture.
#[derive(Debug, Clone, Copy, PartialEq, Eq, Structural)]
pub enum BootFormat {
    /// Multiboot2, on x86-64.
    Multiboot2,
    /// A flattened device tree, on AArch64 and RISC-V.
    DeviceTree,
    /// A format that is not read, on LoongArch64.
    Other,
}

/// A region of physical memory as the boot loader reported it.
#[derive(Debug, Clone, Copy, PartialEq, Eq, Structural)]
pub struct MemoryRegion {
    /// The address of the first byte.
    pub base: usize,
    /// The length in bytes.
    pub size: usize,
    /// Whether the kernel may use the region.
    pub available: bool,
}

/// Whether `best` is the position of the region that the memory manager
/// takes: the first among the largest of the available regions.
pub open spec fn is_largest_available(regions: Seq<MemoryRegion>, best: int) -> bool {
    &&& 0 <= best < regions.len()
    &&& regions[best].available
    &&& forall|j: int| 0 <= j < regions.len() && regions[j].available ==> regions[j].size <= regions[best].size
    &&& forall|j: int| 0 <= j < best && regions[j].available ==> regions[j].size < regions[best].size
}

/// The position of the first among the largest of the available regions;
/// `None` where no region is available.
pub fn largest_available(regions: &Vec<MemoryRegion>) -> (r: Option<usize>)
    ensures
        match r {
            Some(best) => is_largest_available(regions@, best as int),
            None => forall|j: int| 0 <= j < regions@.len() ==> !regions@[j].available,
        },
{
    let mut best: Option<usize> = None;
    let mut i: usize = 0;
    while i < regions.len()
        invariant
            i <= regions.len(),
            match best {
                Some(b) => b < i && is_largest_available(regions@.take(i as int), b as int),
                None => forall|j: int| 0 <= j < i ==> !regions@[j].available,
            },
        decreases regions.len() - i,
    {
        let region = regions[i];
        let ghost before = regions@.take(i as int);
        let ghost after = regions@.take(i + 1);
        proof {
            assert forall|j: int| 0 <= j < i implies after[j] == before[j] by {}
            assert(after[i as int] == region);
        }
        if region.available {
            match best {
                Some(b) => {
                    if region.size > regions[b].size {
                        best = Some(i);
                    }
                },
                None => {
                    best = Some(i);
                },
            }
        }
        i = i + 1;
    }
    proof {
        assert(regions@.take(regions@.len() as int) == regions@);
    }
    best
}

/// The regions of memory that the boot information reports; none where
/// there is no boot information.
pub fn parse_boot_info(format: BootFormat, boot_info: Option<&[u8]>) -> (out: Vec<MemoryRegion>)
    ensures
        out@ == match (boot_info, format) {
            (None, _) => Seq::<MemoryRegion>::empty(),
            (Some(b), BootFormat::Multiboot2) => multiboot2::regions(b@),
            (Some(b), BootFormat::DeviceTree) => if devicetree::is_device_tree(b@) {
                seq![devicetree::default_region()]
            } else {
                Seq::<MemoryRegion>::empty()
            },
            (Some(b), BootFormat::Other) => Seq::<MemoryRegion>::empty(),
        },
{
    match boot_info {
        None => Vec::new(),
        Some(b) => match format {
            BootFormat::Multiboot2 => multiboot2::parse(b),
            BootFormat::DeviceTree => devicetree::parse(b),
            BootFormat::Other => Vec::new(),
        },
    }
}

} // verus!
