//! The flattened device tree. Of the tree only its magic number is read: a
//! blob that carries it reports the one region at which the common boards
//! have their memory.

use vstd::prelude::*;
use super::bytes::{read_u32_be, u32_be};
use super::MemoryRegion;

verus! {

/// The magic number of a flattened device tree.
pub const FDT_MAGIC: u32 = 0xd00dfeed;

/// The address at which the memory of the common boards begins.
pub const DEFAULT_MEMORY_BASE: usize = 0x8000_0000;

/// The size of the memory that is assumed: 256 MiB.
pub const DEFAULT_MEMORY_SIZE: usize = 0x1000_0000;

/// Whether `b` begins with the magic number of a flattened device tree.
pub open spec fn is_device_tree(b: Seq<u8>) -> bool {
    b.len() >= 4 && u32_be(b, 0) == FDT_MAGIC
}

/// The region that every device tree is taken to report.
pub open spec fn default_region() -> MemoryRegion {
    MemoryRegion { base: DEFAULT_MEMORY_BASE, size: DEFAULT_MEMORY_SIZE, available: true }
}

/// Appends the memory of the device tree to `regions`: the default region.
pub fn parse_memory_node(regions: &mut Vec<MemoryRegion>)
    ensures
        final(regions)@ == old(regions)@.push(default_region()),
{
    regions.push(
        MemoryRegion { base: DEFAULT_MEMORY_BASE, size: DEFAULT_MEMORY_SIZE, available: true },
    );
}

/// The regions of memory of the device tree blob `b`: the default region
/// for a blob with the magic number, nothing for any other.
pub fn parse(b: &[u8]) -> (out: Vec<MemoryRegion>)
    ensures
        out@ == (if is_device_tree(b@) {
            seq![default_region()]
        } else {
            Seq::<MemoryRegion>::empty()
        }),
{
    let mut regions: Vec<MemoryRegion> = Vec::new();
    if b.len() < 4 {
        return regions;
    }
    let magic = read_u32_be(b, 0);
    if magic != FDT_MAGIC {
        return regions;
    }
    parse_memory_node(&mut regions);
    proof {
        assert(regions@ =~= seq![default_region()]);
    }
    regions
}

} // verus!
