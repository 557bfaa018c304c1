//! The Multiboot2 boot information block: a total size, then tags of eight
//! bytes of header each, aligned to eight bytes. The memory map tag lists
//! the regions of memory.

use vstd::prelude::*;
use super::bytes::{read_u32_le, read_u64_le, u32_le, u64_le};
use super::MemoryRegion;

verus! {

/// The tag that ends the block.
pub const MULTIBOOT2_TAG_END: u32 = 0;

/// The tag that holds the memory map.
pub const MULTIBOOT2_TAG_MMAP: u32 = 6;

/// The kind of a memory map entry for memory that can be used.
pub const MMAP_AVAILABLE: u32 = 1;

/// The bytes of one memory map entry that are read: base, length and kind.
pub const MMAP_ENTRY_BYTES: usize = 20;

/// `n` rounded up to a multiple of eight.
pub open spec fn align8(n: int) -> int {
    ((n + 7) / 8) * 8
}

/// The region of the memory map entry at `off`, where the entry is memory
/// of non-zero length that can be used.
pub open spec fn entry_region(b: Seq<u8>, off: int) -> Option<MemoryRegion> {
    if u32_le(b, off + 16) == MMAP_AVAILABLE && u64_le(b, off + 8) > 0 {
        Some(
            MemoryRegion {
                base: u64_le(b, off) as usize,
                size: u64_le(b, off + 8) as usize,
                available: true,
            },
        )
    } else {
        None
    }
}

/// The regions of the memory map entries from `off` up to `end`, each
/// `entry_size` bytes after the one before. An entry that does not lie
/// within `end` ends the list, and so does an entry size of zero.
pub open spec fn entries(b: Seq<u8>, off: int, end: int, entry_size: int) -> Seq<MemoryRegion>
    decreases
            (if end > off {
                end - off
            } else {
                0int
            }),
{
    if off < 0 || off + MMAP_ENTRY_BYTES > end || entry_size <= 0 {
        Seq::empty()
    } else {
        let rest = entries(b, off + entry_size, end, entry_size);
        match entry_region(b, off) {
            Some(r) => seq![r] + rest,
            None => rest,
        }
    }
}

/// The regions of the memory map tag at `off`, whose entries end where the
/// tag ends, and at `end` at the latest.
pub open spec fn tag_regions(b: Seq<u8>, off: int, end: int) -> Seq<MemoryRegion> {
    if off + 16 > end {
        Seq::empty()
    } else {
        let size = u32_le(b, off + 4) as int;
        let stop = if off + size < end {
            off + size
        } else {
            end
        };
        entries(b, off + 16, stop, u32_le(b, off + 8) as int)
    }
}

/// The regions of the tags from `off` up to `end`. The end tag ends the
/// list, and so does a tag that does not lie within `end` or has no size.
pub open spec fn tags(b: Seq<u8>, off: int, end: int) -> Seq<MemoryRegion>
    decreases
            (if end > off {
                end - off
            } else {
                0int
            }),
{
    if off < 0 || off + 8 > end {
        Seq::empty()
    } else if u32_le(b, off) == MULTIBOOT2_TAG_END {
        Seq::empty()
    } else {
        let here = if u32_le(b, off) == MULTIBOOT2_TAG_MMAP {
            tag_regions(b, off, end)
        } else {
            Seq::empty()
        };
        let step = align8(u32_le(b, off + 4) as int);
        if step <= 0 {
            here
        } else {
            here + tags(b, off + step, end)
        }
    }
}

/// The regions that a boot information block reports: those of its tags
/// from byte 8 up to its total size, and up to the end of the block at the
/// latest.
pub open spec fn regions(b: Seq<u8>) -> Seq<MemoryRegion> {
    if b.len() < 8 {
        Seq::empty()
    } else {
        let total = u32_le(b, 0) as int;
        tags(
            b,
            8,
            if total < b.len() {
                total
            } else {
                b.len() as int
            },
        )
    }
}

/// Appends the regions of the memory map tag at `off` to `regions`.
pub fn parse_memory_map(b: &[u8], off: usize, end: usize, regions: &mut Vec<MemoryRegion>)
    requires
        off + 8 <= end <= b@.len(),
    ensures
        final(regions)@ == old(regions)@ + tag_regions(b@, off as int, end as int),
{
    if end - off < 16 {
        assert(old(regions)@ + Seq::<MemoryRegion>::empty() =~= old(regions)@);
        return ;
    }
    let size = read_u32_le(b, off + 4) as usize;
    let entry_size = read_u32_le(b, off + 8) as usize;
    let stop = if size < end - off {
        off + size
    } else {
        end
    };
    let mut at: usize = off + 16;
    let ghost all = tag_regions(b@, off as int, end as int);
    proof {
        assert(old(regions)@ + all =~= regions@ + entries(
            b@,
            at as int,
            stop as int,
            entry_size as int,
        ));
    }
    while stop >= MMAP_ENTRY_BYTES && at <= stop - MMAP_ENTRY_BYTES && entry_size > 0
        invariant
            stop <= end <= b@.len(),
            old(regions)@ + all == regions@ + entries(
                b@,
                at as int,
                stop as int,
                entry_size as int,
            ),
        decreases stop - at,
    {
        let base_addr = read_u64_le(b, at);
        let length = read_u64_le(b, at + 8);
        let typ = read_u32_le(b, at + 16);
        let ghost rest = entries(b@, at + entry_size, stop as int, entry_size as int);
        let ghost before = regions@;
        if typ == MMAP_AVAILABLE && length > 0 {
            regions.push(
                MemoryRegion {
                    base: #[verifier::truncate]
                    (base_addr as usize),
                    size: #[verifier::truncate]
                    (length as usize),
                    available: true,
                },
            );
            proof {
                let r = entry_region(b@, at as int)->0;
                assert(before + (seq![r] + rest) =~= before.push(r) + rest);
            }
        }
        if entry_size > stop - at {
            proof {
                assert(rest =~= Seq::<MemoryRegion>::empty());
                assert(regions@ + rest =~= regions@);
                assert(entries(b@, stop as int, stop as int, entry_size as int)
                    =~= Seq::<MemoryRegion>::empty());
                assert(regions@ + entries(b@, stop as int, stop as int, entry_size as int)
                    =~= regions@);
            }
            at = stop;
        } else {
            at = at + entry_size;
        }
    }
    proof {
        assert(entries(b@, at as int, stop as int, entry_size as int)
            =~= Seq::<MemoryRegion>::empty());
        assert(regions@ + Seq::<MemoryRegion>::empty() =~= regions@);
    }
}

/// The regions of memory that the Multiboot2 boot information block `b`
/// reports as available, in the order of the block.
pub fn parse(b: &[u8]) -> (out: Vec<MemoryRegion>)
    ensures
        out@ == regions(b@),
{
    let mut out: Vec<MemoryRegion> = Vec::new();
    if b.len() < 8 {
        return out;
    }
    let total = read_u32_le(b, 0) as usize;
    let end = if total < b.len() {
        total
    } else {
        b.len()
    };
    let mut at: usize = 8;
    proof {
        assert(out@ + tags(b@, 8, end as int) =~= tags(b@, 8, end as int));
    }
    while end >= 8 && at <= end - 8
        invariant
            end <= b@.len(),
            regions(b@) == tags(b@, 8, end as int),
            regions(b@) == out@ + tags(b@, at as int, end as int),
        decreases end - at,
    {
        let typ = read_u32_le(b, at);
        if typ == MULTIBOOT2_TAG_END {
            proof {
                assert(out@ + Seq::<MemoryRegion>::empty() =~= out@);
            }
            return out;
        }
        let size = read_u32_le(b, at + 4);
        let ghost before = out@;
        let ghost here = if typ == MULTIBOOT2_TAG_MMAP {
            tag_regions(b@, at as int, end as int)
        } else {
            Seq::<MemoryRegion>::empty()
        };
        if typ == MULTIBOOT2_TAG_MMAP {
            parse_memory_map(b, at, end, &mut out);
        }
        proof {
            assert(out@ =~= before + here);
        }
        let step: u64 = (size as u64 + 7) / 8 * 8;
        let ghost rest = tags(b@, at + align8(size as int), end as int);
        proof {
            assert(step as int == align8(size as int));
        }
        if step == 0 {
            proof {
                assert(out@ + Seq::<MemoryRegion>::empty() =~= out@);
            }
            return out;
        }
        proof {
            assert(before + (here + rest) =~= (before + here) + rest);
        }
        if step > (end - at) as u64 {
            proof {
                assert(rest =~= Seq::<MemoryRegion>::empty());
                assert(out@ + rest =~= out@);
            }
            return out;
        }
        at = at + step as usize;
    }
    proof {
        assert(tags(b@, at as int, end as int) =~= Seq::<MemoryRegion>::empty());
        assert(out@ + Seq::<MemoryRegion>::empty() =~= out@);
    }
    out
}

} // verus!
