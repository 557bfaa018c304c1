use exokernel::arch::x86_64::multiboot2::{Multiboot2Header, MULTIBOOT2_MAGIC};
use exokernel::arch::x86_64::{info_types, tag_types, GdtEntry};
use exokernel::arch::{PAGE_SHIFT, PAGE_SIZE};
use exokernel::boot::bytes::{read_u32_be, read_u32_le, read_u64_le};
use exokernel::boot::{
    devicetree, largest_available, multiboot2, parse_boot_info, BootFormat, MemoryRegion,
};
use exokernel::mm::physical::{alloc_raw, free_pages, PhysicalAllocator};

fn le32(v: u32) -> Vec<u8> {
    v.to_le_bytes().to_vec()
}

fn le64(v: u64) -> Vec<u8> {
    v.to_le_bytes().to_vec()
}

fn mmap_entry(base: u64, length: u64, typ: u32) -> Vec<u8> {
    let mut e = le64(base);
    e.extend(le64(length));
    e.extend(le32(typ));
    e.extend(le32(0));
    e
}

/// A boot information block with a name tag, a memory map of `entries` and
/// the end tag.
fn boot_block(entries: &[Vec<u8>]) -> Vec<u8> {
    let mut tags: Vec<u8> = Vec::new();
    // A boot loader name of five bytes, padded to eight.
    tags.extend(le32(2));
    tags.extend(le32(13));
    tags.extend(b"GRUB\0\0\0\0".to_vec());
    // The memory map.
    tags.extend(le32(6));
    tags.extend(le32(16 + 24 * entries.len() as u32));
    tags.extend(le32(24));
    tags.extend(le32(0));
    for e in entries {
        tags.extend(e.clone());
    }
    // The end.
    tags.extend(le32(0));
    tags.extend(le32(8));
    let mut block = le32(8 + tags.len() as u32);
    block.extend(le32(0));
    block.extend(tags);
    block
}

#[test]
fn page_constants() {
    assert_eq!(PAGE_SIZE, 4096);
    assert_eq!(1usize << PAGE_SHIFT, PAGE_SIZE);
}

#[test]
fn integers_are_read_in_both_orders() {
    let b = [0x01u8, 0x02, 0x03, 0x04, 0x05, 0x06, 0x07, 0x08];
    assert_eq!(read_u32_le(&b, 0), 0x0403_0201);
    assert_eq!(read_u32_le(&b, 4), 0x0807_0605);
    assert_eq!(read_u32_be(&b, 0), 0x0102_0304);
    assert_eq!(read_u64_le(&b, 0), 0x0807_0605_0403_0201);
}

#[test]
fn multiboot2_memory_map() {
    let block = boot_block(&[
        mmap_entry(0, 0x9_fc00, 1),
        mmap_entry(0x9_fc00, 0x400, 2),
        mmap_entry(0x10_0000, 0x7fe_0000, 1),
        mmap_entry(0x800_0000, 0, 1),
    ]);
    let regions = multiboot2::parse(&block);
    assert_eq!(
        regions,
        vec![
            MemoryRegion { base: 0, size: 0x9_fc00, available: true },
            MemoryRegion { base: 0x10_0000, size: 0x7fe_0000, available: true },
        ]
    );
}

#[test]
fn multiboot2_stops_at_the_end_tag_and_at_the_total_size() {
    let mut block = boot_block(&[mmap_entry(0x10_0000, 0x1000, 1)]);
    // What follows the end tag is not read.
    let mut more = le32(6);
    more.extend(le32(40));
    more.extend(le32(24));
    more.extend(le32(0));
    more.extend(mmap_entry(0x20_0000, 0x1000, 1));
    block.extend(more);
    assert_eq!(multiboot2::parse(&block).len(), 1);
    // A total size that cuts the memory map cuts the list.
    let mut cut = boot_block(&[mmap_entry(0x10_0000, 0x1000, 1), mmap_entry(0x20_0000, 0x1000, 1)]);
    let total = 8 + 16 + 16 + 24 + 10;
    cut[0..4].copy_from_slice(&(total as u32).to_le_bytes());
    assert_eq!(
        multiboot2::parse(&cut),
        vec![MemoryRegion { base: 0x10_0000, size: 0x1000, available: true }]
    );
}

#[test]
fn multiboot2_malformed_blocks_end_the_walk() {
    assert!(multiboot2::parse(&[]).is_empty());
    assert!(multiboot2::parse(&[1, 2, 3]).is_empty());
    // A tag of size zero would never advance.
    let mut block = le32(24);
    block.extend(le32(0));
    block.extend(le32(9));
    block.extend(le32(0));
    block.extend(le32(6));
    block.extend(le32(16));
    assert!(multiboot2::parse(&block).is_empty());
    // An entry size of zero would never advance.
    let mut tags = le32(6);
    tags.extend(le32(16 + 24));
    tags.extend(le32(0));
    tags.extend(le32(0));
    tags.extend(mmap_entry(0x10_0000, 0x1000, 1));
    let mut block = le32(8 + tags.len() as u32);
    block.extend(le32(0));
    block.extend(tags);
    assert!(multiboot2::parse(&block).is_empty());
}

#[test]
fn device_tree_reports_the_default_region() {
    let blob = [0xd0u8, 0x0d, 0xfe, 0xed, 0, 0, 0, 0x48];
    assert_eq!(
        devicetree::parse(&blob),
        vec![MemoryRegion { base: 0x8000_0000, size: 256 * 1024 * 1024, available: true }]
    );
    assert!(devicetree::parse(&[0xed, 0xfe, 0x0d, 0xd0]).is_empty());
    assert!(devicetree::parse(&[0xd0, 0x0d]).is_empty());
}

#[test]
fn boot_info_by_format() {
    let block = boot_block(&[mmap_entry(0x10_0000, 0x1000, 1)]);
    assert!(parse_boot_info(BootFormat::Multiboot2, None).is_empty());
    assert_eq!(parse_boot_info(BootFormat::Multiboot2, Some(&block)).len(), 1);
    assert!(parse_boot_info(BootFormat::DeviceTree, Some(&block)).is_empty());
    assert!(parse_boot_info(BootFormat::Other, Some(&block)).is_empty());
    let blob = [0xd0u8, 0x0d, 0xfe, 0xed];
    assert_eq!(parse_boot_info(BootFormat::DeviceTree, Some(&blob)).len(), 1);
}

#[test]
fn largest_available_region_is_the_first_of_the_largest() {
    let regions = vec![
        MemoryRegion { base: 0x1000, size: 0x4000, available: true },
        MemoryRegion { base: 0x10_0000, size: 0x100_0000, available: false },
        MemoryRegion { base: 0x20_0000, size: 0x8000, available: true },
        MemoryRegion { base: 0x30_0000, size: 0x8000, available: true },
    ];
    assert_eq!(largest_available(&regions), Some(2));
    assert_eq!(largest_available(&Vec::new()), None);
    let none = vec![MemoryRegion { base: 0, size: 0x1000, available: false }];
    assert_eq!(largest_available(&none), None);
}

#[test]
fn memory_init_takes_the_largest_available_region() {
    let mut phys = PhysicalAllocator::empty();
    let regions = vec![
        MemoryRegion { base: 0x1000, size: 0x4000, available: true },
        MemoryRegion { base: 0x10_0000, size: 0x100_0000, available: false },
        MemoryRegion { base: 0x20_0000, size: 0x8000, available: true },
    ];
    let chosen = exokernel::mm::init(&mut phys, regions);
    assert_eq!(chosen, Some(MemoryRegion { base: 0x20_0000, size: 0x8000, available: true }));
    assert_eq!(free_pages(&phys), 8);
    assert_eq!(alloc_raw(&mut phys, 1), Some(0x20_0000));
    let unchanged = exokernel::mm::init(&mut phys, Vec::new());
    assert_eq!(unchanged, None);
    assert_eq!(free_pages(&phys), 7);
}

#[test]
fn multiboot2_header_checksum() {
    let h = Multiboot2Header::new(24);
    assert_eq!(h.magic, 0xE85250D6);
    assert_eq!(h.magic, MULTIBOOT2_MAGIC);
    assert_eq!(h.architecture, 0);
    assert_eq!(h.header_length, 24);
    assert_eq!(h.checksum, 0x17ADAF12);
    assert_eq!(
        h.magic
            .wrapping_add(h.architecture)
            .wrapping_add(h.header_length)
            .wrapping_add(h.checksum),
        0
    );
    assert_eq!(tag_types::END, 0);
    assert_eq!(tag_types::RELOCATABLE, 10);
    assert_eq!(info_types::MMAP, 6);
    assert_eq!(info_types::IMAGE_LOAD_BASE_ADDR, 21);
}

#[test]
fn gdt_entries() {
    let code = GdtEntry::new(0x9A, 0xA);
    assert_eq!(code.limit_low, 0xFFFF);
    assert_eq!(code.access, 0x9A);
    assert_eq!(code.granularity, 0xEF);
    assert_eq!(GdtEntry::new(0x92, 0xC).granularity, 0xCF);
    assert_eq!(GdtEntry::new(0x92, 0x1).granularity, 0xDF);
    let null = GdtEntry::null();
    assert_eq!(null.limit_low, 0);
    assert_eq!(null.granularity, 0);
}
