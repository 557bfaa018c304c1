//! The Multiboot2 header and its tags, as plain values.

use vstd::prelude::*;

verus! {

/// The magic number of a Multiboot2 header.
pub const MULTIBOOT2_MAGIC: u32 = 0xE85250D6;

/// The architecture field for the 32-bit protected mode of i386.
pub const MULTIBOOT2_ARCH_I386: u32 = 0;

/// The longest header whose length, added to the magic number and the
/// architecture, still fits in 32 bits.
pub const MAX_HEADER_LENGTH: u32 = 0x17ADAF29;

/// The fixed part of a Multiboot2 header.
#[derive(Debug, Clone, Copy, PartialEq, Eq, Structural)]
pub struct Multiboot2Header {
    pub magic: u32,
    pub architecture: u32,
    pub header_length: u32,
    pub checksum: u32,
}

impl Multiboot2Header {
    /// Whether the four fields add up to zero modulo 2^32, as a boot loader
    /// demands.
    pub open spec fn balanced(self) -> bool {
        (self.magic + self.architecture + self.header_length + self.checksum) % 0x1_0000_0000 == 0
    }

    /// The header for the length `header_length`, with the checksum that
    /// makes the fields add up to zero modulo 2^32.
    pub fn new(header_length: u32) -> (h: Self)
        requires
            header_length <= MAX_HEADER_LENGTH,
        ensures
            h.magic == MULTIBOOT2_MAGIC,
            h.architecture == MULTIBOOT2_ARCH_I386,
            h.header_length == header_length,
            h.checksum == 0x1_0000_0000 - (MULTIBOOT2_MAGIC + header_length),
            h.balanced(),
    {
        Multiboot2Header {
            magic: MULTIBOOT2_MAGIC,
            architecture: MULTIBOOT2_ARCH_I386,
            header_length,
            checksum: 0u32.wrapping_sub(MULTIBOOT2_MAGIC + MULTIBOOT2_ARCH_I386 + header_length),
        }
    }
}

/// What every tag begins with.
#[derive(Debug, Clone, Copy, PartialEq, Eq, Structural)]
pub struct TagHeader {
    pub typ: u16,
    pub flags: u16,
    pub size: u32,
}

/// The tag that asks the boot loader for information.
#[derive(Debug, Clone, Copy)]
pub struct InformationRequestTag {
    pub header: TagHeader,
    pub requests: [u32; 10],
}

/// The tag that asks for a frame buffer.
#[derive(Debug, Clone, Copy, PartialEq, Eq, Structural)]
pub struct FramebufferTag {
    pub header: TagHeader,
    pub width: u32,
    pub height: u32,
    pub depth: u32,
}

/// The tag that asks for modules aligned to pages.
#[derive(Debug, Clone, Copy, PartialEq, Eq, Structural)]
pub struct ModuleAlignTag {
    pub header: TagHeader,
}

/// The tag that says where the image may be loaded.
#[derive(Debug, Clone, Copy, PartialEq, Eq, Structural)]
pub struct RelocatableTag {
    pub header: TagHeader,
    pub min_addr: u32,
    pub max_addr: u32,
    pub align: u32,
    pub preference: u32,
}

/// The tag that ends the header.
#[derive(Debug, Clone, Copy, PartialEq, Eq, Structural)]
pub struct EndTag {
    pub typ: u16,
    pub flags: u16,
    pub size: u32,
}

} // verus!
