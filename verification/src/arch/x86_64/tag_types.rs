//! The kinds of tag in a Multiboot2 header.

use vstd::prelude::*;

verus! {

pub const END: u16 = 0;

pub const INFORMATION_REQUEST: u16 = 1;

pub const ADDRESS: u16 = 2;

pub const ENTRY_ADDRESS: u16 = 3;

pub const FLAGS: u16 = 4;

pub const FRAMEBUFFER: u16 = 5;

pub const MODULE_ALIGN: u16 = 6;

pub const EFI_BOOT_SERVICES: u16 = 7;

pub const EFI_I386_ENTRY: u16 = 8;

pub const EFI_AMD64_ENTRY: u16 = 9;

pub const RELOCATABLE: u16 = 10;

} // verus!
