//! The kinds of information that a Multiboot2 header can request.

use vstd::prelude::*;

verus! {

pub const BASIC_MEMINFO: u32 = 4;

pub const BOOTDEV: u32 = 5;

pub const MMAP: u32 = 6;

pub const VBE_INFO: u32 = 7;

pub const FRAMEBUFFER_INFO: u32 = 8;

pub const ELF_SECTIONS: u32 = 9;

pub const APM_TABLE: u32 = 10;

pub const EFI_32_SYSTEM_TABLE: u32 = 11;

pub const EFI_64_SYSTEM_TABLE: u32 = 12;

pub const SMBIOS_TABLES: u32 = 13;

pub const ACPI_OLD: u32 = 14;

pub const ACPI_NEW: u32 = 15;

pub const NETWORK_INFO: u32 = 16;

pub const EFI_MMAP: u32 = 17;

pub const EFI_BOOT_SERVICES_NOT_TERMINATED: u32 = 18;

pub const EFI_32_IMAGE_HANDLE: u32 = 19;

pub const EFI_64_IMAGE_HANDLE: u32 = 20;

pub const IMAGE_LOAD_BASE_ADDR: u32 = 21;

} // verus!
