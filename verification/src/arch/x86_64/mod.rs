//! Plain data of the x86-64 boot path: descriptor table entries and the
//! Multiboot2 header.

pub mod info_types;
pub mod multiboot2;
pub mod tag_types;

use vstd::prelude::*;

verus! {

/// One entry of the global descriptor table.
#[derive(Debug, Clone, Copy, PartialEq, Eq, Structural)]
pub struct GdtEntry {
    pub limit_low: u16,
    pub base_low: u16,
    pub base_mid: u8,
    pub access: u8,
    pub granularity: u8,
    pub base_high: u8,
}

impl GdtEntry {
    /// A flat segment over the whole address space: base 0, limit all ones,
    /// with the access byte `access` and the low four bits of `flags` in the
    /// high half of the granularity byte.
    pub fn new(access: u8, flags: u8) -> (e: Self)
        ensures
            e == (GdtEntry {
                limit_low: 0xFFFF,
                base_low: 0,
                base_mid: 0,
                access,
                granularity: 0xCFu8 | (flags << 4u8),
                base_high: 0,
            }),
    {
        GdtEntry {
            limit_low: 0xFFFF,
            base_low: 0,
            base_mid: 0,
            access,
            granularity: 0xCFu8 | (flags << 4u8),
            base_high: 0,
        }
    }

    /// The null descriptor: every field zero.
    pub fn null() -> (e: Self)
        ensures
            e == (GdtEntry {
                limit_low: 0,
                base_low: 0,
                base_mid: 0,
                access: 0,
                granularity: 0,
                base_high: 0,
            }),
    {
        GdtEntry { limit_low: 0, base_low: 0, base_mid: 0, access: 0, granularity: 0, base_high: 0 }
    }
}

} // verus!
