//! Rights that a capability can carry, as bits of a `u32`.

use vstd::prelude::*;

verus! {

pub const READ: u32 = 0x01;

pub const WRITE: u32 = 0x02;

pub const EXECUTE: u32 = 0x04;

pub const MAP: u32 = 0x08;

pub const DELETE: u32 = 0x10;

pub const TRANSFER: u32 = 0x20;

pub const GRANT: u32 = 0x40;

pub const REVOKE: u32 = 0x80;

/// Every right.
pub const ALL: u32 = 0xFF;

/// `READ | WRITE`.
pub const RW: u32 = 0x03;

/// `READ`.
pub const RO: u32 = 0x01;

/// The rights that a grant or a transfer can pass on:
/// `READ | WRITE | EXECUTE | MAP | DELETE`.
pub const TRANSFERABLE_MASK: u32 = 0x1F;

/// `WRITE | MAP`: what an exclusive borrow of memory needs.
pub const WRITE_MAP: u32 = 0x0A;

/// `READ | WRITE | MAP`: what an exclusive binding carries.
pub const RW_MAP: u32 = 0x0B;

/// Whether `bits` holds every right of `required`.
pub open spec fn has_all(bits: u32, required: u32) -> bool {
    bits & required == required
}

/// Whether `bits` holds every right of `required`.
pub fn holds(bits: u32, required: u32) -> (r: bool)
    ensures
        r == has_all(bits, required),
{
    (bits & required) == required
}

} // verus!
