//! Constants and plain data of the architecture layer that the core consumes.

pub mod x86_64;

use vstd::prelude::*;

verus! {

/// Size of one physical page in bytes.
pub const PAGE_SIZE: usize = 4096;

/// Binary logarithm of [`PAGE_SIZE`].
pub const PAGE_SHIFT: usize = 12;

} // verus!
