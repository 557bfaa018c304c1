//! Access tags of a capability handle. They exist at the type level only.

use vstd::prelude::*;

verus! {

/// The handle permits shared reads.
#[derive(Debug)]
pub struct ReadOnly;

/// The handle permits exclusive access.
#[derive(Debug)]
pub struct Exclusive;

/// The handle stems from a frozen exclusive borrow and permits shared reads.
#[derive(Debug)]
pub struct FrozenShared;

} // verus!
