//! Lifetime tags of a capability handle. They exist at the type level only.

use vstd::prelude::*;
use core::marker::PhantomData;

verus! {

#[derive(Debug)]
pub struct Permanent;

#[derive(Debug)]
pub struct Process;

#[derive(Debug)]
pub struct Thread;

#[derive(Debug)]
pub struct Syscall;

/// A marker that carries a lifetime tag `L`.
#[derive(Debug)]
pub struct Scoped<L>(pub PhantomData<L>);

impl<L> Scoped<L> {
    pub fn new() -> Self {
        Scoped(PhantomData)
    }
}

} // verus!
