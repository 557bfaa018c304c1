//! Capability subsystem and ownership-style page façade of a small exokernel.
//!
//! All state is held in values that the caller owns and passes in: the
//! capability table, the physical page allocator and the process-id counter.
//! Every operation carries a contract over the mathematical model of that state.

pub mod arch;
pub mod boot;
pub mod capability;
pub mod libos_interface;
pub mod mm;
