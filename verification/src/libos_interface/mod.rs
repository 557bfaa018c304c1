//! What a library operating system sees: typed pages whose construction
//! binds a capability and whose release revokes it.

pub mod ownership_api;
pub mod shared;

pub use shared::{SharedPage, SharedPageInner};
pub use ownership_api::{
    AllocError, BorrowedPageRO, BorrowedPageRW, OwnedPage, PageVec, PhysicalAddr, Syscall,
    SystemInfo,
};
