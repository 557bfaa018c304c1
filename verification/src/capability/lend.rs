//! Borrowing through capabilities: shared, exclusive, frozen.

use vstd::prelude::*;
use super::access;
use super::lend_proofs::{
    lemma_borrow_exclusive, lemma_borrow_shared, lemma_freezing, lemma_release_exclusive,
    lemma_release_shared, lemma_with_borrows,
};
use super::resource::{CapError, CapabilityHandle, ScopeKind, ThreadId};
use super::revoke::try_complete_pending_for;
use super::slot::CapabilityEntry;
use super::state::TableState;
use super::table::{fast_validate, CapabilityTable};

verus! {

/// What a borrow operation does to the borrow state of its resource.
enum BorrowOp {
    Shared(ScopeKind),
    Exclusive(ScopeKind),
    ReleaseShared,
    ReleaseExclusive,
    Freeze,
    Unfreeze,
}

impl BorrowOp {
    /// The operation as a function on tables.
    spec fn apply(self, s: TableState, h: super::resource::HandleView, tid: ThreadId) -> (
        TableState,
        Result<(), CapError>,
    ) {
        match self {
            BorrowOp::Shared(b) => s.borrow_shared(h, tid, b),
            BorrowOp::Exclusive(b) => s.borrow_exclusive(h, tid, b),
            BorrowOp::ReleaseShared => s.release_shared(h, tid),
            BorrowOp::ReleaseExclusive => s.release_exclusive(h, tid),
            BorrowOp::Freeze => s.freeze(h, tid),
            BorrowOp::Unfreeze => s.unfreeze(h, tid),
        }
    }
}

/// Runs one borrow operation: the checks that all of them share, the
/// transition of the borrow state, and after a release the completion of
/// what waited for it.
fn run<A, S>(table: &mut CapabilityTable, h: &CapabilityHandle<A, S>, tid: ThreadId, op: BorrowOp) -> (r:
    Result<(), CapError>)
    requires
        old(table).wf(),
    ensures
        final(table).wf(),
        (final(table)@, r) == op.apply(old(table)@, h@, tid),
{
    let ghost s = table@;
    proof {
        match op {
            BorrowOp::Shared(b) => lemma_borrow_shared(s, h@, tid, b),
            BorrowOp::Exclusive(b) => lemma_borrow_exclusive(s, h@, tid, b),
            BorrowOp::ReleaseShared => lemma_release_shared(s, h@, tid),
            BorrowOp::ReleaseExclusive => lemma_release_exclusive(s, h@, tid),
            BorrowOp::Freeze => lemma_freezing(s, h@, tid),
            BorrowOp::Unfreeze => lemma_freezing(s, h@, tid),
        }
    }
    match fast_validate(table, h) {
        Err(e) => {
            return Err(e);
        },
        Ok(_) => {},
    }
    let e: CapabilityEntry = table.ro[h.index() as usize];
    let legal = match op {
        BorrowOp::Shared(b) => b.can_borrow_from(&e.scope),
        BorrowOp::Exclusive(b) => b.can_borrow_from(&e.scope),
        _ => true,
    };
    if !legal {
        return Err(CapError::PermissionDenied);
    }
    let rid = e.resource_id;
    let rk = (rid.id, rid.typ.code());
    let mut bs = match table.wr.resource_borrows.remove(&rk) {
        Some(bs) => bs,
        None => {
            assert(table@.resource_borrows =~= s.resource_borrows);
            return Err(CapError::ResourceNotFound);
        },
    };
    let ghost before = bs@;
    let r = match op {
        BorrowOp::Shared(_) => bs.try_shared(h.index(), tid, e.capabilities),
        BorrowOp::Exclusive(b) => bs.try_exclusive(
            h.index(),
            tid,
            b,
            e.capabilities,
            rid.resource_type(),
        ),
        BorrowOp::ReleaseShared => bs.release_shared(h.index(), tid),
        BorrowOp::ReleaseExclusive => bs.release_exclusive(h.index(), tid),
        BorrowOp::Freeze => bs.freeze(h.index(), tid),
        BorrowOp::Unfreeze => bs.unfreeze(h.index(), tid),
    };
    let ghost after = bs@;
    table.wr.resource_borrows.insert(rk, bs);
    proof {
        assert(table@.resource_borrows =~= s.resource_borrows.insert(rk, after));
        assert(table@ == s.with_borrows(rk, after));
        if r is Err {
            assert(after == before);
            assert(s.resource_borrows.insert(rk, before) =~= s.resource_borrows);
        }
    }
    match op {
        BorrowOp::ReleaseShared | BorrowOp::ReleaseExclusive => {
            if r.is_ok() {
                proof {
                    super::borrow::lemma_release_shared_wf(before, h@.index, tid);
                    lemma_with_borrows(s, rk, after);
                }
                try_complete_pending_for(table, rid);
            }
        },
        _ => {},
    }
    r
}

/// Takes a shared borrow of the resource of `h` for thread `tid`, with the
/// scope `borrow_scope`.
///
/// `InvalidHandle` where `h` does not pass validation; `PermissionDenied`
/// where `borrow_scope` is not contained in the scope of the capability, or
/// the capability lacks `READ`; `BorrowConflict` where the resource is
/// borrowed exclusively and not frozen by `tid`; `AlreadyBorrowed` where
/// `tid` has this borrow already; `TooManyBorrows` at 65535 shared borrows.
pub fn borrow_shared_ro<S>(
    table: &mut CapabilityTable,
    h: &CapabilityHandle<access::ReadOnly, S>,
    tid: ThreadId,
    borrow_scope: ScopeKind,
) -> (r: Result<(), CapError>)
    requires
        old(table).wf(),
    ensures
        final(table).wf(),
        (final(table)@, r) == old(table)@.borrow_shared(h@, tid, borrow_scope),
{
    run(table, h, tid, BorrowOp::Shared(borrow_scope))
}

/// Takes a shared borrow under a frozen exclusive borrow. The state machine
/// admits it only for the thread that holds the exclusive borrow, and only
/// while that borrow is frozen. Errors as for [`borrow_shared_ro`].
pub fn borrow_shared_from_frozen<S>(
    table: &mut CapabilityTable,
    h: &CapabilityHandle<access::FrozenShared, S>,
    tid: ThreadId,
    borrow_scope: ScopeKind,
) -> (r: Result<(), CapError>)
    requires
        old(table).wf(),
    ensures
        final(table).wf(),
        (final(table)@, r) == old(table)@.borrow_shared(h@, tid, borrow_scope),
{
    run(table, h, tid, BorrowOp::Shared(borrow_scope))
}

/// Takes the exclusive borrow of the resource of `h` for thread `tid`, with
/// the scope `borrow_scope`.
///
/// `InvalidHandle` where `h` does not pass validation; `PermissionDenied`
/// where `borrow_scope` is not contained in the scope of the capability, or
/// the capability lacks the rights that the kind of resource asks for;
/// `BorrowConflict` where the resource has any borrow.
pub fn borrow_exclusive<S>(
    table: &mut CapabilityTable,
    h: &CapabilityHandle<access::Exclusive, S>,
    tid: ThreadId,
    borrow_scope: ScopeKind,
) -> (r: Result<(), CapError>)
    requires
        old(table).wf(),
    ensures
        final(table).wf(),
        (final(table)@, r) == old(table)@.borrow_exclusive(h@, tid, borrow_scope),
{
    run(table, h, tid, BorrowOp::Exclusive(borrow_scope))
}

/// Ends the shared borrow of thread `tid` through `h`. Where this was the
/// last borrow of the resource, the revocations that waited for it complete
/// at once. `InvalidHandle` where `h` does not pass validation, `NotBorrowed`
/// where there is no such borrow.
pub fn release_shared<S>(
    table: &mut CapabilityTable,
    h: &CapabilityHandle<access::ReadOnly, S>,
    tid: ThreadId,
) -> (r: Result<(), CapError>)
    requires
        old(table).wf(),
    ensures
        final(table).wf(),
        (final(table)@, r) == old(table)@.release_shared(h@, tid),
{
    run(table, h, tid, BorrowOp::ReleaseShared)
}

/// Ends a shared borrow that was taken under a frozen exclusive borrow.
/// As [`release_shared`].
pub fn release_shared_frozen<S>(
    table: &mut CapabilityTable,
    h: &CapabilityHandle<access::FrozenShared, S>,
    tid: ThreadId,
) -> (r: Result<(), CapError>)
    requires
        old(table).wf(),
    ensures
        final(table).wf(),
        (final(table)@, r) == old(table)@.release_shared(h@, tid),
{
    run(table, h, tid, BorrowOp::ReleaseShared)
}

/// Ends the exclusive borrow of thread `tid` through `h`. Where this was the
/// last borrow of the resource, the revocations that waited for it complete
/// at once. `InvalidHandle` where `h` does not pass validation, `NotBorrowed`
/// where `tid` does not hold the exclusive borrow through `h`, `StillFrozen`
/// while the borrow is frozen.
pub fn release_exclusive<S>(
    table: &mut CapabilityTable,
    h: &CapabilityHandle<access::Exclusive, S>,
    tid: ThreadId,
) -> (r: Result<(), CapError>)
    requires
        old(table).wf(),
    ensures
        final(table).wf(),
        (final(table)@, r) == old(table)@.release_exclusive(h@, tid),
{
    run(table, h, tid, BorrowOp::ReleaseExclusive)
}

/// Freezes the exclusive borrow of thread `tid` through `h` once more, and
/// returns the handle under which the frozen resource is read.
/// `InvalidHandle` where `h` does not pass validation, `NotBorrowed` where
/// `tid` does not hold the exclusive borrow through `h`.
pub fn freeze_exclusive<S>(
    table: &mut CapabilityTable,
    h: &CapabilityHandle<access::Exclusive, S>,
    tid: ThreadId,
) -> (r: Result<CapabilityHandle<access::FrozenShared>, CapError>)
    requires
        old(table).wf(),
    ensures
        final(table).wf(),
        final(table)@ == old(table)@.freeze(h@, tid).0,
        match r {
            Ok(f) => old(table)@.freeze(h@, tid).1 is Ok && f@ == h@,
            Err(e) => old(table)@.freeze(h@, tid).1 == Err::<(), CapError>(e),
        },
{
    match run(table, h, tid, BorrowOp::Freeze) {
        Ok(_) => Ok(h.retag()),
        Err(e) => Err(e),
    }
}

/// Undoes one freeze of the exclusive borrow of thread `tid` through `h`.
/// `InvalidHandle` where `h` does not pass validation, `NotBorrowed` where
/// `tid` does not hold the exclusive borrow through `h`, `NotFrozen` where
/// the borrow is not frozen.
pub fn unfreeze_exclusive<S>(
    table: &mut CapabilityTable,
    h: &CapabilityHandle<access::Exclusive, S>,
    tid: ThreadId,
) -> (r: Result<(), CapError>)
    requires
        old(table).wf(),
    ensures
        final(table).wf(),
        (final(table)@, r) == old(table)@.unfreeze(h@, tid),
{
    run(table, h, tid, BorrowOp::Unfreeze)
}

} // verus!
