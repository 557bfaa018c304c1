//! Why borrowing and giving back keep the table well formed.

use vstd::prelude::*;
use super::borrow::{lemma_release_shared_wf, lemma_try_shared_wf, BorrowView};
use super::resource::{HandleView, ScopeKind, ThreadId};
use super::revoke_proofs::lemma_completed;
use super::state::TableState;

verus! {

/// Replacing the borrow state of a resource by a well-formed one keeps
/// everything well formed but, perhaps, this: the resource may have a queue
/// although it is not borrowed any more.
pub proof fn lemma_with_borrows(s: TableState, rk: (u64, u8), b: BorrowView)
    requires
        s.wf(),
        b.wf(),
    ensures
        s.with_borrows(rk, b).core_ok(),
        s.with_borrows(rk, b).borrowless_pending_ok(rk),
        s.pending_revoke.contains_key(rk) ==> b.has_active() ==> s.with_borrows(rk, b).wf(),
        !s.pending_revoke.contains_key(rk) ==> s.with_borrows(rk, b).wf(),
{
    let t = s.with_borrows(rk, b);
    assert(t.shape_ok());
    assert(t.free_ok());
    assert(t.owner_index_ok());
    assert(t.scope_index_ok());
    assert(t.graph_ok());
    assert(t.unique_ok());
    assert(t.borrows_ok()) by {
        assert forall|x: u32| t.in_use(x) implies t.resource_borrows.contains_key(
            (#[trigger] t.slots[x as int]).resource_id.key(),
        ) by {
            assert(s.in_use(x));
        }
        assert forall|k: (u64, u8)| #[trigger]
            t.resource_borrows.contains_key(k) implies t.resource_borrows[k].wf() by {
            if k != rk {
                assert(s.resource_borrows.contains_key(k));
            }
        }
    }
    assert(t.borrowless_pending_ok(rk)) by {
        assert forall|k: (u64, u8)| #[trigger] t.pending_revoke.contains_key(k) && k
            != rk implies t.borrowed(k) by {
            assert(s.borrowed(k));
        }
    }
    if s.pending_revoke.contains_key(rk) {
        assert(s.borrowed(rk));
    }
    if !s.pending_revoke.contains_key(rk) || b.has_active() {
        assert forall|k: (u64, u8)| #[trigger] t.pending_revoke.contains_key(k) implies t.borrowed(
            k,
        ) by {
            if k != rk {
                assert(s.borrowed(k));
            }
        }
    }
}

/// A shared borrow keeps the table well formed.
pub proof fn lemma_borrow_shared(s: TableState, h: HandleView, tid: ThreadId, scope: ScopeKind)
    requires
        s.wf(),
    ensures
        s.borrow_shared(h, tid, scope).0.wf(),
{
    if s.borrow_gate(h, Some(scope)) is Ok {
        let e = s.slots[h.index as int];
        let rk = e.resource_id.key();
        let b = s.resource_borrows[rk];
        assert(b.wf());
        if s.pending_revoke.contains_key(rk) {
            assert(s.borrowed(rk));
        }
        lemma_try_shared_wf(b, h.index, tid, e.capabilities);
        lemma_with_borrows(s, rk, b.try_shared(h.index, tid, e.capabilities).0);
    }
}

/// An exclusive borrow keeps the table well formed.
pub proof fn lemma_borrow_exclusive(s: TableState, h: HandleView, tid: ThreadId, scope: ScopeKind)
    requires
        s.wf(),
    ensures
        s.borrow_exclusive(h, tid, scope).0.wf(),
{
    if s.borrow_gate(h, Some(scope)) is Ok {
        let e = s.slots[h.index as int];
        let rk = e.resource_id.key();
        let b = s.resource_borrows[rk];
        assert(b.wf());
        if s.pending_revoke.contains_key(rk) {
            assert(s.borrowed(rk));
        }
        lemma_with_borrows(
            s,
            rk,
            b.try_exclusive(h.index, tid, scope, e.capabilities, e.resource_id.typ).0,
        );
    }
}

/// Freezing and unfreezing keep the table well formed.
pub proof fn lemma_freezing(s: TableState, h: HandleView, tid: ThreadId)
    requires
        s.wf(),
    ensures
        s.freeze(h, tid).0.wf(),
        s.unfreeze(h, tid).0.wf(),
{
    if s.borrow_gate(h, None) is Ok {
        let e = s.slots[h.index as int];
        let rk = e.resource_id.key();
        let b = s.resource_borrows[rk];
        assert(b.wf());
        if s.pending_revoke.contains_key(rk) {
            assert(s.borrowed(rk));
        }
        lemma_with_borrows(s, rk, b.freeze(h.index, tid).0);
        lemma_with_borrows(s, rk, b.unfreeze(h.index, tid).0);
    }
}

/// The end of a shared borrow keeps the table well formed.
pub proof fn lemma_release_shared(s: TableState, h: HandleView, tid: ThreadId)
    requires
        s.wf(),
    ensures
        s.release_shared(h, tid).0.wf(),
{
    if s.borrow_gate(h, None) is Ok {
        let rid = s.slots[h.index as int].resource_id;
        let b = s.resource_borrows[rid.key()];
        assert(b.wf());
        lemma_release_shared_wf(b, h.index, tid);
        lemma_with_borrows(s, rid.key(), b.release_shared(h.index, tid).0);
        lemma_completed(s.with_borrows(rid.key(), b.release_shared(h.index, tid).0), rid);
    }
}

/// The end of an exclusive borrow keeps the table well formed.
pub proof fn lemma_release_exclusive(s: TableState, h: HandleView, tid: ThreadId)
    requires
        s.wf(),
    ensures
        s.release_exclusive(h, tid).0.wf(),
{
    if s.borrow_gate(h, None) is Ok {
        let rid = s.slots[h.index as int].resource_id;
        let b = s.resource_borrows[rid.key()];
        assert(b.wf());
        lemma_with_borrows(s, rid.key(), b.release_exclusive(h.index, tid).0);
        lemma_completed(s.with_borrows(rid.key(), b.release_exclusive(h.index, tid).0), rid);
    }
}

} // verus!
