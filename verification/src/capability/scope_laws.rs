//! Laws of scope-tied cleanup: what the end of a scope leaves behind, and
//! in which order it revokes.

use vstd::prelude::*;
use super::bind_proofs::{lemma_counters, lemma_filled_fields, lemma_filled_wf, lemma_lookup};
use super::index::{lemma_pushed, list_of};
use super::resource::{HandleView, ResourceId, ScopeKind, ThreadId};
use super::revoke_proofs::{faded, lemma_revoke_each, lemma_revoke_tree};
use super::scope::{
    distinct_orders, lemma_drained, lemma_newest_first, lemma_revoke_all, newest_first, order_of,
    strictly_descending,
};
use super::slot::{SlotState, MAX_CAPABILITIES};
use super::state::TableState;

verus! {

impl TableState {
    /// Whether no resource is borrowed.
    pub open spec fn unborrowed(self) -> bool {
        forall|k: (u64, u8)| !#[trigger] self.borrowed(k)
    }

    /// Whether the slots in use have pairwise distinct creation sequence
    /// numbers, all below the next one: so it is until the counter wraps.
    pub open spec fn orders_fresh(self) -> bool {
        &&& forall|x: u32|
            self.in_use(x) ==> (#[trigger] self.slots[x as int]).creation_order < self.creation_seq
        &&& forall|x: u32, y: u32|
            self.in_use(x) && self.in_use(y) && x != y ==> (
            #[trigger] self.slots[x as int]).creation_order != (
            #[trigger] self.slots[y as int]).creation_order
    }
}

/// Revocation keeps the scope indices complete and the creation sequence
/// numbers distinct.
pub proof fn lemma_fades_keeps(s: TableState, t: TableState)
    requires
        s.shape_ok(),
        s.fades_to(t),
    ensures
        s.scope_index_complete() ==> t.scope_index_complete(),
        s.orders_fresh() ==> t.orders_fresh(),
        s.unborrowed() ==> t.unborrowed(),
{
    if s.scope_index_complete() {
        assert forall|x: u32| t.in_use(x) implies match (#[trigger] t.slots[x as int]).scope {
            ScopeKind::Process => list_of(t.process_caps, t.slots[x as int].owner_pid).contains(x),
            ScopeKind::Thread(th) => list_of(t.thread_caps, th.0).contains(x),
            ScopeKind::Syscall(th, n) => list_of(t.syscall_caps, (th.0, n)).contains(x),
            ScopeKind::Permanent => true,
        } by {
            assert(faded(s.slots[x as int], t.slots[x as int]));
            assert(s.in_use(x));
            match s.slots[x as int].scope {
                ScopeKind::Process => {
                    assert(list_of(s.process_caps, s.slots[x as int].owner_pid).contains(x));
                },
                ScopeKind::Thread(th) => {
                    assert(list_of(s.thread_caps, th.0).contains(x));
                },
                ScopeKind::Syscall(th, n) => {
                    assert(list_of(s.syscall_caps, (th.0, n)).contains(x));
                },
                ScopeKind::Permanent => {},
            }
        }
    }
    if s.orders_fresh() {
        assert forall|x: u32| t.in_use(x) implies (#[trigger] t.slots[x as int]).creation_order
            < t.creation_seq by {
            assert(faded(s.slots[x as int], t.slots[x as int]));
            assert(s.in_use(x));
        }
        assert forall|x: u32, y: u32| t.in_use(x) && t.in_use(y) && x != y implies (
        #[trigger] t.slots[x as int]).creation_order != (
        #[trigger] t.slots[y as int]).creation_order by {
            assert(faded(s.slots[x as int], t.slots[x as int]));
            assert(faded(s.slots[y as int], t.slots[y as int]));
            assert(s.in_use(x) && s.in_use(y));
        }
    }
    if s.unborrowed() {
        assert forall|k: (u64, u8)| !#[trigger] t.borrowed(k) by {
            assert(!s.borrowed(k));
        }
    }
}

/// Binding keeps the scope indices complete. It keeps the creation sequence
/// numbers distinct where the new number is above every number in use and
/// below the next one.
#[verifier::rlimit(40)]
pub proof fn lemma_bind_keeps(
    s: TableState,
    pid: u32,
    rid: ResourceId,
    caps_bits: u32,
    scope: ScopeKind,
    order: u64,
    parent: Option<u32>,
)
    requires
        s.wf(),
        parent matches Some(p) ==> s.live_on(p, rid),
    ensures
        s.scope_index_complete() ==> s.bind(
            pid,
            rid,
            caps_bits,
            scope,
            order,
            parent,
        ).0.scope_index_complete(),
        s.orders_fresh() && order < s.creation_seq && (forall|x: u32|
            s.in_use(x) ==> (#[trigger] s.slots[x as int]).creation_order < order) ==> s.bind(
            pid,
            rid,
            caps_bits,
            scope,
            order,
            parent,
        ).0.orders_fresh(),
{
    lemma_lookup(s, pid, rid);
    let t = s.bind(pid, rid, caps_bits, scope, order, parent).0;
    if s.lookup(pid, rid) is None && s.bind(pid, rid, caps_bits, scope, order, parent).1 is Ok {
        lemma_filled_wf(s, pid, rid, caps_bits, scope, order);
        lemma_filled_fields(s, pid, rid, caps_bits, scope, order);
        let f = s.filled(pid, rid, caps_bits, scope, order);
        let idx = s.free_slots.last();
        assert(t.slots == f.slots && t.process_caps == f.process_caps && t.thread_caps
            == f.thread_caps && t.syscall_caps == f.syscall_caps && t.creation_seq
            == f.creation_seq);
        match scope {
            ScopeKind::Process => {
                lemma_pushed(s.process_caps, pid, idx);
            },
            ScopeKind::Thread(th) => {
                lemma_pushed(s.thread_caps, th.0, idx);
            },
            ScopeKind::Syscall(th, n) => {
                lemma_pushed(s.syscall_caps, (th.0, n), idx);
            },
            ScopeKind::Permanent => {},
        }
        if s.scope_index_complete() {
            assert forall|x: u32| t.in_use(x) implies match (#[trigger] t.slots[x as int]).scope {
                ScopeKind::Process => list_of(
                    t.process_caps,
                    t.slots[x as int].owner_pid,
                ).contains(x),
                ScopeKind::Thread(th) => list_of(t.thread_caps, th.0).contains(x),
                ScopeKind::Syscall(th, n) => list_of(t.syscall_caps, (th.0, n)).contains(x),
                ScopeKind::Permanent => true,
            } by {
                if x != idx {
                    assert(t.slots[x as int] == s.slots[x as int]);
                    assert(s.in_use(x));
                    match s.slots[x as int].scope {
                        ScopeKind::Process => {
                            assert(list_of(s.process_caps, s.slots[x as int].owner_pid).contains(
                                x,
                            ));
                        },
                        ScopeKind::Thread(th) => {
                            assert(list_of(s.thread_caps, th.0).contains(x));
                        },
                        ScopeKind::Syscall(th, n) => {
                            assert(list_of(s.syscall_caps, (th.0, n)).contains(x));
                        },
                        ScopeKind::Permanent => {},
                    }
                }
            }
        }
        if s.orders_fresh() && order < s.creation_seq && (forall|x: u32|
            s.in_use(x) ==> (#[trigger] s.slots[x as int]).creation_order < order) {
            assert forall|x: u32| t.in_use(x) implies (#[trigger] t.slots[x as int]).creation_order
                < t.creation_seq by {
                if x != idx {
                    assert(t.slots[x as int] == s.slots[x as int]);
                    assert(s.in_use(x));
                }
            }
            assert forall|x: u32, y: u32| t.in_use(x) && t.in_use(y) && x != y implies (
            #[trigger] t.slots[x as int]).creation_order != (
            #[trigger] t.slots[y as int]).creation_order by {
                if x != idx {
                    assert(t.slots[x as int] == s.slots[x as int]);
                    assert(s.in_use(x));
                }
                if y != idx {
                    assert(t.slots[y as int] == s.slots[y as int]);
                    assert(s.in_use(y));
                }
            }
        }
    }
}

/// Taking a creation sequence number, or counting a cache lookup, keeps the
/// scope indices complete; and where the counter does not wrap, every
/// creation sequence number in use stays below the number taken.
proof fn lemma_counters_keep(s: TableState, pid: u32, rid: ResourceId)
    requires
        s.wf(),
    ensures
        s.scope_index_complete() ==> s.sequenced().scope_index_complete() && s.sequenced().cache_counted(
            pid,
            rid,
        ).scope_index_complete() && s.cache_counted(pid, rid).scope_index_complete(),
        s.orders_fresh() && s.creation_seq < u64::MAX ==> s.sequenced().orders_fresh()
            && s.sequenced().cache_counted(pid, rid).orders_fresh(),
        s.orders_fresh() ==> s.cache_counted(pid, rid).orders_fresh(),
{
    let a = s.sequenced();
    let b = a.cache_counted(pid, rid);
    let c = s.cache_counted(pid, rid);
    if s.scope_index_complete() {
        assert forall|x: u32| a.in_use(x) implies match (#[trigger] a.slots[x as int]).scope {
            ScopeKind::Process => list_of(a.process_caps, a.slots[x as int].owner_pid).contains(x),
            ScopeKind::Thread(th) => list_of(a.thread_caps, th.0).contains(x),
            ScopeKind::Syscall(th, n) => list_of(a.syscall_caps, (th.0, n)).contains(x),
            ScopeKind::Permanent => true,
        } by {
            assert(s.in_use(x));
        }
        assert forall|x: u32| b.in_use(x) implies match (#[trigger] b.slots[x as int]).scope {
            ScopeKind::Process => list_of(b.process_caps, b.slots[x as int].owner_pid).contains(x),
            ScopeKind::Thread(th) => list_of(b.thread_caps, th.0).contains(x),
            ScopeKind::Syscall(th, n) => list_of(b.syscall_caps, (th.0, n)).contains(x),
            ScopeKind::Permanent => true,
        } by {
            assert(s.in_use(x));
        }
        assert forall|x: u32| c.in_use(x) implies match (#[trigger] c.slots[x as int]).scope {
            ScopeKind::Process => list_of(c.process_caps, c.slots[x as int].owner_pid).contains(x),
            ScopeKind::Thread(th) => list_of(c.thread_caps, th.0).contains(x),
            ScopeKind::Syscall(th, n) => list_of(c.syscall_caps, (th.0, n)).contains(x),
            ScopeKind::Permanent => true,
        } by {
            assert(s.in_use(x));
        }
    }
    if s.orders_fresh() {
        assert forall|x: u32| c.in_use(x) implies (#[trigger] c.slots[x as int]).creation_order
            < c.creation_seq by {
            assert(s.in_use(x));
        }
        assert forall|x: u32, y: u32| c.in_use(x) && c.in_use(y) && x != y implies (
        #[trigger] c.slots[x as int]).creation_order != (
        #[trigger] c.slots[y as int]).creation_order by {
            assert(s.in_use(x) && s.in_use(y));
        }
        if s.creation_seq < u64::MAX {
            assert forall|x: u32| a.in_use(x) implies (#[trigger] a.slots[x as int]).creation_order
                < a.creation_seq by {
                assert(s.in_use(x));
            }
            assert forall|x: u32, y: u32| a.in_use(x) && a.in_use(y) && x != y implies (
            #[trigger] a.slots[x as int]).creation_order != (
            #[trigger] a.slots[y as int]).creation_order by {
                assert(s.in_use(x) && s.in_use(y));
            }
            assert forall|x: u32| b.in_use(x) implies (#[trigger] b.slots[x as int]).creation_order
                < b.creation_seq by {
                assert(s.in_use(x));
            }
            assert forall|x: u32, y: u32| b.in_use(x) && b.in_use(y) && x != y implies (
            #[trigger] b.slots[x as int]).creation_order != (
            #[trigger] b.slots[y as int]).creation_order by {
                assert(s.in_use(x) && s.in_use(y));
            }
        }
    }
}

/// Where the counter does not wrap, every creation sequence number in use
/// lies below the number that a binding takes.
proof fn lemma_orders_below(s: TableState, pid: u32, rid: ResourceId)
    requires
        s.wf(),
        s.orders_fresh(),
        s.creation_seq < u64::MAX,
    ensures
        forall|x: u32|
            s.sequenced().in_use(x) ==> (#[trigger] s.sequenced().slots[x as int]).creation_order
                < s.creation_seq,
        forall|x: u32|
            s.sequenced().cache_counted(pid, rid).in_use(x) ==> (#[trigger] s.sequenced().cache_counted(
                pid,
                rid,
            ).slots[x as int]).creation_order < s.creation_seq,
{
    let a = s.sequenced();
    let b = a.cache_counted(pid, rid);
    assert forall|x: u32| a.in_use(x) implies (#[trigger] a.slots[x as int]).creation_order
        < s.creation_seq by {
        assert(s.in_use(x));
    }
    assert forall|x: u32| b.in_use(x) implies (#[trigger] b.slots[x as int]).creation_order
        < s.creation_seq by {
        assert(s.in_use(x));
    }
}

/// Binding keeps the scope indices complete, and keeps the creation
/// sequence numbers distinct until the counter wraps.
pub proof fn law_bind_keeps(s: TableState, pid: u32, rid: ResourceId, caps_bits: u32, scope: ScopeKind)
    requires
        s.wf(),
    ensures
        s.scope_index_complete() ==> s.bind_scoped(pid, rid, caps_bits, scope).0.scope_index_complete(),
        s.orders_fresh() && s.creation_seq < u64::MAX ==> s.bind_scoped(
            pid,
            rid,
            caps_bits,
            scope,
        ).0.orders_fresh(),
{
    lemma_counters(s, pid, rid);
    lemma_counters_keep(s, pid, rid);
    if s.orders_fresh() && s.creation_seq < u64::MAX {
        lemma_orders_below(s, pid, rid);
    }
    lemma_bind_keeps(s.sequenced(), pid, rid, caps_bits, scope, s.creation_seq, None);
}

/// A read-only binding keeps the scope indices complete, and keeps the
/// creation sequence numbers distinct until the counter wraps.
pub proof fn law_bind_readonly_keeps(s: TableState, pid: u32, rid: ResourceId)
    requires
        s.wf(),
    ensures
        s.scope_index_complete() ==> s.bind_readonly(pid, rid).0.scope_index_complete(),
        s.orders_fresh() && s.creation_seq < u64::MAX ==> s.bind_readonly(pid, rid).0.orders_fresh(),
{
    lemma_counters(s, pid, rid);
    lemma_counters_keep(s, pid, rid);
    if s.orders_fresh() && s.creation_seq < u64::MAX {
        lemma_orders_below(s, pid, rid);
    }
    lemma_bind_keeps(
        s.sequenced().cache_counted(pid, rid),
        pid,
        rid,
        super::caps::READ,
        ScopeKind::Process,
        s.creation_seq,
        None,
    );
}

/// A grant keeps the scope indices complete, and keeps the creation
/// sequence numbers distinct until the counter wraps.
#[verifier::rlimit(40)]
pub proof fn law_grant_keeps(s: TableState, grantor: u32, grantee: u32, rid: ResourceId, granted: u32)
    requires
        s.wf(),
    ensures
        s.scope_index_complete() ==> s.grant(grantor, grantee, rid, granted).0.scope_index_complete(),
        s.orders_fresh() && s.creation_seq < u64::MAX ==> s.grant(
            grantor,
            grantee,
            rid,
            granted,
        ).0.orders_fresh(),
{
    let t = s.grant(grantor, grantee, rid, granted).0;
    match s.source_of(grantor, rid, super::caps::GRANT) {
        Err(_) => {
            assert(t == s);
        },
        Ok((parent, parent_caps)) => {
            if !super::caps::has_all(parent_caps & super::caps::TRANSFERABLE_MASK, granted) {
                assert(t == s);
            } else {
                let a = s.sequenced();
                assert(t == a.bind(
                    grantee,
                    rid,
                    granted,
                    ScopeKind::Process,
                    s.creation_seq,
                    Some(parent),
                ).0);
                lemma_grant_source(s, grantor, rid, parent);
                lemma_counters(s, grantor, rid);
                lemma_counters_keep(s, grantor, rid);
                if s.orders_fresh() && s.creation_seq < u64::MAX {
                    lemma_orders_below(s, grantor, rid);
                }
                lemma_bind_keeps(
                    a,
                    grantee,
                    rid,
                    granted,
                    ScopeKind::Process,
                    s.creation_seq,
                    Some(parent),
                );
            }
        },
    }
}

/// The source of a grant is a live capability on the resource.
proof fn lemma_grant_source(s: TableState, grantor: u32, rid: ResourceId, parent: u32)
    requires
        s.wf(),
        s.lookup(grantor, rid) == Some(parent),
    ensures
        s.sequenced().live_on(parent, rid),
{
    lemma_lookup(s, grantor, rid);
}

/// A transfer keeps the scope indices complete, and keeps the creation
/// sequence numbers distinct until the counter wraps.
#[verifier::rlimit(40)]
pub proof fn law_transfer_keeps(s: TableState, from: u32, to: u32, rid: ResourceId)
    requires
        s.wf(),
    ensures
        s.scope_index_complete() ==> s.transfer(from, to, rid).0.scope_index_complete(),
        s.orders_fresh() && s.creation_seq < u64::MAX ==> s.transfer(from, to, rid).0.orders_fresh(),
{
    lemma_lookup(s, from, rid);
    if let Ok((idx, _)) = s.source_of(from, rid, super::caps::TRANSFER) {
        lemma_revoke_tree(s, idx, true);
        let m = s.revoke_tree(idx, true).0;
        lemma_fades_keeps(s, m);
        if s.revoke_tree(idx, true).1 is Ok {
            lemma_counters(m, to, rid);
            lemma_counters_keep(m, to, rid);
            if m.orders_fresh() && m.creation_seq < u64::MAX {
                lemma_orders_below(m, to, rid);
            }
            lemma_bind_keeps(
                m.sequenced(),
                to,
                rid,
                s.slots[idx as int].capabilities & super::caps::TRANSFERABLE_MASK,
                ScopeKind::Process,
                m.creation_seq,
                None,
            );
        }
    }
}

/// The borrow operations keep the scope indices complete and the creation
/// sequence numbers distinct.
#[verifier::rlimit(40)]
pub proof fn law_borrow_keeps(s: TableState, h: HandleView, tid: ThreadId, scope: ScopeKind)
    requires
        s.wf(),
    ensures
        s.scope_index_complete() ==> {
            &&& s.borrow_shared(h, tid, scope).0.scope_index_complete()
            &&& s.borrow_exclusive(h, tid, scope).0.scope_index_complete()
            &&& s.release_shared(h, tid).0.scope_index_complete()
            &&& s.release_exclusive(h, tid).0.scope_index_complete()
            &&& s.freeze(h, tid).0.scope_index_complete()
            &&& s.unfreeze(h, tid).0.scope_index_complete()
        },
        s.orders_fresh() ==> {
            &&& s.borrow_shared(h, tid, scope).0.orders_fresh()
            &&& s.borrow_exclusive(h, tid, scope).0.orders_fresh()
            &&& s.release_shared(h, tid).0.orders_fresh()
            &&& s.release_exclusive(h, tid).0.orders_fresh()
            &&& s.freeze(h, tid).0.orders_fresh()
            &&& s.unfreeze(h, tid).0.orders_fresh()
        },
{
    lemma_borrowed_fades(s, s.borrow_shared(h, tid, scope).0);
    lemma_borrowed_fades(s, s.borrow_exclusive(h, tid, scope).0);
    lemma_borrowed_fades(s, s.freeze(h, tid).0);
    lemma_borrowed_fades(s, s.unfreeze(h, tid).0);
    if s.borrow_gate(h, None) is Ok {
        let rid = s.slots[h.index as int].resource_id;
        let b = s.resource_borrows[rid.key()];
        assert(b.wf());
        super::borrow::lemma_release_shared_wf(b, h.index, tid);
        let x = s.with_borrows(rid.key(), b.release_shared(h.index, tid).0);
        super::lend_proofs::lemma_with_borrows(s, rid.key(), b.release_shared(h.index, tid).0);
        super::revoke_proofs::lemma_completed(x, rid);
        lemma_borrowed_fades(s, x);
        lemma_fades_keeps(x, x.completed(rid));
        let y = s.with_borrows(rid.key(), b.release_exclusive(h.index, tid).0);
        super::lend_proofs::lemma_with_borrows(s, rid.key(), b.release_exclusive(h.index, tid).0);
        super::revoke_proofs::lemma_completed(y, rid);
        lemma_borrowed_fades(s, y);
        lemma_fades_keeps(y, y.completed(rid));
    }
}

/// A table that differs from another in its borrow states alone has
/// complete scope indices and distinct creation sequence numbers where the
/// other has.
proof fn lemma_borrowed_fades(s: TableState, t: TableState)
    requires
        s.wf(),
        t == (TableState { resource_borrows: t.resource_borrows, ..s }),
    ensures
        s.scope_index_complete() ==> t.scope_index_complete(),
        s.orders_fresh() ==> t.orders_fresh(),
{
    if s.scope_index_complete() {
        assert forall|x: u32| t.in_use(x) implies match (#[trigger] t.slots[x as int]).scope {
            ScopeKind::Process => list_of(t.process_caps, t.slots[x as int].owner_pid).contains(x),
            ScopeKind::Thread(th) => list_of(t.thread_caps, th.0).contains(x),
            ScopeKind::Syscall(th, n) => list_of(t.syscall_caps, (th.0, n)).contains(x),
            ScopeKind::Permanent => true,
        } by {
            assert(s.in_use(x));
        }
    }
    if s.orders_fresh() {
        assert forall|x: u32| t.in_use(x) implies (#[trigger] t.slots[x as int]).creation_order
            < t.creation_seq by {
            assert(s.in_use(x));
        }
        assert forall|x: u32, y: u32| t.in_use(x) && t.in_use(y) && x != y implies (
        #[trigger] t.slots[x as int]).creation_order != (
        #[trigger] t.slots[y as int]).creation_order by {
            assert(s.in_use(x) && s.in_use(y));
        }
    }
}

/// Distinct creation sequence numbers are a matter of the slots and the
/// counter alone.
proof fn lemma_same_slots_fresh(s: TableState, t: TableState)
    requires
        s.orders_fresh(),
        t.slots == s.slots,
        t.creation_seq == s.creation_seq,
    ensures
        t.orders_fresh(),
{
    assert forall|x: u32| t.in_use(x) implies (#[trigger] t.slots[x as int]).creation_order
        < t.creation_seq by {
        assert(s.in_use(x));
    }
    assert forall|x: u32, y: u32| t.in_use(x) && t.in_use(y) && x != y implies (
    #[trigger] t.slots[x as int]).creation_order != (#[trigger] t.slots[y as int]).creation_order by {
        assert(s.in_use(x) && s.in_use(y));
    }
}

/// The end of a process keeps the creation sequence numbers distinct.
pub proof fn law_process_exit_keeps(s: TableState, pid: u32)
    requires
        s.wf(),
        s.orders_fresh(),
    ensures
        s.process_exit(pid).orders_fresh(),
{
    lemma_drained(s, pid, 0, 0);
    let a = TableState { process_caps: s.process_caps.remove(pid), ..s };
    lemma_revoke_all(a, newest_first(s.slots, list_of(s.process_caps, pid)));
    lemma_same_slots_fresh(s, a);
    lemma_fades_keeps(a, s.process_exit(pid));
}

/// The end of a thread keeps the creation sequence numbers distinct.
pub proof fn law_thread_exit_keeps(s: TableState, tid: u64)
    requires
        s.wf(),
        s.orders_fresh(),
    ensures
        s.thread_exit(tid).orders_fresh(),
{
    lemma_drained(s, 0, tid, 0);
    let b = TableState { thread_caps: s.thread_caps.remove(tid), ..s };
    lemma_revoke_all(b, newest_first(s.slots, list_of(s.thread_caps, tid)));
    lemma_same_slots_fresh(s, b);
    lemma_fades_keeps(b, s.thread_exit(tid));
}

/// The return of a system call keeps the creation sequence numbers distinct.
pub proof fn law_syscall_return_keeps(s: TableState, tid: u64, seq: u64)
    requires
        s.wf(),
        s.orders_fresh(),
    ensures
        s.syscall_return(tid, seq).orders_fresh(),
{
    lemma_drained(s, 0, tid, seq);
    let c = TableState { syscall_caps: s.syscall_caps.remove((tid, seq)), ..s };
    lemma_revoke_all(c, newest_first(s.slots, list_of(s.syscall_caps, (tid, seq))));
    lemma_same_slots_fresh(s, c);
    lemma_fades_keeps(c, s.syscall_return(tid, seq));
}

/// Revocation through a handle keeps the scope indices complete and the
/// creation sequence numbers distinct.
pub proof fn law_revoke_keeps(s: TableState, h: HandleView, strict: bool)
    requires
        s.wf(),
    ensures
        s.scope_index_complete() ==> s.revoke(h, strict).0.scope_index_complete(),
        s.orders_fresh() ==> s.revoke(h, strict).0.orders_fresh(),
{
    super::revoke_proofs::lemma_revoke(s, h, strict);
    lemma_fades_keeps(s, s.revoke(h, strict).0);
}

/// Where no resource is borrowed, the strict mode refuses nothing.
pub proof fn lemma_unborrowed_tree(s: TableState, idx: u32)
    requires
        s.wf(),
        s.unborrowed(),
    ensures
        s.revoke_tree(idx, true).1 is Ok,
    decreases s.age(idx) + 1, 0nat,
{
    if !(idx >= MAX_CAPABILITIES || s.slots[idx as int].state == SlotState::Free) {
        let children = list_of(s.children_of, idx);
        lemma_unborrowed_each(s, children, s.age(idx));
        lemma_revoke_each(s, children, s.age(idx), true);
        let m = s.revoke_each(children, s.age(idx), true).0;
        lemma_fades_keeps(s, m);
        assert(!m.borrowed(m.slots[idx as int].resource_id.key()));
    }
}

proof fn lemma_unborrowed_each(s: TableState, children: Seq<u32>, limit: nat)
    requires
        s.wf(),
        s.unborrowed(),
    ensures
        s.revoke_each(children, limit, true).1 is Ok,
    decreases limit, children.len(),
{
    if children.len() == 0 {
    } else if s.age(children[0]) >= limit {
        lemma_unborrowed_each(s, children.drop_first(), limit);
    } else {
        lemma_unborrowed_tree(s, children[0]);
        lemma_revoke_tree(s, children[0], true);
        let m = s.revoke_tree(children[0], true).0;
        lemma_fades_keeps(s, m);
        lemma_unborrowed_each(m, children.drop_first(), limit);
    }
}

/// Where no resource is borrowed, revoking a list of subtrees leaves every
/// slot of the list free.
proof fn lemma_revoke_all_frees(s: TableState, list: Seq<u32>)
    requires
        s.wf(),
        s.unborrowed(),
        forall|i: int| 0 <= i < list.len() ==> #[trigger] list[i] < MAX_CAPABILITIES,
    ensures
        forall|i: int|
            0 <= i < list.len() ==> s.revoke_all(list).slots[#[trigger] list[i] as int].state
                == SlotState::Free,
    decreases list.len(),
{
    if list.len() > 0 {
        let x = list[0];
        lemma_unborrowed_tree(s, x);
        lemma_revoke_tree(s, x, true);
        let m = s.revoke_tree(x, true).0;
        lemma_fades_keeps(s, m);
        let tail = list.drop_first();
        lemma_revoke_all_frees(m, tail);
        lemma_revoke_all(m, tail);
        let t = m.revoke_all(tail);
        assert forall|i: int| 0 <= i < list.len() implies t.slots[#[trigger] list[i] as int].state
            == SlotState::Free by {
            if i == 0 {
                assert(faded(m.slots[x as int], t.slots[x as int]));
                assert(s.slots[x as int].state != SlotState::Allocating);
                assert(faded(s.slots[x as int], m.slots[x as int]));
            } else {
                assert(tail[i - 1] == list[i]);
            }
        }
    }
}

/// Scope cleanup: where the scope indices are complete and no resource is
/// borrowed, the end of a process leaves no slot in use that the process
/// owns with process scope, and the scope indices complete.
#[verifier::rlimit(40)]
pub proof fn law_process_exit(s: TableState, pid: u32)
    requires
        s.wf(),
        s.scope_index_complete(),
        s.unborrowed(),
    ensures
        forall|x: u32|
            s.process_exit(pid).in_use(x) && (#[trigger] s.process_exit(pid).slots[x as int]).owner_pid
                == pid ==> s.process_exit(pid).slots[x as int].scope != ScopeKind::Process,
        s.process_exit(pid).scope_index_complete(),
        s.process_exit(pid).wf(),
{
    let list = list_of(s.process_caps, pid);
    let sorted = newest_first(s.slots, list);
    let d = TableState { process_caps: s.process_caps.remove(pid), ..s };
    lemma_drained(s, pid, 0, 0);
    lemma_newest_first(s.slots, list);
    assert forall|i: int| 0 <= i < sorted.len() implies #[trigger] sorted[i] < MAX_CAPABILITIES by {
        assert(sorted.contains(sorted[i]));
        assert(list_of(s.process_caps, pid).contains(sorted[i]));
    }
    assert(d.unborrowed()) by {
        assert forall|k: (u64, u8)| !#[trigger] d.borrowed(k) by {
            assert(!s.borrowed(k));
        }
    }
    lemma_revoke_all_frees(d, sorted);
    lemma_revoke_all(d, sorted);
    let t = s.process_exit(pid);
    assert forall|x: u32| t.in_use(x) && (#[trigger] t.slots[x as int]).owner_pid
        == pid implies t.slots[x as int].scope != ScopeKind::Process by {
        assert(faded(d.slots[x as int], t.slots[x as int]));
        if t.slots[x as int].scope == ScopeKind::Process {
            assert(s.in_use(x));
            assert(s.slots[x as int].scope == ScopeKind::Process);
            assert(list.contains(x));
            assert(sorted.contains(x));
            let i = choose|i: int| 0 <= i < sorted.len() && sorted[i] == x;
            assert(t.slots[sorted[i] as int].state == SlotState::Free);
        }
    }
    assert forall|x: u32| t.in_use(x) implies match (#[trigger] t.slots[x as int]).scope {
        ScopeKind::Process => list_of(t.process_caps, t.slots[x as int].owner_pid).contains(x),
        ScopeKind::Thread(th) => list_of(t.thread_caps, th.0).contains(x),
        ScopeKind::Syscall(th, n) => list_of(t.syscall_caps, (th.0, n)).contains(x),
        ScopeKind::Permanent => true,
    } by {
        assert(faded(d.slots[x as int], t.slots[x as int]));
        assert(s.in_use(x));
        match s.slots[x as int].scope {
            ScopeKind::Process => {
                let owner = s.slots[x as int].owner_pid;
                assert(list_of(s.process_caps, owner).contains(x));
                assert(owner != pid);
                assert(list_of(d.process_caps, owner) == list_of(s.process_caps, owner));
                assert(list_of(d.process_caps, owner).contains(x));
            },
            ScopeKind::Thread(th) => {
                assert(list_of(s.thread_caps, th.0).contains(x));
                assert(list_of(d.thread_caps, th.0).contains(x));
            },
            ScopeKind::Syscall(th, n) => {
                assert(list_of(s.syscall_caps, (th.0, n)).contains(x));
                assert(list_of(d.syscall_caps, (th.0, n)).contains(x));
            },
            ScopeKind::Permanent => {},
        }
    }
}

/// Scope cleanup for a thread: where the scope indices are complete and no
/// resource is borrowed, the end of a thread leaves no slot in use with the
/// scope of that thread.
#[verifier::rlimit(40)]
pub proof fn law_thread_exit(s: TableState, tid: u64)
    requires
        s.wf(),
        s.scope_index_complete(),
        s.unborrowed(),
    ensures
        forall|x: u32|
            s.thread_exit(tid).in_use(x) ==> (#[trigger] s.thread_exit(tid).slots[x as int]).scope
                != ScopeKind::Thread(ThreadId(tid)),
        s.thread_exit(tid).wf(),
{
    let list = list_of(s.thread_caps, tid);
    let sorted = newest_first(s.slots, list);
    let d = TableState { thread_caps: s.thread_caps.remove(tid), ..s };
    lemma_drained(s, 0, tid, 0);
    lemma_newest_first(s.slots, list);
    assert forall|i: int| 0 <= i < sorted.len() implies #[trigger] sorted[i] < MAX_CAPABILITIES by {
        assert(sorted.contains(sorted[i]));
        assert(list_of(s.thread_caps, tid).contains(sorted[i]));
    }
    assert(d.unborrowed()) by {
        assert forall|k: (u64, u8)| !#[trigger] d.borrowed(k) by {
            assert(!s.borrowed(k));
        }
    }
    lemma_revoke_all_frees(d, sorted);
    lemma_revoke_all(d, sorted);
    let t = s.thread_exit(tid);
    assert forall|x: u32| t.in_use(x) implies (#[trigger] t.slots[x as int]).scope
        != ScopeKind::Thread(ThreadId(tid)) by {
        assert(faded(d.slots[x as int], t.slots[x as int]));
        if t.slots[x as int].scope == ScopeKind::Thread(ThreadId(tid)) {
            assert(s.in_use(x));
            assert(s.slots[x as int].scope == ScopeKind::Thread(ThreadId(tid)));
            assert(list.contains(x));
            assert(sorted.contains(x));
            let i = choose|i: int| 0 <= i < sorted.len() && sorted[i] == x;
            assert(t.slots[sorted[i] as int].state == SlotState::Free);
        }
    }
}

/// Scope cleanup for a system call: where the scope indices are complete
/// and no resource is borrowed, the return of a system call leaves no slot
/// in use with the scope of that system call.
#[verifier::rlimit(40)]
pub proof fn law_syscall_return(s: TableState, tid: u64, seq: u64)
    requires
        s.wf(),
        s.scope_index_complete(),
        s.unborrowed(),
    ensures
        forall|x: u32|
            s.syscall_return(tid, seq).in_use(x) ==> (
            #[trigger] s.syscall_return(tid, seq).slots[x as int]).scope != ScopeKind::Syscall(
                ThreadId(tid),
                seq,
            ),
        s.syscall_return(tid, seq).wf(),
{
    let list = list_of(s.syscall_caps, (tid, seq));
    let sorted = newest_first(s.slots, list);
    let d = TableState { syscall_caps: s.syscall_caps.remove((tid, seq)), ..s };
    lemma_drained(s, 0, tid, seq);
    lemma_newest_first(s.slots, list);
    assert forall|i: int| 0 <= i < sorted.len() implies #[trigger] sorted[i] < MAX_CAPABILITIES by {
        assert(sorted.contains(sorted[i]));
        assert(list_of(s.syscall_caps, (tid, seq)).contains(sorted[i]));
    }
    assert(d.unborrowed()) by {
        assert forall|k: (u64, u8)| !#[trigger] d.borrowed(k) by {
            assert(!s.borrowed(k));
        }
    }
    lemma_revoke_all_frees(d, sorted);
    lemma_revoke_all(d, sorted);
    let t = s.syscall_return(tid, seq);
    assert forall|x: u32| t.in_use(x) implies (#[trigger] t.slots[x as int]).scope
        != ScopeKind::Syscall(ThreadId(tid), seq) by {
        assert(faded(d.slots[x as int], t.slots[x as int]));
        if t.slots[x as int].scope == ScopeKind::Syscall(ThreadId(tid), seq) {
            assert(s.in_use(x));
            assert(s.slots[x as int].scope == ScopeKind::Syscall(ThreadId(tid), seq));
            assert(list.contains(x));
            assert(sorted.contains(x));
            let i = choose|i: int| 0 <= i < sorted.len() && sorted[i] == x;
            assert(t.slots[sorted[i] as int].state == SlotState::Free);
        }
    }
}

/// Ordering of cleanup: the end of a scope revokes in the order of
/// `newest_first`, which holds every slot of the scope once. Where the
/// creation sequence numbers are distinct, they fall strictly along it.
pub proof fn law_cleanup_order(s: TableState, pid: u32, tid: u64, seq: u64)
    requires
        s.wf(),
        s.orders_fresh(),
    ensures
        strictly_descending(s.slots, newest_first(s.slots, list_of(s.process_caps, pid))),
        strictly_descending(s.slots, newest_first(s.slots, list_of(s.thread_caps, tid))),
        strictly_descending(s.slots, newest_first(s.slots, list_of(s.syscall_caps, (tid, seq)))),
        forall|x: u32| #[trigger]
            newest_first(s.slots, list_of(s.process_caps, pid)).contains(x) <==> list_of(
                s.process_caps,
                pid,
            ).contains(x),
        forall|x: u32| #[trigger]
            newest_first(s.slots, list_of(s.thread_caps, tid)).contains(x) <==> list_of(
                s.thread_caps,
                tid,
            ).contains(x),
        forall|x: u32| #[trigger]
            newest_first(s.slots, list_of(s.syscall_caps, (tid, seq))).contains(x) <==> list_of(
                s.syscall_caps,
                (tid, seq),
            ).contains(x),
{
    let a = list_of(s.process_caps, pid);
    let b = list_of(s.thread_caps, tid);
    let c = list_of(s.syscall_caps, (tid, seq));
    lemma_newest_first(s.slots, a);
    lemma_newest_first(s.slots, b);
    lemma_newest_first(s.slots, c);
    assert(distinct_orders(s.slots, a)) by {
        assert forall|i: int, j: int| 0 <= i < a.len() && 0 <= j < a.len() && i != j implies order_of(
            s.slots,
            a[i],
        ) != order_of(s.slots, a[j]) by {
            assert(s.process_caps.contains_key(pid));
            assert(a.contains(a[i]) && a.contains(a[j]));
            assert(list_of(s.process_caps, pid).contains(a[i]));
            assert(list_of(s.process_caps, pid).contains(a[j]));
            assert(a[i] != a[j]);
        }
    }
    assert(distinct_orders(s.slots, b)) by {
        assert forall|i: int, j: int| 0 <= i < b.len() && 0 <= j < b.len() && i != j implies order_of(
            s.slots,
            b[i],
        ) != order_of(s.slots, b[j]) by {
            assert(s.thread_caps.contains_key(tid));
            assert(b.contains(b[i]) && b.contains(b[j]));
            assert(list_of(s.thread_caps, tid).contains(b[i]));
            assert(list_of(s.thread_caps, tid).contains(b[j]));
            assert(b[i] != b[j]);
        }
    }
    assert(distinct_orders(s.slots, c)) by {
        assert forall|i: int, j: int| 0 <= i < c.len() && 0 <= j < c.len() && i != j implies order_of(
            s.slots,
            c[i],
        ) != order_of(s.slots, c[j]) by {
            assert(s.syscall_caps.contains_key((tid, seq)));
            assert(c.contains(c[i]) && c.contains(c[j]));
            assert(list_of(s.syscall_caps, (tid, seq)).contains(c[i]));
            assert(list_of(s.syscall_caps, (tid, seq)).contains(c[j]));
            assert(c[i] != c[j]);
        }
    }
}

/// The initial table has complete scope indices, no borrow, and distinct
/// creation sequence numbers.
pub proof fn law_initial_keeps()
    ensures
        TableState::initial().scope_index_complete(),
        TableState::initial().unborrowed(),
        TableState::initial().orders_fresh(),
        TableState::initial().exclusivity(),
{
}

/// Borrow exclusivity survives the end of a scope: cleanup touches no borrow.
pub proof fn law_exclusivity_exit(s: TableState, pid: u32, tid: u64, seq: u64)
    requires
        s.wf(),
        s.exclusivity(),
    ensures
        s.process_exit(pid).exclusivity(),
        s.thread_exit(tid).exclusivity(),
        s.syscall_return(tid, seq).exclusivity(),
{
    lemma_drained(s, pid, tid, seq);
    lemma_revoke_all(
        TableState { process_caps: s.process_caps.remove(pid), ..s },
        newest_first(s.slots, list_of(s.process_caps, pid)),
    );
    lemma_revoke_all(
        TableState { thread_caps: s.thread_caps.remove(tid), ..s },
        newest_first(s.slots, list_of(s.thread_caps, tid)),
    );
    lemma_revoke_all(
        TableState { syscall_caps: s.syscall_caps.remove((tid, seq)), ..s },
        newest_first(s.slots, list_of(s.syscall_caps, (tid, seq))),
    );
}

/// After the end of a process, neither the cache nor the table confirms any
/// right of the process on a resource on which its capability had process
/// scope, where the scope indices are complete and no resource is borrowed.
pub proof fn law_exit_denies(s: TableState, pid: u32, rid: ResourceId, required: u32)
    requires
        s.wf(),
        s.scope_index_complete(),
        s.unborrowed(),
        forall|i: int|
            0 <= i < MAX_CAPABILITIES && (#[trigger] s.slots[i]).is_live_for(pid, rid)
                ==> s.slots[i].scope == ScopeKind::Process,
    ensures
        !s.process_exit(pid).verify_fast(pid, rid, required),
        !s.process_exit(pid).holds(pid, rid, required),
        !s.process_exit(pid).cache_counted(pid, rid).holds(pid, rid, required),
{
    law_process_exit(s, pid);
    lemma_drained(s, pid, 0, 0);
    let d = TableState { process_caps: s.process_caps.remove(pid), ..s };
    lemma_revoke_all(d, newest_first(s.slots, list_of(s.process_caps, pid)));
    let t = s.process_exit(pid);
    assert forall|i: int| 0 <= i < MAX_CAPABILITIES implies !(#[trigger] t.slots[i]).is_live_for(
        pid,
        rid,
    ) by {
        assert(faded(d.slots[i], t.slots[i]));
        if t.slots[i].is_live_for(pid, rid) {
            assert(s.slots[i].is_live_for(pid, rid));
            assert(t.in_use(i as u32));
            assert(t.slots[i as u32 as int].owner_pid == pid);
        }
    }
}

} // verus!
