//! Why binding keeps the table well formed.

use vstd::prelude::*;
use super::borrow::BorrowView;
use super::index::{lemma_pushed, list_of, pushed};
use super::resource::{CapError, ResourceId, ScopeKind, ThreadId};
use super::slot::{CapabilityEntry, SlotState, MAX_CAPABILITIES, MAX_CHILDREN_PER_CAP};
use super::state::TableState;

verus! {

/// `find_live` answers with an entry of the list that is a live capability
/// of `pid` on `rid`, and with `None` only where the list has none.
pub proof fn lemma_find_live(s: TableState, list: Seq<u32>, pid: u32, rid: ResourceId)
    ensures
        match s.find_live(list, pid, rid) {
            Some(i) => list.contains(i) && s.live_at(i, pid, rid),
            None => forall|x: u32| list.contains(x) ==> !s.live_at(x, pid, rid),
        },
    decreases list.len(),
{
    if list.len() > 0 {
        let tail = list.drop_first();
        lemma_find_live(s, tail, pid, rid);
        assert forall|x: u32| list.contains(x) implies (x == list[0] || tail.contains(x)) by {
            let i = choose|i: int| 0 <= i < list.len() && list[i] == x;
            if i > 0 {
                assert(tail[i - 1] == x);
            }
        }
        assert forall|x: u32| tail.contains(x) implies list.contains(x) by {
            let i = choose|i: int| 0 <= i < tail.len() && tail[i] == x;
            assert(list[i + 1] == x);
        }
        assert(list.contains(list[0]));
    }
}

/// What the owner index finds depends on the slots and on the index alone.
pub proof fn lemma_lookup_same(a: TableState, b: TableState, pid: u32, rid: ResourceId)
    requires
        a.slots == b.slots,
        a.quick_cache == b.quick_cache,
    ensures
        a.lookup(pid, rid) == b.lookup(pid, rid),
        a.source_of(pid, rid, super::caps::GRANT) == b.source_of(pid, rid, super::caps::GRANT),
        a.source_of(pid, rid, super::caps::TRANSFER) == b.source_of(
            pid,
            rid,
            super::caps::TRANSFER,
        ),
{
    lemma_find_live_same(a, b, list_of(a.quick_cache, (pid, rid.id, rid.typ.spec_code())), pid, rid);
}

proof fn lemma_find_live_same(a: TableState, b: TableState, list: Seq<u32>, pid: u32, rid: ResourceId)
    requires
        a.slots == b.slots,
    ensures
        a.find_live(list, pid, rid) == b.find_live(list, pid, rid),
    decreases list.len(),
{
    if list.len() > 0 {
        lemma_find_live_same(a, b, list.drop_first(), pid, rid);
    }
}

/// In a well-formed table the owner index finds the live capability of
/// `pid` on `rid` exactly where there is one.
pub proof fn lemma_lookup(s: TableState, pid: u32, rid: ResourceId)
    requires
        s.wf(),
    ensures
        match s.lookup(pid, rid) {
            Some(i) => s.live_at(i, pid, rid) && i < MAX_CAPABILITIES,
            None => forall|i: int|
                0 <= i < MAX_CAPABILITIES ==> !(#[trigger] s.slots[i]).is_live_for(pid, rid),
        },
        forall|i: int|
            0 <= i < MAX_CAPABILITIES && (#[trigger] s.slots[i]).is_live_for(pid, rid)
                ==> s.lookup(pid, rid) == Some(i as u32),
{
    let key = (pid, rid.id, rid.typ.spec_code());
    let list = list_of(s.quick_cache, key);
    lemma_find_live(s, list, pid, rid);
    assert forall|i: int|
        0 <= i < MAX_CAPABILITIES && (#[trigger] s.slots[i]).is_live_for(pid, rid) implies s.lookup(
        pid,
        rid,
    ) == Some(i as u32) by {
        let x = i as u32;
        assert(s.in_use(x));
        assert(s.slots[x as int].owner_key() == key);
        assert(list.contains(x));
        assert(s.live_at(x, pid, rid));
        let f = s.lookup(pid, rid)->0;
        assert(s.slots[f as int].is_live_for(pid, rid));
        if f != x {
            assert(s.slots[f as int].owner_key() == s.slots[x as int].owner_key());
        }
    }
    if let Some(f) = s.lookup(pid, rid) {
        assert(list.contains(f));
        assert(s.in_use(f));
    }
}

/// What `filled` does to each part of the table.
pub proof fn lemma_filled_fields(
    s: TableState,
    pid: u32,
    rid: ResourceId,
    caps_bits: u32,
    scope: ScopeKind,
    order: u64,
)
    requires
        s.caches.len() > 0,
        s.caches[0].recent.len() == super::cache::CACHE_SLOTS,
        s.free_slots.len() > 0,
        s.free_slots.last() < s.slots.len(),
        s.birth.len() == s.slots.len(),
    ensures
        ({
            let t = s.filled(pid, rid, caps_bits, scope, order);
            let idx = s.free_slots.last();
            &&& t.slots == s.slots.update(
                idx as int,
                CapabilityEntry {
                    resource_id: rid,
                    owner_pid: pid,
                    capabilities: caps_bits,
                    generation: s.slots[idx as int].generation,
                    state: SlotState::Live,
                    created_at: s.timestamp,
                    creation_order: order,
                    scope,
                },
            )
            &&& t.free_slots == s.free_slots.drop_last()
            &&& t.quick_cache == pushed(s.quick_cache, (pid, rid.id, rid.typ.spec_code()), idx)
            &&& t.used_count == (s.used_count + 1) as u32
            &&& t.children_of == s.children_of
            &&& t.parent_of == s.parent_of
            &&& t.pending_revoke == s.pending_revoke
            &&& t.birth == s.birth.update(idx as int, s.next_birth)
            &&& t.next_birth == s.next_birth + 1
            &&& t.creation_seq == s.creation_seq
            &&& t.process_caps == s.scope_filed(scope, pid, idx).process_caps
            &&& t.thread_caps == s.scope_filed(scope, pid, idx).thread_caps
            &&& t.syscall_caps == s.scope_filed(scope, pid, idx).syscall_caps
            &&& t.resource_borrows.contains_key(rid.key())
            &&& forall|k: (u64, u8)| #[trigger]
                s.resource_borrows.contains_key(k) ==> t.resource_borrows.contains_key(k)
                    && t.resource_borrows[k] == s.resource_borrows[k]
            &&& forall|k: (u64, u8)| #[trigger]
                t.resource_borrows.contains_key(k) ==> (s.resource_borrows.contains_key(k) || (k
                    == rid.key() && t.resource_borrows[k] == BorrowView::empty()))
            &&& t.caches.len() == s.caches.len()
            &&& forall|c: int|
                0 <= c < s.caches.len() ==> (#[trigger] t.caches[c]).recent.len()
                    == s.caches[c].recent.len()
        }),
{
    super::cache::lemma_cache_slot_range(pid, rid.spec_fast_hash());
}

/// Filling a free slot keeps the table well formed, where the process had
/// no live capability on the resource.
#[verifier::rlimit(40)]
pub proof fn lemma_filled_wf(
    s: TableState,
    pid: u32,
    rid: ResourceId,
    caps_bits: u32,
    scope: ScopeKind,
    order: u64,
)
    requires
        s.wf(),
        s.free_slots.len() > 0,
        s.lookup(pid, rid) is None,
    ensures
        s.filled(pid, rid, caps_bits, scope, order).wf(),
        !s.in_use(s.free_slots.last()),
        s.free_slots.last() < MAX_CAPABILITIES,
        s.used_count < MAX_CAPABILITIES,
        forall|x: u32|
            x < MAX_CAPABILITIES && x != s.free_slots.last() ==> #[trigger] s.filled(
                pid,
                rid,
                caps_bits,
                scope,
                order,
            ).slots[x as int] == s.slots[x as int],
{
    lemma_lookup(s, pid, rid);
    let t = s.filled(pid, rid, caps_bits, scope, order);
    let idx = s.free_slots.last();
    let key = (pid, rid.id, rid.typ.spec_code());
    assert(s.free_slots.contains(idx)) by {
        assert(s.free_slots[s.free_slots.len() - 1] == idx);
    }
    assert(idx < MAX_CAPABILITIES && s.slots[idx as int].state == SlotState::Free);
    lemma_filled_fields(s, pid, rid, caps_bits, scope, order);
    assert(t.shape_ok()) by {
        assert forall|i: int|
            0 <= i < MAX_CAPABILITIES && (#[trigger] t.slots[i]).state
                != SlotState::Free implies t.birth[i] < t.next_birth by {
            if i != idx {
                assert(s.slots[i].state != SlotState::Free);
            }
        }
        assert forall|i: int| 0 <= i < MAX_CAPABILITIES implies (#[trigger] t.slots[i]).state
            != SlotState::Allocating by {
            if i != idx {
                assert(s.slots[i].state != SlotState::Allocating);
            }
        }
    }
    assert(t.free_ok()) by {
        let n = s.free_slots.len() - 1;
        assert forall|x: u32| #[trigger]
            t.free_slots.contains(x) <==> (x < MAX_CAPABILITIES && t.slots[x as int].state
                == SlotState::Free) by {
            assert(s.free_slots.contains(x) <==> (x < MAX_CAPABILITIES && s.slots[x as int].state
                == SlotState::Free));
            if t.free_slots.contains(x) {
                let i = choose|i: int| 0 <= i < t.free_slots.len() && t.free_slots[i] == x;
                assert(s.free_slots[i] == x);
                assert(s.free_slots[n] == idx);
            }
            if s.free_slots.contains(x) && x != idx {
                let i = choose|i: int| 0 <= i < s.free_slots.len() && s.free_slots[i] == x;
                assert(t.free_slots[i] == x);
            }
        }
    }
    assert(t.owner_index_ok()) by {
        lemma_pushed(s.quick_cache, key, idx);
        assert(list_of(s.quick_cache, key).contains(idx) <==> (s.in_use(idx)
            && s.slots[idx as int].owner_key() == key));
        assert forall|k: (u32, u64, u8), x: u32| #[trigger]
            list_of(t.quick_cache, k).contains(x) <==> (t.in_use(x)
                && t.slots[x as int].owner_key() == k) by {
            assert(list_of(s.quick_cache, k).contains(x) <==> (s.in_use(x)
                && s.slots[x as int].owner_key() == k));
        }
    }
    assert(t.scope_index_ok()) by {
        match scope {
            ScopeKind::Process => {
                lemma_pushed(s.process_caps, pid, idx);
                if list_of(s.process_caps, pid).contains(idx) {
                    assert(s.in_use(idx));
                }
            },
            ScopeKind::Thread(th) => {
                lemma_pushed(s.thread_caps, th.0, idx);
                if list_of(s.thread_caps, th.0).contains(idx) {
                    assert(s.in_use(idx));
                }
            },
            ScopeKind::Syscall(th, n) => {
                lemma_pushed(s.syscall_caps, (th.0, n), idx);
                if list_of(s.syscall_caps, (th.0, n)).contains(idx) {
                    assert(s.in_use(idx));
                }
            },
            ScopeKind::Permanent => {},
        }
        assert forall|p: u32, x: u32| #[trigger]
            list_of(t.process_caps, p).contains(x) implies t.in_use(x) && t.slots[x as int].scope
            == ScopeKind::Process && t.slots[x as int].owner_pid == p by {
            if x != idx {
                assert(list_of(s.process_caps, p).contains(x));
            }
        }
        assert forall|th: u64, x: u32| #[trigger]
            list_of(t.thread_caps, th).contains(x) implies t.in_use(x) && t.slots[x as int].scope
            == ScopeKind::Thread(ThreadId(th)) by {
            if x != idx {
                assert(list_of(s.thread_caps, th).contains(x));
            }
        }
        assert forall|k: (u64, u64), x: u32| #[trigger]
            list_of(t.syscall_caps, k).contains(x) implies t.in_use(x) && t.slots[x as int].scope
            == ScopeKind::Syscall(ThreadId(k.0), k.1) by {
            if x != idx {
                assert(list_of(s.syscall_caps, k).contains(x));
            }
        }
    }
    assert(t.graph_ok()) by {
        assert forall|c: u32| #[trigger] t.parent_of.contains_key(c) implies t.in_use(c) && t.in_use(
            t.parent_of[c],
        ) && t.birth[t.parent_of[c] as int] < t.birth[c as int] by {
            assert(s.parent_of.contains_key(c));
            assert(s.in_use(c) && s.in_use(s.parent_of[c]));
        }
        assert forall|c: u32| #[trigger]
            t.parent_of.contains_key(c) implies t.slots[c as int].resource_id
            == t.slots[t.parent_of[c] as int].resource_id && (t.slots[c as int].state
            == SlotState::Live ==> t.slots[t.parent_of[c] as int].state == SlotState::Live) by {
            assert(s.parent_of.contains_key(c));
            assert(s.in_use(c) && s.in_use(s.parent_of[c]));
        }
    }
    assert(t.borrows_ok()) by {
        assert forall|x: u32| t.in_use(x) implies t.resource_borrows.contains_key(
            (#[trigger] t.slots[x as int]).resource_id.key(),
        ) by {
            if x != idx {
                assert(s.in_use(x));
                assert(s.resource_borrows.contains_key(s.slots[x as int].resource_id.key()));
            }
        }
        assert forall|k: (u64, u8)| #[trigger]
            t.resource_borrows.contains_key(k) implies t.resource_borrows[k].wf() by {
            if s.resource_borrows.contains_key(k) {
                assert(s.resource_borrows[k].wf());
            }
        }
    }
    assert(t.unique_ok()) by {
        assert forall|i: int, j: int|
            0 <= i < MAX_CAPABILITIES && 0 <= j < MAX_CAPABILITIES && i != j && (
            #[trigger] t.slots[i]).state == SlotState::Live && (#[trigger] t.slots[j]).state
                == SlotState::Live implies t.slots[i].owner_key() != t.slots[j].owner_key() by {
            if i == idx {
                if t.slots[i].owner_key() == t.slots[j].owner_key() {
                    super::resource::lemma_code_injective(s.slots[j].resource_id.typ, rid.typ);
                    assert(s.slots[j].is_live_for(pid, rid));
                }
            } else if j == idx {
                if t.slots[i].owner_key() == t.slots[j].owner_key() {
                    super::resource::lemma_code_injective(s.slots[i].resource_id.typ, rid.typ);
                    assert(s.slots[i].is_live_for(pid, rid));
                }
            } else {
                assert(s.slots[i].state == SlotState::Live && s.slots[j].state
                    == SlotState::Live);
            }
        }
    }
    assert(t.pending_ok()) by {
        assert forall|k: (u64, u8), x: u32| #[trigger]
            list_of(t.pending_revoke, k).contains(x) <==> (x < MAX_CAPABILITIES
                && t.slots[x as int].state == SlotState::PendingRevoke
                && t.slots[x as int].resource_id.key() == k) by {
            assert(list_of(s.pending_revoke, k).contains(x) <==> (x < MAX_CAPABILITIES
                && s.slots[x as int].state == SlotState::PendingRevoke
                && s.slots[x as int].resource_id.key() == k));
        }
        assert forall|k: (u64, u8)| #[trigger] t.pending_revoke.contains_key(k) implies t.borrowed(
            k,
        ) by {
            assert(s.borrowed(k));
        }
    }
}

/// Recording a new edge of the delegation graph keeps the table well formed.
pub proof fn lemma_linked_wf(t: TableState, p: u32, idx: u32)
    requires
        t.wf(),
        t.in_use(p),
        t.in_use(idx),
        t.slots[p as int].state == SlotState::Live,
        t.slots[p as int].resource_id == t.slots[idx as int].resource_id,
        !t.parent_of.contains_key(idx),
        t.birth[p as int] < t.birth[idx as int],
        list_of(t.children_of, p).len() < MAX_CHILDREN_PER_CAP,
    ensures
        t.linked(p, idx).wf(),
{
    let u = t.linked(p, idx);
    lemma_pushed(t.children_of, p, idx);
    assert(!list_of(t.children_of, p).contains(idx));
    assert(u.graph_ok()) by {
        assert forall|q: u32| #[trigger] u.children_of.contains_key(q) implies u.children_of[q].len()
            <= MAX_CHILDREN_PER_CAP by {
            if q != p {
                assert(t.children_of.contains_key(q));
                assert(list_of(u.children_of, q) == list_of(t.children_of, q));
            } else {
                assert(list_of(u.children_of, p) == list_of(t.children_of, p).push(idx));
            }
        }
        assert forall|q: u32, c: u32| #[trigger]
            list_of(u.children_of, q).contains(c) <==> (u.parent_of.contains_key(c)
                && u.parent_of[c] == q) by {
            assert(list_of(t.children_of, q).contains(c) <==> (t.parent_of.contains_key(c)
                && t.parent_of[c] == q));
        }
        assert forall|c: u32| #[trigger] u.parent_of.contains_key(c) implies u.in_use(c) && u.in_use(
            u.parent_of[c],
        ) && u.birth[u.parent_of[c] as int] < u.birth[c as int] by {
            if c != idx {
                assert(t.parent_of.contains_key(c));
            }
        }
        assert forall|c: u32| #[trigger]
            u.parent_of.contains_key(c) implies u.slots[c as int].resource_id
            == u.slots[u.parent_of[c] as int].resource_id && (u.slots[c as int].state
            == SlotState::Live ==> u.slots[u.parent_of[c] as int].state == SlotState::Live) by {
            if c != idx {
                assert(t.parent_of.contains_key(c));
            }
        }
    }
    assert(u.shape_ok());
    assert(u.free_ok());
    assert(u.owner_index_ok());
    assert(u.scope_index_ok());
    assert(u.borrows_ok());
    assert(u.unique_ok());
    assert(u.pending_ok());
}

/// Binding keeps the table well formed. It fails only with `TableFull`,
/// where no slot is free, or with `TooManyChildren`, where the parent has
/// 32 children; either way nothing changes. Where it succeeds, the handle
/// passes validation and names a live capability of `pid` on `rid`.
#[verifier::rlimit(40)]
pub proof fn lemma_bind(
    s: TableState,
    pid: u32,
    rid: ResourceId,
    caps_bits: u32,
    scope: ScopeKind,
    order: u64,
    parent: Option<u32>,
)
    requires
        s.wf(),
        parent matches Some(p) ==> s.live_on(p, rid),
    ensures
        s.bind(pid, rid, caps_bits, scope, order, parent).0.wf(),
        match s.bind(pid, rid, caps_bits, scope, order, parent).1 {
            Ok(h) => {
                let t = s.bind(pid, rid, caps_bits, scope, order, parent).0;
                &&& t.valid_handle(h)
                &&& t.slots[h.index as int].is_live_for(pid, rid)
                &&& t.handle_at(h.index) == h
            },
            Err(e) => {
                &&& s.bind(pid, rid, caps_bits, scope, order, parent).0 == s
                &&& s.lookup(pid, rid) is None
                &&& if parent matches Some(p) && s.full_below(p) {
                    e == CapError::TooManyChildren
                } else {
                    e == CapError::TableFull && s.free_slots.len() == 0
                }
            },
        },
        s.free_slots.len() > 0 && parent is None ==> s.bind(
            pid,
            rid,
            caps_bits,
            scope,
            order,
            parent,
        ).1 is Ok,
{
    lemma_lookup(s, pid, rid);
    if s.bind(pid, rid, caps_bits, scope, order, parent).1 is Ok && s.lookup(pid, rid) is None {
        lemma_filled_wf(s, pid, rid, caps_bits, scope, order);
        lemma_filled_fields(s, pid, rid, caps_bits, scope, order);
        let t = s.filled(pid, rid, caps_bits, scope, order);
        assert(t.slots[s.free_slots.last() as int].state == SlotState::Live);
        let idx = s.free_slots.last();
        if let Some(p) = parent {
            assert(s.slots[p as int].state != SlotState::Free);
            assert(t.slots[p as int] == s.slots[p as int]);
            if s.parent_of.contains_key(idx) {
                assert(s.in_use(idx));
            }
            lemma_linked_wf(t, p, idx);
        }
    }
}

/// Taking a creation sequence number or counting a cache lookup changes
/// nothing that well-formedness speaks of.
pub proof fn lemma_counters(s: TableState, pid: u32, rid: ResourceId)
    requires
        s.wf(),
    ensures
        s.sequenced().wf(),
        s.cache_counted(pid, rid).wf(),
        s.sequenced().cache_counted(pid, rid).wf(),
{
    let a = s.sequenced();
    assert(a.shape_ok());
    assert(a.free_ok());
    assert(a.owner_index_ok());
    assert(a.scope_index_ok());
    assert(a.graph_ok());
    assert(a.borrows_ok());
    assert(a.unique_ok());
    assert(a.pending_ok());
    let b = s.cache_counted(pid, rid);
    assert(b.shape_ok());
    assert(b.free_ok());
    assert(b.owner_index_ok());
    assert(b.scope_index_ok());
    assert(b.graph_ok());
    assert(b.borrows_ok());
    assert(b.unique_ok());
    assert(b.pending_ok());
    let c = a.cache_counted(pid, rid);
    assert(c.shape_ok());
    assert(c.free_ok());
    assert(c.owner_index_ok());
    assert(c.scope_index_ok());
    assert(c.graph_ok());
    assert(c.borrows_ok());
    assert(c.unique_ok());
    assert(c.pending_ok());
}

/// The binding operations keep the table well formed.
pub proof fn lemma_bind_ops(s: TableState, pid: u32, rid: ResourceId, caps_bits: u32, scope: ScopeKind)
    requires
        s.wf(),
    ensures
        s.bind_readonly(pid, rid).0.wf(),
        s.bind_scoped(pid, rid, caps_bits, scope).0.wf(),
        s.bind_exclusive(pid, rid).0.wf(),
{
    lemma_counters(s, pid, rid);
    lemma_bind(
        s.sequenced().cache_counted(pid, rid),
        pid,
        rid,
        super::caps::READ,
        ScopeKind::Process,
        s.creation_seq,
        None,
    );
    lemma_bind(s.sequenced(), pid, rid, caps_bits, scope, s.creation_seq, None);
    lemma_bind(
        s.sequenced(),
        pid,
        rid,
        super::caps::RW_MAP,
        ScopeKind::Process,
        s.creation_seq,
        None,
    );
}

/// A grant keeps the table well formed.
pub proof fn lemma_grant(s: TableState, grantor: u32, grantee: u32, rid: ResourceId, granted: u32)
    requires
        s.wf(),
    ensures
        s.grant(grantor, grantee, rid, granted).0.wf(),
{
    lemma_lookup(s, grantor, rid);
    lemma_counters(s, grantor, rid);
    if let Ok((parent, _)) = s.source_of(grantor, rid, super::caps::GRANT) {
        assert(s.sequenced().live_on(parent, rid));
        lemma_bind(
            s.sequenced(),
            grantee,
            rid,
            granted,
            ScopeKind::Process,
            s.creation_seq,
            Some(parent),
        );
    }
}

/// A transfer keeps the table well formed.
pub proof fn lemma_transfer(s: TableState, from: u32, to: u32, rid: ResourceId)
    requires
        s.wf(),
    ensures
        s.transfer(from, to, rid).0.wf(),
{
    lemma_lookup(s, from, rid);
    if let Ok((idx, source_caps)) = s.source_of(from, rid, super::caps::TRANSFER) {
        super::revoke_proofs::lemma_revoke_tree(s, idx, true);
        let (m, r) = s.revoke_tree(idx, true);
        if r is Ok {
            lemma_counters(m, to, rid);
            lemma_bind(
                m.sequenced(),
                to,
                rid,
                source_caps & super::caps::TRANSFERABLE_MASK,
                ScopeKind::Process,
                m.creation_seq,
                None,
            );
        }
    }
}

} // verus!
