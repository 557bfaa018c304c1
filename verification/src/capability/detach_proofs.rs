//! Why taking a slot out of the table keeps the table well formed.

use vstd::prelude::*;
use super::index::{lemma_bounded_distinct, lemma_push_contains, lemma_removed, lemma_without, list_of, removed, tidy};
use super::resource::{ScopeKind, ThreadId};
use super::slot::{CapabilityEntry, SlotState, MAX_CAPABILITIES};
use super::state::TableState;

verus! {

/// What `detached` does to each part of the table.
pub proof fn lemma_detached_fields(s: TableState, idx: u32)
    ensures
        s.detached(idx).slots == s.slots.update(
            idx as int,
            CapabilityEntry {
                generation: s.slots[idx as int].generation.wrapping_add(1),
                state: SlotState::Free,
                ..s.slots[idx as int]
            },
        ),
        s.detached(idx).free_slots == s.free_slots.push(idx),
        s.detached(idx).used_count == s.used_count.saturating_sub(1),
        s.detached(idx).quick_cache == removed(
            s.quick_cache,
            s.slots[idx as int].owner_key(),
            idx,
        ),
        s.detached(idx).children_of == s.unlinked(idx).children_of,
        s.detached(idx).parent_of == s.unlinked(idx).parent_of,
        s.detached(idx).process_caps == s.scope_unfiled(
            s.slots[idx as int].scope,
            s.slots[idx as int].owner_pid,
            idx,
        ).process_caps,
        s.detached(idx).thread_caps == s.scope_unfiled(
            s.slots[idx as int].scope,
            s.slots[idx as int].owner_pid,
            idx,
        ).thread_caps,
        s.detached(idx).syscall_caps == s.scope_unfiled(
            s.slots[idx as int].scope,
            s.slots[idx as int].owner_pid,
            idx,
        ).syscall_caps,
        s.detached(idx).resource_borrows == s.resource_borrows,
        s.detached(idx).pending_revoke == s.pending_revoke,
        s.detached(idx).birth == s.birth,
        s.detached(idx).next_birth == s.next_birth,
        s.detached(idx).timestamp == s.timestamp,
        s.detached(idx).creation_seq == s.creation_seq,
        s.detached(idx).caches == Seq::new(s.caches.len(), |c: int| s.caches[c].invalidated(idx)),
{
}

proof fn lemma_detached_free(s: TableState, idx: u32)
    requires
        s.shape_ok(),
        s.free_ok(),
        s.in_use(idx),
    ensures
        s.detached(idx).shape_ok(),
        s.detached(idx).free_ok(),
        s.used_count >= 1,
{
    lemma_detached_fields(s, idx);
    let t = s.detached(idx);
    lemma_push_contains(s.free_slots, idx);
    assert(!s.free_slots.contains(idx));
    assert forall|i: int| 0 <= i < t.free_slots.len() implies t.free_slots[i] < MAX_CAPABILITIES by {
        assert(t.free_slots.contains(t.free_slots[i]));
        if t.free_slots[i] != idx {
            assert(s.free_slots.contains(t.free_slots[i]));
        }
    }
    lemma_bounded_distinct(t.free_slots, MAX_CAPABILITIES as nat);
    assert forall|x: u32| #[trigger]
        t.free_slots.contains(x) <==> (x < MAX_CAPABILITIES && t.slots[x as int].state
            == SlotState::Free) by {
        if x != idx {
            assert(s.free_slots.contains(x) <==> (x < MAX_CAPABILITIES && s.slots[x as int].state
                == SlotState::Free));
        }
    }
    assert forall|i: int|
        0 <= i < MAX_CAPABILITIES && (#[trigger] t.slots[i]).state != SlotState::Free implies t.birth[i]
        < t.next_birth by {
        assert(s.slots[i].state != SlotState::Free);
    }
    assert forall|i: int| 0 <= i < MAX_CAPABILITIES implies (#[trigger] t.slots[i]).state
        != SlotState::Allocating by {
        assert(s.slots[i].state != SlotState::Allocating);
    }
    assert forall|c: int| 0 <= c < t.caches.len() implies (#[trigger] t.caches[c]).recent.len()
        == s.caches[c].recent.len() by {}
}

proof fn lemma_detached_owner_index(s: TableState, idx: u32)
    requires
        s.shape_ok(),
        s.owner_index_ok(),
        s.in_use(idx),
    ensures
        s.detached(idx).owner_index_ok(),
{
    lemma_detached_fields(s, idx);
    let t = s.detached(idx);
    let key = s.slots[idx as int].owner_key();
    lemma_removed(s.quick_cache, key, idx);
    assert forall|k: (u32, u64, u8), x: u32| #[trigger]
        list_of(t.quick_cache, k).contains(x) <==> (t.in_use(x) && t.slots[x as int].owner_key()
            == k) by {
        assert(list_of(s.quick_cache, k).contains(x) <==> (s.in_use(x)
            && s.slots[x as int].owner_key() == k));
    }
}

proof fn lemma_detached_scope_index(s: TableState, idx: u32)
    requires
        s.shape_ok(),
        s.scope_index_ok(),
        s.in_use(idx),
    ensures
        s.detached(idx).scope_index_ok(),
{
    lemma_detached_fields(s, idx);
    let t = s.detached(idx);
    let e = s.slots[idx as int];
    match e.scope {
        ScopeKind::Process => {
            lemma_removed(s.process_caps, e.owner_pid, idx);
        },
        ScopeKind::Thread(th) => {
            lemma_removed(s.thread_caps, th.0, idx);
        },
        ScopeKind::Syscall(th, n) => {
            lemma_removed(s.syscall_caps, (th.0, n), idx);
        },
        ScopeKind::Permanent => {},
    }
    assert forall|p: u32, x: u32| #[trigger] list_of(t.process_caps, p).contains(x) implies t.in_use(
        x,
    ) && t.slots[x as int].scope == ScopeKind::Process && t.slots[x as int].owner_pid == p by {
        assert(list_of(s.process_caps, p).contains(x));
    }
    assert forall|th: u64, x: u32| #[trigger] list_of(t.thread_caps, th).contains(x) implies t.in_use(
        x,
    ) && t.slots[x as int].scope == ScopeKind::Thread(ThreadId(th)) by {
        assert(list_of(s.thread_caps, th).contains(x));
    }
    assert forall|k: (u64, u64), x: u32| #[trigger]
        list_of(t.syscall_caps, k).contains(x) implies t.in_use(x) && t.slots[x as int].scope
        == ScopeKind::Syscall(ThreadId(k.0), k.1) by {
        assert(list_of(s.syscall_caps, k).contains(x));
    }
}

/// What `unlinked` leaves of a consistent delegation graph.
#[verifier::rlimit(40)]
pub proof fn lemma_unlinked(s: TableState, idx: u32)
    requires
        s.shape_ok(),
        s.graph_ok(),
    ensures
        tidy(s.unlinked(idx).children_of),
        forall|p: u32| #[trigger]
            s.unlinked(idx).children_of.contains_key(p) ==> s.children_of.contains_key(p)
                && s.unlinked(idx).children_of[p].len() <= s.children_of[p].len(),
        forall|p: u32, c: u32| #[trigger]
            list_of(s.unlinked(idx).children_of, p).contains(c) <==> (list_of(
                s.children_of,
                p,
            ).contains(c) && p != idx && c != idx),
        forall|c: u32| #[trigger]
            s.unlinked(idx).parent_of.contains_key(c) <==> (s.parent_of.contains_key(c) && c != idx
                && s.parent_of[c] != idx),
        forall|c: u32| #[trigger]
            s.unlinked(idx).parent_of.contains_key(c) ==> s.unlinked(idx).parent_of[c]
                == s.parent_of[c],
{
    let t = s.unlinked(idx);
    let below = if s.parent_of.contains_key(idx) {
        removed(s.children_of, s.parent_of[idx], idx)
    } else {
        s.children_of
    };
    let orphans = list_of(below, idx);
    if s.parent_of.contains_key(idx) {
        let above = s.parent_of[idx];
        lemma_removed(s.children_of, above, idx);
        lemma_without(list_of(s.children_of, above), idx);
        assert(above != idx);
        assert(list_of(below, idx) == list_of(s.children_of, idx));
    }
    assert(orphans == list_of(s.children_of, idx));
    assert(t.children_of == below.remove(idx));
    assert forall|p: u32, c: u32| #[trigger]
        list_of(t.children_of, p).contains(c) <==> (list_of(s.children_of, p).contains(c) && p
            != idx && c != idx) by {
        if p != idx {
            assert(list_of(t.children_of, p) == list_of(below, p));
            if s.parent_of.contains_key(idx) {
                assert(list_of(below, p).contains(c) <==> (list_of(s.children_of, p).contains(c)
                    && !(p == s.parent_of[idx] && c == idx)));
                if c == idx && list_of(s.children_of, p).contains(c) {
                    assert(s.parent_of[c] == p);
                }
            } else {
                if c == idx && list_of(s.children_of, p).contains(c) {
                    assert(s.parent_of.contains_key(c));
                }
            }
        }
    }
    assert forall|c: u32| #[trigger]
        t.parent_of.contains_key(c) <==> (s.parent_of.contains_key(c) && c != idx && s.parent_of[c]
            != idx) by {
        if s.parent_of.contains_key(c) {
            assert(list_of(s.children_of, idx).contains(c) <==> s.parent_of[c] == idx);
        }
    }
    assert forall|p: u32| #[trigger] t.children_of.contains_key(p) implies s.children_of.contains_key(
        p,
    ) && t.children_of[p].len() <= s.children_of[p].len() && t.children_of[p].len() > 0
        && t.children_of[p].no_duplicates() by {
        assert(below.contains_key(p));
        assert(tidy(below));
    }
}

#[verifier::rlimit(40)]
proof fn lemma_detached_graph(s: TableState, idx: u32)
    requires
        s.shape_ok(),
        s.graph_ok(),
        s.in_use(idx),
    ensures
        s.detached(idx).graph_ok(),
{
    lemma_detached_fields(s, idx);
    lemma_unlinked(s, idx);
    let t = s.detached(idx);
    let u = s.unlinked(idx);
    assert forall|p: u32, c: u32| #[trigger]
        list_of(t.children_of, p).contains(c) <==> (t.parent_of.contains_key(c) && t.parent_of[c]
            == p) by {
        assert(list_of(u.children_of, p).contains(c) <==> (list_of(s.children_of, p).contains(c)
            && p != idx && c != idx));
        assert(list_of(s.children_of, p).contains(c) <==> (s.parent_of.contains_key(c)
            && s.parent_of[c] == p));
        assert(u.parent_of.contains_key(c) <==> (s.parent_of.contains_key(c) && c != idx
            && s.parent_of[c] != idx));
    }
    assert forall|c: u32| #[trigger] t.parent_of.contains_key(c) implies t.in_use(c) && t.in_use(
        t.parent_of[c],
    ) && t.birth[t.parent_of[c] as int] < t.birth[c as int] by {
        assert(u.parent_of.contains_key(c));
        assert(s.parent_of.contains_key(c));
    }
    assert forall|p: u32| #[trigger] t.children_of.contains_key(p) implies t.children_of[p].len()
        <= super::slot::MAX_CHILDREN_PER_CAP by {
        assert(u.children_of.contains_key(p));
        assert(s.children_of.contains_key(p));
    }
    assert forall|c: u32| #[trigger] t.parent_of.contains_key(c) implies t.slots[c as int].resource_id
        == t.slots[t.parent_of[c] as int].resource_id && (t.slots[c as int].state
        == SlotState::Live ==> t.slots[t.parent_of[c] as int].state == SlotState::Live) by {
        assert(u.parent_of.contains_key(c));
        assert(s.parent_of.contains_key(c));
    }
}

/// Taking a slot in use out of the table keeps everything but the queues
/// well formed, and changes no slot but this one.
pub proof fn lemma_detached_core(s: TableState, idx: u32)
    requires
        s.core_ok(),
        s.in_use(idx),
    ensures
        s.detached(idx).core_ok(),
        s.used_count >= 1,
{
    lemma_detached_fields(s, idx);
    lemma_detached_free(s, idx);
    lemma_detached_owner_index(s, idx);
    lemma_detached_scope_index(s, idx);
    lemma_detached_graph(s, idx);
    let t = s.detached(idx);
    assert forall|x: u32| t.in_use(x) implies t.resource_borrows.contains_key(
        (#[trigger] t.slots[x as int]).resource_id.key(),
    ) by {
        assert(s.in_use(x));
    }
    assert(t.borrows_ok());
    assert forall|i: int, j: int|
        0 <= i < MAX_CAPABILITIES && 0 <= j < MAX_CAPABILITIES && i != j && (
        #[trigger] t.slots[i]).state == SlotState::Live && (#[trigger] t.slots[j]).state
            == SlotState::Live implies t.slots[i].owner_key() != t.slots[j].owner_key() by {
        assert(s.slots[i].state == SlotState::Live && s.slots[j].state == SlotState::Live);
    }
}

/// Taking a live slot out of a well-formed table keeps the table well formed.
pub proof fn lemma_detached_wf(s: TableState, idx: u32)
    requires
        s.wf(),
        s.in_use(idx),
        s.slots[idx as int].state != SlotState::PendingRevoke,
    ensures
        s.detached(idx).wf(),
{
    lemma_detached_core(s, idx);
    lemma_detached_fields(s, idx);
    let t = s.detached(idx);
    assert forall|k: (u64, u8), x: u32| #[trigger]
        list_of(t.pending_revoke, k).contains(x) <==> (x < MAX_CAPABILITIES
            && t.slots[x as int].state == SlotState::PendingRevoke
            && t.slots[x as int].resource_id.key() == k) by {
        assert(list_of(s.pending_revoke, k).contains(x) <==> (x < MAX_CAPABILITIES
            && s.slots[x as int].state == SlotState::PendingRevoke
            && s.slots[x as int].resource_id.key() == k));
    }
    assert forall|k: (u64, u8)| #[trigger] t.pending_revoke.contains_key(k) implies t.borrowed(k) by {
        assert(s.borrowed(k));
    }
}

} // verus!
