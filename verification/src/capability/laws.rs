//! Laws of the capability table: what holds of every well-formed table and
//! of every sequence of operations on it.

use vstd::prelude::*;
use super::bind_proofs::{lemma_bind, lemma_counters, lemma_filled_fields, lemma_filled_wf, lemma_lookup};
use super::borrow::BorrowView;
use super::caps;
use super::index::list_of;
use super::resource::{CapError, HandleView, ResourceId, ScopeKind, ThreadId};
use super::revoke_proofs::{faded, lemma_revoke_one, lemma_revoke_tree};
use super::slot::{SlotState, MAX_CAPABILITIES, MAX_CHILDREN_PER_CAP};
use super::state::TableState;

verus! {

/// No duplication: in a well-formed table, two live capabilities of one
/// process on one resource are the same slot.
pub proof fn law_no_duplication(s: TableState, i: u32, j: u32, pid: u32, rid: ResourceId)
    requires
        s.wf(),
        s.live_at(i, pid, rid),
        s.live_at(j, pid, rid),
    ensures
        i == j,
{
    if i != j {
        assert(s.slots[i as int].owner_key() == s.slots[j as int].owner_key());
    }
}

/// No duplication, by calls: a binding that is repeated returns the handle
/// of the first binding and takes no slot.
#[verifier::rlimit(40)]
pub proof fn law_bind_again(s: TableState, pid: u32, rid: ResourceId, caps_bits: u32, scope: ScopeKind)
    requires
        s.wf(),
        s.bind_scoped(pid, rid, caps_bits, scope).1 is Ok,
    ensures
        ({
            let (t, first) = s.bind_scoped(pid, rid, caps_bits, scope);
            &&& t.bind_scoped(pid, rid, caps_bits, scope) == (t.sequenced(), first)
            &&& t.bind_exclusive(pid, rid) == (t.sequenced(), first)
            &&& t.bind_readonly(pid, rid).1 == first
            &&& t.bind_readonly(pid, rid).0 == t.sequenced().cache_counted(pid, rid)
        }),
{
    lemma_counters(s, pid, rid);
    lemma_bind(s.sequenced(), pid, rid, caps_bits, scope, s.creation_seq, None);
    let (t, first) = s.bind_scoped(pid, rid, caps_bits, scope);
    let h = first->Ok_0;
    lemma_counters(t, pid, rid);
    lemma_lookup(t.sequenced(), pid, rid);
    lemma_lookup(t.sequenced().cache_counted(pid, rid), pid, rid);
    assert(t.sequenced().slots[h.index as int].is_live_for(pid, rid));
    assert(t.sequenced().lookup(pid, rid) == Some(h.index));
    assert(t.sequenced().cache_counted(pid, rid).slots[h.index as int].is_live_for(pid, rid));
    if let Some(c) = t.cache_hit(pid, rid) {
        law_no_duplication(t, c, h.index, pid, rid);
    }
}

/// Generation monotonicity: after a strict revocation that succeeded, the
/// handle is invalid, and it stays invalid when the slot is bound again: the
/// new handle of the slot has the next generation.
pub proof fn law_generation(
    s: TableState,
    h: HandleView,
    pid: u32,
    rid: ResourceId,
    caps_bits: u32,
    scope: ScopeKind,
)
    requires
        s.wf(),
        s.valid_handle(h),
        s.revoke(h, true).1 is Ok,
    ensures
        ({
            let t = s.revoke(h, true).0;
            let (u, again) = t.bind_scoped(pid, rid, caps_bits, scope);
            &&& t.slots[h.index as int].state == SlotState::Free
            &&& t.slots[h.index as int].generation == h.generation.wrapping_add(1)
            &&& !t.valid_handle(h)
            &&& !u.valid_handle(h)
            &&& (again is Ok && again->Ok_0.index == h.index ==> again->Ok_0.generation
                == h.generation.wrapping_add(1))
        }),
{
    lemma_revoke_tree(s, h.index, true);
    let t = s.revoke(h, true).0;
    assert(faded(s.slots[h.index as int], t.slots[h.index as int]));
    lemma_counters(t, pid, rid);
    let ts = t.sequenced();
    lemma_bind(ts, pid, rid, caps_bits, scope, t.creation_seq, None);
    lemma_lookup(ts, pid, rid);
    if ts.lookup(pid, rid) is None && ts.free_slots.len() > 0 {
        lemma_filled_wf(ts, pid, rid, caps_bits, scope, t.creation_seq);
        lemma_filled_fields(ts, pid, rid, caps_bits, scope, t.creation_seq);
    }
}

/// Delegation consistency: in a well-formed table `children_of` and
/// `parent_of` agree on every edge, and no capability has more than 32
/// children.
pub proof fn law_delegation(s: TableState, p: u32, c: u32)
    requires
        s.wf(),
    ensures
        list_of(s.children_of, p).contains(c) <==> (s.parent_of.contains_key(c) && s.parent_of[c]
            == p),
        list_of(s.children_of, p).len() <= MAX_CHILDREN_PER_CAP,
        list_of(s.children_of, p).contains(c) ==> s.in_use(p) && s.in_use(c) && p != c,
{
    if s.children_of.contains_key(p) {
        assert(s.children_of[p].len() <= MAX_CHILDREN_PER_CAP);
    }
    if list_of(s.children_of, p).contains(c) {
        assert(s.parent_of.contains_key(c));
    }
}

/// A slot whose revocation is pending waits for borrows: in a well-formed
/// table its resource is borrowed. So where a resource has no borrow, no
/// slot on it is pending.
pub proof fn law_pending_waits(s: TableState, x: u32)
    requires
        s.wf(),
        x < MAX_CAPABILITIES,
        s.slots[x as int].state == SlotState::PendingRevoke,
    ensures
        s.borrowed(s.slots[x as int].resource_id.key()),
{
    let rk = s.slots[x as int].resource_id.key();
    assert(list_of(s.pending_revoke, rk).contains(x));
    assert(s.pending_revoke.contains_key(rk));
}

/// The deferred mode never refuses a valid handle, and leaves its slot
/// either free or pending.
pub proof fn law_deferred_accepts(s: TableState, h: HandleView)
    requires
        s.wf(),
        s.valid_handle(h),
    ensures
        s.revoke(h, false).1 is Ok,
        s.revoke(h, false).0.slots[h.index as int].state != SlotState::Live,
        !s.revoke(h, false).0.valid_handle(h),
{
    lemma_revoke_tree(s, h.index, false);
}

/// `bind → revoke`: a fresh binding that is revoked strictly at once gives
/// back its slot; the free stack and the count of used slots are what they
/// were before the binding.
pub proof fn law_bind_revoke(s: TableState, pid: u32, rid: ResourceId, caps_bits: u32, scope: ScopeKind)
    requires
        s.wf(),
        s.lookup(pid, rid) is None,
        s.free_slots.len() > 0,
        !s.borrowed(rid.key()),
    ensures
        ({
            let (t, bound) = s.bind_scoped(pid, rid, caps_bits, scope);
            &&& bound is Ok
            &&& t.revoke(bound->Ok_0, true).1 is Ok
            &&& t.revoke(bound->Ok_0, true).0.slots[bound->Ok_0.index as int].state
                == SlotState::Free
            &&& t.revoke(bound->Ok_0, true).0.free_slots == s.free_slots
            &&& t.revoke(bound->Ok_0, true).0.used_count == s.used_count
        }),
{
    lemma_counters(s, pid, rid);
    let ss = s.sequenced();
    super::bind_proofs::lemma_lookup_same(s, ss, pid, rid);
    lemma_bind(ss, pid, rid, caps_bits, scope, s.creation_seq, None);
    lemma_filled_wf(ss, pid, rid, caps_bits, scope, s.creation_seq);
    lemma_filled_fields(ss, pid, rid, caps_bits, scope, s.creation_seq);
    let (t, bound) = s.bind_scoped(pid, rid, caps_bits, scope);
    let h = bound->Ok_0;
    let idx = ss.free_slots.last();
    assert(h.index == idx);
    assert(list_of(t.children_of, idx).len() == 0) by {
        if list_of(t.children_of, idx).len() > 0 {
            let c = list_of(t.children_of, idx)[0];
            assert(list_of(t.children_of, idx).contains(c));
            assert(list_of(ss.children_of, idx).contains(c));
            assert(ss.parent_of.contains_key(c));
            assert(ss.in_use(idx));
        }
    }
    assert(t.revoke_each(list_of(t.children_of, idx), t.age(idx), true) == (t, Ok::<(), CapError>(())));
    assert(!t.borrowed(rid.key())) by {
        if ss.resource_borrows.contains_key(rid.key()) {
            assert(t.resource_borrows[rid.key()] == ss.resource_borrows[rid.key()]);
        } else {
            assert(t.resource_borrows[rid.key()] == BorrowView::empty());
        }
    }
    lemma_revoke_one(t, idx, true);
    super::detach_proofs::lemma_detached_fields(t, idx);
    assert(t.free_slots.push(idx) =~= s.free_slots);
}

/// `verify_capability_fast` after a fresh binding confirms exactly the
/// rights that were bound.
pub proof fn law_verify_after_bind(
    s: TableState,
    pid: u32,
    rid: ResourceId,
    caps_bits: u32,
    scope: ScopeKind,
    required: u32,
)
    requires
        s.wf(),
        s.lookup(pid, rid) is None,
        s.free_slots.len() > 0,
    ensures
        s.bind_scoped(pid, rid, caps_bits, scope).1 is Ok,
        s.bind_scoped(pid, rid, caps_bits, scope).0.verify_fast(pid, rid, required)
            == caps::has_all(caps_bits, required),
{
    lemma_counters(s, pid, rid);
    let ss = s.sequenced();
    super::bind_proofs::lemma_lookup_same(s, ss, pid, rid);
    lemma_bind(ss, pid, rid, caps_bits, scope, s.creation_seq, None);
    lemma_filled_wf(ss, pid, rid, caps_bits, scope, s.creation_seq);
    lemma_filled_fields(ss, pid, rid, caps_bits, scope, s.creation_seq);
    super::cache::lemma_cache_slot_range(pid, rid.spec_fast_hash());
    let t = s.bind_scoped(pid, rid, caps_bits, scope).0;
    let idx = ss.free_slots.last();
    assert(t == ss.filled(pid, rid, caps_bits, scope, s.creation_seq));
    assert(t.caches == ss.caches.update(
        0,
        ss.caches[0].inserted(pid, rid.spec_fast_hash(), idx),
    )) by {
        match scope {
            ScopeKind::Process => {},
            ScopeKind::Thread(_) => {},
            ScopeKind::Syscall(_, _) => {},
            ScopeKind::Permanent => {},
        }
    }
    assert(t.caches[0].recent[super::cache::cache_slot(pid, rid.spec_fast_hash())] == idx);
}

/// `verify_capability_fast` and `verify_capability` after a strict
/// revocation that succeeded deny every right.
pub proof fn law_verify_after_revoke(s: TableState, h: HandleView, pid: u32, rid: ResourceId, required: u32)
    requires
        s.wf(),
        s.valid_handle(h),
        s.slots[h.index as int].is_live_for(pid, rid),
        s.revoke(h, true).1 is Ok,
    ensures
        !s.revoke(h, true).0.verify_fast(pid, rid, required),
        !s.revoke(h, true).0.holds(pid, rid, required),
{
    lemma_revoke_tree(s, h.index, true);
    let t = s.revoke(h, true).0;
    assert forall|i: int| 0 <= i < MAX_CAPABILITIES implies !(#[trigger] t.slots[i]).is_live_for(
        pid,
        rid,
    ) by {
        assert(faded(s.slots[i], t.slots[i]));
        if t.slots[i].is_live_for(pid, rid) {
            assert(s.slots[i].is_live_for(pid, rid));
            law_no_duplication(s, i as u32, h.index, pid, rid);
        }
    }
}

/// `freeze → unfreeze`: after a freeze that succeeded and did not saturate,
/// `unfreeze` succeeds and the table is what it was before the freeze.
pub proof fn law_freeze_unfreeze(s: TableState, h: HandleView, tid: ThreadId)
    requires
        s.wf(),
        s.freeze(h, tid).1 is Ok,
        s.resource_borrows[s.slots[h.index as int].resource_id.key()].frozen_count < u32::MAX,
    ensures
        s.freeze(h, tid).0.unfreeze(h, tid) == (s, Ok::<(), CapError>(())),
{
    let rk = s.slots[h.index as int].resource_id.key();
    let b = s.resource_borrows[rk];
    super::borrow::lemma_freeze_unfreeze(b, h.index, tid);
    let t = s.freeze(h, tid).0;
    assert(t.resource_borrows.insert(rk, b) =~= s.resource_borrows);
}

impl TableState {
    /// Borrow exclusivity for every resource: an exclusive borrow that is
    /// not frozen excludes every shared borrow.
    pub open spec fn exclusivity(self) -> bool {
        forall|k: (u64, u8)| #[trigger]
            self.resource_borrows.contains_key(k) ==> self.resource_borrows[k].exclusivity()
    }
}

/// Borrow exclusivity survives every borrow operation but `unfreeze`, and
/// survives `unfreeze` where the resource has no shared borrow or stays frozen.
#[verifier::rlimit(40)]
pub proof fn law_exclusivity_borrows(s: TableState, h: HandleView, tid: ThreadId, scope: ScopeKind)
    requires
        s.wf(),
        s.exclusivity(),
    ensures
        s.borrow_shared(h, tid, scope).0.exclusivity(),
        s.borrow_exclusive(h, tid, scope).0.exclusivity(),
        s.release_shared(h, tid).0.exclusivity(),
        s.release_exclusive(h, tid).0.exclusivity(),
        s.freeze(h, tid).0.exclusivity(),
        s.valid_handle(h) ==> {
            let b = s.resource_borrows[s.slots[h.index as int].resource_id.key()];
            b.shared.len() == 0 || b.frozen_count != 1
        } ==> s.unfreeze(h, tid).0.exclusivity(),
{
    if s.valid_handle(h) {
        let e = s.slots[h.index as int];
        let rid = e.resource_id;
        let rk = rid.key();
        if s.resource_borrows.contains_key(rk) {
            let b = s.resource_borrows[rk];
            assert(b.wf());
            super::borrow::lemma_exclusivity_preserved(
                b,
                h.index,
                tid,
                scope,
                e.capabilities,
                e.resource_id.typ,
            );
            super::borrow::lemma_release_shared_wf(b, h.index, tid);
            super::lend_proofs::lemma_with_borrows(s, rk, b.release_shared(h.index, tid).0);
            super::revoke_proofs::lemma_completed(
                s.with_borrows(rk, b.release_shared(h.index, tid).0),
                rid,
            );
            super::lend_proofs::lemma_with_borrows(s, rk, b.release_exclusive(h.index, tid).0);
            super::revoke_proofs::lemma_completed(
                s.with_borrows(rk, b.release_exclusive(h.index, tid).0),
                rid,
            );
        }
    }
}

/// Borrow exclusivity survives binding, granting, revoking and transferring:
/// none of them touches a borrow.
#[verifier::rlimit(40)]
pub proof fn law_exclusivity_others(
    s: TableState,
    h: HandleView,
    pid: u32,
    other: u32,
    rid: ResourceId,
    caps_bits: u32,
    scope: ScopeKind,
    strict: bool,
)
    requires
        s.wf(),
        s.exclusivity(),
    ensures
        s.bind_readonly(pid, rid).0.exclusivity(),
        s.bind_scoped(pid, rid, caps_bits, scope).0.exclusivity(),
        s.grant(pid, other, rid, caps_bits).0.exclusivity(),
        s.revoke(h, strict).0.exclusivity(),
        s.transfer(pid, other, rid).0.exclusivity(),
{
    lemma_counters(s, pid, rid);
    lemma_lookup(s, pid, rid);
    lemma_bound_exclusivity(s.sequenced().cache_counted(pid, rid), pid, rid, caps::READ, ScopeKind::Process, s.creation_seq, None);
    lemma_bound_exclusivity(s.sequenced(), pid, rid, caps_bits, scope, s.creation_seq, None);
    if let Ok((parent, _)) = s.source_of(pid, rid, caps::GRANT) {
        lemma_bound_exclusivity(s.sequenced(), other, rid, caps_bits, ScopeKind::Process, s.creation_seq, Some(parent));
    }
    super::revoke_proofs::lemma_revoke(s, h, strict);
    if let Ok((idx, _)) = s.source_of(pid, rid, caps::TRANSFER) {
        lemma_revoke_tree(s, idx, true);
        let m = s.revoke_tree(idx, true).0;
        lemma_counters(m, other, rid);
        lemma_bound_exclusivity(
            m.sequenced(),
            other,
            rid,
            s.slots[idx as int].capabilities & caps::TRANSFERABLE_MASK,
            ScopeKind::Process,
            m.creation_seq,
            None,
        );
    }
}

/// A binding adds at most an empty borrow state.
proof fn lemma_bound_exclusivity(
    s: TableState,
    pid: u32,
    rid: ResourceId,
    caps_bits: u32,
    scope: ScopeKind,
    order: u64,
    parent: Option<u32>,
)
    requires
        s.wf(),
        s.exclusivity(),
    ensures
        s.bind(pid, rid, caps_bits, scope, order, parent).0.exclusivity(),
{
    lemma_lookup(s, pid, rid);
    if s.lookup(pid, rid) is None && s.bind(pid, rid, caps_bits, scope, order, parent).1 is Ok {
        lemma_filled_wf(s, pid, rid, caps_bits, scope, order);
        lemma_filled_fields(s, pid, rid, caps_bits, scope, order);
        let t = s.bind(pid, rid, caps_bits, scope, order, parent).0;
        let f = s.filled(pid, rid, caps_bits, scope, order);
        assert(t.resource_borrows == f.resource_borrows);
        assert forall|k: (u64, u8)| #[trigger]
            t.resource_borrows.contains_key(k) implies t.resource_borrows[k].exclusivity() by {
            if s.resource_borrows.contains_key(k) {
                assert(f.resource_borrows[k] == s.resource_borrows[k]);
            }
        }
    }
}

/// A transfer whose revocation succeeded always binds: the revocation has
/// freed a slot. So a transfer fails only for want of the capability, of
/// the right, or for a borrow.
pub proof fn lemma_transfer_outcome(s: TableState, from: u32, to: u32, rid: ResourceId)
    requires
        s.wf(),
    ensures
        match s.transfer(from, to, rid).1 {
            Ok(_) => exists|i: int|
                0 <= i < MAX_CAPABILITIES && (#[trigger] s.transfer(from, to, rid).0.slots[i]).is_live_for(
                    to,
                    rid,
                ),
            Err(e) => e == CapError::ResourceNotFound || e == CapError::PermissionDenied || e
                == CapError::BorrowConflict,
        },
{
    lemma_lookup(s, from, rid);
    if let Ok((idx, source_caps)) = s.source_of(from, rid, caps::TRANSFER) {
        lemma_revoke_tree(s, idx, true);
        let (m, r) = s.revoke_tree(idx, true);
        if r is Ok {
            assert(m.slots[idx as int].state == SlotState::Free);
            assert(m.free_slots.contains(idx));
            lemma_counters(m, to, rid);
            let ms = m.sequenced();
            let passed = source_caps & caps::TRANSFERABLE_MASK;
            lemma_bind(ms, to, rid, passed, ScopeKind::Process, m.creation_seq, None);
            let t = s.transfer(from, to, rid).0;
            let b = ms.bind(to, rid, passed, ScopeKind::Process, m.creation_seq, None).1;
            assert(b is Ok);
            assert(t.slots[b->Ok_0.index as int].is_live_for(to, rid));
        }
    }
}

/// Transfer: after a transfer to another process that had no capability on
/// the resource, the source holds no right on it, and the target holds
/// exactly those rights of the source that can be passed on: it holds
/// `required` if and only if `required` lies within them.
#[verifier::rlimit(40)]
pub proof fn law_transfer(s: TableState, from: u32, to: u32, rid: ResourceId, required: u32)
    requires
        s.wf(),
        from != to,
        s.lookup(to, rid) is None,
        s.transfer(from, to, rid).1 is Ok,
    ensures
        !s.transfer(from, to, rid).0.holds(from, rid, required),
        s.transfer(from, to, rid).0.holds(to, rid, required) == caps::has_all(
            s.slots[s.lookup(from, rid)->0 as int].capabilities & caps::TRANSFERABLE_MASK,
            required,
        ),
        s.transfer(from, to, rid).0.holds(
            to,
            rid,
            s.slots[s.lookup(from, rid)->0 as int].capabilities & caps::TRANSFERABLE_MASK,
        ),
{
    lemma_lookup(s, from, rid);
    lemma_lookup(s, to, rid);
    let (idx, source_caps) = s.source_of(from, rid, caps::TRANSFER)->Ok_0;
    lemma_revoke_tree(s, idx, true);
    let m = s.revoke_tree(idx, true).0;
    lemma_counters(m, to, rid);
    let ms = m.sequenced();
    let passed = source_caps & caps::TRANSFERABLE_MASK;
    lemma_lookup(ms, to, rid);
    assert(ms.lookup(to, rid) is None) by {
        if let Some(f) = ms.lookup(to, rid) {
            assert(faded(s.slots[f as int], m.slots[f as int]));
            assert(s.slots[f as int].is_live_for(to, rid));
        }
    }
    assert(m.free_slots.contains(idx));
    lemma_bind(ms, to, rid, passed, ScopeKind::Process, m.creation_seq, None);
    lemma_filled_wf(ms, to, rid, passed, ScopeKind::Process, m.creation_seq);
    lemma_filled_fields(ms, to, rid, passed, ScopeKind::Process, m.creation_seq);
    let t = s.transfer(from, to, rid).0;
    let n = ms.free_slots.last();
    assert(t.slots[n as int].is_live_for(to, rid));
    assert(t.slots[n as int].capabilities == passed);
    assert(caps::has_all(passed, passed)) by (bit_vector);
    if t.holds(to, rid, required) {
        let i = choose|i: int|
            0 <= i < t.slots.len() && (#[trigger] t.slots[i]).is_live_for(to, rid)
                && caps::has_all(t.slots[i].capabilities, required);
        law_no_duplication(t, i as u32, n, to, rid);
    }
    assert forall|i: int| 0 <= i < t.slots.len() implies !((#[trigger] t.slots[i]).is_live_for(
        from,
        rid,
    )) by {
        if i != n {
            assert(t.slots[i] == m.slots[i]);
            assert(faded(s.slots[i], m.slots[i]));
            if m.slots[i].is_live_for(from, rid) {
                assert(s.slots[i].is_live_for(from, rid));
                law_no_duplication(s, i as u32, idx, from, rid);
            }
        }
    }
}

/// Grant: a grant to a process that had no capability on the resource gives
/// it a live capability with the rights granted, recorded as derived from
/// the grantor's capability, which has each of these rights.
#[verifier::rlimit(40)]
pub proof fn law_grant(s: TableState, grantor: u32, grantee: u32, rid: ResourceId, granted: u32)
    requires
        s.wf(),
        s.lookup(grantee, rid) is None,
        s.grant(grantor, grantee, rid, granted).1 is Ok,
    ensures
        ({
            let (t, r) = s.grant(grantor, grantee, rid, granted);
            let child = r->Ok_0.index;
            let parent = s.lookup(grantor, rid)->0;
            &&& t.slots[child as int].is_live_for(grantee, rid)
            &&& t.slots[child as int].capabilities == granted
            &&& t.parent_of.contains_key(child) && t.parent_of[child] == parent
            &&& list_of(t.children_of, parent).contains(child)
            &&& s.slots[parent as int].is_live_for(grantor, rid)
            &&& caps::has_all(s.slots[parent as int].capabilities, granted)
            &&& s.slots[parent as int].capabilities & caps::GRANT != 0
            &&& granted & caps::TRANSFERABLE_MASK == granted
        }),
{
    lemma_lookup(s, grantor, rid);
    lemma_counters(s, grantor, rid);
    let (parent, parent_caps) = s.source_of(grantor, rid, caps::GRANT)->Ok_0;
    let ss = s.sequenced();
    super::bind_proofs::lemma_lookup_same(s, ss, grantee, rid);
    lemma_bind(ss, grantee, rid, granted, ScopeKind::Process, s.creation_seq, Some(parent));
    lemma_filled_wf(ss, grantee, rid, granted, ScopeKind::Process, s.creation_seq);
    lemma_filled_fields(ss, grantee, rid, granted, ScopeKind::Process, s.creation_seq);
    let t = s.grant(grantor, grantee, rid, granted).0;
    super::index::lemma_pushed(
        ss.filled(grantee, rid, granted, ScopeKind::Process, s.creation_seq).children_of,
        parent,
        ss.free_slots.last(),
    );
    assert(t.wf());
    assert(parent_caps & caps::TRANSFERABLE_MASK & granted == granted ==> parent_caps & granted
        == granted && granted & caps::TRANSFERABLE_MASK == granted) by (bit_vector);
}

/// Cache invalidation: after a slot was released, no cache of any CPU names it.
pub proof fn law_release_invalidates(s: TableState, idx: u32, c: int, i: int)
    requires
        idx != super::cache::NO_SLOT,
        0 <= c < s.caches.len(),
        0 <= i < s.caches[c].recent.len(),
    ensures
        s.released(idx).caches[c].recent[i] != idx,
        s.detached(idx).caches[c].recent[i] != idx,
{
    super::detach_proofs::lemma_detached_fields(s, idx);
}

impl TableState {
    /// The number of slots in use among the first `n`.
    pub open spec fn in_use_count(self, n: int) -> int
        decreases n,
    {
        if n <= 0 {
            0
        } else {
            self.in_use_count(n - 1) + if self.slots[n - 1].state != SlotState::Free {
                1int
            } else {
                0int
            }
        }
    }
}

/// A list without repetition that holds exactly the free slots below `n`
/// is as long as there are free slots below `n`.
proof fn lemma_free_list_length(s: TableState, free: Seq<u32>, n: int)
    requires
        0 <= n <= MAX_CAPABILITIES,
        s.slots.len() == MAX_CAPABILITIES,
        free.no_duplicates(),
        forall|x: u32| #[trigger]
            free.contains(x) <==> (x < n && s.slots[x as int].state == SlotState::Free),
    ensures
        free.len() == n - s.in_use_count(n),
    decreases n,
{
    if n == 0 {
        if free.len() > 0 {
            assert(free.contains(free[0]));
        }
    } else {
        let top = (n - 1) as u32;
        let rest = super::index::without(free, top);
        super::index::lemma_without(free, top);
        assert forall|x: u32| #[trigger]
            rest.contains(x) <==> (x < n - 1 && s.slots[x as int].state == SlotState::Free) by {
            assert(free.contains(x) <==> (x < n && s.slots[x as int].state == SlotState::Free));
        }
        lemma_free_list_length(s, rest, n - 1);
        assert(free.contains(top) <==> s.slots[top as int].state == SlotState::Free);
    }
}

/// The count of used slots is the number of slots in use, and the free
/// stack holds all others.
pub proof fn law_used_count(s: TableState)
    requires
        s.wf(),
    ensures
        s.used_count == s.in_use_count(MAX_CAPABILITIES as int),
        s.free_slots.len() + s.used_count == MAX_CAPABILITIES,
{
    lemma_free_list_length(s, s.free_slots, MAX_CAPABILITIES as int);
}

/// Deferred completion, the last step: the release that ends the last
/// borrow of a resource frees every slot on that resource whose revocation
/// was pending.
pub proof fn law_last_release_completes(s: TableState, h: HandleView, tid: ThreadId, x: u32)
    requires
        s.wf(),
        s.valid_handle(h),
        x < MAX_CAPABILITIES,
        s.slots[x as int].state == SlotState::PendingRevoke,
        s.slots[x as int].resource_id == s.slots[h.index as int].resource_id,
    ensures
        s.release_shared(h, tid).1 is Ok && !s.release_shared(h, tid).0.borrowed(
            s.slots[h.index as int].resource_id.key(),
        ) ==> s.release_shared(h, tid).0.slots[x as int].state == SlotState::Free,
        s.release_exclusive(h, tid).1 is Ok && !s.release_exclusive(h, tid).0.borrowed(
            s.slots[h.index as int].resource_id.key(),
        ) ==> s.release_exclusive(h, tid).0.slots[x as int].state == SlotState::Free,
{
    let rid = s.slots[h.index as int].resource_id;
    let rk = rid.key();
    assert(s.resource_borrows.contains_key(rk));
    let b = s.resource_borrows[rk];
    assert(b.wf());
    super::borrow::lemma_release_shared_wf(b, h.index, tid);
    let shared = s.with_borrows(rk, b.release_shared(h.index, tid).0);
    super::lend_proofs::lemma_with_borrows(s, rk, b.release_shared(h.index, tid).0);
    super::revoke_proofs::lemma_completed(shared, rid);
    if s.release_shared(h, tid).1 is Ok {
        let t = s.release_shared(h, tid).0;
        assert(t == shared.completed(rid));
        assert(faded(shared.slots[x as int], t.slots[x as int]));
        if t.slots[x as int].state == SlotState::PendingRevoke {
            law_pending_waits(t, x);
        }
    }
    let exclusive = s.with_borrows(rk, b.release_exclusive(h.index, tid).0);
    super::lend_proofs::lemma_with_borrows(s, rk, b.release_exclusive(h.index, tid).0);
    super::revoke_proofs::lemma_completed(exclusive, rid);
    if s.release_exclusive(h, tid).1 is Ok {
        let t = s.release_exclusive(h, tid).0;
        assert(t == exclusive.completed(rid));
        assert(faded(exclusive.slots[x as int], t.slots[x as int]));
        if t.slots[x as int].state == SlotState::PendingRevoke {
            law_pending_waits(t, x);
        }
    }
}

impl TableState {
    /// The table after `n` bindings in a row with the same arguments.
    pub open spec fn bound_times(
        self,
        pid: u32,
        rid: ResourceId,
        caps_bits: u32,
        scope: ScopeKind,
        n: nat,
    ) -> TableState
        decreases n,
    {
        if n == 0 {
            self
        } else {
            self.bound_times(pid, rid, caps_bits, scope, (n - 1) as nat).bind_scoped(
                pid,
                rid,
                caps_bits,
                scope,
            ).0
        }
    }
}

/// No duplication, for any number of calls: after a binding that succeeded,
/// every further binding of the same process to the same resource, however
/// many came before it, returns the handle of the first and takes no slot;
/// and exactly one slot is a live capability of the process on the resource.
pub proof fn law_bind_repeated(
    s: TableState,
    pid: u32,
    rid: ResourceId,
    caps_bits: u32,
    scope: ScopeKind,
    n: nat,
)
    requires
        s.wf(),
        s.bind_scoped(pid, rid, caps_bits, scope).1 is Ok,
    ensures
        ({
            let (t, first) = s.bind_scoped(pid, rid, caps_bits, scope);
            let u = t.bound_times(pid, rid, caps_bits, scope, n);
            &&& u.wf()
            &&& u.slots == t.slots
            &&& u.used_count == t.used_count
            &&& u.bind_scoped(pid, rid, caps_bits, scope).1 == first
            &&& u.bind_exclusive(pid, rid).1 == first
            &&& u.bind_readonly(pid, rid).1 == first
            &&& forall|i: int|
                0 <= i < MAX_CAPABILITIES ==> ((#[trigger] u.slots[i]).is_live_for(pid, rid) <==> i
                    == first->Ok_0.index)
        }),
    decreases n,
{
    lemma_counters(s, pid, rid);
    lemma_bind(s.sequenced(), pid, rid, caps_bits, scope, s.creation_seq, None);
    let (t, first) = s.bind_scoped(pid, rid, caps_bits, scope);
    let h = first->Ok_0;
    let u = t.bound_times(pid, rid, caps_bits, scope, n);
    if n > 0 {
        law_bind_repeated(s, pid, rid, caps_bits, scope, (n - 1) as nat);
        let v = t.bound_times(pid, rid, caps_bits, scope, (n - 1) as nat);
        lemma_bind_held(v, pid, rid, caps_bits, scope, h);
    }
    lemma_bind_held(u, pid, rid, caps_bits, scope, h);
    lemma_bind_held(u, pid, rid, caps::RW_MAP, ScopeKind::Process, h);
    lemma_counters(u, pid, rid);
    lemma_lookup(u.sequenced().cache_counted(pid, rid), pid, rid);
    assert(u.sequenced().cache_counted(pid, rid).slots[h.index as int].is_live_for(pid, rid));
    if let Some(c) = u.cache_hit(pid, rid) {
        law_no_duplication(u, c, h.index, pid, rid);
    }
    assert forall|i: int| 0 <= i < MAX_CAPABILITIES implies ((#[trigger] u.slots[i]).is_live_for(
        pid,
        rid,
    ) <==> i == h.index) by {
        if u.slots[i].is_live_for(pid, rid) {
            law_no_duplication(u, i as u32, h.index, pid, rid);
        }
    }
}

/// A binding of a process that holds a live capability on the resource
/// returns the handle of that capability and takes nothing but a creation
/// sequence number.
proof fn lemma_bind_held(
    u: TableState,
    pid: u32,
    rid: ResourceId,
    caps_bits: u32,
    scope: ScopeKind,
    h: HandleView,
)
    requires
        u.wf(),
        h.index < MAX_CAPABILITIES,
        u.slots[h.index as int].is_live_for(pid, rid),
        u.handle_at(h.index) == h,
    ensures
        u.bind_scoped(pid, rid, caps_bits, scope) == (u.sequenced(), Ok::<HandleView, CapError>(h)),
        u.bind_scoped(pid, rid, caps_bits, scope).0.wf(),
{
    lemma_counters(u, pid, rid);
    lemma_lookup(u.sequenced(), pid, rid);
    assert(u.sequenced().slots[h.index as int].is_live_for(pid, rid));
}

/// A grant that is refused takes no slot and records no edge: the table is
/// what it was, but for the creation sequence number that a refusal by the
/// child cap or by a full table has taken. The refusal is `TooManyChildren`
/// exactly where the grantor's capability has the rights, the grantee holds
/// nothing on the resource, and the grantor's capability has 32 children.
pub proof fn law_grant_refused(s: TableState, grantor: u32, grantee: u32, rid: ResourceId, granted: u32)
    requires
        s.wf(),
        s.grant(grantor, grantee, rid, granted).1 is Err,
    ensures
        s.grant(grantor, grantee, rid, granted).0 == s || s.grant(grantor, grantee, rid, granted).0
            == s.sequenced(),
        s.grant(grantor, grantee, rid, granted).0.slots == s.slots,
        s.grant(grantor, grantee, rid, granted).0.used_count == s.used_count,
        s.grant(grantor, grantee, rid, granted).0.children_of == s.children_of,
        s.grant(grantor, grantee, rid, granted).0.parent_of == s.parent_of,
        s.grant(grantor, grantee, rid, granted).1 == Err::<HandleView, CapError>(
            CapError::TooManyChildren,
        ) <==> {
            &&& s.source_of(grantor, rid, caps::GRANT) is Ok
            &&& caps::has_all(
                s.source_of(grantor, rid, caps::GRANT)->Ok_0.1 & caps::TRANSFERABLE_MASK,
                granted,
            )
            &&& s.lookup(grantee, rid) is None
            &&& s.full_below(s.source_of(grantor, rid, caps::GRANT)->Ok_0.0)
        },
{
    lemma_lookup(s, grantor, rid);
    lemma_counters(s, grantor, rid);
    super::bind_proofs::lemma_lookup_same(s, s.sequenced(), grantee, rid);
    if let Ok((parent, parent_caps)) = s.source_of(grantor, rid, caps::GRANT) {
        if caps::has_all(parent_caps & caps::TRANSFERABLE_MASK, granted) {
            assert(s.sequenced().live_on(parent, rid));
            lemma_bind(
                s.sequenced(),
                grantee,
                rid,
                granted,
                ScopeKind::Process,
                s.creation_seq,
                Some(parent),
            );
        }
    }
}

/// Scope legality: a borrow through a valid handle whose scope is not
/// contained in the scope of the capability is refused with
/// `PermissionDenied`, and the table stays as it was.
pub proof fn law_wrong_scope(s: TableState, h: HandleView, tid: ThreadId, scope: ScopeKind)
    requires
        s.valid_handle(h),
        !scope.contained_in(s.slots[h.index as int].scope),
    ensures
        s.borrow_shared(h, tid, scope) == (s, Err::<(), CapError>(CapError::PermissionDenied)),
        s.borrow_exclusive(h, tid, scope) == (s, Err::<(), CapError>(CapError::PermissionDenied)),
{
}

} // verus!
