//! Revocation: of one slot, of a subtree of the delegation graph, and of what
//! a scope leaves behind when it ends.

use vstd::prelude::*;
use super::index::{list_of, removed};
use super::keyed::{index_get, index_push, index_remove, index_take};
use super::resource::{CapError, CapabilityHandle, ResourceId, ScopeKind};
use super::revoke_proofs::{lemma_completed, lemma_revoke_tree};
use super::table::fast_validate;
use super::slot::{CapabilityEntry, SlotState, MAX_CAPABILITIES};
use super::state::TableState;
use super::table::CapabilityTable;

verus! {

/// Takes `idx` out of the owner index under `pid` and `rid`.
pub(crate) fn qc_remove_idx(table: &mut CapabilityTable, pid: u32, rid: ResourceId, idx: u32)
    ensures
        final(table)@ == (TableState {
            quick_cache: removed(old(table)@.quick_cache, (pid, rid.id, rid.typ.spec_code()), idx),
            ..old(table)@
        }),
{
    index_remove(&mut table.wr.quick_cache, (pid, rid.id, rid.typ.code()), idx);
}

/// Takes `idx` out of the scope index that `scope` names; `pid` is the owner
/// of the slot.
pub(crate) fn scope_remove_idx(table: &mut CapabilityTable, scope: ScopeKind, pid: u32, idx: u32)
    ensures
        final(table)@ == old(table)@.scope_unfiled(scope, pid, idx),
{
    match scope {
        ScopeKind::Process => {
            index_remove(&mut table.wr.process_caps, pid, idx);
        },
        ScopeKind::Thread(t) => {
            index_remove(&mut table.wr.thread_caps, t.as_u64(), idx);
        },
        ScopeKind::Syscall(t, s) => {
            index_remove(&mut table.wr.syscall_caps, (t.as_u64(), s), idx);
        },
        ScopeKind::Permanent => {},
    }
}

/// Cuts the delegation edges at `idx`.
pub(crate) fn unlink_graph_locked(table: &mut CapabilityTable, idx: u32)
    ensures
        final(table)@ == old(table)@.unlinked(idx),
{
    let ghost parents = table@.parent_of;
    match table.wr.parent_of.remove(&idx) {
        Some(p) => {
            index_remove(&mut table.wr.children_of, p, idx);
        },
        None => {},
    }
    let children = index_take(&mut table.wr.children_of, idx);
    let mut i: usize = 0;
    proof {
        assert(table@.parent_of == parents.remove(idx));
        assert(children@.take(0).len() == 0);
        assert(table@.parent_of =~= Map::new(
            |c: u32| parents.contains_key(c) && c != idx && !children@.take(0).contains(c),
            |c: u32| parents[c],
        ));
    }
    while i < children.len()
        invariant
            i <= children.len(),
            table@ == (TableState {
                parent_of: Map::new(
                    |c: u32|
                        parents.contains_key(c) && c != idx && !children@.take(i as int).contains(
                            c,
                        ),
                    |c: u32| parents[c],
                ),
                ..table@
            }),
            table@ == (TableState { parent_of: table@.parent_of, ..old(table)@.unlinked(idx) }),
        decreases children.len() - i,
    {
        let c = children[i];
        let ghost before = table@.parent_of;
        table.wr.parent_of.remove(&c);
        proof {
            let done = children@.take(i as int);
            let next = children@.take(i + 1);
            assert(next == done.push(c));
            super::index::lemma_push_contains(done, c);
            assert(table@.parent_of =~= Map::new(
                |x: u32| parents.contains_key(x) && x != idx && !next.contains(x),
                |x: u32| parents[x],
            ));
        }
        i = i + 1;
    }
    proof {
        assert(children@.take(children.len() as int) == children@);
        assert(table@.parent_of =~= old(table)@.unlinked(idx).parent_of);
    }
}

/// Releases slot `idx`: the generation grows by one, the slot goes on the
/// free stack, and every cache forgets it.
pub(crate) fn free_slot_locked(table: &mut CapabilityTable, idx: u32)
    requires
        idx < MAX_CAPABILITIES,
        old(table).ro@.len() == MAX_CAPABILITIES,
    ensures
        final(table)@ == old(table)@.released(idx),
{
    let e = table.ro[idx as usize];
    table.ro[idx as usize] = CapabilityEntry {
        resource_id: e.resource_id,
        owner_pid: e.owner_pid,
        capabilities: e.capabilities,
        generation: e.generation.wrapping_add(1),
        state: SlotState::Free,
        created_at: e.created_at,
        creation_order: e.creation_order,
        scope: e.scope,
    };
    table.wr.used_count = table.wr.used_count.saturating_sub(1);
    table.wr.free_slots.push(idx);
    pcache_invalidate_all(table, idx);
}

/// Empties every entry of every cache that holds `idx`.
pub(crate) fn pcache_invalidate_all(table: &mut CapabilityTable, idx: u32)
    ensures
        final(table)@ == (TableState {
            caches: Seq::new(
                old(table)@.caches.len(),
                |c: int| old(table)@.caches[c].invalidated(idx),
            ),
            ..old(table)@
        }),
{
    let n = table.per_cpu.len();
    let mut c: usize = 0;
    while c < n
        invariant
            c <= n,
            n == table.per_cpu@.len(),
            n == old(table).per_cpu@.len(),
            table@ == (TableState { caches: table@.caches, ..old(table)@ }),
            forall|j: int| 0 <= j < c ==> table.per_cpu@[j]@ == old(table).per_cpu@[j]@.invalidated(idx),
            forall|j: int| c <= j < n ==> table.per_cpu@[j] == old(table).per_cpu@[j],
        decreases n - c,
    {
        table.per_cpu[c].invalidate_idx(idx);
        c = c + 1;
    }
    proof {
        assert(table@.caches =~= Seq::new(
            old(table)@.caches.len(),
            |c: int| old(table)@.caches[c].invalidated(idx),
        ));
    }
}

/// Whether any borrow of the resource with key `rk` is outstanding.
pub(crate) fn resource_borrowed(table: &CapabilityTable, rk: (u64, u8)) -> (b: bool)
    ensures
        b == table@.borrowed(rk),
{
    match table.wr.resource_borrows.get(&rk) {
        Some(bs) => bs.has_active(),
        None => false,
    }
}

/// Revokes the one slot `idx`, see [`TableState::revoke_one`].
pub(crate) fn revoke_one_locked(table: &mut CapabilityTable, idx: u32, strict: bool) -> (r: Result<
    (),
    CapError,
>)
    requires
        idx < MAX_CAPABILITIES,
        old(table).ro@.len() == MAX_CAPABILITIES,
    ensures
        (final(table)@, r) == old(table)@.revoke_one(idx, strict),
        final(table).ro@.len() == MAX_CAPABILITIES,
{
    let e = table.ro[idx as usize];
    let rid = e.resource_id;
    let rk = (rid.id, rid.typ.code());
    if resource_borrowed(table, rk) {
        if strict {
            return Err(CapError::BorrowConflict);
        }
        if !e.is_pending() {
            index_push(&mut table.wr.pending_revoke, rk, idx);
            table.ro[idx as usize] = CapabilityEntry {
                resource_id: e.resource_id,
                owner_pid: e.owner_pid,
                capabilities: e.capabilities,
                generation: e.generation,
                state: SlotState::PendingRevoke,
                created_at: e.created_at,
                creation_order: e.creation_order,
                scope: e.scope,
            };
        }
        return Ok(());
    }
    qc_remove_idx(table, e.owner_pid, e.resource_id, idx);
    scope_remove_idx(table, e.scope, e.owner_pid, idx);
    unlink_graph_locked(table, idx);
    free_slot_locked(table, idx);
    Ok(())
}

/// Revokes the subtree under slot `idx`, children first, see
/// [`TableState::revoke_tree`].
pub(crate) fn revoke_dfs_locked(table: &mut CapabilityTable, idx: u32, strict: bool) -> (r: Result<
    (),
    CapError,
>)
    requires
        old(table).wf(),
    ensures
        (final(table)@, r) == old(table)@.revoke_tree(idx, strict),
        final(table).wf(),
    decreases old(table)@.age(idx),
{
    if (idx as usize) >= MAX_CAPABILITIES {
        return Ok(());
    }
    if table.ro[idx as usize].is_free() {
        return Ok(());
    }
    let children = match index_get(&table.wr.children_of, idx) {
        Some(v) => v,
        None => Vec::new(),
    };
    let ghost s0 = table@;
    let ghost limit = s0.age(idx);
    proof {
        assert(children@ == list_of(s0.children_of, idx));
        assert forall|j: int| 0 <= j < children@.len() implies s0.age(#[trigger] children@[j])
            < limit by {
            let c = children@[j];
            assert(list_of(s0.children_of, idx).contains(c));
            assert(s0.parent_of.contains_key(c) && s0.parent_of[c] == idx);
            assert(s0.in_use(c));
            assert(s0.slots[c as int].state != SlotState::Free);
            assert(s0.slots[idx as int].state != SlotState::Free);
        }
        assert(children@.skip(0) == children@);
    }
    let mut i: usize = 0;
    while i < children.len()
        invariant
            i <= children.len(),
            idx < MAX_CAPABILITIES,
            table.wf(),
            s0 == old(table)@,
            s0.wf(),
            table@.birth == s0.birth,
            table@.next_birth == s0.next_birth,
            limit == s0.age(idx),
            table@.slots[idx as int] == s0.slots[idx as int],
            s0.revoke_each(children@, limit, strict) == table@.revoke_each(
                children@.skip(i as int),
                limit,
                strict,
            ),
            forall|j: int| 0 <= j < children@.len() ==> s0.age(#[trigger] children@[j]) < limit,
            s0.revoke_tree(idx, strict) == (if s0.revoke_each(children@, limit, strict).1 is Err {
                s0.revoke_each(children@, limit, strict)
            } else {
                s0.revoke_each(children@, limit, strict).0.revoke_one(idx, strict)
            }),
        decreases children.len() - i,
    {
        let c = children[i];
        let ghost before = table@;
        proof {
            lemma_revoke_tree(before, c, strict);
            assert(children@.skip(i as int)[0] == c);
            assert(children@.skip(i as int).drop_first() == children@.skip(i + 1));
            assert(before.age(c) == s0.age(c));
            assert(before.age(idx) == s0.age(idx));
            let rest = children@.skip(i as int);
            let (m, rm) = before.revoke_tree(c, strict);
            assert(before.revoke_each(rest, limit, strict) == (if rm is Err {
                (m, rm)
            } else {
                m.revoke_each(rest.drop_first(), limit, strict)
            }));
            assert(before.fades_to(m));
            assert(before.keeps_older(m, before.age(c)));
            assert(m.slots[idx as int] == before.slots[idx as int]);
        }
        let r = revoke_dfs_locked(table, c, strict);
        match r {
            Err(e) => {
                return Err(e);
            },
            Ok(_) => {},
        }
        i = i + 1;
    }
    proof {
        assert(children@.skip(children@.len() as int).len() == 0);
        lemma_revoke_tree(s0, idx, strict);
    }
    revoke_one_locked(table, idx, strict)
}

/// Completes the queued revocations of `rid` once the resource is not
/// borrowed any more, see [`TableState::completed`].
pub(crate) fn try_complete_pending_for(table: &mut CapabilityTable, rid: ResourceId)
    requires
        old(table)@.core_ok(),
        old(table)@.pending_ok() || old(table)@.borrowless_pending_ok(rid.key()),
    ensures
        final(table)@ == old(table)@.completed(rid),
        final(table).wf(),
{
    let rk = (rid.id, rid.typ.code());
    proof {
        lemma_completed(table@, rid);
    }
    if !table.wr.pending_revoke.contains_key(&rk) {
        return ;
    }
    if resource_borrowed(table, rk) {
        return ;
    }
    let ghost s0 = table@;
    let idxs = index_take(&mut table.wr.pending_revoke, rk);
    proof {
        assert(idxs@ == s0.pending_revoke[rk]);
        assert(idxs@.skip(0) == idxs@);
        assert forall|j: int| 0 <= j < idxs@.len() implies #[trigger] idxs@[j] < MAX_CAPABILITIES by {
            assert(list_of(s0.pending_revoke, rk).contains(idxs@[j]));
        }
    }
    let mut i: usize = 0;
    while i < idxs.len()
        invariant
            i <= idxs.len(),
            table.ro@.len() == MAX_CAPABILITIES,
            forall|j: int| 0 <= j < idxs@.len() ==> #[trigger] idxs@[j] < MAX_CAPABILITIES,
            s0.completed(rid) == table@.complete_each(idxs@.skip(i as int)),
        decreases idxs.len() - i,
    {
        proof {
            assert(idxs@.skip(i as int)[0] == idxs@[i as int]);
            assert(idxs@.skip(i as int).drop_first() == idxs@.skip(i + 1));
        }
        let _ = revoke_one_locked(table, idxs[i], true);
        i = i + 1;
    }
    proof {
        assert(idxs@.skip(idxs@.len() as int).len() == 0);
    }
}

/// Strict revocation of the capability that `h` names, with all that derives
/// from it, children first. `InvalidHandle` where `h` does not pass
/// validation; `BorrowConflict` at the first slot of the walk whose resource
/// is borrowed, with what was revoked before it staying revoked. After a
/// success the slot is free, in its next generation, and so is every slot
/// that derived from it at any depth.
pub fn revoke_capability<A, S>(table: &mut CapabilityTable, h: &CapabilityHandle<A, S>) -> (r:
    Result<(), CapError>)
    requires
        old(table).wf(),
    ensures
        final(table).wf(),
        (final(table)@, r) == old(table)@.revoke(h@, true),
        old(table)@.fades_to(final(table)@),
        match r {
            Ok(_) => {
                &&& old(table)@.valid_handle(h@)
                &&& final(table)@.slots[h@.index as int].state == SlotState::Free
                &&& final(table)@.slots[h@.index as int].generation == h@.generation.wrapping_add(1)
                &&& forall|c: u32, n: nat| #[trigger]
                    old(table)@.descends(c, h@.index, n) ==> c < MAX_CAPABILITIES && final(table)@.slots[c as int].state == SlotState::Free
            },
            Err(e) => if old(table)@.valid_handle(h@) {
                e == CapError::BorrowConflict
            } else {
                e == CapError::InvalidHandle && final(table)@ == old(table)@
            },
        },
{
    proof {
        super::revoke_proofs::lemma_revoke(table@, h@, true);
        if table@.valid_handle(h@) {
            lemma_revoke_tree(table@, h@.index, true);
            assert(super::revoke_proofs::faded(
                table@.slots[h@.index as int],
                table@.revoke(h@, true).0.slots[h@.index as int],
            ));
            if table@.revoke(h@, true).1 is Ok {
                let s = table@;
                assert forall|c: u32, n: nat| #[trigger]
                    s.descends(c, h@.index, n) implies c < MAX_CAPABILITIES && s.revoke(
                    h@,
                    true,
                ).0.slots[c as int].state == SlotState::Free by {
                    super::subtree::law_strict_subtree(s, h@, c, n);
                }
            }
        }
    }
    match fast_validate(table, h) {
        Err(e) => {
            return Err(e);
        },
        Ok(_) => {},
    }
    revoke_dfs_locked(table, h.index(), true)
}

/// Deferred revocation of the capability that `h` names, with all that
/// derives from it, children first: a slot whose resource is borrowed is
/// queued and revoked when the last borrow ends. `InvalidHandle` where `h`
/// does not pass validation; no other error. After a success neither the
/// slot nor any slot that derived from it at any depth is live.
pub fn revoke_capability_deferred<A, S>(table: &mut CapabilityTable, h: &CapabilityHandle<A, S>)
    -> (r: Result<(), CapError>)
    requires
        old(table).wf(),
    ensures
        final(table).wf(),
        (final(table)@, r) == old(table)@.revoke(h@, false),
        old(table)@.fades_to(final(table)@),
        match r {
            Ok(_) => {
                &&& old(table)@.valid_handle(h@)
                &&& forall|c: u32, n: nat| #[trigger]
                    old(table)@.descends(c, h@.index, n) ==> c < MAX_CAPABILITIES && final(table)@.slots[c as int].state != SlotState::Live
            },
            Err(e) => !old(table)@.valid_handle(h@) && e == CapError::InvalidHandle
                && final(table)@ == old(table)@,
        },
{
    proof {
        super::revoke_proofs::lemma_revoke(table@, h@, false);
        if table@.valid_handle(h@) {
            let s = table@;
            assert forall|c: u32, n: nat| #[trigger]
                s.descends(c, h@.index, n) implies c < MAX_CAPABILITIES && s.revoke(
                h@,
                false,
            ).0.slots[c as int].state != SlotState::Live by {
                super::subtree::law_deferred_subtree(s, h@, c, n);
            }
        }
    }
    proof {
        if table@.valid_handle(h@) {
            lemma_revoke_tree(table@, h@.index, false);
        }
    }
    match fast_validate(table, h) {
        Err(e) => {
            return Err(e);
        },
        Ok(_) => {},
    }
    revoke_dfs_locked(table, h.index(), false)
}

} // verus!
