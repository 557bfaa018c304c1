//! Binding, granting, transferring and verifying capabilities.

use vstd::prelude::*;
use super::access;
use super::bind_proofs::{lemma_bind, lemma_bind_ops, lemma_counters, lemma_grant, lemma_lookup, lemma_transfer};
use super::borrow::ResourceBorrowState;
use super::caps;
use super::index::list_of;
use super::keyed::index_push;
use super::resource::{handle_result, CapError, CapabilityHandle, ResourceId, ScopeKind};
use super::revoke::revoke_dfs_locked;
use super::slot::{CapabilityEntry, SlotState, MAX_CAPABILITIES, MAX_CHILDREN_PER_CAP};
use super::state::TableState;
use super::table::{cpu_id, CapabilityTable};
use super::ProcessId;

verus! {

/// The first entry of `list` that is a live capability of `pid` on `rid`.
fn find_live_in(table: &CapabilityTable, list: &Vec<u32>, pid: u32, rid: &ResourceId) -> (r: Option<
    u32,
>)
    requires
        table.ro@.len() == MAX_CAPABILITIES,
        forall|j: int| 0 <= j < list@.len() ==> #[trigger] list@[j] < MAX_CAPABILITIES,
    ensures
        r == table@.find_live(list@, pid, *rid),
{
    let mut i: usize = 0;
    proof {
        assert(list@.skip(0) == list@);
    }
    while i < list.len()
        invariant
            i <= list.len(),
            table.ro@.len() == MAX_CAPABILITIES,
            forall|j: int| 0 <= j < list@.len() ==> #[trigger] list@[j] < MAX_CAPABILITIES,
            table@.find_live(list@, pid, *rid) == table@.find_live(list@.skip(i as int), pid, *rid),
        decreases list.len() - i,
    {
        let idx = list[i];
        proof {
            assert(list@.skip(i as int)[0] == idx);
            assert(list@.skip(i as int).drop_first() == list@.skip(i + 1));
        }
        if table.ro[idx as usize].live_for(pid, rid) {
            return Some(idx);
        }
        i = i + 1;
    }
    proof {
        assert(list@.skip(list@.len() as int).len() == 0);
    }
    None
}

/// The live capability of `pid` on `rid` that the owner index knows.
pub(crate) fn lookup_live(table: &CapabilityTable, pid: u32, rid: &ResourceId) -> (r: Option<u32>)
    requires
        table.wf(),
    ensures
        r == table@.lookup(pid, *rid),
        r matches Some(i) ==> i < MAX_CAPABILITIES,
{
    proof {
        lemma_lookup(table@, pid, *rid);
    }
    match table.wr.quick_cache.get(&(pid, rid.id, rid.typ.code())) {
        Some(list) => {
            proof {
                let key = (pid, rid.id, rid.typ.spec_code());
                assert(list@ == list_of(table@.quick_cache, key));
                assert forall|j: int| 0 <= j < list@.len() implies #[trigger] list@[j]
                    < MAX_CAPABILITIES by {
                    assert(list_of(table@.quick_cache, key).contains(list@[j]));
                }
            }
            find_live_in(table, list, pid, rid)
        },
        None => None,
    }
}

/// The handle that refers to slot `idx` as it is now.
fn handle_for<A, S>(table: &CapabilityTable, idx: u32) -> (h: CapabilityHandle<A, S>)
    requires
        idx < MAX_CAPABILITIES,
        table.ro@.len() == MAX_CAPABILITIES,
    ensures
        h@ == table@.handle_at(idx),
{
    let e = &table.ro[idx as usize];
    CapabilityHandle::new(idx, e.generation, e.scope, e.creation_order)
}

/// Takes the next creation sequence number.
fn next_creation(table: &mut CapabilityTable) -> (n: u64)
    ensures
        n == old(table)@.creation_seq,
        final(table)@ == old(table)@.sequenced(),
{
    let n = table.creation_seq;
    table.creation_seq = n.wrapping_add(1);
    n
}

/// Fills the top of the free stack with a live capability, see [`TableState::filled`].
fn fill_slot(
    table: &mut CapabilityTable,
    pid: u32,
    rid: ResourceId,
    caps_bits: u32,
    scope: ScopeKind,
    creation_order: u64,
) -> (idx: u32)
    requires
        old(table).wf(),
        old(table)@.free_slots.len() > 0,
        old(table)@.lookup(pid, rid) is None,
    ensures
        idx == old(table)@.free_slots.last(),
        idx < MAX_CAPABILITIES,
        final(table)@ == old(table)@.filled(pid, rid, caps_bits, scope, creation_order),
        final(table).wf(),
{
    let ghost s = table@;
    proof {
        super::bind_proofs::lemma_filled_wf(s, pid, rid, caps_bits, scope, creation_order);
    }
    let idx = match table.wr.free_slots.pop() {
        Some(i) => i,
        None => 0,
    };
    let ts = table.global_timestamp;
    table.global_timestamp = ts.wrapping_add(1);
    let generation = table.ro[idx as usize].generation;
    table.ro[idx as usize] = CapabilityEntry {
        resource_id: rid,
        owner_pid: pid,
        capabilities: caps_bits,
        generation,
        state: SlotState::Live,
        created_at: ts,
        creation_order,
        scope,
    };
    index_push(&mut table.wr.quick_cache, (pid, rid.id, rid.typ.code()), idx);
    table.wr.used_count = table.wr.used_count + 1;
    table.per_cpu[cpu_id()].insert(pid, rid.fast_hash(), idx);
    let rk = (rid.id, rid.typ.code());
    if !table.wr.resource_borrows.contains_key(&rk) {
        table.wr.resource_borrows.insert(rk, ResourceBorrowState::new());
    }
    match scope {
        ScopeKind::Process => {
            index_push(&mut table.wr.process_caps, pid, idx);
        },
        ScopeKind::Thread(t) => {
            index_push(&mut table.wr.thread_caps, t.as_u64(), idx);
        },
        ScopeKind::Syscall(t, n) => {
            index_push(&mut table.wr.syscall_caps, (t.as_u64(), n), idx);
        },
        ScopeKind::Permanent => {},
    }
    proof {
        let ghost next = table.next_birth@;
        table.birth = Ghost(table.birth@.update(idx as int, next));
        table.next_birth = Ghost(next + 1);
    }
    proof {
        let t = s.filled(pid, rid, caps_bits, scope, creation_order);
        assert(table@.caches =~= t.caches);
        assert(table@.resource_borrows =~= t.resource_borrows);
        assert(table@.slots =~= t.slots);
        assert(table@.free_slots =~= t.free_slots);
    }
    idx
}

/// Binds a capability, see [`TableState::bind`].
pub(crate) fn bind_internal<A, S>(
    table: &mut CapabilityTable,
    pid: ProcessId,
    rid: ResourceId,
    caps_bits: u32,
    scope: ScopeKind,
    creation_order: u64,
    parent: Option<u32>,
) -> (r: Result<CapabilityHandle<A, S>, CapError>)
    requires
        old(table).wf(),
        parent matches Some(p) ==> old(table)@.live_on(p, rid),
    ensures
        final(table).wf(),
        (final(table)@, handle_result(r)) == old(table)@.bind(
            pid.0,
            rid,
            caps_bits,
            scope,
            creation_order,
            parent,
        ),
{
    proof {
        lemma_bind(table@, pid.0, rid, caps_bits, scope, creation_order, parent);
    }
    match lookup_live(table, pid.as_u32(), &rid) {
        Some(idx) => {
            return Ok(handle_for(table, idx));
        },
        None => {},
    }
    match parent {
        Some(p) => {
            let n = match table.wr.children_of.get(&p) {
                Some(v) => v.len(),
                None => 0,
            };
            if n >= MAX_CHILDREN_PER_CAP {
                return Err(CapError::TooManyChildren);
            }
        },
        None => {},
    }
    if table.wr.free_slots.len() == 0 {
        return Err(CapError::TableFull);
    }
    let idx = fill_slot(table, pid.as_u32(), rid, caps_bits, scope, creation_order);
    match parent {
        Some(p) => {
            let h = handle_for(table, idx);
            index_push(&mut table.wr.children_of, p, idx);
            table.wr.parent_of.insert(idx, p);
            Ok(h)
        },
        None => Ok(handle_for(table, idx)),
    }
}

/// Binds `rid` to process `pid` read-only, with process scope. Where the
/// cache of this CPU or the owner index knows a live capability of `pid` on
/// `rid`, its handle is the result and no slot is taken.
pub fn bind_resource_readonly(table: &mut CapabilityTable, pid: ProcessId, rid: ResourceId) -> (r:
    Result<CapabilityHandle<access::ReadOnly>, CapError>)
    requires
        old(table).wf(),
    ensures
        final(table).wf(),
        (final(table)@, handle_result(r)) == old(table)@.bind_readonly(pid.0, rid),
        match r {
            Ok(h) => final(table)@.valid_handle(h@) && final(table)@.live_at(h@.index, pid.0, rid),
            Err(e) => e == CapError::TableFull && old(table)@.free_slots.len() == 0,
        },
{
    proof {
        lemma_bind_ops(table@, pid.0, rid, caps::READ, ScopeKind::Process);
        lemma_counters(table@, pid.0, rid);
        lemma_bind(
            table@.sequenced().cache_counted(pid.0, rid),
            pid.0,
            rid,
            caps::READ,
            ScopeKind::Process,
            table@.creation_seq,
            None,
        );
    }
    let creation = next_creation(table);
    match table.per_cpu[cpu_id()].lookup_validated(&table.ro, pid.as_u32(), &rid) {
        Some(idx) => {
            proof {
                assert(table@.caches =~= old(table)@.sequenced().cache_counted(pid.0, rid).caches);
            }
            return Ok(handle_for(table, idx));
        },
        None => {},
    }
    proof {
        assert(table@.caches =~= old(table)@.sequenced().cache_counted(pid.0, rid).caches);
    }
    bind_internal(table, pid, rid, caps::READ, ScopeKind::Process, creation, None)
}

/// Binds `rid` to process `pid` exclusively, with `READ | WRITE | MAP` and
/// process scope. Where `pid` already holds a live capability on `rid`, its
/// handle is the result and no slot is taken. `TableFull` where a slot is
/// needed and none is free.
pub fn bind_resource_exclusive(table: &mut CapabilityTable, pid: ProcessId, rid: ResourceId) -> (r:
    Result<CapabilityHandle<access::Exclusive>, CapError>)
    requires
        old(table).wf(),
    ensures
        final(table).wf(),
        (final(table)@, handle_result(r)) == old(table)@.bind_exclusive(pid.0, rid),
        match r {
            Ok(h) => final(table)@.valid_handle(h@) && final(table)@.live_at(h@.index, pid.0, rid),
            Err(e) => e == CapError::TableFull && old(table)@.free_slots.len() == 0,
        },
{
    proof {
        lemma_bind_ops(table@, pid.0, rid, caps::RW_MAP, ScopeKind::Process);
        lemma_counters(table@, pid.0, rid);
        lemma_bind(
            table@.sequenced(),
            pid.0,
            rid,
            caps::RW_MAP,
            ScopeKind::Process,
            table@.creation_seq,
            None,
        );
    }
    let creation = next_creation(table);
    bind_internal(table, pid, rid, caps::RW_MAP, ScopeKind::Process, creation, None)
}

/// Binds `rid` to process `pid` with the rights `caps_bits` and the scope
/// `scope`. Where `pid` already holds a live capability on `rid`, its handle
/// is the result and no slot is taken. `TableFull` where a slot is needed and
/// none is free.
pub fn bind_resource_scoped<A, S>(
    table: &mut CapabilityTable,
    pid: ProcessId,
    rid: ResourceId,
    caps_bits: u32,
    scope: ScopeKind,
) -> (r: Result<CapabilityHandle<A, S>, CapError>)
    requires
        old(table).wf(),
    ensures
        final(table).wf(),
        (final(table)@, handle_result(r)) == old(table)@.bind_scoped(pid.0, rid, caps_bits, scope),
        match r {
            Ok(h) => final(table)@.valid_handle(h@) && final(table)@.live_at(h@.index, pid.0, rid),
            Err(e) => e == CapError::TableFull && old(table)@.free_slots.len() == 0,
        },
{
    proof {
        lemma_bind_ops(table@, pid.0, rid, caps_bits, scope);
        lemma_counters(table@, pid.0, rid);
        lemma_bind(table@.sequenced(), pid.0, rid, caps_bits, scope, table@.creation_seq, None);
    }
    let creation = next_creation(table);
    bind_internal(table, pid, rid, caps_bits, scope, creation, None)
}

/// The live capability of `pid` on `rid` and its rights, see [`TableState::source_of`].
fn find_source(table: &CapabilityTable, pid: u32, rid: &ResourceId, right: u32) -> (r: Result<
    (u32, u32),
    CapError,
>)
    requires
        table.wf(),
    ensures
        r == table@.source_of(pid, *rid, right),
        r matches Ok((idx, _)) ==> table@.live_on(idx, *rid),
{
    proof {
        lemma_lookup(table@, pid, *rid);
    }
    match lookup_live(table, pid, rid) {
        None => Err(CapError::ResourceNotFound),
        Some(idx) => {
            let bits = table.ro[idx as usize].capabilities;
            if (bits & right) == 0 {
                Err(CapError::PermissionDenied)
            } else {
                Ok((idx, bits))
            }
        },
    }
}

/// What a grant returns: a valid handle on the grantee's live capability, or
/// one of four errors.
pub open spec fn granted_outcome<A, S>(
    t: TableState,
    r: Result<CapabilityHandle<A, S>, CapError>,
    grantee: u32,
    rid: ResourceId,
) -> bool {
    match r {
        Ok(h) => t.valid_handle(h@) && t.live_at(h@.index, grantee, rid),
        Err(e) => e == CapError::ResourceNotFound || e == CapError::PermissionDenied || e
            == CapError::TableFull || e == CapError::TooManyChildren,
    }
}

/// Grants the rights `granted`, see [`TableState::grant`].
fn grant_internal<A, S>(
    table: &mut CapabilityTable,
    grantor_pid: ProcessId,
    grantee_pid: ProcessId,
    rid: ResourceId,
    granted: u32,
) -> (r: Result<CapabilityHandle<A, S>, CapError>)
    requires
        old(table).wf(),
    ensures
        final(table).wf(),
        (final(table)@, handle_result(r)) == old(table)@.grant(
            grantor_pid.0,
            grantee_pid.0,
            rid,
            granted,
        ),
        granted_outcome(final(table)@, r, grantee_pid.0, rid),
{
    proof {
        lemma_grant(table@, grantor_pid.0, grantee_pid.0, rid, granted);
        lemma_counters(table@, grantor_pid.0, rid);
        lemma_lookup(table@, grantor_pid.0, rid);
        if let Ok((parent, _)) = table@.source_of(grantor_pid.0, rid, caps::GRANT) {
            lemma_bind(
                table@.sequenced(),
                grantee_pid.0,
                rid,
                granted,
                ScopeKind::Process,
                table@.creation_seq,
                Some(parent),
            );
        }
    }
    let (parent_idx, parent_caps) = match find_source(table, grantor_pid.as_u32(), &rid, caps::GRANT) {
        Ok(found) => found,
        Err(e) => {
            return Err(e);
        },
    };
    if !caps::holds(parent_caps & caps::TRANSFERABLE_MASK, granted) {
        return Err(CapError::PermissionDenied);
    }
    let creation = next_creation(table);
    bind_internal(table, grantee_pid, rid, granted, ScopeKind::Process, creation, Some(parent_idx))
}

/// Derives a read-only capability on `rid` for `grantee_pid` from the live
/// capability of `grantor_pid`, which needs `GRANT` and `READ`.
/// `ResourceNotFound` where the grantor holds no live capability on `rid`,
/// `PermissionDenied` where a right is missing, `TooManyChildren` where the
/// grantor's capability has 32 children already. No error takes a slot.
pub fn grant_readonly(
    table: &mut CapabilityTable,
    grantor_pid: ProcessId,
    grantee_pid: ProcessId,
    rid: ResourceId,
) -> (r: Result<CapabilityHandle<access::ReadOnly>, CapError>)
    requires
        old(table).wf(),
    ensures
        final(table).wf(),
        (final(table)@, handle_result(r)) == old(table)@.grant(
            grantor_pid.0,
            grantee_pid.0,
            rid,
            caps::READ,
        ),
        granted_outcome(final(table)@, r, grantee_pid.0, rid),
{
    grant_internal(table, grantor_pid, grantee_pid, rid, caps::READ)
}

/// Derives an exclusive capability with `READ | WRITE | MAP` on `rid` for
/// `grantee_pid` from the live capability of `grantor_pid`, which needs
/// `GRANT` and the rights granted. Errors as for [`grant_readonly`].
pub fn grant_exclusive(
    table: &mut CapabilityTable,
    grantor_pid: ProcessId,
    grantee_pid: ProcessId,
    rid: ResourceId,
) -> (r: Result<CapabilityHandle<access::Exclusive>, CapError>)
    requires
        old(table).wf(),
    ensures
        final(table).wf(),
        (final(table)@, handle_result(r)) == old(table)@.grant(
            grantor_pid.0,
            grantee_pid.0,
            rid,
            caps::RW_MAP,
        ),
        granted_outcome(final(table)@, r, grantee_pid.0, rid),
{
    grant_internal(table, grantor_pid, grantee_pid, rid, caps::RW_MAP)
}

/// Moves `rid` from `from_pid` to `to_pid`: the live capability of
/// `from_pid`, which needs `TRANSFER`, is revoked strictly with all that
/// derives from it, and `to_pid` is bound anew with those rights of the
/// source that can be passed on. `ResourceNotFound` where `from_pid` holds no
/// live capability on `rid`, `PermissionDenied` without `TRANSFER`,
/// `BorrowConflict` where the revocation meets a borrow.
pub fn transfer_resource(
    table: &mut CapabilityTable,
    from_pid: ProcessId,
    to_pid: ProcessId,
    rid: ResourceId,
) -> (r: Result<(), CapError>)
    requires
        old(table).wf(),
    ensures
        final(table).wf(),
        (final(table)@, r) == old(table)@.transfer(from_pid.0, to_pid.0, rid),
        match r {
            Ok(_) => exists|i: int|
                0 <= i < MAX_CAPABILITIES && (#[trigger] final(table)@.slots[i]).is_live_for(
                    to_pid.0,
                    rid,
                ),
            Err(e) => e == CapError::ResourceNotFound || e == CapError::PermissionDenied || e
                == CapError::BorrowConflict,
        },
{
    proof {
        lemma_transfer(table@, from_pid.0, to_pid.0, rid);
        super::laws::lemma_transfer_outcome(table@, from_pid.0, to_pid.0, rid);
    }
    let (idx, source_caps) = match find_source(table, from_pid.as_u32(), &rid, caps::TRANSFER) {
        Ok(found) => found,
        Err(e) => {
            return Err(e);
        },
    };
    let caps_new = source_caps & caps::TRANSFERABLE_MASK;
    match revoke_dfs_locked(table, idx, true) {
        Err(e) => {
            return Err(e);
        },
        Ok(_) => {},
    }
    proof {
        lemma_counters(table@, to_pid.0, rid);
    }
    let creation = next_creation(table);
    if caps::holds(caps_new, caps::WRITE_MAP) {
        match bind_internal::<access::Exclusive, super::lifetime::Process>(
            table,
            to_pid,
            rid,
            caps_new,
            ScopeKind::Process,
            creation,
            None,
        ) {
            Ok(_) => Ok(()),
            Err(e) => Err(e),
        }
    } else {
        match bind_internal::<access::ReadOnly, super::lifetime::Process>(
            table,
            to_pid,
            rid,
            caps_new,
            ScopeKind::Process,
            creation,
            None,
        ) {
            Ok(_) => Ok(()),
            Err(e) => Err(e),
        }
    }
}

/// Whether the cache of this CPU confirms that `pid` holds a live capability
/// on `rid` with every right of `required`. The slot array is held against
/// the cached index; the table is not searched. A `true` is always right; a
/// `false` may be a miss of the cache.
pub fn verify_capability_fast(table: &mut CapabilityTable, pid: ProcessId, rid: ResourceId, required: u32)
    -> (r: bool)
    requires
        old(table).wf(),
    ensures
        final(table).wf(),
        final(table)@ == old(table)@.cache_counted(pid.0, rid),
        r == old(table)@.verify_fast(pid.0, rid, required),
        r ==> old(table)@.holds(pid.0, rid, required),
{
    proof {
        lemma_counters(table@, pid.0, rid);
    }
    let hit = table.per_cpu[cpu_id()].lookup_validated(&table.ro, pid.as_u32(), &rid);
    proof {
        assert(table@.caches =~= old(table)@.cache_counted(pid.0, rid).caches);
    }
    match hit {
        Some(idx) => {
            let e = &table.ro[idx as usize];
            caps::holds(e.capabilities, required)
        },
        None => false,
    }
}

/// Whether `pid` holds a live capability on `rid` with every right of
/// `required`: first by the cache, then by the owner index, then by a search
/// of the whole table.
pub fn verify_capability(table: &mut CapabilityTable, pid: ProcessId, rid: ResourceId, required: u32)
    -> (r: bool)
    requires
        old(table).wf(),
    ensures
        final(table).wf(),
        final(table)@ == old(table)@.cache_counted(pid.0, rid),
        r == old(table)@.holds(pid.0, rid, required),
{
    if verify_capability_fast(table, pid, rid, required) {
        return true;
    }
    proof {
        lemma_lookup(table@, pid.0, rid);
    }
    match lookup_live(table, pid.as_u32(), &rid) {
        Some(idx) => {
            if caps::holds(table.ro[idx as usize].capabilities, required) {
                return true;
            }
        },
        None => {},
    }
    let mut i: usize = 0;
    while i < MAX_CAPABILITIES
        invariant
            i <= MAX_CAPABILITIES,
            table.ro@.len() == MAX_CAPABILITIES,
            table.wf(),
            table@ == old(table)@.cache_counted(pid.0, rid),
            table@.slots == old(table)@.slots,
            forall|j: int|
                0 <= j < i ==> !((#[trigger] table@.slots[j]).is_live_for(pid.0, rid)
                    && caps::has_all(table@.slots[j].capabilities, required)),
        decreases MAX_CAPABILITIES - i,
    {
        let e = &table.ro[i];
        if e.live_for(pid.as_u32(), &rid) && caps::holds(e.capabilities, required) {
            return true;
        }
        i = i + 1;
    }
    false
}

} // verus!
