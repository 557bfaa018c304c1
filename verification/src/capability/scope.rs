//! Scope-tied cleanup: what a process, a thread or a system call leaves
//! behind is revoked when it ends, the newest capability first.

use vstd::prelude::*;
use super::index::list_of;
use super::keyed::index_take;
use super::resource::{ScopeKind, ThreadId};
use super::revoke::revoke_dfs_locked;
use super::revoke_proofs::{lemma_fades_trans, lemma_revoke_tree};
use super::slot::{CapabilityEntry, MAX_CAPABILITIES};
use super::state::TableState;
use super::table::CapabilityTable;
use super::ProcessId;

verus! {

/// The creation sequence number of slot `x`.
pub open spec fn order_of(slots: Seq<CapabilityEntry>, x: u32) -> u64 {
    slots[x as int].creation_order
}

/// `sorted` with `x` put behind every entry that is not older than `x`.
pub open spec fn insert_by_order(slots: Seq<CapabilityEntry>, sorted: Seq<u32>, x: u32) -> Seq<u32>
    decreases sorted.len(),
{
    if sorted.len() == 0 {
        seq![x]
    } else if order_of(slots, sorted.last()) >= order_of(slots, x) {
        sorted.push(x)
    } else {
        insert_by_order(slots, sorted.drop_last(), x).push(sorted.last())
    }
}

/// `list` sorted by creation sequence number, the newest first; entries of
/// the same number keep their order.
pub open spec fn newest_first(slots: Seq<CapabilityEntry>, list: Seq<u32>) -> Seq<u32>
    decreases list.len(),
{
    if list.len() == 0 {
        list
    } else {
        insert_by_order(slots, newest_first(slots, list.drop_last()), list.last())
    }
}

/// Whether the creation sequence numbers along `s` never grow.
pub open spec fn descending(slots: Seq<CapabilityEntry>, s: Seq<u32>) -> bool {
    forall|i: int, j: int|
        0 <= i < j < s.len() ==> order_of(slots, s[i]) >= order_of(slots, s[j])
}

/// Whether the creation sequence numbers along `s` fall strictly.
pub open spec fn strictly_descending(slots: Seq<CapabilityEntry>, s: Seq<u32>) -> bool {
    forall|i: int, j: int|
        0 <= i < j < s.len() ==> order_of(slots, s[i]) > order_of(slots, s[j])
}

/// Whether the entries of `s` have pairwise distinct creation sequence numbers.
pub open spec fn distinct_orders(slots: Seq<CapabilityEntry>, s: Seq<u32>) -> bool {
    forall|i: int, j: int|
        0 <= i < s.len() && 0 <= j < s.len() && i != j ==> order_of(slots, s[i]) != order_of(
            slots,
            s[j],
        )
}

/// Where `x` goes: behind position `j - 1`, which is not older than `x`, and
/// before everything from position `j` on, which is older.
proof fn lemma_insert_at(slots: Seq<CapabilityEntry>, sorted: Seq<u32>, x: u32, j: int)
    requires
        0 <= j <= sorted.len(),
        forall|k: int| j <= k < sorted.len() ==> order_of(slots, sorted[k]) < order_of(slots, x),
        j > 0 ==> order_of(slots, sorted[j - 1]) >= order_of(slots, x),
    ensures
        insert_by_order(slots, sorted, x) == sorted.insert(j, x),
    decreases sorted.len() - j,
{
    if sorted.len() == 0 {
        assert(seq![x] =~= sorted.insert(j, x));
    } else if j == sorted.len() {
        assert(sorted.push(x) =~= sorted.insert(j, x));
    } else {
        let h = sorted.drop_last();
        lemma_insert_at(slots, h, x, j);
        assert(h.insert(j, x).push(sorted.last()) =~= sorted.insert(j, x));
    }
}

/// Inserting keeps the entries and the descending order.
proof fn lemma_insert_by_order(slots: Seq<CapabilityEntry>, sorted: Seq<u32>, x: u32)
    requires
        descending(slots, sorted),
    ensures
        descending(slots, insert_by_order(slots, sorted, x)),
        insert_by_order(slots, sorted, x).len() == sorted.len() + 1,
        forall|y: u32| #[trigger]
            insert_by_order(slots, sorted, x).contains(y) <==> (sorted.contains(y) || y == x),
        sorted.no_duplicates() && !sorted.contains(x) ==> insert_by_order(
            slots,
            sorted,
            x,
        ).no_duplicates(),
    decreases sorted.len(),
{
    let r = insert_by_order(slots, sorted, x);
    if sorted.len() == 0 {
        assert(r == sorted.push(x));
        super::index::lemma_push_contains(sorted, x);
    } else if order_of(slots, sorted.last()) >= order_of(slots, x) {
        super::index::lemma_push_contains(sorted, x);
    } else {
        let h = sorted.drop_last();
        let l = sorted.last();
        assert(sorted == h.push(l));
        lemma_insert_by_order(slots, h, x);
        let m = insert_by_order(slots, h, x);
        super::index::lemma_push_contains(m, l);
        super::index::lemma_push_contains(h, l);
        assert forall|i: int, j: int| 0 <= i < j < r.len() implies order_of(slots, r[i])
            >= order_of(slots, r[j]) by {
            if j == r.len() - 1 {
                assert(m.contains(m[i]));
                if m[i] != x {
                    assert(h.contains(m[i]));
                    let k = choose|k: int| 0 <= k < h.len() && h[k] == m[i];
                    assert(sorted[k] == m[i]);
                }
            } else {
                assert(order_of(slots, m[i]) >= order_of(slots, m[j]));
            }
        }
        if sorted.no_duplicates() && !sorted.contains(x) {
            assert(h.no_duplicates());
            assert(!h.contains(l)) by {
                if h.contains(l) {
                    let k = choose|k: int| 0 <= k < h.len() && h[k] == l;
                    assert(sorted[k] == sorted[sorted.len() - 1]);
                }
            }
            assert(sorted.contains(l)) by {
                assert(sorted[sorted.len() - 1] == l);
            }
        }
    }
}

/// Sorting keeps the entries and puts them in descending order of creation:
/// strictly descending where no two entries have the same creation sequence
/// number.
pub proof fn lemma_newest_first(slots: Seq<CapabilityEntry>, list: Seq<u32>)
    ensures
        descending(slots, newest_first(slots, list)),
        newest_first(slots, list).len() == list.len(),
        forall|y: u32| #[trigger] newest_first(slots, list).contains(y) <==> list.contains(y),
        list.no_duplicates() ==> newest_first(slots, list).no_duplicates(),
        distinct_orders(slots, list) ==> strictly_descending(slots, newest_first(slots, list)),
    decreases list.len(),
{
    let r = newest_first(slots, list);
    if list.len() > 0 {
        let h = list.drop_last();
        let l = list.last();
        assert(list == h.push(l));
        lemma_newest_first(slots, h);
        lemma_insert_by_order(slots, newest_first(slots, h), l);
        super::index::lemma_push_contains(h, l);
        if list.no_duplicates() {
            assert(h.no_duplicates());
            assert(!h.contains(l)) by {
                if h.contains(l) {
                    let k = choose|k: int| 0 <= k < h.len() && h[k] == l;
                    assert(list[k] == list[list.len() - 1]);
                }
            }
        }
    }
    if distinct_orders(slots, list) {
        assert(list.no_duplicates()) by {
            assert forall|i: int, j: int| 0 <= i < list.len() && 0 <= j < list.len() && i
                != j implies list[i] != list[j] by {
                assert(order_of(slots, list[i]) != order_of(slots, list[j]));
            }
        }
        assert forall|i: int, j: int| 0 <= i < j < r.len() implies order_of(slots, r[i])
            > order_of(slots, r[j]) by {
            assert(order_of(slots, r[i]) >= order_of(slots, r[j]));
            assert(r[i] != r[j]);
            assert(r.contains(r[i]) && r.contains(r[j]));
            let a = choose|a: int| 0 <= a < list.len() && list[a] == r[i];
            let b = choose|b: int| 0 <= b < list.len() && list[b] == r[j];
            assert(order_of(slots, list[a]) != order_of(slots, list[b]));
        }
    }
}

impl TableState {
    /// Strict revocation of the subtree under each slot of `list`, in order.
    /// A refusal ends the walk of that subtree only.
    pub open spec fn revoke_all(self, list: Seq<u32>) -> TableState
        decreases list.len(),
    {
        if list.len() == 0 {
            self
        } else {
            self.revoke_tree(list[0], true).0.revoke_all(list.drop_first())
        }
    }

    /// The end of process `pid`: its list leaves the index of process scope,
    /// and the subtree under each of its slots is revoked strictly, the
    /// newest slot first.
    pub open spec fn process_exit(self, pid: u32) -> TableState {
        TableState { process_caps: self.process_caps.remove(pid), ..self }.revoke_all(
            newest_first(self.slots, list_of(self.process_caps, pid)),
        )
    }

    /// The end of thread `tid`, as [`Self::process_exit`] on the index of thread scope.
    pub open spec fn thread_exit(self, tid: u64) -> TableState {
        TableState { thread_caps: self.thread_caps.remove(tid), ..self }.revoke_all(
            newest_first(self.slots, list_of(self.thread_caps, tid)),
        )
    }

    /// The return of system call `seq` of thread `tid`, as
    /// [`Self::process_exit`] on the index of system call scope.
    pub open spec fn syscall_return(self, tid: u64, seq: u64) -> TableState {
        TableState { syscall_caps: self.syscall_caps.remove((tid, seq)), ..self }.revoke_all(
            newest_first(self.slots, list_of(self.syscall_caps, (tid, seq))),
        )
    }
}

/// Revoking a list of subtrees keeps the table well formed.
pub proof fn lemma_revoke_all(s: TableState, list: Seq<u32>)
    requires
        s.wf(),
    ensures
        s.revoke_all(list).wf(),
        s.fades_to(s.revoke_all(list)),
    decreases list.len(),
{
    if list.len() == 0 {
        assert forall|i: int| 0 <= i < s.slots.len() implies super::revoke_proofs::faded(
            s.slots[i],
            #[trigger] s.slots[i],
        ) by {}
    } else {
        lemma_revoke_tree(s, list[0], true);
        let m = s.revoke_tree(list[0], true).0;
        lemma_revoke_all(m, list.drop_first());
        lemma_fades_trans(s, m, m.revoke_all(list.drop_first()));
    }
}

/// Taking a list out of a scope index keeps the table well formed.
pub proof fn lemma_drained(s: TableState, pid: u32, tid: u64, seq: u64)
    requires
        s.wf(),
    ensures
        (TableState { process_caps: s.process_caps.remove(pid), ..s }).wf(),
        (TableState { thread_caps: s.thread_caps.remove(tid), ..s }).wf(),
        (TableState { syscall_caps: s.syscall_caps.remove((tid, seq)), ..s }).wf(),
{
    let a = TableState { process_caps: s.process_caps.remove(pid), ..s };
    assert forall|p: u32, x: u32| #[trigger] list_of(a.process_caps, p).contains(x) implies a.in_use(
        x,
    ) && a.slots[x as int].scope == ScopeKind::Process && a.slots[x as int].owner_pid == p by {
        assert(list_of(s.process_caps, p).contains(x));
    }
    assert(a.scope_index_ok());
    assert(a.shape_ok() && a.free_ok() && a.owner_index_ok() && a.graph_ok() && a.borrows_ok()
        && a.unique_ok() && a.pending_ok());
    let b = TableState { thread_caps: s.thread_caps.remove(tid), ..s };
    assert forall|t: u64, x: u32| #[trigger] list_of(b.thread_caps, t).contains(x) implies b.in_use(
        x,
    ) && b.slots[x as int].scope == ScopeKind::Thread(ThreadId(t)) by {
        assert(list_of(s.thread_caps, t).contains(x));
    }
    assert(b.scope_index_ok());
    assert(b.shape_ok() && b.free_ok() && b.owner_index_ok() && b.graph_ok() && b.borrows_ok()
        && b.unique_ok() && b.pending_ok());
    let c = TableState { syscall_caps: s.syscall_caps.remove((tid, seq)), ..s };
    assert forall|k: (u64, u64), x: u32| #[trigger]
        list_of(c.syscall_caps, k).contains(x) implies c.in_use(x) && c.slots[x as int].scope
        == ScopeKind::Syscall(ThreadId(k.0), k.1) by {
        assert(list_of(s.syscall_caps, k).contains(x));
    }
    assert(c.scope_index_ok());
    assert(c.shape_ok() && c.free_ok() && c.owner_index_ok() && c.graph_ok() && c.borrows_ok()
        && c.unique_ok() && c.pending_ok());
}

/// The end of a scope keeps the table well formed.
pub proof fn lemma_scope_exit(s: TableState, pid: u32, tid: u64, seq: u64)
    requires
        s.wf(),
    ensures
        s.process_exit(pid).wf(),
        s.thread_exit(tid).wf(),
        s.syscall_return(tid, seq).wf(),
        s.process_exit(pid).used_count <= s.used_count,
        s.thread_exit(tid).used_count <= s.used_count,
        s.syscall_return(tid, seq).used_count <= s.used_count,
{
    lemma_drained(s, pid, tid, seq);
    lemma_revoke_all(
        TableState { process_caps: s.process_caps.remove(pid), ..s },
        newest_first(s.slots, list_of(s.process_caps, pid)),
    );
    lemma_revoke_all(
        TableState { thread_caps: s.thread_caps.remove(tid), ..s },
        newest_first(s.slots, list_of(s.thread_caps, tid)),
    );
    lemma_revoke_all(
        TableState { syscall_caps: s.syscall_caps.remove((tid, seq)), ..s },
        newest_first(s.slots, list_of(s.syscall_caps, (tid, seq))),
    );
}

/// `idxs` sorted by creation sequence number, the newest first.
fn sort_newest_first(table: &CapabilityTable, idxs: &Vec<u32>) -> (out: Vec<u32>)
    requires
        table.ro@.len() == MAX_CAPABILITIES,
        forall|j: int| 0 <= j < idxs@.len() ==> #[trigger] idxs@[j] < MAX_CAPABILITIES,
    ensures
        out@ == newest_first(table@.slots, idxs@),
        forall|j: int| 0 <= j < out@.len() ==> #[trigger] out@[j] < MAX_CAPABILITIES,
{
    let mut out: Vec<u32> = Vec::new();
    let mut i: usize = 0;
    proof {
        assert(idxs@.take(0) =~= Seq::<u32>::empty());
    }
    while i < idxs.len()
        invariant
            i <= idxs.len(),
            table.ro@.len() == MAX_CAPABILITIES,
            forall|j: int| 0 <= j < idxs@.len() ==> #[trigger] idxs@[j] < MAX_CAPABILITIES,
            out@ == newest_first(table@.slots, idxs@.take(i as int)),
            out@.len() == i,
            forall|j: int| 0 <= j < out@.len() ==> #[trigger] out@[j] < MAX_CAPABILITIES,
        decreases idxs.len() - i,
    {
        let x = idxs[i];
        let key = table.ro[x as usize].creation_order;
        let mut j: usize = out.len();
        while j > 0 && table.ro[out[j - 1] as usize].creation_order < key
            invariant
                j <= out.len(),
                table.ro@.len() == MAX_CAPABILITIES,
                x < MAX_CAPABILITIES,
                key == order_of(table@.slots, x),
                forall|k: int| 0 <= k < out@.len() ==> #[trigger] out@[k] < MAX_CAPABILITIES,
                forall|k: int|
                    j <= k < out@.len() ==> order_of(table@.slots, out@[k]) < order_of(
                        table@.slots,
                        x,
                    ),
            decreases j,
        {
            j = j - 1;
        }
        proof {
            lemma_insert_at(table@.slots, out@, x, j as int);
            assert(idxs@.take(i + 1).drop_last() == idxs@.take(i as int));
            assert(idxs@.take(i + 1).last() == x);
        }
        out.insert(j, x);
        i = i + 1;
    }
    proof {
        assert(idxs@.take(idxs@.len() as int) == idxs@);
    }
    out
}

/// Revokes the subtree under each slot of `idxs` strictly, the newest slot
/// first, and returns the number of slots that became free.
pub(crate) fn revoke_indices_deterministic(table: &mut CapabilityTable, idxs: Vec<u32>) -> (count:
    usize)
    requires
        old(table).wf(),
        forall|j: int| 0 <= j < idxs@.len() ==> #[trigger] idxs@[j] < MAX_CAPABILITIES,
    ensures
        final(table).wf(),
        final(table)@ == old(table)@.revoke_all(newest_first(old(table)@.slots, idxs@)),
        count == old(table)@.used_count - final(table)@.used_count,
{
    let sorted = sort_newest_first(table, &idxs);
    let before = table.wr.used_count;
    let ghost s0 = table@;
    proof {
        assert(sorted@.skip(0) == sorted@);
        lemma_revoke_all(s0, sorted@);
    }
    let mut i: usize = 0;
    while i < sorted.len()
        invariant
            i <= sorted.len(),
            table.wf(),
            table@.used_count <= s0.used_count,
            before == s0.used_count,
            s0.revoke_all(sorted@) == table@.revoke_all(sorted@.skip(i as int)),
        decreases sorted.len() - i,
    {
        let idx = sorted[i];
        proof {
            assert(sorted@.skip(i as int)[0] == idx);
            assert(sorted@.skip(i as int).drop_first() == sorted@.skip(i + 1));
            lemma_revoke_tree(table@, idx, true);
        }
        let _ = revoke_dfs_locked(table, idx, true);
        i = i + 1;
    }
    proof {
        assert(sorted@.skip(sorted@.len() as int).len() == 0);
    }
    (before - table.wr.used_count) as usize
}

/// Ends process `pid`: every capability of process scope that it owns is
/// revoked strictly with all that derives from it, the newest first. Returns
/// the number of slots that became free. A capability whose resource is
/// borrowed stays live; where nothing is borrowed and the scope indices are
/// complete, the process owns no capability of process scope afterwards.
pub fn on_process_exit(table: &mut CapabilityTable, pid: ProcessId) -> (count: usize)
    requires
        old(table).wf(),
    ensures
        final(table).wf(),
        final(table)@ == old(table)@.process_exit(pid.0),
        count == old(table)@.used_count - final(table)@.used_count,
        old(table)@.scope_index_complete() && old(table)@.unborrowed() ==> forall|x: u32|
            final(table)@.in_use(x) && (#[trigger] final(table)@.slots[x as int]).owner_pid == pid.0
                ==> final(table)@.slots[x as int].scope != ScopeKind::Process,
{
    let ghost s = table@;
    proof {
        lemma_drained(s, pid.0, 0, 0);
        if s.scope_index_complete() && s.unborrowed() {
            super::scope_laws::law_process_exit(s, pid.0);
        }
    }
    let idxs = index_take(&mut table.wr.process_caps, pid.as_u32());
    proof {
        assert forall|j: int| 0 <= j < idxs@.len() implies #[trigger] idxs@[j] < MAX_CAPABILITIES by {
            assert(list_of(s.process_caps, pid.0).contains(idxs@[j]));
        }
    }
    revoke_indices_deterministic(table, idxs)
}

/// Ends thread `tid`: every capability of thread scope on it is revoked
/// strictly with all that derives from it, the newest first. Returns the
/// number of slots that became free.
pub fn on_thread_exit(table: &mut CapabilityTable, tid: ThreadId) -> (count: usize)
    requires
        old(table).wf(),
    ensures
        final(table).wf(),
        final(table)@ == old(table)@.thread_exit(tid.0),
        count == old(table)@.used_count - final(table)@.used_count,
        old(table)@.scope_index_complete() && old(table)@.unborrowed() ==> forall|x: u32|
            final(table)@.in_use(x) ==> (#[trigger] final(table)@.slots[x as int]).scope
                != ScopeKind::Thread(tid),
{
    let ghost s = table@;
    proof {
        lemma_drained(s, 0, tid.0, 0);
        if s.scope_index_complete() && s.unborrowed() {
            super::scope_laws::law_thread_exit(s, tid.0);
        }
    }
    let idxs = index_take(&mut table.wr.thread_caps, tid.as_u64());
    proof {
        assert forall|j: int| 0 <= j < idxs@.len() implies #[trigger] idxs@[j] < MAX_CAPABILITIES by {
            assert(list_of(s.thread_caps, tid.0).contains(idxs@[j]));
        }
    }
    revoke_indices_deterministic(table, idxs)
}

/// Ends system call `seq` of thread `tid`: every capability of that scope is
/// revoked strictly with all that derives from it, the newest first. Returns
/// the number of slots that became free.
pub fn on_syscall_return(table: &mut CapabilityTable, tid: ThreadId, seq: u64) -> (count: usize)
    requires
        old(table).wf(),
    ensures
        final(table).wf(),
        final(table)@ == old(table)@.syscall_return(tid.0, seq),
        count == old(table)@.used_count - final(table)@.used_count,
        old(table)@.scope_index_complete() && old(table)@.unborrowed() ==> forall|x: u32|
            final(table)@.in_use(x) ==> (#[trigger] final(table)@.slots[x as int]).scope
                != ScopeKind::Syscall(tid, seq),
{
    let ghost s = table@;
    proof {
        lemma_drained(s, 0, tid.0, seq);
        if s.scope_index_complete() && s.unborrowed() {
            super::scope_laws::law_syscall_return(s, tid.0, seq);
        }
    }
    let idxs = index_take(&mut table.wr.syscall_caps, (tid.as_u64(), seq));
    proof {
        assert forall|j: int| 0 <= j < idxs@.len() implies #[trigger] idxs@[j] < MAX_CAPABILITIES by {
            assert(list_of(s.syscall_caps, (tid.0, seq)).contains(idxs@[j]));
        }
    }
    revoke_indices_deterministic(table, idxs)
}

} // verus!
