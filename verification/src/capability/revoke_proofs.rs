//! Why revocation keeps the table well formed, and what it leaves untouched.

use vstd::prelude::*;
use super::detach_proofs::{lemma_detached_core, lemma_detached_fields, lemma_detached_wf};
use super::index::{lemma_pushed, list_of, tidy};
use super::resource::{CapError, ResourceId};
use super::slot::{CapabilityEntry, SlotState, MAX_CAPABILITIES};
use super::state::TableState;

verus! {

/// Whether slot content `b` can come from slot content `a` by revocation:
/// nothing changes but the state, which only moves towards `Free`, and the
/// generation, which changes only with the move to `Free`.
pub open spec fn faded(a: CapabilityEntry, b: CapabilityEntry) -> bool {
    ||| b == a
    ||| a.state == SlotState::Live && b == (CapabilityEntry {
        state: SlotState::PendingRevoke,
        ..a
    })
    ||| a.state != SlotState::Free && b == (CapabilityEntry {
        state: SlotState::Free,
        generation: a.generation.wrapping_add(1),
        ..a
    })
}

impl TableState {
    /// Whether `t` can come from `self` by revocation alone: no slot is bound
    /// or changes but towards `Free`, and nothing is borrowed or given back.
    pub open spec fn fades_to(self, t: TableState) -> bool {
        &&& t.slots.len() == self.slots.len()
        &&& forall|i: int| 0 <= i < self.slots.len() ==> faded(self.slots[i], #[trigger] t.slots[i])
        &&& t.resource_borrows == self.resource_borrows
        &&& t.birth == self.birth
        &&& t.next_birth == self.next_birth
        &&& t.timestamp == self.timestamp
        &&& t.creation_seq == self.creation_seq
        &&& t.used_count <= self.used_count
        &&& forall|c: u32| #[trigger]
            t.parent_of.contains_key(c) ==> self.parent_of.contains_key(c) && self.parent_of[c]
                == t.parent_of[c]
        &&& forall|k: u32, x: u32| #[trigger]
            list_of(self.process_caps, k).contains(x) && t.in_use(x) ==> list_of(
                t.process_caps,
                k,
            ).contains(x)
        &&& forall|k: u64, x: u32| #[trigger]
            list_of(self.thread_caps, k).contains(x) && t.in_use(x) ==> list_of(
                t.thread_caps,
                k,
            ).contains(x)
        &&& forall|k: (u64, u64), x: u32| #[trigger]
            list_of(self.syscall_caps, k).contains(x) && t.in_use(x) ==> list_of(
                t.syscall_caps,
                k,
            ).contains(x)
    }

    /// Whether every slot older than `age` is in `t` what it is in `self`.
    pub open spec fn keeps_older(self, t: TableState, age: nat) -> bool {
        forall|x: u32|
            x < self.slots.len() && self.age(x) > age ==> #[trigger] t.slots[x as int]
                == self.slots[x as int]
    }

    /// Whether every slot of age `age` or more is in `t` what it is in `self`.
    pub open spec fn keeps_from(self, t: TableState, age: nat) -> bool {
        forall|x: u32|
            x < self.slots.len() && self.age(x) >= age ==> #[trigger] t.slots[x as int]
                == self.slots[x as int]
    }
}

/// Revocation composes.
pub proof fn lemma_fades_trans(a: TableState, b: TableState, c: TableState)
    requires
        a.fades_to(b),
        b.fades_to(c),
        a.slots.len() == MAX_CAPABILITIES,
    ensures
        a.fades_to(c),
{
    assert forall|i: int| 0 <= i < a.slots.len() implies faded(a.slots[i], #[trigger] c.slots[i]) by {
        assert(faded(a.slots[i], b.slots[i]));
        assert(faded(b.slots[i], c.slots[i]));
    }
    assert forall|k: u32, x: u32| #[trigger]
        list_of(a.process_caps, k).contains(x) && c.in_use(x) implies list_of(
        c.process_caps,
        k,
    ).contains(x) by {
        assert(faded(b.slots[x as int], c.slots[x as int]));
        assert(list_of(b.process_caps, k).contains(x));
    }
    assert forall|k: u64, x: u32| #[trigger]
        list_of(a.thread_caps, k).contains(x) && c.in_use(x) implies list_of(
        c.thread_caps,
        k,
    ).contains(x) by {
        assert(faded(b.slots[x as int], c.slots[x as int]));
        assert(list_of(b.thread_caps, k).contains(x));
    }
    assert forall|k: (u64, u64), x: u32| #[trigger]
        list_of(a.syscall_caps, k).contains(x) && c.in_use(x) implies list_of(
        c.syscall_caps,
        k,
    ).contains(x) by {
        assert(faded(b.slots[x as int], c.slots[x as int]));
        assert(list_of(b.syscall_caps, k).contains(x));
    }
}

/// Queuing a slot in use behind the borrows of its resource keeps the table
/// well formed.
#[verifier::rlimit(40)]
pub proof fn lemma_queued_wf(s: TableState, idx: u32)
    requires
        s.wf(),
        s.in_use(idx),
        s.borrowed(s.slots[idx as int].resource_id.key()),
        s.settled_below(idx),
    ensures
        s.queued(idx).wf(),
        s.fades_to(s.queued(idx)),
        forall|x: u32|
            x < MAX_CAPABILITIES && x != idx ==> #[trigger] s.queued(idx).slots[x as int]
                == s.slots[x as int],
        s.queued(idx).slots[idx as int].state == SlotState::PendingRevoke,
{
    let t = s.queued(idx);
    let e = s.slots[idx as int];
    let rk = e.resource_id.key();
    if e.state != SlotState::PendingRevoke {
        assert(e.state == SlotState::Live);
        lemma_pushed(s.pending_revoke, rk, idx);
        assert(!list_of(s.pending_revoke, rk).contains(idx));
        assert forall|i: int| 0 <= i < s.slots.len() implies faded(s.slots[i], #[trigger] t.slots[i]) by {}
        assert(t.shape_ok()) by {
            assert forall|i: int|
                0 <= i < MAX_CAPABILITIES && (#[trigger] t.slots[i]).state
                    != SlotState::Free implies t.birth[i] < t.next_birth by {
                assert(s.slots[i].state != SlotState::Free);
            }
            assert forall|i: int| 0 <= i < MAX_CAPABILITIES implies (#[trigger] t.slots[i]).state
                != SlotState::Allocating by {
                assert(s.slots[i].state != SlotState::Allocating);
            }
        }
        assert(t.free_ok()) by {
            assert forall|x: u32| #[trigger]
                t.free_slots.contains(x) <==> (x < MAX_CAPABILITIES && t.slots[x as int].state
                    == SlotState::Free) by {
                assert(s.free_slots.contains(x) <==> (x < MAX_CAPABILITIES
                    && s.slots[x as int].state == SlotState::Free));
            }
        }
        assert(t.owner_index_ok()) by {
            assert forall|k: (u32, u64, u8), x: u32| #[trigger]
                list_of(t.quick_cache, k).contains(x) <==> (t.in_use(x)
                    && t.slots[x as int].owner_key() == k) by {
                assert(list_of(s.quick_cache, k).contains(x) <==> (s.in_use(x)
                    && s.slots[x as int].owner_key() == k));
            }
        }
        assert(t.scope_index_ok()) by {
            assert forall|p: u32, x: u32| #[trigger]
                list_of(t.process_caps, p).contains(x) implies t.in_use(x)
                && t.slots[x as int].scope == super::resource::ScopeKind::Process
                && t.slots[x as int].owner_pid == p by {
                assert(list_of(s.process_caps, p).contains(x));
            }
            assert forall|th: u64, x: u32| #[trigger]
                list_of(t.thread_caps, th).contains(x) implies t.in_use(x)
                && t.slots[x as int].scope == super::resource::ScopeKind::Thread(
                super::resource::ThreadId(th),
            ) by {
                assert(list_of(s.thread_caps, th).contains(x));
            }
            assert forall|k: (u64, u64), x: u32| #[trigger]
                list_of(t.syscall_caps, k).contains(x) implies t.in_use(x)
                && t.slots[x as int].scope == super::resource::ScopeKind::Syscall(
                super::resource::ThreadId(k.0),
                k.1,
            ) by {
                assert(list_of(s.syscall_caps, k).contains(x));
            }
        }
        assert(t.graph_ok()) by {
            assert forall|c: u32| #[trigger] t.parent_of.contains_key(c) implies t.in_use(c)
                && t.in_use(t.parent_of[c]) && t.birth[t.parent_of[c] as int]
                < t.birth[c as int] by {
                assert(s.parent_of.contains_key(c));
            }
            assert forall|c: u32| #[trigger]
                t.parent_of.contains_key(c) implies t.slots[c as int].resource_id
                == t.slots[t.parent_of[c] as int].resource_id && (t.slots[c as int].state
                == SlotState::Live ==> t.slots[t.parent_of[c] as int].state
                == SlotState::Live) by {
                assert(s.parent_of.contains_key(c));
            }
        }
        assert(t.borrows_ok()) by {
            assert forall|x: u32| t.in_use(x) implies t.resource_borrows.contains_key(
                (#[trigger] t.slots[x as int]).resource_id.key(),
            ) by {
                assert(s.in_use(x));
            }
        }
        assert(t.unique_ok()) by {
            assert forall|i: int, j: int|
                0 <= i < MAX_CAPABILITIES && 0 <= j < MAX_CAPABILITIES && i != j && (
                #[trigger] t.slots[i]).state == SlotState::Live && (#[trigger] t.slots[j]).state
                    == SlotState::Live implies t.slots[i].owner_key()
                != t.slots[j].owner_key() by {
                assert(s.slots[i].state == SlotState::Live && s.slots[j].state
                    == SlotState::Live);
            }
        }
        assert(t.pending_ok()) by {
            assert forall|k: (u64, u8), x: u32| #[trigger]
                list_of(t.pending_revoke, k).contains(x) <==> (x < MAX_CAPABILITIES
                    && t.slots[x as int].state == SlotState::PendingRevoke
                    && t.slots[x as int].resource_id.key() == k) by {
                assert(list_of(s.pending_revoke, k).contains(x) <==> (x < MAX_CAPABILITIES
                    && s.slots[x as int].state == SlotState::PendingRevoke
                    && s.slots[x as int].resource_id.key() == k));
            }
            assert forall|k: (u64, u8)| #[trigger] t.pending_revoke.contains_key(k) implies t.borrowed(
                k,
            ) by {
                if k != rk {
                    assert(s.pending_revoke.contains_key(k));
                }
            }
        }
    }
}

/// What detaching a slot in use leaves untouched.
pub proof fn lemma_detached_fades(s: TableState, idx: u32)
    requires
        s.shape_ok(),
        s.graph_ok(),
        s.in_use(idx),
    ensures
        s.fades_to(s.detached(idx)),
        forall|x: u32|
            x < MAX_CAPABILITIES && x != idx ==> #[trigger] s.detached(idx).slots[x as int]
                == s.slots[x as int],
        s.detached(idx).slots[idx as int].state == SlotState::Free,
{
    lemma_detached_fields(s, idx);
    super::detach_proofs::lemma_unlinked(s, idx);
    let t = s.detached(idx);
    assert forall|i: int| 0 <= i < s.slots.len() implies faded(s.slots[i], #[trigger] t.slots[i]) by {}
    assert forall|c: u32| #[trigger] t.parent_of.contains_key(c) implies s.parent_of.contains_key(c)
        && s.parent_of[c] == t.parent_of[c] by {
        assert(s.unlinked(idx).parent_of.contains_key(c));
    }
    let e = s.slots[idx as int];
    match e.scope {
        super::resource::ScopeKind::Process => {
            super::index::lemma_removed(s.process_caps, e.owner_pid, idx);
        },
        super::resource::ScopeKind::Thread(th) => {
            super::index::lemma_removed(s.thread_caps, th.0, idx);
        },
        super::resource::ScopeKind::Syscall(th, n) => {
            super::index::lemma_removed(s.syscall_caps, (th.0, n), idx);
        },
        super::resource::ScopeKind::Permanent => {},
    }
}

/// Revocation of one slot in use keeps the table well formed. The strict
/// mode either releases the slot or refuses with `BorrowConflict` and
/// changes nothing; the deferred mode never refuses.
pub proof fn lemma_revoke_one(s: TableState, idx: u32, strict: bool)
    requires
        s.wf(),
        s.in_use(idx),
        strict || s.settled_below(idx),
    ensures
        s.revoke_one(idx, strict).0.wf(),
        s.fades_to(s.revoke_one(idx, strict).0),
        forall|x: u32|
            x < MAX_CAPABILITIES && x != idx ==> #[trigger] s.revoke_one(idx, strict).0.slots[x as int]
                == s.slots[x as int],
        s.revoke_one(idx, strict).0.slots[idx as int].state != SlotState::Live || s.revoke_one(
            idx,
            strict,
        ).1 is Err,
        match s.revoke_one(idx, strict).1 {
            Ok(_) => strict ==> s.revoke_one(idx, strict).0.slots[idx as int].state
                == SlotState::Free,
            Err(e) => strict && e == CapError::BorrowConflict && s.revoke_one(idx, strict).0 == s,
        },
        !s.borrowed(s.slots[idx as int].resource_id.key()) ==> s.revoke_one(idx, strict).1 is Ok
            && s.revoke_one(idx, strict).0.slots[idx as int].state == SlotState::Free,
{
    let rk = s.slots[idx as int].resource_id.key();
    if s.borrowed(rk) {
        if !strict {
            lemma_queued_wf(s, idx);
        } else {
            assert forall|i: int| 0 <= i < s.slots.len() implies faded(
                s.slots[i],
                #[trigger] s.slots[i],
            ) by {}
        }
    } else {
        if s.slots[idx as int].state == SlotState::PendingRevoke {
            assert(list_of(s.pending_revoke, rk).contains(idx));
            assert(s.pending_revoke.contains_key(rk));
        }
        lemma_detached_wf(s, idx);
        lemma_detached_fades(s, idx);
    }
}

/// Revocation of a subtree keeps the table well formed, touches no slot
/// that is older than the root of the subtree, and refuses only in the
/// strict mode, only with `BorrowConflict`. Where the strict mode succeeds
/// on a slot in use, the slot is free afterwards.
#[verifier::rlimit(40)]
pub proof fn lemma_revoke_tree(s: TableState, idx: u32, strict: bool)
    requires
        s.wf(),
    ensures
        s.revoke_tree(idx, strict).0.wf(),
        s.fades_to(s.revoke_tree(idx, strict).0),
        s.keeps_older(s.revoke_tree(idx, strict).0, s.age(idx)),
        match s.revoke_tree(idx, strict).1 {
            Ok(_) => s.in_use(idx) ==> s.revoke_tree(idx, strict).0.slots[idx as int].state
                != SlotState::Live && (strict ==> s.revoke_tree(idx, strict).0.slots[idx as int].state
                == SlotState::Free),
            Err(e) => strict && e == CapError::BorrowConflict,
        },
    decreases s.age(idx) + 1, 0nat,
{
    if idx >= MAX_CAPABILITIES || s.slots[idx as int].state == SlotState::Free {
        assert forall|i: int| 0 <= i < s.slots.len() implies faded(s.slots[i], #[trigger] s.slots[i]) by {}
    } else {
        let children = list_of(s.children_of, idx);
        let (m, r) = s.revoke_each(children, s.age(idx), strict);
        lemma_revoke_each(s, children, s.age(idx), strict);
        if r is Ok {
            assert(m.slots[idx as int] == s.slots[idx as int]);
            if !strict {
                assert forall|c: u32| #[trigger]
                    m.parent_of.contains_key(c) && m.parent_of[c]
                        == idx implies m.slots[c as int].state != SlotState::Live by {
                    assert(s.parent_of.contains_key(c) && s.parent_of[c] == idx);
                    assert(children.contains(c));
                    assert(s.in_use(c));
                    assert(s.slots[c as int].state != SlotState::Free);
                    assert(s.age(c) < s.age(idx));
                }
            }
            lemma_revoke_one(m, idx, strict);
            let t = m.revoke_one(idx, strict).0;
            lemma_fades_trans(s, m, t);
            assert forall|x: u32|
                x < s.slots.len() && s.age(x) > s.age(idx) implies #[trigger] t.slots[x as int]
                == s.slots[x as int] by {
                assert(m.slots[x as int] == s.slots[x as int]);
                assert(x != idx);
            }
        }
    }
}

/// Revocation of several subtrees in a row keeps the table well formed and
/// touches no slot of age `limit` or more.
#[verifier::rlimit(40)]
pub proof fn lemma_revoke_each(s: TableState, children: Seq<u32>, limit: nat, strict: bool)
    requires
        s.wf(),
    ensures
        s.revoke_each(children, limit, strict).0.wf(),
        s.fades_to(s.revoke_each(children, limit, strict).0),
        s.keeps_from(s.revoke_each(children, limit, strict).0, limit),
        match s.revoke_each(children, limit, strict).1 {
            Ok(_) => forall|k: u32|
                children.contains(k) && s.age(k) < limit && k < MAX_CAPABILITIES ==> (
                #[trigger] s.revoke_each(children, limit, strict).0.slots[k as int]).state
                    != SlotState::Live,
            Err(e) => strict && e == CapError::BorrowConflict,
        },
    decreases limit, children.len(),
{
    if children.len() == 0 {
        assert forall|i: int| 0 <= i < s.slots.len() implies faded(s.slots[i], #[trigger] s.slots[i]) by {}
    } else if s.age(children[0]) >= limit {
        lemma_revoke_each(s, children.drop_first(), limit, strict);
        let t = s.revoke_each(children, limit, strict).0;
        if s.revoke_each(children, limit, strict).1 is Ok {
            assert forall|k: u32|
                children.contains(k) && s.age(k) < limit && k < MAX_CAPABILITIES implies (
                #[trigger] t.slots[k as int]).state != SlotState::Live by {
                lemma_in_tail(children, k);
            }
        }
    } else {
        let c = children[0];
        let (m, r) = s.revoke_tree(c, strict);
        lemma_revoke_tree(s, c, strict);
        assert forall|x: u32|
            x < s.slots.len() && s.age(x) >= limit implies #[trigger] m.slots[x as int]
            == s.slots[x as int] by {}
        if r is Ok {
            lemma_revoke_each(m, children.drop_first(), limit, strict);
            let t = m.revoke_each(children.drop_first(), limit, strict).0;
            lemma_fades_trans(s, m, t);
            assert forall|x: u32|
                x < s.slots.len() && s.age(x) >= limit implies #[trigger] t.slots[x as int]
                == s.slots[x as int] by {
                assert(m.age(x) == s.age(x));
                assert(m.slots[x as int] == s.slots[x as int]);
            }
            if m.revoke_each(children.drop_first(), limit, strict).1 is Ok {
                assert forall|k: u32|
                    children.contains(k) && s.age(k) < limit && k < MAX_CAPABILITIES implies (
                    #[trigger] t.slots[k as int]).state != SlotState::Live by {
                    assert(m.age(k) == s.age(k));
                    assert(faded(m.slots[k as int], t.slots[k as int]));
                    if k != c {
                        lemma_in_tail(children, k);
                    } else {
                        if s.in_use(c) {
                            assert(m.slots[c as int].state != SlotState::Live);
                        } else {
                            assert(faded(s.slots[c as int], m.slots[c as int]));
                        }
                    }
                }
            }
        }
    }
}

/// An entry of a sequence is its first entry or an entry of the rest.
pub proof fn lemma_in_tail(s: Seq<u32>, k: u32)
    requires
        s.contains(k),
        s.len() > 0,
    ensures
        k == s[0] || s.drop_first().contains(k),
{
    let i = choose|i: int| 0 <= i < s.len() && s[i] == k;
    if i > 0 {
        assert(s.drop_first()[i - 1] == k);
    }
}

/// Revocation through a handle keeps the table well formed.
pub proof fn lemma_revoke(s: TableState, h: super::resource::HandleView, strict: bool)
    requires
        s.wf(),
    ensures
        s.revoke(h, strict).0.wf(),
        s.fades_to(s.revoke(h, strict).0),
{
    if s.valid_handle(h) {
        lemma_revoke_tree(s, h.index, strict);
    } else {
        assert forall|i: int| 0 <= i < s.slots.len() implies faded(s.slots[i], #[trigger] s.slots[i]) by {}
    }
}

impl TableState {
    /// Well-formedness while the queue of the resource with key `rk` is being
    /// worked off: the queue has left the table, and `rest` holds what is
    /// still pending on that resource.
    pub open spec fn completing(self, rk: (u64, u8), rest: Seq<u32>) -> bool {
        &&& self.core_ok()
        &&& !self.borrowed(rk)
        &&& rest.no_duplicates()
        &&& tidy(self.pending_revoke)
        &&& !self.pending_revoke.contains_key(rk)
        &&& forall|k: (u64, u8), x: u32| #[trigger]
            list_of(self.pending_revoke, k).contains(x) <==> (k != rk && x < MAX_CAPABILITIES
                && self.slots[x as int].state == SlotState::PendingRevoke
                && self.slots[x as int].resource_id.key() == k)
        &&& forall|k: (u64, u8)| #[trigger]
            self.pending_revoke.contains_key(k) ==> self.borrowed(k)
        &&& forall|x: u32| #[trigger]
            rest.contains(x) <==> (x < MAX_CAPABILITIES && self.slots[x as int].state
                == SlotState::PendingRevoke && self.slots[x as int].resource_id.key() == rk)
    }
}

/// Working a queue off releases every slot of it.
#[verifier::rlimit(40)]
pub proof fn lemma_complete_each(s: TableState, rk: (u64, u8), rest: Seq<u32>)
    requires
        s.completing(rk, rest),
    ensures
        s.complete_each(rest).wf(),
        s.fades_to(s.complete_each(rest)),
        forall|x: u32|
            x < MAX_CAPABILITIES && (#[trigger] s.complete_each(rest).slots[x as int]).resource_id.key()
                == rk ==> s.complete_each(rest).slots[x as int].state != SlotState::PendingRevoke,
        forall|x: u32|
            x < MAX_CAPABILITIES && !rest.contains(x) ==> #[trigger] s.complete_each(rest).slots[x as int]
                == s.slots[x as int],
    decreases rest.len(),
{
    if rest.len() == 0 {
        assert forall|i: int| 0 <= i < s.slots.len() implies faded(s.slots[i], #[trigger] s.slots[i]) by {}
        assert forall|x: u32|
            x < MAX_CAPABILITIES && (#[trigger] s.slots[x as int]).resource_id.key()
                == rk implies s.slots[x as int].state != SlotState::PendingRevoke by {
            assert(!rest.contains(x));
        }
        assert(s.pending_ok());
    } else {
        let x0 = rest[0];
        assert(rest.contains(x0));
        let m = s.revoke_one(x0, true).0;
        assert(m == s.detached(x0));
        lemma_detached_core(s, x0);
        lemma_detached_fields(s, x0);
        lemma_detached_fades(s, x0);
        let tail = rest.drop_first();
        assert forall|x: u32| #[trigger] tail.contains(x) <==> (rest.contains(x) && x != x0) by {
            if tail.contains(x) {
                let i = choose|i: int| 0 <= i < tail.len() && tail[i] == x;
                assert(rest[i + 1] == x);
            }
            if rest.contains(x) && x != x0 {
                let i = choose|i: int| 0 <= i < rest.len() && rest[i] == x;
                assert(tail[i - 1] == x);
            }
        }
        assert(m.completing(rk, tail)) by {
            assert forall|k: (u64, u8), x: u32| #[trigger]
                list_of(m.pending_revoke, k).contains(x) <==> (k != rk && x < MAX_CAPABILITIES
                    && m.slots[x as int].state == SlotState::PendingRevoke
                    && m.slots[x as int].resource_id.key() == k) by {
                assert(list_of(s.pending_revoke, k).contains(x) <==> (k != rk && x
                    < MAX_CAPABILITIES && s.slots[x as int].state == SlotState::PendingRevoke
                    && s.slots[x as int].resource_id.key() == k));
            }
            assert forall|k: (u64, u8)| #[trigger] m.pending_revoke.contains_key(k) implies m.borrowed(
                k,
            ) by {
                assert(s.borrowed(k));
            }
            assert forall|x: u32| #[trigger]
                tail.contains(x) <==> (x < MAX_CAPABILITIES && m.slots[x as int].state
                    == SlotState::PendingRevoke && m.slots[x as int].resource_id.key() == rk) by {
                assert(rest.contains(x) <==> (x < MAX_CAPABILITIES && s.slots[x as int].state
                    == SlotState::PendingRevoke && s.slots[x as int].resource_id.key() == rk));
            }
        }
        lemma_complete_each(m, rk, tail);
        lemma_fades_trans(s, m, m.complete_each(tail));
    }
}

/// Completion of the queued revocations of a resource keeps the table well
/// formed; where the resource is not borrowed, no slot on it stays pending.
#[verifier::rlimit(40)]
pub proof fn lemma_completed(s: TableState, rid: ResourceId)
    requires
        s.core_ok(),
        s.pending_ok() || (s.borrowless_pending_ok(rid.key())),
    ensures
        s.completed(rid).wf(),
        s.fades_to(s.completed(rid)),
        !s.borrowed(rid.key()) ==> forall|x: u32|
            x < MAX_CAPABILITIES && (#[trigger] s.completed(rid).slots[x as int]).resource_id.key()
                == rid.key() ==> s.completed(rid).slots[x as int].state
                != SlotState::PendingRevoke,
        forall|x: u32|
            x < MAX_CAPABILITIES && s.slots[x as int].state != SlotState::PendingRevoke
                ==> #[trigger] s.completed(rid).slots[x as int] == s.slots[x as int],
{
    let rk = rid.key();
    if !s.pending_revoke.contains_key(rk) || s.borrowed(rk) {
        assert forall|i: int| 0 <= i < s.slots.len() implies faded(s.slots[i], #[trigger] s.slots[i]) by {}
        if !s.borrowed(rk) {
            assert forall|x: u32|
                x < MAX_CAPABILITIES && (#[trigger] s.slots[x as int]).resource_id.key()
                    == rk implies s.slots[x as int].state != SlotState::PendingRevoke by {
                if s.slots[x as int].state == SlotState::PendingRevoke {
                    assert(list_of(s.pending_revoke, rk).contains(x));
                }
            }
        }
        assert(s.pending_ok()) by {
            if !s.pending_ok() {
                assert forall|k: (u64, u8)| #[trigger] s.pending_revoke.contains_key(k) implies s.borrowed(
                    k,
                ) by {}
            }
        }
    } else {
        let rest = s.pending_revoke[rk];
        let m = TableState { pending_revoke: s.pending_revoke.remove(rk), ..s };
        assert(m.completing(rk, rest)) by {
            assert(m.core_ok()) by {
                assert(m.shape_ok());
                assert(m.free_ok());
                assert(m.owner_index_ok());
                assert(m.scope_index_ok());
                assert(m.graph_ok());
                assert(m.borrows_ok());
                assert(m.unique_ok());
            }
            assert(rest == list_of(s.pending_revoke, rk));
            assert forall|k: (u64, u8), x: u32| #[trigger]
                list_of(m.pending_revoke, k).contains(x) <==> (k != rk && x < MAX_CAPABILITIES
                    && m.slots[x as int].state == SlotState::PendingRevoke
                    && m.slots[x as int].resource_id.key() == k) by {
                if k != rk {
                    assert(list_of(m.pending_revoke, k) == list_of(s.pending_revoke, k));
                    assert(list_of(s.pending_revoke, k).contains(x) <==> (x < MAX_CAPABILITIES
                        && s.slots[x as int].state == SlotState::PendingRevoke
                        && s.slots[x as int].resource_id.key() == k));
                }
            }
            assert forall|x: u32| #[trigger]
                rest.contains(x) <==> (x < MAX_CAPABILITIES && m.slots[x as int].state
                    == SlotState::PendingRevoke && m.slots[x as int].resource_id.key() == rk) by {
                assert(list_of(s.pending_revoke, rk).contains(x) <==> (x < MAX_CAPABILITIES
                    && s.slots[x as int].state == SlotState::PendingRevoke
                    && s.slots[x as int].resource_id.key() == rk));
            }
            assert forall|k: (u64, u8)| #[trigger] m.pending_revoke.contains_key(k) implies m.borrowed(
                k,
            ) by {
                assert(s.pending_revoke.contains_key(k));
            }
        }
        lemma_complete_each(m, rk, rest);
        assert forall|i: int| 0 <= i < s.slots.len() implies faded(s.slots[i], #[trigger] m.slots[i]) by {}
        assert(s.fades_to(m));
        lemma_fades_trans(s, m, m.complete_each(rest));
        assert forall|x: u32|
            x < MAX_CAPABILITIES && s.slots[x as int].state
                != SlotState::PendingRevoke implies #[trigger] s.completed(rid).slots[x as int]
            == s.slots[x as int] by {
            assert(!rest.contains(x));
        }
    }
}

impl TableState {
    /// The queues are in order but for one thing: the resource with key `rk`
    /// may have a queue although it is not borrowed any more.
    pub open spec fn borrowless_pending_ok(self, rk: (u64, u8)) -> bool {
        &&& tidy(self.pending_revoke)
        &&& forall|k: (u64, u8), x: u32| #[trigger]
            list_of(self.pending_revoke, k).contains(x) <==> (x < MAX_CAPABILITIES
                && self.slots[x as int].state == SlotState::PendingRevoke
                && self.slots[x as int].resource_id.key() == k)
        &&& forall|k: (u64, u8)| #[trigger]
            self.pending_revoke.contains_key(k) && k != rk ==> self.borrowed(k)
    }
}

} // verus!
