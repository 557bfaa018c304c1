//! Revocation reaches the whole subtree: after a revocation that was not
//! refused, nothing that derived from the revoked capability is live.

use vstd::prelude::*;
use super::detach_proofs::{lemma_detached_fields, lemma_unlinked};
use super::index::list_of;
use super::resource::HandleView;
use super::revoke_proofs::{faded, lemma_revoke_each, lemma_revoke_one, lemma_revoke_tree};
use super::slot::{SlotState, MAX_CAPABILITIES};
use super::state::TableState;

verus! {

impl TableState {
    /// Whether slot `c` derives from slot `a` in `n` steps.
    pub open spec fn descends(self, c: u32, a: u32, n: nat) -> bool
        decreases n,
    {
        if n == 0 {
            c == a
        } else {
            self.parent_of.contains_key(c) && self.descends(self.parent_of[c], a, (n - 1) as nat)
        }
    }

    /// Whether in `t` no capability is live that in `self` derives directly
    /// from one that is not live in `t`.
    pub open spec fn settles(self, t: TableState) -> bool {
        forall|c: u32| #[trigger]
            self.parent_of.contains_key(c) && t.slots[self.parent_of[c] as int].state
                != SlotState::Live ==> t.slots[c as int].state != SlotState::Live
    }

    /// Whether every edge of `self` is an edge of `t`, unless one of its ends
    /// is free in `t`.
    pub open spec fn keeps_links(self, t: TableState) -> bool {
        forall|c: u32| #[trigger]
            self.parent_of.contains_key(c) ==> (t.parent_of.contains_key(c) && t.parent_of[c]
                == self.parent_of[c]) || t.slots[c as int].state == SlotState::Free
                || t.slots[self.parent_of[c] as int].state == SlotState::Free
    }
}

proof fn lemma_keeps_trans(a: TableState, b: TableState, c: TableState)
    requires
        a.wf(),
        b.wf(),
        a.keeps_links(b),
        b.keeps_links(c),
        a.fades_to(b),
        b.fades_to(c),
    ensures
        a.keeps_links(c),
{
    assert forall|x: u32| #[trigger] a.parent_of.contains_key(x) implies (c.parent_of.contains_key(x)
        && c.parent_of[x] == a.parent_of[x]) || c.slots[x as int].state == SlotState::Free
        || c.slots[a.parent_of[x] as int].state == SlotState::Free by {
        let p = a.parent_of[x];
        assert(a.in_use(x) && a.in_use(p));
        assert(faded(b.slots[x as int], c.slots[x as int]));
        assert(faded(b.slots[p as int], c.slots[p as int]));
        if b.parent_of.contains_key(x) && b.parent_of[x] == p {
            assert(b.parent_of.contains_key(x));
        }
    }
}

proof fn lemma_keeps_one(s: TableState, idx: u32, strict: bool)
    requires
        s.wf(),
        s.in_use(idx),
        strict || s.settled_below(idx),
    ensures
        s.keeps_links(s.revoke_one(idx, strict).0),
{
    let t = s.revoke_one(idx, strict).0;
    lemma_revoke_one(s, idx, strict);
    if !s.borrowed(s.slots[idx as int].resource_id.key()) {
        lemma_detached_fields(s, idx);
        lemma_unlinked(s, idx);
        assert forall|x: u32| #[trigger] s.parent_of.contains_key(x) implies (t.parent_of.contains_key(
            x,
        ) && t.parent_of[x] == s.parent_of[x]) || t.slots[x as int].state == SlotState::Free
            || t.slots[s.parent_of[x] as int].state == SlotState::Free by {
            assert(s.unlinked(idx).parent_of.contains_key(x) <==> (s.parent_of.contains_key(x) && x
                != idx && s.parent_of[x] != idx));
        }
    }
}

/// A revocation of a subtree that is not refused leaves nothing live that
/// derived directly from a capability which it left not live.
#[verifier::rlimit(40)]
pub proof fn lemma_tree_settles(s: TableState, idx: u32, strict: bool)
    requires
        s.wf(),
        s.revoke_tree(idx, strict).1 is Ok,
    ensures
        s.settles(s.revoke_tree(idx, strict).0),
        s.keeps_links(s.revoke_tree(idx, strict).0),
    decreases s.age(idx) + 1, 0nat,
{
    lemma_revoke_tree(s, idx, strict);
    if idx >= MAX_CAPABILITIES || s.slots[idx as int].state == SlotState::Free {
        lemma_settles_self(s);
    } else {
        let children = list_of(s.children_of, idx);
        let (m, r) = s.revoke_each(children, s.age(idx), strict);
        lemma_revoke_each(s, children, s.age(idx), strict);
        lemma_each_settles(s, children, s.age(idx), strict);
        let t = m.revoke_one(idx, strict).0;
        assert(m.slots[idx as int] == s.slots[idx as int]);
        assert(m.settled_below(idx)) by {
            assert forall|c: u32| #[trigger]
                m.parent_of.contains_key(c) && m.parent_of[c]
                    == idx implies m.slots[c as int].state != SlotState::Live by {
                assert(s.parent_of.contains_key(c) && s.parent_of[c] == idx);
                assert(children.contains(c));
                assert(s.in_use(c));
                assert(s.slots[c as int].state != SlotState::Free);
                assert(s.age(c) < s.age(idx));
            }
        }
        lemma_revoke_one(m, idx, strict);
        lemma_keeps_one(m, idx, strict);
        lemma_keeps_trans(s, m, t);
        assert forall|c: u32| #[trigger]
            s.parent_of.contains_key(c) && t.slots[s.parent_of[c] as int].state
                != SlotState::Live implies t.slots[c as int].state != SlotState::Live by {
            let p = s.parent_of[c];
            assert(s.in_use(c) && s.in_use(p));
            assert(faded(m.slots[c as int], t.slots[c as int]));
            if p != idx {
                assert(t.slots[p as int] == m.slots[p as int]);
            } else {
                assert(children.contains(c));
                assert(s.slots[c as int].state != SlotState::Free);
                assert(s.age(c) < s.age(idx));
                assert(m.slots[c as int].state != SlotState::Live);
            }
        }
    }
}

proof fn lemma_settles_self(s: TableState)
    requires
        s.wf(),
    ensures
        s.settles(s),
        s.keeps_links(s),
{
}

/// As [`lemma_tree_settles`], for several subtrees in a row.
#[verifier::rlimit(40)]
pub proof fn lemma_each_settles(s: TableState, children: Seq<u32>, limit: nat, strict: bool)
    requires
        s.wf(),
        s.revoke_each(children, limit, strict).1 is Ok,
    ensures
        s.settles(s.revoke_each(children, limit, strict).0),
        s.keeps_links(s.revoke_each(children, limit, strict).0),
    decreases limit, children.len(),
{
    if children.len() == 0 {
        lemma_settles_self(s);
    } else if s.age(children[0]) >= limit {
        lemma_each_settles(s, children.drop_first(), limit, strict);
    } else {
        let k = children[0];
        let (m, r) = s.revoke_tree(k, strict);
        lemma_revoke_tree(s, k, strict);
        lemma_tree_settles(s, k, strict);
        let tail = children.drop_first();
        lemma_revoke_each(m, tail, limit, strict);
        lemma_each_settles(m, tail, limit, strict);
        let t = m.revoke_each(tail, limit, strict).0;
        lemma_keeps_trans(s, m, t);
        assert forall|c: u32| #[trigger]
            s.parent_of.contains_key(c) && t.slots[s.parent_of[c] as int].state
                != SlotState::Live implies t.slots[c as int].state != SlotState::Live by {
            let p = s.parent_of[c];
            assert(s.in_use(c) && s.in_use(p));
            assert(faded(m.slots[c as int], t.slots[c as int]));
            assert(faded(m.slots[p as int], t.slots[p as int]));
            if m.slots[p as int].state == SlotState::Live {
                if m.parent_of.contains_key(c) && m.parent_of[c] == p {
                    assert(m.parent_of.contains_key(c));
                }
            }
        }
    }
}

/// Along the edges of `s`, what derives from a capability that is not live
/// in `t` is not live in `t`, where `s` settles into `t`. All of it names
/// the resource of that capability.
pub proof fn lemma_descendants(s: TableState, t: TableState, c: u32, a: u32, n: nat)
    requires
        s.wf(),
        s.settles(t),
        s.descends(c, a, n),
        a < MAX_CAPABILITIES,
        t.slots[a as int].state != SlotState::Live,
    ensures
        c < MAX_CAPABILITIES,
        t.slots[c as int].state != SlotState::Live,
        s.slots[c as int].resource_id == s.slots[a as int].resource_id,
    decreases n,
{
    if n > 0 {
        assert(s.parent_of.contains_key(c));
        lemma_descendants(s, t, s.parent_of[c], a, (n - 1) as nat);
    }
}

/// Deferred completion: a deferred revocation leaves live neither the
/// capability nor anything that derived from it, at any depth. Each of
/// these slots is free, or pending on the borrows of the one resource that
/// they all name; and in a well-formed table a slot is pending only while
/// its resource is borrowed.
pub proof fn law_deferred_subtree(s: TableState, h: HandleView, c: u32, n: nat)
    requires
        s.wf(),
        s.valid_handle(h),
        s.descends(c, h.index, n),
    ensures
        ({
            let t = s.revoke(h, false).0;
            let rk = s.slots[h.index as int].resource_id.key();
            &&& s.revoke(h, false).1 is Ok
            &&& t.wf()
            &&& c < MAX_CAPABILITIES
            &&& t.slots[c as int].state != SlotState::Live
            &&& t.slots[c as int].resource_id.key() == rk
            &&& t.slots[c as int].state == SlotState::PendingRevoke ==> t.borrowed(rk)
        }),
{
    lemma_revoke_tree(s, h.index, false);
    lemma_tree_settles(s, h.index, false);
    let t = s.revoke(h, false).0;
    lemma_descendants(s, t, c, h.index, n);
    assert(faded(s.slots[c as int], t.slots[c as int]));
    if t.slots[c as int].state == SlotState::PendingRevoke {
        super::laws::law_pending_waits(t, c);
    }
}

/// Subtree revocation: a strict revocation that succeeds leaves free the
/// capability and everything that derived from it, at any depth.
pub proof fn law_strict_subtree(s: TableState, h: HandleView, c: u32, n: nat)
    requires
        s.wf(),
        s.valid_handle(h),
        s.revoke(h, true).1 is Ok,
        s.descends(c, h.index, n),
    ensures
        c < MAX_CAPABILITIES,
        s.revoke(h, true).0.slots[c as int].state == SlotState::Free,
{
    lemma_revoke_tree(s, h.index, true);
    lemma_tree_settles(s, h.index, true);
    let t = s.revoke(h, true).0;
    lemma_descendants(s, t, c, h.index, n);
    assert(faded(s.slots[c as int], t.slots[c as int]));
    assert(faded(s.slots[h.index as int], t.slots[h.index as int]));
    if t.slots[c as int].state == SlotState::PendingRevoke {
        // The root was released, so their common resource is not borrowed.
        super::laws::law_pending_waits(t, c);
        lemma_root_unborrowed(s, h.index);
    }
}

/// Where the strict mode releases the root of a subtree, the resource of the
/// root is not borrowed.
proof fn lemma_root_unborrowed(s: TableState, idx: u32)
    requires
        s.wf(),
        s.in_use(idx),
        s.revoke_tree(idx, true).1 is Ok,
    ensures
        !s.revoke_tree(idx, true).0.borrowed(s.slots[idx as int].resource_id.key()),
{
    let children = list_of(s.children_of, idx);
    let (m, r) = s.revoke_each(children, s.age(idx), true);
    lemma_revoke_each(s, children, s.age(idx), true);
    assert(m.slots[idx as int] == s.slots[idx as int]);
    lemma_revoke_one(m, idx, true);
}

} // verus!
