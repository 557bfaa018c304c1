//! The borrow state machine. It arbitrates borrows per resource, not per
//! capability: every capability on one resource shares one state.

use vstd::prelude::*;
use super::caps;
use super::resource::{CapError, ResourceType, ScopeKind, ThreadId};

verus! {

/// The most shared borrows that one resource can have at a time.
pub const MAX_SHARED_BORROWS: usize = 65535;

/// The rights that an exclusive borrow of a resource of kind `rty` needs:
/// `WRITE | MAP` for memory, `WRITE` for everything else.
pub open spec fn exclusive_rights(rty: ResourceType) -> u32 {
    match rty {
        ResourceType::PhysicalPage | ResourceType::VirtualMemory => caps::WRITE_MAP,
        _ => caps::WRITE,
    }
}

/// Whether `p` is the first position of `key` in `s`.
pub open spec fn is_first_at(s: Seq<(u32, ThreadId)>, key: (u32, ThreadId), p: int) -> bool {
    &&& 0 <= p < s.len()
    &&& s[p] == key
    &&& forall|j: int| 0 <= j < p ==> s[j] != key
}

/// The first position of `key` in `s`, where `s` contains it.
pub open spec fn first_position(s: Seq<(u32, ThreadId)>, key: (u32, ThreadId)) -> int {
    choose|p: int| is_first_at(s, key, p)
}

/// A sequence has at most one first position of a key.
pub proof fn lemma_first_position(s: Seq<(u32, ThreadId)>, key: (u32, ThreadId), p: int)
    requires
        is_first_at(s, key, p),
    ensures
        first_position(s, key) == p,
        s.contains(key),
{
    let q = first_position(s, key);
    assert(is_first_at(s, key, q));
    if q < p {
        assert(s[q] != key);
    }
    if p < q {
        assert(s[p] != key);
    }
}

/// The borrows of one resource as plain values.
pub struct BorrowView {
    /// The shared borrows: the capability slot and the thread of each.
    pub shared: Seq<(u32, ThreadId)>,
    /// The exclusive borrow: its capability slot, thread and scope.
    pub exclusive: Option<(u32, ThreadId, ScopeKind)>,
    /// How often the exclusive borrow is frozen.
    pub frozen_count: u32,
}

impl BorrowView {
    /// The state without any borrow.
    pub open spec fn empty() -> BorrowView {
        BorrowView { shared: Seq::empty(), exclusive: None, frozen_count: 0 }
    }

    /// Whether any borrow is outstanding.
    pub open spec fn has_active(self) -> bool {
        self.exclusive is Some || self.shared.len() > 0 || self.frozen_count > 0
    }

    /// What every reachable state satisfies: the shared borrows are pairwise
    /// distinct and within the cap.
    pub open spec fn wf(self) -> bool {
        &&& self.shared.len() <= MAX_SHARED_BORROWS
        &&& self.shared.no_duplicates()
    }

    /// Borrow exclusivity: an exclusive borrow that is not frozen excludes
    /// every shared borrow.
    pub open spec fn exclusivity(self) -> bool {
        !(self.exclusive is Some && self.frozen_count == 0 && self.shared.len() > 0)
    }

    /// Whether the exclusive borrow is held through slot `cap` by thread `tid`.
    pub open spec fn exclusive_held_by(self, cap: u32, tid: ThreadId) -> bool {
        self.exclusive matches Some((i, t, _)) && i == cap && t == tid
    }

    /// A shared borrow through slot `cap` by thread `tid`, where the
    /// capability has the rights `caps_bits`.
    pub open spec fn try_shared(self, cap: u32, tid: ThreadId, caps_bits: u32) -> (
        BorrowView,
        Result<(), CapError>,
    ) {
        if caps_bits & caps::READ == 0 {
            (self, Err(CapError::PermissionDenied))
        } else if self.exclusive matches Some((_, holder, _)) && (self.frozen_count == 0 || holder
            != tid) {
            (self, Err(CapError::BorrowConflict))
        } else if self.shared.contains((cap, tid)) {
            (self, Err(CapError::AlreadyBorrowed))
        } else if self.shared.len() >= MAX_SHARED_BORROWS {
            (self, Err(CapError::TooManyBorrows))
        } else {
            (BorrowView { shared: self.shared.push((cap, tid)), ..self }, Ok(()))
        }
    }

    /// An exclusive borrow of scope `scope` through slot `cap` by thread
    /// `tid`, where the capability has the rights `caps_bits` on a resource of
    /// kind `rty`.
    pub open spec fn try_exclusive(
        self,
        cap: u32,
        tid: ThreadId,
        scope: ScopeKind,
        caps_bits: u32,
        rty: ResourceType,
    ) -> (BorrowView, Result<(), CapError>) {
        if !caps::has_all(caps_bits, exclusive_rights(rty)) {
            (self, Err(CapError::PermissionDenied))
        } else if self.has_active() {
            (self, Err(CapError::BorrowConflict))
        } else {
            (BorrowView { exclusive: Some((cap, tid, scope)), ..self }, Ok(()))
        }
    }

    /// The end of the shared borrow through slot `cap` by thread `tid`. Its
    /// place in the list is taken by the last entry.
    pub open spec fn release_shared(self, cap: u32, tid: ThreadId) -> (
        BorrowView,
        Result<(), CapError>,
    ) {
        if self.shared.contains((cap, tid)) {
            let p = first_position(self.shared, (cap, tid));
            (
                BorrowView {
                    shared: self.shared.update(p, self.shared.last()).drop_last(),
                    ..self
                },
                Ok(()),
            )
        } else {
            (self, Err(CapError::NotBorrowed))
        }
    }

    /// The end of the exclusive borrow through slot `cap` by thread `tid`.
    pub open spec fn release_exclusive(self, cap: u32, tid: ThreadId) -> (
        BorrowView,
        Result<(), CapError>,
    ) {
        if !self.exclusive_held_by(cap, tid) {
            (self, Err(CapError::NotBorrowed))
        } else if self.frozen_count > 0 {
            (self, Err(CapError::StillFrozen))
        } else {
            (BorrowView { exclusive: None, ..self }, Ok(()))
        }
    }

    /// One more freeze of the exclusive borrow through slot `cap` by thread
    /// `tid`. The count saturates at `u32::MAX`.
    pub open spec fn freeze(self, cap: u32, tid: ThreadId) -> (BorrowView, Result<(), CapError>) {
        if !self.exclusive_held_by(cap, tid) {
            (self, Err(CapError::NotBorrowed))
        } else {
            (BorrowView { frozen_count: self.frozen_count.saturating_add(1), ..self }, Ok(()))
        }
    }

    /// One freeze less of the exclusive borrow through slot `cap` by thread `tid`.
    pub open spec fn unfreeze(self, cap: u32, tid: ThreadId) -> (
        BorrowView,
        Result<(), CapError>,
    ) {
        if !self.exclusive_held_by(cap, tid) {
            (self, Err(CapError::NotBorrowed))
        } else if self.frozen_count == 0 {
            (self, Err(CapError::NotFrozen))
        } else {
            (BorrowView { frozen_count: (self.frozen_count - 1) as u32, ..self }, Ok(()))
        }
    }
}

/// Every transition keeps the shared borrows pairwise distinct and within the cap.
pub proof fn lemma_try_shared_wf(s: BorrowView, cap: u32, tid: ThreadId, caps_bits: u32)
    requires
        s.wf(),
    ensures
        s.try_shared(cap, tid, caps_bits).0.wf(),
{
    let t = s.try_shared(cap, tid, caps_bits).0;
    if t != s {
        assert(t.shared == s.shared.push((cap, tid)));
        assert forall|i: int, j: int| 0 <= i < t.shared.len() && 0 <= j < t.shared.len() && i != j
            implies t.shared[i] != t.shared[j] by {
            if i == s.shared.len() {
                assert(s.shared[j] == t.shared[j]);
                assert(s.shared.contains(s.shared[j]));
            } else if j == s.shared.len() {
                assert(s.shared[i] == t.shared[i]);
                assert(s.shared.contains(s.shared[i]));
            }
        }
    }
}

/// Ending a shared borrow keeps the shared borrows pairwise distinct, and takes
/// exactly the ended borrow out of them.
pub proof fn lemma_release_shared_wf(s: BorrowView, cap: u32, tid: ThreadId)
    requires
        s.wf(),
    ensures
        s.release_shared(cap, tid).0.wf(),
        s.release_shared(cap, tid).1 is Ok ==> {
            &&& s.release_shared(cap, tid).0.shared.len() == s.shared.len() - 1
            &&& !s.release_shared(cap, tid).0.shared.contains((cap, tid))
            &&& forall|x: (u32, ThreadId)|
                x != (cap, tid) ==> (s.release_shared(cap, tid).0.shared.contains(x)
                    <==> s.shared.contains(x))
        },
{
    let t = s.release_shared(cap, tid).0;
    if s.shared.contains((cap, tid)) {
        let key = (cap, tid);
        let w = choose|i: int| 0 <= i < s.shared.len() && s.shared[i] == key;
        let p = first_position(s.shared, key);
        lemma_first_exists(s.shared, key, w);
        assert(is_first_at(s.shared, key, p));
        let n = s.shared.len() - 1;
        assert(t.shared.len() == n);
        assert forall|i: int| 0 <= i < n implies t.shared[i] == (if i == p {
            s.shared[n]
        } else {
            s.shared[i]
        }) by {}
        assert forall|i: int, j: int| 0 <= i < n && 0 <= j < n && i != j implies t.shared[i]
            != t.shared[j] by {}
        assert forall|x: (u32, ThreadId)| x != key implies (t.shared.contains(x)
            <==> s.shared.contains(x)) by {
            if s.shared.contains(x) {
                let i = choose|i: int| 0 <= i < s.shared.len() && s.shared[i] == x;
                if i == n {
                    assert(t.shared[p] == x);
                } else {
                    assert(t.shared[i] == x);
                }
            }
            if t.shared.contains(x) {
                let i = choose|i: int| 0 <= i < t.shared.len() && t.shared[i] == x;
                if i == p {
                    assert(s.shared[n] == x);
                } else {
                    assert(s.shared[i] == x);
                }
            }
        }
        if t.shared.contains(key) {
            let i = choose|i: int| 0 <= i < t.shared.len() && t.shared[i] == key;
            if i == p {
                assert(s.shared[n] == key);
            } else {
                assert(s.shared[i] == key);
            }
        }
    }
}

/// A key that occurs in a sequence has a first position there.
pub proof fn lemma_first_exists(s: Seq<(u32, ThreadId)>, key: (u32, ThreadId), w: int)
    requires
        0 <= w < s.len(),
        s[w] == key,
    ensures
        is_first_at(s, key, first_position(s, key)),
    decreases w,
{
    if forall|j: int| 0 <= j < w ==> s[j] != key {
        assert(is_first_at(s, key, w));
    } else {
        let j = choose|j: int| 0 <= j < w && s[j] == key;
        lemma_first_exists(s, key, j);
    }
}

/// Borrow exclusivity survives every transition but `unfreeze`, and survives
/// `unfreeze` where no shared borrow is left or the borrow stays frozen.
pub proof fn lemma_exclusivity_preserved(
    s: BorrowView,
    cap: u32,
    tid: ThreadId,
    scope: ScopeKind,
    caps_bits: u32,
    rty: ResourceType,
)
    requires
        s.exclusivity(),
    ensures
        s.try_shared(cap, tid, caps_bits).0.exclusivity(),
        s.try_exclusive(cap, tid, scope, caps_bits, rty).0.exclusivity(),
        s.release_shared(cap, tid).0.exclusivity(),
        s.release_exclusive(cap, tid).0.exclusivity(),
        s.freeze(cap, tid).0.exclusivity(),
        s.shared.len() == 0 || s.frozen_count != 1 ==> s.unfreeze(cap, tid).0.exclusivity(),
{
}

/// After a freeze that did not saturate, `unfreeze` succeeds and gives the
/// state before the freeze.
pub proof fn lemma_freeze_unfreeze(s: BorrowView, cap: u32, tid: ThreadId)
    requires
        s.freeze(cap, tid).1 is Ok,
        s.frozen_count < u32::MAX,
    ensures
        s.freeze(cap, tid).0.unfreeze(cap, tid) == (s, Ok::<(), CapError>(())),
{
}

/// The borrows of one resource.
#[derive(Debug)]
pub struct ResourceBorrowState {
    shared: Vec<(u32, ThreadId)>,
    exclusive: Option<(u32, ThreadId, ScopeKind)>,
    frozen_count: u32,
}

impl View for ResourceBorrowState {
    type V = BorrowView;

    closed spec fn view(&self) -> BorrowView {
        BorrowView {
            shared: self.shared@,
            exclusive: self.exclusive,
            frozen_count: self.frozen_count,
        }
    }
}

impl ResourceBorrowState {
    pub fn new() -> (r: Self)
        ensures
            r@ == BorrowView::empty(),
    {
        ResourceBorrowState { shared: Vec::new(), exclusive: None, frozen_count: 0 }
    }

    pub fn has_active(&self) -> (r: bool)
        ensures
            r == self@.has_active(),
    {
        self.exclusive.is_some() || self.shared.len() > 0 || self.frozen_count > 0
    }

    /// Whether a capability on this resource can be revoked at once.
    pub fn can_revoke(&self) -> (r: bool)
        ensures
            r == !self@.has_active(),
    {
        !self.has_active()
    }

    /// The first position of `(cap_idx, tid)` among the shared borrows.
    fn position(&self, cap_idx: u32, tid: ThreadId) -> (r: Option<usize>)
        ensures
            match r {
                Some(p) => is_first_at(self@.shared, (cap_idx, tid), p as int),
                None => !self@.shared.contains((cap_idx, tid)),
            },
    {
        let mut i: usize = 0;
        while i < self.shared.len()
            invariant
                0 <= i <= self.shared.len(),
                forall|j: int| 0 <= j < i ==> self.shared@[j] != (cap_idx, tid),
            decreases self.shared.len() - i,
        {
            let (c, t) = self.shared[i];
            if c == cap_idx && t.0 == tid.0 {
                return Some(i);
            }
            i = i + 1;
        }
        None
    }

    /// Takes a shared borrow, see [`BorrowView::try_shared`].
    pub fn try_shared(&mut self, cap_idx: u32, tid: ThreadId, caps_bits: u32) -> (r: Result<
        (),
        CapError,
    >)
        ensures
            (final(self)@, r) == old(self)@.try_shared(cap_idx, tid, caps_bits),
    {
        if (caps_bits & caps::READ) == 0 {
            return Err(CapError::PermissionDenied);
        }
        if let Some((_, ex_tid, _)) = self.exclusive {
            if self.frozen_count == 0 || ex_tid.0 != tid.0 {
                return Err(CapError::BorrowConflict);
            }
        }
        if self.position(cap_idx, tid).is_some() {
            return Err(CapError::AlreadyBorrowed);
        }
        if self.shared.len() >= MAX_SHARED_BORROWS {
            return Err(CapError::TooManyBorrows);
        }
        self.shared.push((cap_idx, tid));
        Ok(())
    }

    /// Takes the exclusive borrow, see [`BorrowView::try_exclusive`].
    pub fn try_exclusive(
        &mut self,
        cap_idx: u32,
        tid: ThreadId,
        scope: ScopeKind,
        caps_bits: u32,
        rty: ResourceType,
    ) -> (r: Result<(), CapError>)
        ensures
            (final(self)@, r) == old(self)@.try_exclusive(cap_idx, tid, scope, caps_bits, rty),
    {
        let req = match rty {
            ResourceType::PhysicalPage | ResourceType::VirtualMemory => caps::WRITE_MAP,
            ResourceType::Device | ResourceType::IoPort => caps::WRITE,
            _ => caps::WRITE,
        };
        if (caps_bits & req) != req {
            return Err(CapError::PermissionDenied);
        }
        if self.exclusive.is_some() || self.shared.len() > 0 || self.frozen_count > 0 {
            return Err(CapError::BorrowConflict);
        }
        self.exclusive = Some((cap_idx, tid, scope));
        Ok(())
    }

    /// Ends a shared borrow, see [`BorrowView::release_shared`].
    pub fn release_shared(&mut self, cap_idx: u32, tid: ThreadId) -> (r: Result<(), CapError>)
        ensures
            (final(self)@, r) == old(self)@.release_shared(cap_idx, tid),
    {
        match self.position(cap_idx, tid) {
            Some(pos) => {
                proof {
                    lemma_first_position(self@.shared, (cap_idx, tid), pos as int);
                }
                self.shared.swap_remove(pos);
                Ok(())
            },
            None => Err(CapError::NotBorrowed),
        }
    }

    /// Ends the exclusive borrow, see [`BorrowView::release_exclusive`].
    pub fn release_exclusive(&mut self, cap_idx: u32, tid: ThreadId) -> (r: Result<(), CapError>)
        ensures
            (final(self)@, r) == old(self)@.release_exclusive(cap_idx, tid),
    {
        match self.exclusive {
            Some((i, t, _)) => {
                if i == cap_idx && t.0 == tid.0 {
                    if self.frozen_count > 0 {
                        return Err(CapError::StillFrozen);
                    }
                    self.exclusive = None;
                    Ok(())
                } else {
                    Err(CapError::NotBorrowed)
                }
            },
            None => Err(CapError::NotBorrowed),
        }
    }

    /// Freezes the exclusive borrow, see [`BorrowView::freeze`].
    pub fn freeze(&mut self, cap_idx: u32, tid: ThreadId) -> (r: Result<(), CapError>)
        ensures
            (final(self)@, r) == old(self)@.freeze(cap_idx, tid),
    {
        match self.exclusive {
            Some((i, t, _)) => {
                if i == cap_idx && t.0 == tid.0 {
                    self.frozen_count = self.frozen_count.saturating_add(1);
                    Ok(())
                } else {
                    Err(CapError::NotBorrowed)
                }
            },
            None => Err(CapError::NotBorrowed),
        }
    }

    /// Undoes one freeze, see [`BorrowView::unfreeze`].
    pub fn unfreeze(&mut self, cap_idx: u32, tid: ThreadId) -> (r: Result<(), CapError>)
        ensures
            (final(self)@, r) == old(self)@.unfreeze(cap_idx, tid),
    {
        match self.exclusive {
            Some((i, t, _)) => {
                if i == cap_idx && t.0 == tid.0 {
                    if self.frozen_count == 0 {
                        return Err(CapError::NotFrozen);
                    }
                    self.frozen_count = self.frozen_count - 1;
                    Ok(())
                } else {
                    Err(CapError::NotBorrowed)
                }
            },
            None => Err(CapError::NotBorrowed),
        }
    }
}

} // verus!
