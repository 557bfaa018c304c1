//! Owned and borrowed pages over the capability table and the physical
//! allocator. Every page is given back by a `release` that takes it by
//! value; a failed release of the capability never stops the release of
//! the page.

use vstd::prelude::*;
use core::marker::PhantomData;
use crate::arch::PAGE_SIZE;
use crate::capability::access;
use crate::capability::caps;
use crate::capability::lifetime;
use crate::capability::resource::HandleView;
use crate::capability::state::TableState;
use super::shared::{SharedPage, SharedPageInner};
use crate::capability::{
    bind_resource_scoped, borrow_exclusive, borrow_shared_from_frozen, borrow_shared_ro,
    freeze_exclusive,
    get_stats, grant_exclusive, grant_readonly, release_exclusive, release_shared_frozen,
    revoke_capability, revoke_capability_deferred, transfer_resource, unfreeze_exclusive,
    verify_capability_fast, CapError, CapabilityHandle, CapabilityStats, CapabilityTable,
    ProcessId, ResourceId, ResourceType, ScopeKind, ThreadId,
};
use crate::mm::physical::{alloc_raw, free_pages, free_raw, PhysView, PhysicalAllocator};

verus! {

/// A physical address.
#[derive(Debug, Clone, Copy, PartialEq, Eq, PartialOrd, Ord, Hash, Structural)]
pub struct PhysicalAddr(pub usize);

impl PhysicalAddr {
    pub fn new(addr: usize) -> (r: Self)
        ensures
            r.0 == addr,
    {
        PhysicalAddr(addr)
    }

    pub fn as_usize(self) -> (r: usize)
        ensures
            r == self.0,
    {
        self.0
    }

    pub fn as_u64(self) -> (r: u64)
        ensures
            r == self.0 as u64,
    {
        self.0 as u64
    }
}

/// Why a page could not be had.
#[derive(Debug, Clone, Copy, PartialEq, Eq, Structural)]
pub enum AllocError {
    /// No physical page is free.
    OutOfMemory,
    /// The process lacks the rights on the page.
    PermissionDenied,
    /// The capability table refused.
    CapabilityError(CapError),
}

impl From<CapError> for AllocError {
    fn from(e: CapError) -> (r: Self) {
        AllocError::CapabilityError(e)
    }
}

impl vstd::std_specs::convert::FromSpecImpl<CapError> for AllocError {
    open spec fn obeys_from_spec() -> bool {
        true
    }

    open spec fn from_spec(e: CapError) -> Self {
        AllocError::CapabilityError(e)
    }
}

/// The resource that the page at `addr` is.
pub open spec fn page_rid(addr: usize) -> ResourceId {
    ResourceId { id: addr as u64, typ: ResourceType::PhysicalPage }
}

/// An owned page as plain values.
pub struct OwnedPageView {
    pub handle: HandleView,
    pub addr: usize,
    pub owner_pid: u32,
}

/// The outcome of an operation that returns a page, as plain values.
pub open spec fn page_result(r: Result<OwnedPage, AllocError>) -> Result<OwnedPageView, AllocError> {
    match r {
        Ok(p) => Ok(p@),
        Err(e) => Err(e),
    }
}

/// The allocation of a page for process `pid`: the free page with the lowest
/// number is taken, and `pid` is bound to it exclusively. `OutOfMemory`
/// where no page is free; `CapabilityError` where the table refuses, and
/// then the page stays taken.
pub open spec fn page_allocation(t: TableState, m: PhysView, pid: u32) -> (
    TableState,
    PhysView,
    Result<OwnedPageView, AllocError>,
) {
    match m.allocation(pid) {
        (_, None) => (t, m, Err(AllocError::OutOfMemory)),
        (m2, Some(a)) => match t.bind_exclusive(pid, page_rid(a)) {
            (t2, Ok(h)) => (t2, m2, Ok(OwnedPageView { handle: h, addr: a, owner_pid: pid })),
            (t2, Err(e)) => (t2, m2, Err(AllocError::CapabilityError(e))),
        },
    }
}

/// The adoption of the page at `addr` by process `pid`, which needs
/// `READ | WRITE | MAP` on it by the cache of this CPU.
pub open spec fn page_adoption(t: TableState, pid: u32, addr: usize) -> (
    TableState,
    Result<OwnedPageView, AllocError>,
) {
    let t1 = t.cache_counted(pid, page_rid(addr));
    if !t.verify_fast(pid, page_rid(addr), caps::RW_MAP) {
        (t1, Err(AllocError::PermissionDenied))
    } else {
        match t1.bind_exclusive(pid, page_rid(addr)) {
            (t2, Ok(h)) => (t2, Ok(OwnedPageView { handle: h, addr, owner_pid: pid })),
            (t2, Err(e)) => (t2, Err(AllocError::CapabilityError(e))),
        }
    }
}

/// The release of a page: its capability is revoked strictly, with all that
/// derives from it, and the page goes back to the allocator whether or not
/// the revocation succeeded.
pub open spec fn page_release(t: TableState, m: PhysView, p: OwnedPageView) -> (
    TableState,
    PhysView,
) {
    (t.revoke(p.handle, true).0, m.release(p.owner_pid, p.addr))
}

/// A page that a process owns, with the exclusive capability on it.
#[derive(Debug)]
pub struct OwnedPage {
    handle: CapabilityHandle<access::Exclusive, lifetime::Process>,
    addr: PhysicalAddr,
    owner_pid: u32,
}

impl View for OwnedPage {
    type V = OwnedPageView;

    closed spec fn view(&self) -> OwnedPageView {
        OwnedPageView { handle: self.handle@, addr: self.addr.0, owner_pid: self.owner_pid }
    }
}

/// A page that is lent out for reading.
#[derive(Debug)]
pub struct BorrowedPageRO<'a> {
    handle: CapabilityHandle<access::FrozenShared>,
    addr: PhysicalAddr,
    tid: ThreadId,
    thaw: bool,
    _phantom: PhantomData<&'a ()>,
}

/// A page that is lent out exclusively.
#[derive(Debug)]
pub struct BorrowedPageRW<'a> {
    handle: CapabilityHandle<access::Exclusive>,
    addr: PhysicalAddr,
    tid: ThreadId,
    _phantom: PhantomData<&'a mut ()>,
}

/// A borrowed page as plain values.
pub struct BorrowedPageView {
    pub handle: HandleView,
    pub addr: usize,
    pub tid: ThreadId,
    /// Whether the release of the borrow undoes a freeze.
    pub thaw: bool,
}

impl<'a> View for BorrowedPageRO<'a> {
    type V = BorrowedPageView;

    closed spec fn view(&self) -> BorrowedPageView {
        BorrowedPageView {
            handle: self.handle@,
            addr: self.addr.0,
            tid: self.tid,
            thaw: self.thaw,
        }
    }
}

impl<'a> View for BorrowedPageRW<'a> {
    type V = BorrowedPageView;

    closed spec fn view(&self) -> BorrowedPageView {
        BorrowedPageView { handle: self.handle@, addr: self.addr.0, tid: self.tid, thaw: false }
    }
}

impl OwnedPage {
    /// Allocates a page for process `pid`, see [`page_allocation`].
    pub fn allocate(table: &mut CapabilityTable, phys: &mut PhysicalAllocator, pid: ProcessId) -> (r:
        Result<Self, AllocError>)
        requires
            old(table).wf(),
            old(phys).wf(),
        ensures
            final(table).wf(),
            final(phys).wf(),
            (final(table)@, final(phys)@, page_result(r)) == page_allocation(
                old(table)@,
                old(phys)@,
                pid.0,
            ),
    {
        let addr = match alloc_raw(phys, pid.as_u32()) {
            Some(a) => PhysicalAddr::new(a),
            None => {
                return Err(AllocError::OutOfMemory);
            },
        };
        let rid = ResourceId::from_page_addr(addr.as_usize());
        match bind_resource_scoped::<access::Exclusive, lifetime::Process>(
            table,
            pid,
            rid,
            caps::RW_MAP,
            ScopeKind::Process,
        ) {
            Ok(handle) => Ok(OwnedPage { handle, addr, owner_pid: pid.as_u32() }),
            Err(e) => Err(AllocError::CapabilityError(e)),
        }
    }

    /// Adopts the page at `addr` for process `pid`, see [`page_adoption`].
    pub fn from_addr(table: &mut CapabilityTable, pid: ProcessId, addr: PhysicalAddr) -> (r: Result<
        Self,
        AllocError,
    >)
        requires
            old(table).wf(),
        ensures
            final(table).wf(),
            (final(table)@, page_result(r)) == page_adoption(old(table)@, pid.0, addr.0),
    {
        let rid = ResourceId::from_page_addr(addr.as_usize());
        if !verify_capability_fast(table, pid, rid, caps::RW_MAP) {
            return Err(AllocError::PermissionDenied);
        }
        match bind_resource_scoped::<access::Exclusive, lifetime::Process>(
            table,
            pid,
            rid,
            caps::RW_MAP,
            ScopeKind::Process,
        ) {
            Ok(handle) => Ok(OwnedPage { handle, addr, owner_pid: pid.as_u32() }),
            Err(e) => Err(AllocError::CapabilityError(e)),
        }
    }

    /// The address of the page.
    pub fn addr(&self) -> (a: PhysicalAddr)
        ensures
            a.0 == self@.addr,
    {
        self.addr
    }

    /// The process that owns the page.
    pub fn owner(&self) -> (p: u32)
        ensures
            p == self@.owner_pid,
    {
        self.owner_pid
    }

    /// The capability under the page.
    pub fn capability(&self) -> (h: &CapabilityHandle<access::Exclusive, lifetime::Process>)
        ensures
            h@ == self@.handle,
    {
        &self.handle
    }

    /// Freezes the exclusive borrow of thread `tid` on the page and returns
    /// the page as one lent out for reading. Errors as for
    /// [`freeze_exclusive`](crate::capability::freeze_exclusive).
    pub fn as_readonly(&self, table: &mut CapabilityTable, tid: ThreadId) -> (r: Result<
        BorrowedPageRO<'_>,
        CapError,
    >)
        requires
            old(table).wf(),
        ensures
            final(table).wf(),
            final(table)@ == old(table)@.freeze(self@.handle, tid).0,
            match r {
                Ok(b) => old(table)@.freeze(self@.handle, tid).1 is Ok && b@ == (BorrowedPageView {
                    handle: self@.handle,
                    addr: self@.addr,
                    tid,
                    thaw: true,
                }),
                Err(e) => old(table)@.freeze(self@.handle, tid).1 == Err::<(), CapError>(e),
            },
    {
        let frozen = match freeze_exclusive(table, &self.handle, tid) {
            Ok(f) => f,
            Err(e) => {
                return Err(e);
            },
        };
        Ok(BorrowedPageRO { handle: frozen, addr: self.addr, tid, thaw: true, _phantom: PhantomData })
    }

    /// Gives the page back, see [`page_release`].
    pub fn release(self, table: &mut CapabilityTable, phys: &mut PhysicalAllocator)
        requires
            old(table).wf(),
            old(phys).wf(),
        ensures
            final(table).wf(),
            final(phys).wf(),
            (final(table)@, final(phys)@) == page_release(old(table)@, old(phys)@, self@),
    {
        let _ = revoke_capability(table, &self.handle);
        let _ = free_raw(phys, self.owner_pid, self.addr.as_usize());
    }

    /// Moves the page to process `to_pid` by a transfer of its resource.
    /// After a transfer that succeeded, the page is gone from this owner and
    /// not given back; after one that failed, the page is released.
    pub fn transfer_to(
        self,
        table: &mut CapabilityTable,
        phys: &mut PhysicalAllocator,
        to_pid: ProcessId,
    ) -> (r: Result<(), CapError>)
        requires
            old(table).wf(),
            old(phys).wf(),
        ensures
            final(table).wf(),
            final(phys).wf(),
            r == old(table)@.transfer(self@.owner_pid, to_pid.0, page_rid(self@.addr)).1,
            (final(table)@, final(phys)@) == (if r is Ok {
                (
                    old(table)@.transfer(self@.owner_pid, to_pid.0, page_rid(self@.addr)).0,
                    old(phys)@,
                )
            } else {
                page_release(
                    old(table)@.transfer(self@.owner_pid, to_pid.0, page_rid(self@.addr)).0,
                    old(phys)@,
                    self@,
                )
            }),
    {
        let from_pid = ProcessId::new(self.owner_pid);
        let rid = ResourceId::from_page_addr(self.addr.as_usize());
        match transfer_resource(table, from_pid, to_pid, rid) {
            Ok(_) => Ok(()),
            Err(e) => {
                self.release(table, phys);
                Err(e)
            },
        }
    }

    /// Revokes the capability of the page strictly and gives the page back
    /// to the allocator, whether or not the revocation succeeded: the page
    /// ends here either way. After a revocation that failed, the revocation
    /// is tried once more, as the end of a page does.
    pub fn revoke_now(self, table: &mut CapabilityTable, phys: &mut PhysicalAllocator) -> (r: Result<
        (),
        CapError,
    >)
        requires
            old(table).wf(),
            old(phys).wf(),
        ensures
            final(table).wf(),
            final(phys).wf(),
            r == old(table)@.revoke(self@.handle, true).1,
            final(phys)@ == old(phys)@.release(self@.owner_pid, self@.addr),
            final(table)@ == (if r is Ok {
                old(table)@.revoke(self@.handle, true).0
            } else {
                old(table)@.revoke(self@.handle, true).0.revoke(self@.handle, true).0
            }),
    {
        match revoke_capability(table, &self.handle) {
            Ok(_) => {
                let _ = free_raw(phys, self.owner_pid, self.addr.as_usize());
                Ok(())
            },
            Err(e) => {
                self.release(table, phys);
                Err(e)
            },
        }
    }

    /// Revokes the capability of the page in the deferred mode. After a
    /// revocation that succeeded, the physical page stays allocated to its
    /// owner, because a borrower may still use it: the owning process gives
    /// it back with [`free_raw`](crate::mm::physical::free_raw) once the
    /// borrows have ended. After a revocation that failed, the page is
    /// released here.
    pub fn revoke_deferred(self, table: &mut CapabilityTable, phys: &mut PhysicalAllocator) -> (r:
        Result<(), CapError>)
        requires
            old(table).wf(),
            old(phys).wf(),
        ensures
            final(table).wf(),
            final(phys).wf(),
            r == old(table)@.revoke(self@.handle, false).1,
            (final(table)@, final(phys)@) == (if r is Ok {
                (old(table)@.revoke(self@.handle, false).0, old(phys)@)
            } else {
                page_release(old(table)@.revoke(self@.handle, false).0, old(phys)@, self@)
            }),
    {
        match revoke_capability_deferred(table, &self.handle) {
            Ok(_) => Ok(()),
            Err(e) => {
                self.release(table, phys);
                Err(e)
            },
        }
    }
}

/// A read-only borrow of a page: the exclusive borrow of `tid` is frozen,
/// then `tid` takes a shared borrow of scope `scope`. Where the second step
/// fails, the freeze stays.
pub open spec fn readonly_borrow(t: TableState, h: HandleView, tid: ThreadId, scope: ScopeKind) -> (
    TableState,
    Result<(), CapError>,
) {
    let (frozen, outcome) = t.freeze(h, tid);
    if outcome is Err {
        (frozen, outcome)
    } else {
        frozen.borrow_shared(h, tid, scope)
    }
}

/// The end of a read-only borrow: the shared borrow ends, and the freeze
/// that came with it is undone. What cannot be undone is left as it is.
pub open spec fn readonly_release(t: TableState, b: BorrowedPageView) -> TableState {
    let t1 = t.release_shared(b.handle, b.tid).0;
    if b.thaw {
        t1.unfreeze(b.handle, b.tid).0
    } else {
        t1
    }
}

/// The handle under which a shared page is borrowed: the slot and the
/// generation of its capability, with process scope.
pub open spec fn shared_handle(rec: SharedPageInner) -> HandleView {
    HandleView {
        index: rec.handle.index,
        generation: rec.handle.generation,
        scope: ScopeKind::Process,
        creation_order: 0,
    }
}

impl<'a> BorrowedPageRO<'a> {
    /// Borrows `page` for reading by thread `tid`, see [`readonly_borrow`].
    pub fn borrow(page: &'a OwnedPage, table: &mut CapabilityTable, tid: ThreadId, scope: ScopeKind)
        -> (r: Result<Self, CapError>)
        requires
            old(table).wf(),
        ensures
            final(table).wf(),
            final(table)@ == readonly_borrow(old(table)@, page@.handle, tid, scope).0,
            match r {
                Ok(b) => readonly_borrow(old(table)@, page@.handle, tid, scope).1 is Ok && b@ == (
                BorrowedPageView { handle: page@.handle, addr: page@.addr, tid, thaw: true }),
                Err(e) => readonly_borrow(old(table)@, page@.handle, tid, scope).1 == Err::<
                    (),
                    CapError,
                >(e),
            },
    {
        let frozen = match freeze_exclusive(table, &page.handle, tid) {
            Ok(f) => f,
            Err(e) => {
                return Err(e);
            },
        };
        match borrow_shared_from_frozen(table, &frozen, tid, scope) {
            Ok(_) => {},
            Err(e) => {
                return Err(e);
            },
        }
        Ok(BorrowedPageRO { handle: frozen, addr: page.addr, tid, thaw: true, _phantom: PhantomData })
    }

    /// Borrows a shared page for reading by thread `tid`, through a handle
    /// of process scope on the slot and generation of the page's capability.
    /// Errors as for [`borrow_shared_ro`](crate::capability::borrow_shared_ro).
    pub fn borrow_shared(
        page: &'a SharedPage,
        table: &mut CapabilityTable,
        tid: ThreadId,
        scope: ScopeKind,
    ) -> (r: Result<Self, CapError>)
        requires
            old(table).wf(),
        ensures
            final(table).wf(),
            final(table)@ == old(table)@.borrow_shared(shared_handle(page@), tid, scope).0,
            match r {
                Ok(b) => old(table)@.borrow_shared(shared_handle(page@), tid, scope).1 is Ok
                    && b@ == (BorrowedPageView {
                    handle: shared_handle(page@),
                    addr: page@.addr,
                    tid,
                    thaw: false,
                }),
                Err(e) => old(table)@.borrow_shared(shared_handle(page@), tid, scope).1 == Err::<
                    (),
                    CapError,
                >(e),
            },
    {
        let rec = page.record();
        let handle: CapabilityHandle<access::ReadOnly> = CapabilityHandle::new(
            rec.handle.index,
            rec.handle.generation,
            ScopeKind::Process,
            0,
        );
        match borrow_shared_ro(table, &handle, tid, scope) {
            Ok(_) => {},
            Err(e) => {
                return Err(e);
            },
        }
        Ok(
            BorrowedPageRO {
                handle: handle.retag(),
                addr: PhysicalAddr::new(rec.addr),
                tid,
                thaw: false,
                _phantom: PhantomData,
            },
        )
    }

    /// The address of the page.
    pub fn addr(&self) -> (a: PhysicalAddr)
        ensures
            a.0 == self@.addr,
    {
        self.addr
    }

    /// Ends the borrow, see [`readonly_release`].
    pub fn release(self, table: &mut CapabilityTable)
        requires
            old(table).wf(),
        ensures
            final(table).wf(),
            final(table)@ == readonly_release(old(table)@, self@),
    {
        let _ = release_shared_frozen(table, &self.handle, self.tid);
        if self.thaw {
            let exclusive: CapabilityHandle<access::Exclusive> = self.handle.retag();
            let _ = unfreeze_exclusive(table, &exclusive, self.tid);
        }
    }
}

impl<'a> BorrowedPageRW<'a> {
    /// Borrows `page` exclusively for thread `tid` with scope `scope`.
    /// Errors as for [`borrow_exclusive`](crate::capability::borrow_exclusive).
    pub fn borrow_mut(
        page: &'a mut OwnedPage,
        table: &mut CapabilityTable,
        tid: ThreadId,
        scope: ScopeKind,
    ) -> (r: Result<Self, CapError>)
        requires
            old(table).wf(),
        ensures
            final(table).wf(),
            final(table)@ == old(table)@.borrow_exclusive(old(page)@.handle, tid, scope).0,
            *final(page) == *old(page),
            match r {
                Ok(b) => old(table)@.borrow_exclusive(old(page)@.handle, tid, scope).1 is Ok
                    && b@ == (BorrowedPageView {
                    handle: old(page)@.handle,
                    addr: old(page)@.addr,
                    tid,
                    thaw: false,
                }),
                Err(e) => old(table)@.borrow_exclusive(old(page)@.handle, tid, scope).1 == Err::<
                    (),
                    CapError,
                >(e),
            },
    {
        match borrow_exclusive(table, &page.handle, tid, scope) {
            Ok(_) => {},
            Err(e) => {
                return Err(e);
            },
        }
        Ok(BorrowedPageRW { handle: page.handle.retag(), addr: page.addr, tid, _phantom: PhantomData })
    }

    /// The address of the page.
    pub fn addr(&self) -> (a: PhysicalAddr)
        ensures
            a.0 == self@.addr,
    {
        self.addr
    }

    /// Ends the borrow. What cannot be ended is left as it is.
    pub fn release(self, table: &mut CapabilityTable)
        requires
            old(table).wf(),
        ensures
            final(table).wf(),
            final(table)@ == old(table)@.release_exclusive(self@.handle, self@.tid).0,
    {
        let _ = release_exclusive(table, &self.handle, self.tid);
    }
}

/// The release of each page of `pages`, the first page first.
pub open spec fn pages_release(t: TableState, m: PhysView, pages: Seq<OwnedPage>) -> (
    TableState,
    PhysView,
)
    decreases pages.len(),
{
    if pages.len() == 0 {
        (t, m)
    } else {
        let (t1, m1) = page_release(t, m, pages[0]@);
        pages_release(t1, m1, pages.drop_first())
    }
}

/// Deferred revocation of each page of `pages`, the first page first. The
/// first refusal ends the walk: that page and every page behind it are
/// released, and the refusal is the result.
pub open spec fn pages_revocation(t: TableState, m: PhysView, pages: Seq<OwnedPage>) -> (
    TableState,
    PhysView,
    Result<(), CapError>,
)
    decreases pages.len(),
{
    if pages.len() == 0 {
        (t, m, Ok(()))
    } else {
        let (t1, r) = t.revoke(pages[0]@.handle, false);
        if r is Err {
            let (t2, m2) = pages_release(t1, m, pages);
            (t2, m2, r)
        } else {
            pages_revocation(t1, m, pages.drop_first())
        }
    }
}

/// What `n` page allocations in a row for process `pid` give: the table and
/// the allocator afterwards, the pages in the order of allocation, and the
/// error that ended the row early, if one did.
pub open spec fn pages_allocation(t: TableState, m: PhysView, pid: u32, n: nat) -> (
    TableState,
    PhysView,
    Seq<OwnedPageView>,
    Option<AllocError>,
)
    decreases n,
{
    if n == 0 {
        (t, m, Seq::empty(), None)
    } else {
        match page_allocation(t, m, pid) {
            (t1, m1, Ok(p)) => {
                let (t2, m2, rest, e) = pages_allocation(t1, m1, pid, (n - 1) as nat);
                (t2, m2, seq![p] + rest, e)
            },
            (t1, m1, Err(e)) => (t1, m1, Seq::empty(), Some(e)),
        }
    }
}

/// The pages of `pages` as plain values.
pub open spec fn page_views(pages: Seq<OwnedPage>) -> Seq<OwnedPageView> {
    Seq::new(pages.len(), |i: int| pages[i]@)
}

/// Pages of one owner.
#[derive(Debug)]
pub struct PageVec {
    pages: Vec<OwnedPage>,
    owner_pid: u32,
}

impl View for PageVec {
    type V = Seq<OwnedPage>;

    closed spec fn view(&self) -> Seq<OwnedPage> {
        self.pages@
    }
}

impl PageVec {
    /// The process whose pages the vector holds.
    pub closed spec fn spec_owner(&self) -> u32 {
        self.owner_pid
    }

    pub fn new(owner_pid: u32) -> (v: Self)
        ensures
            v@.len() == 0,
            v.spec_owner() == owner_pid,
    {
        PageVec { pages: Vec::new(), owner_pid }
    }

    pub fn with_capacity(owner_pid: u32, capacity: usize) -> (v: Self)
        ensures
            v@.len() == 0,
            v.spec_owner() == owner_pid,
    {
        PageVec { pages: Vec::with_capacity(capacity), owner_pid }
    }

    /// Appends a page of the vector's owner.
    pub fn push(&mut self, page: OwnedPage)
        requires
            page@.owner_pid == old(self).spec_owner(),
        ensures
            final(self)@ == old(self)@.push(page),
            final(self).spec_owner() == old(self).spec_owner(),
    {
        self.pages.push(page);
    }

    /// Takes the last page out.
    pub fn pop(&mut self) -> (r: Option<OwnedPage>)
        ensures
            final(self).spec_owner() == old(self).spec_owner(),
            match r {
                Some(p) => old(self)@.len() > 0 && p == old(self)@.last() && final(self)@ == old(
                    self,
                )@.drop_last(),
                None => old(self)@.len() == 0 && final(self)@ == old(self)@,
            },
    {
        self.pages.pop()
    }

    pub fn len(&self) -> (n: usize)
        ensures
            n == self@.len(),
    {
        self.pages.len()
    }

    pub fn is_empty(&self) -> (b: bool)
        ensures
            b == (self@.len() == 0),
    {
        self.pages.len() == 0
    }

    pub fn get(&self, index: usize) -> (r: Option<&OwnedPage>)
        ensures
            match r {
                Some(p) => index < self@.len() && *p == self@[index as int],
                None => index >= self@.len(),
            },
    {
        if index < self.pages.len() {
            Some(&self.pages[index])
        } else {
            None
        }
    }

    pub fn get_mut(&mut self, index: usize) -> (r: Option<&mut OwnedPage>)
        ensures
            match r {
                Some(p) => index < old(self)@.len() && *p == old(self)@[index as int]
                    && final(self)@ == old(self)@.update(index as int, *final(p)),
                None => index >= old(self)@.len() && final(self)@ == old(self)@,
            },
            final(self).spec_owner() == old(self).spec_owner(),
    {
        if index < self.pages.len() {
            Some(&mut self.pages[index])
        } else {
            None
        }
    }

    /// The pages in order.
    pub fn iter(&self) -> (it: core::slice::Iter<'_, OwnedPage>)
        ensures
            vstd::std_specs::slice::into_iter_elts(it) == self@,
    {
        let it = self.pages.iter();
        proof {
            assert(vstd::std_specs::slice::into_iter_elts(it) =~= self.pages@);
        }
        it
    }

    /// Releases the pages from position `from` on, the first of them first.
    fn release_from(pages: &Vec<OwnedPage>, from: usize, table: &mut CapabilityTable, phys: &mut PhysicalAllocator)
        requires
            from <= pages@.len(),
            old(table).wf(),
            old(phys).wf(),
        ensures
            final(table).wf(),
            final(phys).wf(),
            (final(table)@, final(phys)@) == pages_release(
                old(table)@,
                old(phys)@,
                pages@.skip(from as int),
            ),
    {
        let mut i: usize = from;
        while i < pages.len()
            invariant
                from <= i <= pages@.len(),
                table.wf(),
                phys.wf(),
                pages_release(old(table)@, old(phys)@, pages@.skip(from as int)) == pages_release(
                    table@,
                    phys@,
                    pages@.skip(i as int),
                ),
            decreases pages.len() - i,
        {
            proof {
                assert(pages@.skip(i as int)[0] == pages@[i as int]);
                assert(pages@.skip(i as int).drop_first() == pages@.skip(i + 1));
            }
            let _ = revoke_capability(table, &pages[i].handle);
            let _ = free_raw(phys, pages[i].owner_pid, pages[i].addr.as_usize());
            i = i + 1;
        }
        proof {
            assert(pages@.skip(pages@.len() as int).len() == 0);
        }
    }

    /// Revokes the capability of every page in the deferred mode, see
    /// [`pages_revocation`].
    pub fn revoke_all_deferred(self, table: &mut CapabilityTable, phys: &mut PhysicalAllocator) -> (r:
        Result<(), CapError>)
        requires
            old(table).wf(),
            old(phys).wf(),
        ensures
            final(table).wf(),
            final(phys).wf(),
            (final(table)@, final(phys)@, r) == pages_revocation(old(table)@, old(phys)@, self@),
    {
        let pages = self.pages;
        let mut i: usize = 0;
        proof {
            assert(pages@.skip(0) == pages@);
        }
        while i < pages.len()
            invariant
                i <= pages@.len(),
                table.wf(),
                phys.wf(),
                phys@ == old(phys)@,
                pages@ == self@,
                pages_revocation(old(table)@, old(phys)@, pages@) == pages_revocation(
                    table@,
                    phys@,
                    pages@.skip(i as int),
                ),
            decreases pages.len() - i,
        {
            let ghost t1 = table@;
            proof {
                let rest = pages@.skip(i as int);
                assert(rest[0] == pages@[i as int]);
                assert(rest.drop_first() == pages@.skip(i + 1));
                let (revoked, outcome) = t1.revoke(rest[0]@.handle, false);
                assert(pages_revocation(t1, phys@, rest) == (if outcome is Err {
                    let (t3, m3) = pages_release(revoked, phys@, rest);
                    (t3, m3, outcome)
                } else {
                    pages_revocation(revoked, phys@, rest.drop_first())
                }));
            }
            match revoke_capability_deferred(table, &pages[i].handle) {
                Ok(_) => {},
                Err(e) => {
                    Self::release_from(&pages, i, table, phys);
                    return Err(e);
                },
            }
            i = i + 1;
        }
        proof {
            assert(pages@.skip(pages@.len() as int).len() == 0);
        }
        Ok(())
    }

    /// Releases every page, the first page first, see [`pages_release`].
    pub fn release_all(self, table: &mut CapabilityTable, phys: &mut PhysicalAllocator)
        requires
            old(table).wf(),
            old(phys).wf(),
        ensures
            final(table).wf(),
            final(phys).wf(),
            (final(table)@, final(phys)@) == pages_release(old(table)@, old(phys)@, self@),
    {
        proof {
            assert(self.pages@.skip(0) == self.pages@);
        }
        Self::release_from(&self.pages, 0, table, phys);
    }
}

/// The state of the system in numbers.
#[derive(Debug, Clone, Copy)]
pub struct SystemInfo {
    pub free_pages: usize,
    pub page_size: usize,
    pub capability_stats: CapabilityStats,
}

/// The operations that a library operating system calls.
#[derive(Debug)]
pub struct Syscall;

impl Syscall {
    /// Allocates one page for process `pid`, see [`page_allocation`].
    pub fn alloc_page(table: &mut CapabilityTable, phys: &mut PhysicalAllocator, pid: ProcessId) -> (r:
        Result<OwnedPage, AllocError>)
        requires
            old(table).wf(),
            old(phys).wf(),
        ensures
            final(table).wf(),
            final(phys).wf(),
            (final(table)@, final(phys)@, page_result(r)) == page_allocation(
                old(table)@,
                old(phys)@,
                pid.0,
            ),
    {
        OwnedPage::allocate(table, phys, pid)
    }

    /// Allocates up to `count` pages for process `pid`, one after the other.
    /// The first failure ends the row: it is the result where no page was
    /// had before it, and otherwise the pages had so far are.
    pub fn alloc_pages(
        table: &mut CapabilityTable,
        phys: &mut PhysicalAllocator,
        pid: ProcessId,
        count: usize,
    ) -> (r: Result<PageVec, AllocError>)
        requires
            old(table).wf(),
            old(phys).wf(),
        ensures
            final(table).wf(),
            final(phys).wf(),
            final(table)@ == pages_allocation(old(table)@, old(phys)@, pid.0, count as nat).0,
            final(phys)@ == pages_allocation(old(table)@, old(phys)@, pid.0, count as nat).1,
            match r {
                Ok(v) => {
                    &&& page_views(v@) == pages_allocation(
                        old(table)@,
                        old(phys)@,
                        pid.0,
                        count as nat,
                    ).2
                    &&& v.spec_owner() == pid.0
                    &&& (v@.len() > 0 || count == 0)
                },
                Err(e) => {
                    &&& pages_allocation(old(table)@, old(phys)@, pid.0, count as nat).2.len() == 0
                    &&& pages_allocation(old(table)@, old(phys)@, pid.0, count as nat).3 == Some(e)
                },
            },
    {
        let mut vec = PageVec::with_capacity(pid.as_u32(), count);
        let ghost t0 = table@;
        let ghost m0 = phys@;
        let mut i: usize = 0;
        proof {
            assert(page_views(vec@) =~= Seq::<OwnedPageView>::empty());
            assert(Seq::<OwnedPageView>::empty() + pages_allocation(t0, m0, pid.0, count as nat).2
                =~= pages_allocation(t0, m0, pid.0, count as nat).2);
        }
        while i < count
            invariant
                i <= count,
                table.wf(),
                phys.wf(),
                t0 == old(table)@,
                m0 == old(phys)@,
                vec.spec_owner() == pid.0,
                vec@.len() == i,
                pages_allocation(t0, m0, pid.0, count as nat).0 == pages_allocation(
                    table@,
                    phys@,
                    pid.0,
                    (count - i) as nat,
                ).0,
                pages_allocation(t0, m0, pid.0, count as nat).1 == pages_allocation(
                    table@,
                    phys@,
                    pid.0,
                    (count - i) as nat,
                ).1,
                pages_allocation(t0, m0, pid.0, count as nat).2 == page_views(vec@)
                    + pages_allocation(table@, phys@, pid.0, (count - i) as nat).2,
                pages_allocation(t0, m0, pid.0, count as nat).3 == pages_allocation(
                    table@,
                    phys@,
                    pid.0,
                    (count - i) as nat,
                ).3,
            decreases count - i,
        {
            let ghost t1 = table@;
            let ghost m1 = phys@;
            let ghost acc = page_views(vec@);
            proof {
                let n = (count - i) as nat;
                assert(pages_allocation(t1, m1, pid.0, n) == match page_allocation(t1, m1, pid.0) {
                    (t2, m2, Ok(p)) => {
                        let (t3, m3, rest, e) = pages_allocation(t2, m2, pid.0, (n - 1) as nat);
                        (t3, m3, seq![p] + rest, e)
                    },
                    (t2, m2, Err(e)) => (t2, m2, Seq::<OwnedPageView>::empty(), Some(e)),
                });
            }
            match OwnedPage::allocate(table, phys, pid) {
                Ok(page) => {
                    proof {
                        let rest = pages_allocation(table@, phys@, pid.0, (count - i - 1) as nat).2;
                        assert(page_views(vec@.push(page)) =~= acc.push(page@));
                        assert(acc + (seq![page@] + rest) =~= acc.push(page@) + rest);
                        assert(page@.owner_pid == pid.0);
                    }
                    vec.push(page);
                },
                Err(e) => {
                    proof {
                        assert(acc + Seq::<OwnedPageView>::empty() =~= acc);
                        assert(acc.len() == vec@.len());
                    }
                    if vec.is_empty() {
                        return Err(e);
                    } else {
                        return Ok(vec);
                    }
                },
            }
            i = i + 1;
        }
        proof {
            assert(page_views(vec@) + Seq::<OwnedPageView>::empty() =~= page_views(vec@));
        }
        Ok(vec)
    }

    /// Allocates one page for process `pid` as a shared page, see
    /// [`page_allocation`].
    pub fn alloc_shared_page(
        table: &mut CapabilityTable,
        phys: &mut PhysicalAllocator,
        pid: ProcessId,
    ) -> (r: Result<SharedPage, AllocError>)
        requires
            old(table).wf(),
            old(phys).wf(),
        ensures
            final(table).wf(),
            final(phys).wf(),
            final(table)@ == page_allocation(old(table)@, old(phys)@, pid.0).0,
            final(phys)@ == page_allocation(old(table)@, old(phys)@, pid.0).1,
            match r {
                Ok(p) => page_allocation(old(table)@, old(phys)@, pid.0).2 == Ok::<
                    OwnedPageView,
                    AllocError,
                >(OwnedPageView { handle: p@.handle, addr: p@.addr, owner_pid: p@.owner_pid }),
                Err(e) => page_allocation(old(table)@, old(phys)@, pid.0).2 == Err::<
                    OwnedPageView,
                    AllocError,
                >(e),
            },
    {
        match OwnedPage::allocate(table, phys, pid) {
            Ok(page) => Ok(SharedPage::from_owned(page)),
            Err(e) => Err(e),
        }
    }

    /// Adopts the page at `addr` for process `pid`, see [`page_adoption`].
    pub fn page_from_addr(table: &mut CapabilityTable, pid: ProcessId, addr: PhysicalAddr) -> (r:
        Result<OwnedPage, AllocError>)
        requires
            old(table).wf(),
        ensures
            final(table).wf(),
            (final(table)@, page_result(r)) == page_adoption(old(table)@, pid.0, addr.0),
    {
        OwnedPage::from_addr(table, pid, addr)
    }

    /// Grants `grantee_pid` a read-only capability on the page at `addr`,
    /// derived from the capability of `grantor_pid`, and returns the page as
    /// one of the grantee.
    pub fn grant_page_readonly(
        table: &mut CapabilityTable,
        grantor_pid: ProcessId,
        grantee_pid: ProcessId,
        addr: PhysicalAddr,
    ) -> (r: Result<OwnedPage, AllocError>)
        requires
            old(table).wf(),
        ensures
            final(table).wf(),
            final(table)@ == old(table)@.grant(
                grantor_pid.0,
                grantee_pid.0,
                page_rid(addr.0),
                caps::READ,
            ).0,
            page_result(r) == match old(table)@.grant(
                grantor_pid.0,
                grantee_pid.0,
                page_rid(addr.0),
                caps::READ,
            ).1 {
                Ok(h) => Ok(OwnedPageView { handle: h, addr: addr.0, owner_pid: grantee_pid.0 }),
                Err(e) => Err(AllocError::CapabilityError(e)),
            },
    {
        let rid = ResourceId::from_page_addr(addr.as_usize());
        match grant_readonly(table, grantor_pid, grantee_pid, rid) {
            Ok(h) => Ok(OwnedPage { handle: h.retag(), addr, owner_pid: grantee_pid.as_u32() }),
            Err(e) => Err(AllocError::CapabilityError(e)),
        }
    }

    /// Grants `grantee_pid` an exclusive capability on the page at `addr`,
    /// derived from the capability of `grantor_pid`, and returns the page as
    /// one of the grantee.
    pub fn grant_page_exclusive(
        table: &mut CapabilityTable,
        grantor_pid: ProcessId,
        grantee_pid: ProcessId,
        addr: PhysicalAddr,
    ) -> (r: Result<OwnedPage, AllocError>)
        requires
            old(table).wf(),
        ensures
            final(table).wf(),
            final(table)@ == old(table)@.grant(
                grantor_pid.0,
                grantee_pid.0,
                page_rid(addr.0),
                caps::RW_MAP,
            ).0,
            page_result(r) == match old(table)@.grant(
                grantor_pid.0,
                grantee_pid.0,
                page_rid(addr.0),
                caps::RW_MAP,
            ).1 {
                Ok(h) => Ok(OwnedPageView { handle: h, addr: addr.0, owner_pid: grantee_pid.0 }),
                Err(e) => Err(AllocError::CapabilityError(e)),
            },
    {
        let rid = ResourceId::from_page_addr(addr.as_usize());
        match grant_exclusive(table, grantor_pid, grantee_pid, rid) {
            Ok(h) => Ok(OwnedPage { handle: h.retag(), addr, owner_pid: grantee_pid.as_u32() }),
            Err(e) => Err(AllocError::CapabilityError(e)),
        }
    }

    /// Moves `page` to process `to_pid`, see [`OwnedPage::transfer_to`].
    pub fn transfer_page(
        table: &mut CapabilityTable,
        phys: &mut PhysicalAllocator,
        page: OwnedPage,
        to_pid: ProcessId,
    ) -> (r: Result<(), AllocError>)
        requires
            old(table).wf(),
            old(phys).wf(),
        ensures
            final(table).wf(),
            final(phys).wf(),
            r == match old(table)@.transfer(page@.owner_pid, to_pid.0, page_rid(page@.addr)).1 {
                Ok(_) => Ok::<(), AllocError>(()),
                Err(e) => Err(AllocError::CapabilityError(e)),
            },
            (final(table)@, final(phys)@) == (if r is Ok {
                (
                    old(table)@.transfer(page@.owner_pid, to_pid.0, page_rid(page@.addr)).0,
                    old(phys)@,
                )
            } else {
                page_release(
                    old(table)@.transfer(page@.owner_pid, to_pid.0, page_rid(page@.addr)).0,
                    old(phys)@,
                    page@,
                )
            }),
    {
        match page.transfer_to(table, phys, to_pid) {
            Ok(_) => Ok(()),
            Err(e) => Err(AllocError::CapabilityError(e)),
        }
    }

    /// The state of the system in numbers.
    pub fn system_info(table: &CapabilityTable, phys: &PhysicalAllocator) -> (info: SystemInfo)
        requires
            table.wf(),
        ensures
            info.free_pages == phys@.free_pages,
            info.page_size == PAGE_SIZE,
            info.capability_stats.used_slots == table@.used_count,
            info.capability_stats.free_slots == table@.free_slots.len(),
            info.capability_stats.total_slots == crate::capability::MAX_CAPABILITIES,
    {
        SystemInfo {
            free_pages: free_pages(phys),
            page_size: PAGE_SIZE,
            capability_stats: get_stats(table),
        }
    }
}

/// Page allocation: where a page and a slot are free and the process has no
/// capability on the page that would be taken, the allocation succeeds. The
/// page is the lowest free page of the region: it was free, it lies whole
/// pages behind the base, and the counter of free pages falls by one. The
/// process holds `READ | WRITE | MAP` on it, which the cache confirms, in a
/// slot that was free.
pub proof fn law_page_allocation(t: TableState, m: PhysView, pid: u32)
    requires
        t.wf(),
        m.wf(),
        !m.exhausted(),
        t.free_slots.len() > 0,
        t.lookup(pid, page_rid(m.addr_of(m.lowest_free()) as usize)) is None,
    ensures
        ({
            let (t1, m1, r) = page_allocation(t, m, pid);
            let i = m.lowest_free();
            &&& r is Ok
            &&& r->Ok_0.owner_pid == pid
            &&& r->Ok_0.addr == m.base + i * PAGE_SIZE
            &&& m.is_lowest_free(i)
            &&& m.in_region(r->Ok_0.addr)
            &&& m1.used == m.used.update(i, true)
            &&& m1.owners == m.owners.update(i, pid)
            &&& m1.free_pages == m.free_pages.wrapping_sub(1)
            &&& m.accounted() ==> m.free_pages > 0 && m1.free_pages == m.free_pages - 1
            &&& t1.wf()
            &&& t1.valid_handle(r->Ok_0.handle)
            &&& r->Ok_0.handle.index == t.free_slots.last()
            &&& t1.slots[r->Ok_0.handle.index as int].is_live_for(pid, page_rid(r->Ok_0.addr))
            &&& t1.slots[r->Ok_0.handle.index as int].capabilities == caps::RW_MAP
            &&& t1.slots[r->Ok_0.handle.index as int].scope == ScopeKind::Process
            &&& t1.used_count == t.used_count + 1
            &&& t1.verify_fast(pid, page_rid(r->Ok_0.addr), caps::RW_MAP)
        }),
{
    crate::mm::physical::law_alloc_release(m, pid);
    if m.accounted() {
        crate::mm::physical::law_accounting(m, pid, 0);
    }
    let j = choose|j: int| 0 <= j < m.total_pages && !m.used[j];
    crate::mm::physical::lemma_lowest_exists(m, j);
    crate::mm::physical::lemma_page_of_addr(m, m.lowest_free());
    let a = m.allocation(pid).1->0;
    let rid = page_rid(a);
    crate::capability::laws::law_verify_after_bind(
        t,
        pid,
        rid,
        caps::RW_MAP,
        ScopeKind::Process,
        caps::RW_MAP,
    );
    crate::capability::bind_proofs::lemma_counters(t, pid, rid);
    crate::capability::bind_proofs::lemma_lookup_same(t, t.sequenced(), pid, rid);
    crate::capability::bind_proofs::lemma_bind(
        t.sequenced(),
        pid,
        rid,
        caps::RW_MAP,
        ScopeKind::Process,
        t.creation_seq,
        None,
    );
    crate::capability::bind_proofs::lemma_filled_wf(
        t.sequenced(),
        pid,
        rid,
        caps::RW_MAP,
        ScopeKind::Process,
        t.creation_seq,
    );
    crate::capability::bind_proofs::lemma_filled_fields(
        t.sequenced(),
        pid,
        rid,
        caps::RW_MAP,
        ScopeKind::Process,
        t.creation_seq,
    );
    assert(caps::has_all(caps::RW_MAP, caps::RW_MAP)) by (bit_vector);
}

/// Allocation and release of a page, one after the other: where the process
/// had no capability on the page and the page is not borrowed, the release
/// undoes the allocation, and so does `revoke_now`, which then succeeds. The
/// pages in use, the counter of free pages, the free stack of the table and
/// its count of used slots are what they were. The slot of the page is free
/// in its next generation, the handle of the page is invalid, and the
/// process holds no right on the page.
pub proof fn law_page_round_trip(t: TableState, m: PhysView, pid: u32, required: u32)
    requires
        t.wf(),
        m.wf(),
        !m.exhausted(),
        t.free_slots.len() > 0,
        t.lookup(pid, page_rid(m.addr_of(m.lowest_free()) as usize)) is None,
        !t.borrowed(page_rid(m.addr_of(m.lowest_free()) as usize).key()),
    ensures
        ({
            let (t1, m1, r) = page_allocation(t, m, pid);
            let (t2, m2) = page_release(t1, m1, r->Ok_0);
            let h = r->Ok_0.handle;
            &&& r is Ok
            &&& r->Ok_0.addr == m.addr_of(m.lowest_free())
            &&& t1.revoke(h, true).1 is Ok
            &&& t2 == t1.revoke(h, true).0
            &&& m2 == m1.release(r->Ok_0.owner_pid, r->Ok_0.addr)
            &&& m2.free_pages == m.free_pages
            &&& m2.used == m.used
            &&& t2.used_count == t.used_count
            &&& t2.free_slots == t.free_slots
            &&& t2.slots[h.index as int].state == crate::capability::SlotState::Free
            &&& t2.slots[h.index as int].generation == h.generation.wrapping_add(1)
            &&& !t2.valid_handle(h)
            &&& !t2.holds(pid, page_rid(r->Ok_0.addr), required)
            &&& !t2.verify_fast(pid, page_rid(r->Ok_0.addr), required)
        }),
{
    crate::mm::physical::law_alloc_release(m, pid);
    let j = choose|j: int| 0 <= j < m.total_pages && !m.used[j];
    crate::mm::physical::lemma_lowest_exists(m, j);
    crate::mm::physical::lemma_page_of_addr(m, m.lowest_free());
    let a = m.allocation(pid).1->0;
    let rid = page_rid(a);
    crate::capability::laws::law_bind_revoke(t, pid, rid, caps::RW_MAP, ScopeKind::Process);
    law_page_allocation(t, m, pid);
    let (t1, m1, r) = page_allocation(t, m, pid);
    let h = r->Ok_0.handle;
    crate::capability::laws::law_generation(t1, h, pid, rid, caps::RW_MAP, ScopeKind::Process);
    crate::capability::laws::law_verify_after_revoke(t1, h, pid, rid, required);
}

} // verus!
