//! Pages with several owners. The record of a shared page lies behind a
//! reference-counted spin lock; the owner who releases last gives the page
//! back.

use vstd::prelude::*;
use std::sync::Arc;
use super::ownership_api::{page_release, page_rid, OwnedPage, OwnedPageView, PhysicalAddr};
use crate::capability::access;
use crate::capability::caps;
use crate::capability::resource::HandleView;
use crate::capability::state::TableState;
use crate::capability::{grant_readonly, revoke_capability, CapError, CapabilityHandle, CapabilityTable, ProcessId, ResourceId};
use crate::mm::physical::{free_raw, PhysView, PhysicalAllocator};

verus! {

/// The spin lock of the `spin` crate, opaque to the verifier.
#[verifier::external_type_specification]
#[verifier::external_body]
#[verifier::reject_recursive_types(T)]
#[verifier::reject_recursive_types(R)]
pub struct ExSpinMutex<T: ?Sized, R>(spin::mutex::Mutex<T, R>);

/// The way in which the spin lock of the `spin` crate waits, opaque to the
/// verifier.
#[verifier::external_type_specification]
#[verifier::external_body]
pub struct ExSpin(spin::relax::Spin);

/// The record of a shared page: the capability, the address and the owner.
#[derive(Debug, Clone, Copy)]
pub struct SharedPageInner {
    pub handle: HandleView,
    pub addr: usize,
    pub owner_pid: u32,
}

/// The record that a lock guards.
pub uninterp spec fn guarded(m: spin::mutex::Mutex<SharedPageInner>) -> SharedPageInner;

/// `spin::mutex::Mutex::new`: the new lock guards the value it was made with.
#[verifier::external_body]
fn lock_new(rec: SharedPageInner) -> (m: spin::mutex::Mutex<SharedPageInner>)
    ensures
        guarded(m) == rec,
{
    spin::mutex::Mutex::new(rec)
}

/// `spin::mutex::Mutex::lock`, and a copy of what the guard gives access to:
/// the record that the lock guards. Nothing in this library writes through a
/// guard, and the lock is free again when the call returns.
#[verifier::external_body]
fn lock_read(m: &spin::mutex::Mutex<SharedPageInner>) -> (rec: SharedPageInner)
    ensures
        rec == guarded(*m),
{
    *m.lock()
}

/// `Arc::clone`: one more pointer to the same lock.
#[verifier::external_body]
fn arc_share(a: &Arc<spin::mutex::Mutex<SharedPageInner>>) -> (b: Arc<
    spin::mutex::Mutex<SharedPageInner>,
>)
    ensures
        b == *a,
{
    Arc::clone(a)
}

/// `Arc::strong_count`: the number of pointers to the lock at this moment.
/// It depends on what the other owners did, so nothing is claimed of it.
#[verifier::external_body]
fn arc_owners(a: &Arc<spin::mutex::Mutex<SharedPageInner>>) -> (n: usize) {
    Arc::strong_count(a)
}

/// A page with several owners.
pub struct SharedPage {
    inner: Arc<spin::mutex::Mutex<SharedPageInner>>,
}

impl View for SharedPage {
    type V = SharedPageInner;

    closed spec fn view(&self) -> SharedPageInner {
        guarded(*self.inner)
    }
}

/// The release of a shared page by one of `count` owners: the last owner
/// revokes the capability strictly and gives the page back, every other
/// owner changes nothing.
pub open spec fn shared_release(t: TableState, m: PhysView, rec: SharedPageInner, count: usize) -> (
    TableState,
    PhysView,
) {
    if count == 1 {
        page_release(
            t,
            m,
            OwnedPageView { handle: rec.handle, addr: rec.addr, owner_pid: rec.owner_pid },
        )
    } else {
        (t, m)
    }
}

impl SharedPage {
    /// Makes an owned page a shared one, with the same capability.
    pub fn from_owned(page: OwnedPage) -> (r: Self)
        ensures
            r@ == (SharedPageInner {
                handle: page@.handle,
                addr: page@.addr,
                owner_pid: page@.owner_pid,
            }),
    {
        let h = page.capability();
        let rec = SharedPageInner {
            handle: HandleView {
                index: h.index(),
                generation: h.generation(),
                scope: h.scope(),
                creation_order: h.creation_order(),
            },
            addr: page.addr().as_usize(),
            owner_pid: page.owner(),
        };
        SharedPage { inner: Arc::new(lock_new(rec)) }
    }

    /// Grants `grantee_pid` a read-only capability on the page, derived from
    /// the capability of the page's owner, and returns the page as a shared
    /// page of the grantee.
    pub fn grant_readonly(&self, table: &mut CapabilityTable, grantee_pid: ProcessId) -> (r: Result<
        Self,
        CapError,
    >)
        requires
            old(table).wf(),
        ensures
            final(table).wf(),
            final(table)@ == old(table)@.grant(
                self@.owner_pid,
                grantee_pid.0,
                page_rid(self@.addr),
                caps::READ,
            ).0,
            match r {
                Ok(p) => old(table)@.grant(
                    self@.owner_pid,
                    grantee_pid.0,
                    page_rid(self@.addr),
                    caps::READ,
                ).1 == Ok::<HandleView, CapError>(p@.handle) && p@.addr == self@.addr
                    && p@.owner_pid == grantee_pid.0,
                Err(e) => old(table)@.grant(
                    self@.owner_pid,
                    grantee_pid.0,
                    page_rid(self@.addr),
                    caps::READ,
                ).1 == Err::<HandleView, CapError>(e),
            },
    {
        let rec = lock_read(&self.inner);
        let grantor_pid = ProcessId::new(rec.owner_pid);
        let rid = ResourceId::from_page_addr(rec.addr);
        let h = match grant_readonly(table, grantor_pid, grantee_pid, rid) {
            Ok(h) => h,
            Err(e) => {
                return Err(e);
            },
        };
        let granted = SharedPageInner {
            handle: HandleView {
                index: h.index(),
                generation: h.generation(),
                scope: h.scope(),
                creation_order: h.creation_order(),
            },
            addr: rec.addr,
            owner_pid: grantee_pid.as_u32(),
        };
        Ok(SharedPage { inner: Arc::new(lock_new(granted)) })
    }

    /// The record of the page.
    pub fn record(&self) -> (rec: SharedPageInner)
        ensures
            rec == self@,
    {
        lock_read(&self.inner)
    }

    /// The address of the page.
    pub fn addr(&self) -> (a: PhysicalAddr)
        ensures
            a.0 == self@.addr,
    {
        PhysicalAddr::new(lock_read(&self.inner).addr)
    }

    /// One more owner of the same page.
    pub fn share(&self) -> (r: Self)
        ensures
            r@ == self@,
    {
        SharedPage { inner: arc_share(&self.inner) }
    }

    /// The number of owners at this moment.
    pub fn ref_count(&self) -> usize {
        arc_owners(&self.inner)
    }

    /// Releases the page as one of `count` owners, see [`shared_release`].
    pub fn release_counted(
        self,
        count: usize,
        table: &mut CapabilityTable,
        phys: &mut PhysicalAllocator,
    )
        requires
            old(table).wf(),
            old(phys).wf(),
        ensures
            final(table).wf(),
            final(phys).wf(),
            (final(table)@, final(phys)@) == shared_release(
                old(table)@,
                old(phys)@,
                self@,
                count,
            ),
    {
        if count == 1 {
            let rec = lock_read(&self.inner);
            let h: CapabilityHandle<access::ReadOnly> = CapabilityHandle::new(
                rec.handle.index,
                rec.handle.generation,
                rec.handle.scope,
                rec.handle.creation_order,
            );
            let _ = revoke_capability(table, &h);
            let _ = free_raw(phys, rec.owner_pid, rec.addr);
        }
    }

    /// Gives up this owner's share of the page. Whether this owner is the
    /// last one is read from the reference count: the outcome is that of
    /// [`SharedPage::release_counted`] with the count that was read.
    pub fn release(self, table: &mut CapabilityTable, phys: &mut PhysicalAllocator)
        requires
            old(table).wf(),
            old(phys).wf(),
        ensures
            final(table).wf(),
            final(phys).wf(),
            (final(table)@, final(phys)@) == (old(table)@, old(phys)@) || (
            final(table)@,
            final(phys)@,
        ) == shared_release(old(table)@, old(phys)@, self@, 1),
    {
        let count = arc_owners(&self.inner);
        self.release_counted(count, table, phys);
    }
}

} // verus!
