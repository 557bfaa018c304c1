//! Pages with an owner, on top of the physical allocator. A page is given
//! back by `release`, which takes the page by value.

use vstd::prelude::*;
use core::marker::PhantomData;
use super::physical::{alloc_raw, change_owner, free_raw, PhysView, PhysicalAllocator, MAX_PAGES};

verus! {

/// A physical page that a process owns.
#[derive(Debug)]
pub struct OwnedPage {
    addr: usize,
    pid: u32,
}

/// A page that is lent out for reading.
#[derive(Debug)]
pub struct BorrowedPage<'a> {
    addr: usize,
    _lifetime: PhantomData<&'a ()>,
}

impl OwnedPage {
    /// The base address of the page.
    pub closed spec fn spec_address(&self) -> usize {
        self.addr
    }

    /// The process that owns the page.
    pub closed spec fn spec_owner(&self) -> u32 {
        self.pid
    }

    /// Allocates a page for process `pid`: the free page with the lowest
    /// number; `None` where no page is free.
    pub fn allocate(phys: &mut PhysicalAllocator, pid: u32) -> (r: Option<Self>)
        requires
            old(phys).wf(),
        ensures
            final(phys).wf(),
            final(phys)@ == old(phys)@.allocation(pid).0,
            match r {
                Some(p) => old(phys)@.allocation(pid).1 == Some(p.spec_address()) && p.spec_owner()
                    == pid,
                None => old(phys)@.allocation(pid).1 is None,
            },
    {
        match alloc_raw(phys, pid) {
            Some(addr) => Some(OwnedPage { addr, pid }),
            None => None,
        }
    }

    #[verifier::when_used_as_spec(spec_address)]
    pub fn address(&self) -> (a: usize)
        ensures
            a == self.spec_address(),
    {
        self.addr
    }

    #[verifier::when_used_as_spec(spec_owner)]
    pub fn owner(&self) -> (p: u32)
        ensures
            p == self.spec_owner(),
    {
        self.pid
    }

    /// Hands the page to process `new_pid`. The allocator must know this
    /// page as one of the present owner.
    pub fn transfer_to(self, phys: &mut PhysicalAllocator, new_pid: u32) -> (r: Self)
        requires
            old(phys).wf(),
            self.spec_address() >= old(phys)@.base,
            old(phys)@.page_of(self.spec_address()) < MAX_PAGES,
            old(phys)@.owners[old(phys)@.page_of(self.spec_address())] == self.spec_owner(),
        ensures
            final(phys).wf(),
            final(phys)@ == (PhysView {
                owners: old(phys)@.owners.update(
                    old(phys)@.page_of(self.spec_address()),
                    new_pid,
                ),
                ..old(phys)@
            }),
            r.spec_address() == self.spec_address(),
            r.spec_owner() == new_pid,
    {
        proof {
            phys.lemma_wf_view();
        }
        let _ = change_owner(phys, self.addr, self.pid, new_pid);
        OwnedPage { addr: self.addr, pid: new_pid }
    }

    /// Lends the page out for reading.
    pub fn share(&self) -> (b: BorrowedPage<'_>)
        ensures
            b.spec_address() == self.spec_address(),
    {
        BorrowedPage { addr: self.addr, _lifetime: PhantomData }
    }

    /// Gives the page back to the allocator. Where the allocator does not
    /// know the page as one of this owner, nothing changes.
    pub fn release(self, phys: &mut PhysicalAllocator)
        requires
            old(phys).wf(),
        ensures
            final(phys).wf(),
            final(phys)@ == old(phys)@.release(self.spec_owner(), self.spec_address()),
    {
        let _ = free_raw(phys, self.pid, self.addr);
    }
}

impl<'a> BorrowedPage<'a> {
    /// The base address of the page.
    pub closed spec fn spec_address(&self) -> usize {
        self.addr
    }

    #[verifier::when_used_as_spec(spec_address)]
    pub fn address(&self) -> (a: usize)
        ensures
            a == self.spec_address(),
    {
        self.addr
    }
}

/// The allocator after each page of `pages` was given back, in order.
pub open spec fn released_all(v: PhysView, pages: Seq<OwnedPage>) -> PhysView
    decreases pages.len(),
{
    if pages.len() == 0 {
        v
    } else {
        released_all(v.release(pages[0].spec_owner(), pages[0].spec_address()), pages.drop_first())
    }
}

/// Pages of one owner.
#[derive(Debug)]
pub struct PageVec {
    pages: Vec<OwnedPage>,
    pid: u32,
}

impl View for PageVec {
    type V = Seq<OwnedPage>;

    closed spec fn view(&self) -> Seq<OwnedPage> {
        self.pages@
    }
}

impl PageVec {
    /// The process whose pages the vector holds.
    pub closed spec fn spec_owner(&self) -> u32 {
        self.pid
    }

    /// Every page of the vector belongs to the owner of the vector.
    pub open spec fn wf(&self) -> bool {
        forall|i: int| 0 <= i < self@.len() ==> (#[trigger] self@[i]).spec_owner() == self.spec_owner()
    }

    pub fn new(pid: u32) -> (v: Self)
        ensures
            v@.len() == 0,
            v.spec_owner() == pid,
            v.wf(),
    {
        PageVec { pages: Vec::new(), pid }
    }

    #[verifier::when_used_as_spec(spec_owner)]
    pub fn owner(&self) -> (p: u32)
        ensures
            p == self.spec_owner(),
    {
        self.pid
    }

    /// Appends a page of the vector's owner.
    pub fn push(&mut self, page: OwnedPage)
        requires
            page.spec_owner() == old(self).spec_owner(),
            old(self).wf(),
        ensures
            final(self)@ == old(self)@.push(page),
            final(self).spec_owner() == old(self).spec_owner(),
            final(self).wf(),
    {
        self.pages.push(page);
    }

    /// Takes the last page out.
    pub fn pop(&mut self) -> (r: Option<OwnedPage>)
        requires
            old(self).wf(),
        ensures
            final(self).spec_owner() == old(self).spec_owner(),
            final(self).wf(),
            match r {
                Some(p) => old(self)@.len() > 0 && p == old(self)@.last() && final(self)@ == old(
                    self,
                )@.drop_last() && p.spec_owner() == old(self).spec_owner(),
                None => old(self)@.len() == 0 && final(self)@ == old(self)@,
            },
    {
        self.pages.pop()
    }

    pub fn len(&self) -> (n: usize)
        ensures
            n == self@.len(),
    {
        self.pages.len()
    }

    pub fn get(&self, index: usize) -> (r: Option<&OwnedPage>)
        ensures
            match r {
                Some(p) => index < self@.len() && *p == self@[index as int],
                None => index >= self@.len(),
            },
    {
        if index < self.pages.len() {
            Some(&self.pages[index])
        } else {
            None
        }
    }

    /// Gives every page back to the allocator, the first page first.
    pub fn release_all(self, phys: &mut PhysicalAllocator)
        requires
            old(phys).wf(),
        ensures
            final(phys).wf(),
            final(phys)@ == released_all(old(phys)@, self@),
    {
        let mut pages = self.pages;
        let ghost all = pages@;
        let mut i: usize = 0;
        let n = pages.len();
        proof {
            assert(all.skip(0) == all);
        }
        while i < n
            invariant
                i <= n,
                n == pages@.len(),
                pages@ == all,
                phys.wf(),
                released_all(old(phys)@, all) == released_all(phys@, all.skip(i as int)),
            decreases n - i,
        {
            proof {
                assert(all.skip(i as int)[0] == all[i as int]);
                assert(all.skip(i as int).drop_first() == all.skip(i + 1));
            }
            let _ = free_raw(phys, pages[i].pid, pages[i].addr);
            i = i + 1;
        }
        proof {
            assert(all.skip(n as int).len() == 0);
        }
    }
}

} // verus!
