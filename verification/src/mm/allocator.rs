//! The allocator of a library operating system: pages one at a time, in
//! batches, in regions, in scopes and in pools.

use vstd::prelude::*;
use core::marker::PhantomData;
use super::ownership::{released_all, OwnedPage, PageVec};
use super::physical::{free_pages, PhysView, PhysicalAllocator, MAX_PAGES};
use crate::arch::PAGE_SIZE;

verus! {

/// Why an allocation failed.
#[derive(Debug, Clone, Copy, PartialEq, Eq, Structural)]
pub enum AllocError {
    /// No page is free.
    OutOfMemory,
    /// The size asked for is not valid.
    InvalidSize,
    /// The alignment asked for is not valid.
    InvalidAlignment,
}

impl AllocError {
    /// The error in words.
    pub fn message(&self) -> (m: &'static str)
        ensures
            m == match *self {
                AllocError::OutOfMemory => "Out of memory",
                AllocError::InvalidSize => "Invalid allocation size",
                AllocError::InvalidAlignment => "Invalid alignment",
            },
    {
        match self {
            AllocError::OutOfMemory => "Out of memory",
            AllocError::InvalidSize => "Invalid allocation size",
            AllocError::InvalidAlignment => "Invalid alignment",
        }
    }
}

/// What `n` allocations in a row for process `pid` give: the allocator
/// afterwards and the addresses of the pages, in the order of allocation.
/// The row ends early where no page is free.
pub open spec fn allocation_run(v: PhysView, pid: u32, n: nat) -> (PhysView, Seq<usize>)
    decreases n,
{
    if n == 0 {
        (v, Seq::empty())
    } else {
        match v.allocation(pid) {
            (w, Some(a)) => {
                let (x, rest) = allocation_run(w, pid, (n - 1) as nat);
                (x, seq![a] + rest)
            },
            (_, None) => (v, Seq::empty()),
        }
    }
}

/// The addresses of the pages of `pages`.
pub open spec fn addresses(pages: Seq<OwnedPage>) -> Seq<usize> {
    Seq::new(pages.len(), |i: int| pages[i].spec_address())
}

/// The allocator of one library operating system.
#[derive(Debug)]
pub struct Allocator<'libos> {
    pid: u32,
    _lifetime: PhantomData<&'libos ()>,
}

/// The state of memory in numbers.
#[derive(Debug, Clone, Copy)]
pub struct AllocatorStats {
    pub free_pages: usize,
    pub total_pages: usize,
    pub page_size: usize,
}

impl<'libos> Allocator<'libos> {
    /// The process that the allocator serves.
    pub closed spec fn spec_pid(&self) -> u32 {
        self.pid
    }

    /// An allocator for process `pid`.
    pub fn new(pid: u32) -> (a: Self)
        ensures
            a.spec_pid() == pid,
    {
        Allocator { pid, _lifetime: PhantomData }
    }

    #[verifier::when_used_as_spec(spec_pid)]
    pub fn pid(&self) -> (p: u32)
        ensures
            p == self.spec_pid(),
    {
        self.pid
    }

    /// Allocates one page: the free page with the lowest number.
    /// `OutOfMemory` where no page is free.
    pub fn alloc_page(&self, phys: &mut PhysicalAllocator) -> (r: Result<OwnedPage, AllocError>)
        requires
            old(phys).wf(),
        ensures
            final(phys).wf(),
            final(phys)@ == old(phys)@.allocation(self.spec_pid()).0,
            match r {
                Ok(p) => old(phys)@.allocation(self.spec_pid()).1 == Some(p.spec_address())
                    && p.spec_owner() == self.spec_pid(),
                Err(e) => e == AllocError::OutOfMemory && old(phys)@.exhausted(),
            },
    {
        match OwnedPage::allocate(phys, self.pid) {
            Some(p) => Ok(p),
            None => Err(AllocError::OutOfMemory),
        }
    }

    /// Allocates up to `count` pages, one after the other, and stops where
    /// no page is free.
    pub fn try_alloc_pages(&self, phys: &mut PhysicalAllocator, count: usize) -> (v: PageVec)
        requires
            old(phys).wf(),
        ensures
            final(phys).wf(),
            final(phys)@ == allocation_run(old(phys)@, self.spec_pid(), count as nat).0,
            addresses(v@) == allocation_run(old(phys)@, self.spec_pid(), count as nat).1,
            v.spec_owner() == self.spec_pid(),
            v.wf(),
            v@.len() <= count,
    {
        let mut vec = PageVec::new(self.pid);
        let ghost start = phys@;
        let mut i: usize = 0;
        proof {
            assert(addresses(vec@) =~= Seq::<usize>::empty());
            assert(Seq::<usize>::empty() + allocation_run(start, self.pid, count as nat).1
                =~= allocation_run(start, self.pid, count as nat).1);
        }
        while i < count
            invariant
                i <= count,
                phys.wf(),
                vec.wf(),
                start == old(phys)@,
                vec.spec_owner() == self.spec_pid(),
                vec@.len() == i,
                allocation_run(start, self.spec_pid(), count as nat).0 == allocation_run(
                    phys@,
                    self.spec_pid(),
                    (count - i) as nat,
                ).0,
                allocation_run(start, self.spec_pid(), count as nat).1 == addresses(vec@)
                    + allocation_run(phys@, self.spec_pid(), (count - i) as nat).1,
            decreases count - i,
        {
            let ghost before = phys@;
            let ghost acc = addresses(vec@);
            proof {
                let n = (count - i) as nat;
                assert(allocation_run(before, self.pid, n) == match before.allocation(self.pid) {
                    (w, Some(a)) => {
                        let (x, rest) = allocation_run(w, self.pid, (n - 1) as nat);
                        (x, seq![a] + rest)
                    },
                    (_, None) => (before, Seq::<usize>::empty()),
                });
            }
            match OwnedPage::allocate(phys, self.pid) {
                Some(page) => {
                    proof {
                        let rest = allocation_run(phys@, self.pid, (count - i - 1) as nat).1;
                        assert(addresses(vec@.push(page)) =~= acc.push(page.spec_address()));
                        assert(acc + (seq![page.spec_address()] + rest) =~= acc.push(
                            page.spec_address(),
                        ) + rest);
                    }
                    vec.push(page);
                },
                None => {
                    proof {
                        assert(acc + Seq::<usize>::empty() =~= acc);
                    }
                    return vec;
                },
            }
            i = i + 1;
        }
        proof {
            assert(addresses(vec@) + Seq::<usize>::empty() =~= addresses(vec@));
        }
        vec
    }

    /// Allocates exactly `count` pages. `InvalidSize` for a count of zero;
    /// `OutOfMemory` where fewer pages are free, and then every page that
    /// was taken is given back.
    pub fn alloc_pages(&self, phys: &mut PhysicalAllocator, count: usize) -> (r: Result<
        PageVec,
        AllocError,
    >)
        requires
            old(phys).wf(),
        ensures
            final(phys).wf(),
            match r {
                Ok(v) => {
                    &&& count > 0
                    &&& v@.len() == count
                    &&& v.wf()
                    &&& v.spec_owner() == self.spec_pid()
                    &&& final(phys)@ == allocation_run(old(phys)@, self.spec_pid(), count as nat).0
                    &&& addresses(v@) == allocation_run(
                        old(phys)@,
                        self.spec_pid(),
                        count as nat,
                    ).1
                },
                Err(e) => if count == 0 {
                    e == AllocError::InvalidSize && final(phys)@ == old(phys)@
                } else {
                    &&& e == AllocError::OutOfMemory
                    &&& allocation_run(old(phys)@, self.spec_pid(), count as nat).1.len() < count
                    &&& exists|taken: Seq<OwnedPage>|
                        addresses(taken) == allocation_run(
                            old(phys)@,
                            self.spec_pid(),
                            count as nat,
                        ).1 && final(phys)@ == released_all(
                            allocation_run(old(phys)@, self.spec_pid(), count as nat).0,
                            taken,
                        ) && forall|i: int|
                            0 <= i < taken.len() ==> (#[trigger] taken[i]).spec_owner()
                                == self.spec_pid()
                },
            },
    {
        if count == 0 {
            return Err(AllocError::InvalidSize);
        }
        let vec = self.try_alloc_pages(phys, count);
        if vec.len() < count {
            proof {
                assert(addresses(vec@).len() == vec@.len());
            }
            vec.release_all(phys);
            return Err(AllocError::OutOfMemory);
        }
        proof {
            assert(addresses(vec@).len() == vec@.len());
        }
        Ok(vec)
    }

    /// The state of memory in numbers.
    pub fn stats(&self, phys: &PhysicalAllocator) -> (st: AllocatorStats)
        ensures
            st.free_pages == phys@.free_pages,
            st.total_pages == MAX_PAGES,
            st.page_size == PAGE_SIZE,
    {
        AllocatorStats { free_pages: free_pages(phys), total_pages: MAX_PAGES, page_size: PAGE_SIZE }
    }
}

impl AllocatorStats {
    /// The free memory in bytes.
    pub fn free_memory(&self) -> (m: usize)
        requires
            self.free_pages * self.page_size <= usize::MAX,
        ensures
            m == self.free_pages * self.page_size,
    {
        self.free_pages * self.page_size
    }

    /// All memory in bytes.
    pub fn total_memory(&self) -> (m: usize)
        requires
            self.total_pages * self.page_size <= usize::MAX,
        ensures
            m == self.total_pages * self.page_size,
    {
        self.total_pages * self.page_size
    }

    /// The memory in use in bytes.
    pub fn used_memory(&self) -> (m: usize)
        requires
            self.free_pages <= self.total_pages,
            self.total_pages * self.page_size <= usize::MAX,
        ensures
            m == (self.total_pages - self.free_pages) * self.page_size,
    {
        proof {
            assert(self.free_pages * self.page_size <= self.total_pages * self.page_size)
                by (nonlinear_arith)
                requires
                    self.free_pages <= self.total_pages,
            ;
            assert((self.total_pages - self.free_pages) * self.page_size == self.total_pages
                * self.page_size - self.free_pages * self.page_size) by (nonlinear_arith);
        }
        self.total_memory() - self.free_memory()
    }
}

/// A run of pages with the address of its first page.
#[derive(Debug)]
pub struct PageRegion {
    pages: PageVec,
    base_addr: usize,
}

impl PageRegion {
    /// The pages of the region.
    pub closed spec fn pages(&self) -> Seq<OwnedPage> {
        self.pages@
    }

    /// The address of the first page.
    pub closed spec fn spec_base(&self) -> usize {
        self.base_addr
    }

    /// The region of the pages of `pages`; `None` for no pages.
    pub fn from_pages(pages: PageVec) -> (r: Option<Self>)
        ensures
            match r {
                Some(reg) => pages@.len() > 0 && reg.pages() == pages@ && reg.spec_base()
                    == pages@[0].spec_address(),
                None => pages@.len() == 0,
            },
    {
        if pages.len() == 0 {
            return None;
        }
        let base_addr = match pages.get(0) {
            Some(p) => p.address(),
            None => {
                return None;
            },
        };
        Some(PageRegion { pages, base_addr })
    }

    #[verifier::when_used_as_spec(spec_base)]
    pub fn base_address(&self) -> (a: usize)
        ensures
            a == self.spec_base(),
    {
        self.base_addr
    }

    /// The size of the region in bytes.
    pub fn size(&self) -> (n: usize)
        requires
            self.pages().len() * PAGE_SIZE <= usize::MAX,
        ensures
            n == self.pages().len() * PAGE_SIZE,
    {
        self.pages.len() * PAGE_SIZE
    }

    pub fn page_count(&self) -> (n: usize)
        ensures
            n == self.pages().len(),
    {
        self.pages.len()
    }

    pub fn get_page(&self, index: usize) -> (r: Option<&OwnedPage>)
        ensures
            match r {
                Some(p) => index < self.pages().len() && *p == self.pages()[index as int],
                None => index >= self.pages().len(),
            },
    {
        self.pages.get(index)
    }

    /// Gives every page of the region back to the allocator.
    pub fn release(self, phys: &mut PhysicalAllocator)
        requires
            old(phys).wf(),
        ensures
            final(phys).wf(),
            final(phys)@ == released_all(old(phys)@, self.pages()),
    {
        self.pages.release_all(phys);
    }
}

/// Pages that are set aside when the scope begins and given back when it ends.
#[derive(Debug)]
pub struct AllocationScope {
    allocator: Allocator<'static>,
    reserved: PageVec,
}

impl AllocationScope {
    /// The pages that are still set aside.
    pub closed spec fn reserved(&self) -> Seq<OwnedPage> {
        self.reserved@
    }

    /// The process that the scope serves.
    pub closed spec fn spec_pid(&self) -> u32 {
        self.allocator.spec_pid()
    }

    /// Every page set aside belongs to the process of the scope.
    pub closed spec fn wf(&self) -> bool {
        self.reserved.wf() && self.reserved.spec_owner() == self.allocator.spec_pid()
    }

    /// What `wf` says of the pages set aside.
    pub proof fn lemma_wf(&self)
        requires
            self.wf(),
        ensures
            forall|i: int|
                0 <= i < self.reserved().len() ==> (#[trigger] self.reserved()[i]).spec_owner()
                    == self.spec_pid(),
    {
    }

    /// Sets aside up to `reserve_count` pages for process `pid`.
    /// `OutOfMemory` where not even one page is free.
    pub fn new(phys: &mut PhysicalAllocator, pid: u32, reserve_count: usize) -> (r: Result<
        Self,
        AllocError,
    >)
        requires
            old(phys).wf(),
        ensures
            final(phys).wf(),
            final(phys)@ == allocation_run(old(phys)@, pid, reserve_count as nat).0,
            match r {
                Ok(s) => s.wf() && s.spec_pid() == pid && s.reserved().len() > 0 && addresses(
                    s.reserved(),
                ) == allocation_run(old(phys)@, pid, reserve_count as nat).1,
                Err(e) => e == AllocError::OutOfMemory && allocation_run(
                    old(phys)@,
                    pid,
                    reserve_count as nat,
                ).1.len() == 0,
            },
    {
        let allocator = Allocator::new(pid);
        let reserved = allocator.try_alloc_pages(phys, reserve_count);
        proof {
            assert(addresses(reserved@).len() == reserved@.len());
        }
        if reserved.len() == 0 {
            return Err(AllocError::OutOfMemory);
        }
        Ok(AllocationScope { allocator, reserved })
    }

    /// Takes one page out of the scope: the one that was set aside last.
    pub fn take_page(&mut self) -> (r: Option<OwnedPage>)
        requires
            old(self).wf(),
        ensures
            final(self).wf(),
            final(self).spec_pid() == old(self).spec_pid(),
            match r {
                Some(p) => old(self).reserved().len() > 0 && p == old(self).reserved().last()
                    && final(self).reserved() == old(self).reserved().drop_last()
                    && p.spec_owner() == old(self).spec_pid(),
                None => old(self).reserved().len() == 0 && final(self).reserved() == old(
                    self,
                ).reserved(),
            },
    {
        self.reserved.pop()
    }

    /// The number of pages that are still set aside.
    pub fn remaining(&self) -> (n: usize)
        ensures
            n == self.reserved().len(),
    {
        self.reserved.len()
    }

    /// Ends the scope: every page that is still set aside is given back.
    pub fn release(self, phys: &mut PhysicalAllocator)
        requires
            old(phys).wf(),
        ensures
            final(phys).wf(),
            final(phys)@ == released_all(old(phys)@, self.reserved()),
    {
        self.reserved.release_all(phys);
    }
}

/// A pool that keeps pages which were given back, up to a limit, for the
/// next request.
#[derive(Debug)]
pub struct PagePool {
    allocator: Allocator<'static>,
    cache: PageVec,
    max_cache_size: usize,
}

impl PagePool {
    /// The pages that the pool keeps.
    pub closed spec fn cached(&self) -> Seq<OwnedPage> {
        self.cache@
    }

    /// The most pages that the pool keeps.
    pub closed spec fn limit(&self) -> usize {
        self.max_cache_size
    }

    /// The process that the pool serves.
    pub closed spec fn spec_pid(&self) -> u32 {
        self.allocator.spec_pid()
    }

    /// Every page kept belongs to the process of the pool.
    pub closed spec fn wf(&self) -> bool {
        self.cache.wf() && self.cache.spec_owner() == self.allocator.spec_pid()
    }

    /// What `wf` says of the pages kept.
    pub proof fn lemma_wf(&self)
        requires
            self.wf(),
        ensures
            forall|i: int|
                0 <= i < self.cached().len() ==> (#[trigger] self.cached()[i]).spec_owner()
                    == self.spec_pid(),
    {
    }

    /// An empty pool for process `pid` that keeps at most `max_cache_size` pages.
    pub fn new(pid: u32, max_cache_size: usize) -> (p: Self)
        ensures
            p.wf(),
            p.spec_pid() == pid,
            p.limit() == max_cache_size,
            p.cached().len() == 0,
    {
        PagePool { allocator: Allocator::new(pid), cache: PageVec::new(pid), max_cache_size }
    }

    /// A page from the pool: the one kept last, or a fresh one where the
    /// pool keeps none. `OutOfMemory` where neither can be had.
    pub fn acquire(&mut self, phys: &mut PhysicalAllocator) -> (r: Result<OwnedPage, AllocError>)
        requires
            old(self).wf(),
            old(phys).wf(),
        ensures
            final(self).wf(),
            final(phys).wf(),
            final(self).spec_pid() == old(self).spec_pid(),
            final(self).limit() == old(self).limit(),
            r matches Ok(p) ==> p.spec_owner() == old(self).spec_pid(),
            if old(self).cached().len() > 0 {
                &&& r == Ok::<OwnedPage, AllocError>(old(self).cached().last())
                &&& final(self).cached() == old(self).cached().drop_last()
                &&& final(phys)@ == old(phys)@
            } else {
                &&& final(self).cached() == old(self).cached()
                &&& final(phys)@ == old(phys)@.allocation(old(self).spec_pid()).0
                &&& match r {
                    Ok(p) => old(phys)@.allocation(old(self).spec_pid()).1 == Some(
                        p.spec_address(),
                    ) && p.spec_owner() == old(self).spec_pid(),
                    Err(e) => e == AllocError::OutOfMemory && old(phys)@.exhausted(),
                }
            },
    {
        match self.cache.pop() {
            Some(page) => {
                return Ok(page);
            },
            None => {},
        }
        self.allocator.alloc_page(phys)
    }

    /// Takes a page of the pool's process back: it is kept where the pool is
    /// below its limit, and given back to the allocator otherwise.
    pub fn release(&mut self, phys: &mut PhysicalAllocator, page: OwnedPage)
        requires
            old(self).wf(),
            old(phys).wf(),
            old(self).cached().len() < old(self).limit() ==> page.spec_owner() == old(
                self,
            ).spec_pid(),
        ensures
            final(self).wf(),
            final(phys).wf(),
            final(self).spec_pid() == old(self).spec_pid(),
            final(self).limit() == old(self).limit(),
            if old(self).cached().len() < old(self).limit() {
                final(self).cached() == old(self).cached().push(page) && final(phys)@ == old(
                    phys,
                )@
            } else {
                final(self).cached() == old(self).cached() && final(phys)@ == old(phys)@.release(
                    page.spec_owner(),
                    page.spec_address(),
                )
            },
    {
        if self.cache.len() < self.max_cache_size {
            self.cache.push(page);
        } else {
            page.release(phys);
        }
    }

    /// Gives every page that the pool keeps back to the allocator.
    pub fn clear_cache(&mut self, phys: &mut PhysicalAllocator)
        requires
            old(self).wf(),
            old(phys).wf(),
        ensures
            final(self).wf(),
            final(phys).wf(),
            final(self).spec_pid() == old(self).spec_pid(),
            final(self).limit() == old(self).limit(),
            final(self).cached().len() == 0,
            final(phys)@ == released_all(old(phys)@, old(self).cached()),
    {
        let mut fresh = PageVec::new(self.allocator.pid());
        core::mem::swap(&mut self.cache, &mut fresh);
        fresh.release_all(phys);
    }

    /// The number of pages kept and the limit.
    pub fn cache_stats(&self) -> (r: (usize, usize))
        ensures
            r == (self.cached().len() as usize, self.limit()),
    {
        (self.cache.len(), self.max_cache_size)
    }
}

} // verus!
