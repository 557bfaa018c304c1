//! The physical page allocator: a fixed-capacity bitmap over one contiguous
//! region, with the owning process recorded per page.

use vstd::prelude::*;
use crate::arch::PAGE_SIZE;

verus! {

/// The most pages that the allocator manages.
pub const MAX_PAGES: usize = 65536;

/// The number of 64-bit words in the bitmap.
pub const BITMAP_SIZE: usize = 1024;

/// Whether bit `bit` of `word` is set.
pub open spec fn bit_set(word: u64, bit: u64) -> bool {
    word & (1u64 << bit) != 0
}

proof fn lemma_bit_after_set(word: u64, b: u64, c: u64)
    requires
        b < 64,
        c < 64,
    ensures
        bit_set(word | (1u64 << b), c) == (c == b || bit_set(word, c)),
{
    assert((word | (1u64 << b)) & (1u64 << c) != 0 <==> (c == b || word & (1u64 << c) != 0))
        by (bit_vector)
        requires
            b < 64,
            c < 64,
    ;
}

proof fn lemma_bit_after_clear(word: u64, b: u64, c: u64)
    requires
        b < 64,
        c < 64,
    ensures
        bit_set(word & !(1u64 << b), c) == (c != b && bit_set(word, c)),
{
    assert((word & !(1u64 << b)) & (1u64 << c) != 0 <==> (c != b && word & (1u64 << c) != 0))
        by (bit_vector)
        requires
            b < 64,
            c < 64,
    ;
}

proof fn lemma_full_word(c: u64)
    requires
        c < 64,
    ensures
        bit_set(u64::MAX, c),
{
    assert(0xffff_ffff_ffff_ffffu64 & (1u64 << c) != 0) by (bit_vector)
        requires
            c < 64,
    ;
}

proof fn lemma_empty_word(c: u64)
    requires
        c < 64,
    ensures
        !bit_set(0, c),
{
    assert(0u64 & (1u64 << c) == 0) by (bit_vector);
}

/// The allocator as plain values.
pub struct PhysView {
    /// The address of the first page.
    pub base: usize,
    /// The number of pages of the region.
    pub total_pages: usize,
    /// The counter of free pages.
    pub free_pages: usize,
    /// For each page number below `MAX_PAGES`, whether the page is in use.
    pub used: Seq<bool>,
    /// For each page number below `MAX_PAGES`, the owning process; 0 for none.
    pub owners: Seq<u32>,
}

impl PhysView {
    /// The tables cover `MAX_PAGES` pages, the region has at most as many,
    /// and every page of it can be addressed.
    pub open spec fn wf(self) -> bool {
        &&& self.used.len() == MAX_PAGES
        &&& self.owners.len() == MAX_PAGES
        &&& self.total_pages <= MAX_PAGES
        &&& self.base + self.total_pages * PAGE_SIZE <= usize::MAX
    }

    /// The number of free pages among the first `n`.
    pub open spec fn free_count(self, n: int) -> int
        decreases n,
    {
        if n <= 0 {
            0
        } else {
            self.free_count(n - 1) + if self.used[n - 1] {
                0int
            } else {
                1int
            }
        }
    }

    /// The counter of free pages is the number of free pages of the region,
    /// and no free page has an owner.
    pub open spec fn accounted(self) -> bool {
        &&& self.free_pages == self.free_count(self.total_pages as int)
        &&& forall|i: int| 0 <= i < self.total_pages && !self.used[i] ==> self.owners[i] == 0
    }

    /// Whether `addr` lies in a page of the region.
    pub open spec fn in_region(self, addr: usize) -> bool {
        addr >= self.base && (addr - self.base) / (PAGE_SIZE as int) < self.total_pages
    }

    /// The number of the page that holds `addr`, for `addr >= base`.
    pub open spec fn page_of(self, addr: usize) -> int {
        (addr - self.base) / (PAGE_SIZE as int)
    }

    /// The base address of page `i`.
    pub open spec fn addr_of(self, i: int) -> int {
        self.base + i * PAGE_SIZE
    }

    /// Whether page `i` is the free page of the region with the lowest number.
    pub open spec fn is_lowest_free(self, i: int) -> bool {
        &&& 0 <= i < self.total_pages
        &&& !self.used[i]
        &&& forall|j: int| 0 <= j < i ==> self.used[j]
    }

    /// Whether no page of the region is free.
    pub open spec fn exhausted(self) -> bool {
        forall|j: int| 0 <= j < self.total_pages ==> self.used[j]
    }

    /// The state after page `i` went to process `pid`.
    pub open spec fn after_alloc(self, i: int, pid: u32) -> PhysView {
        PhysView {
            free_pages: self.free_pages.wrapping_sub(1),
            used: self.used.update(i, true),
            owners: self.owners.update(i, pid),
            ..self
        }
    }

    /// The number of the free page of the region with the lowest number.
    pub open spec fn lowest_free(self) -> int {
        choose|i: int| self.is_lowest_free(i)
    }

    /// Allocation for process `pid`: the free page with the lowest number
    /// goes to `pid`, and its base address is the result; no change and no
    /// result where no page of the region is free.
    pub open spec fn allocation(self, pid: u32) -> (PhysView, Option<usize>) {
        if self.exhausted() {
            (self, None)
        } else {
            (
                self.after_alloc(self.lowest_free(), pid),
                Some(self.addr_of(self.lowest_free()) as usize),
            )
        }
    }

    /// Whether process `pid` may give back the page that holds `addr`.
    pub open spec fn may_free(self, pid: u32, addr: usize) -> bool {
        self.in_region(addr) && self.owners[self.page_of(addr)] == pid
    }

    /// Giving back the page that holds `addr` by process `pid`: the page
    /// becomes free and without owner, where `pid` may give it back.
    pub open spec fn release(self, pid: u32, addr: usize) -> PhysView {
        if self.may_free(pid, addr) {
            self.after_free(self.page_of(addr))
        } else {
            self
        }
    }

    /// The state after page `i` was given back.
    pub open spec fn after_free(self, i: int) -> PhysView {
        PhysView {
            free_pages: self.free_pages.wrapping_add(1),
            used: self.used.update(i, false),
            owners: self.owners.update(i, 0),
            ..self
        }
    }
}

/// The message of [`free_raw`] for an address below the region.
pub open spec fn invalid_address() -> &'static str {
    "Invalid address"
}

/// The message of [`free_raw`] for an address beyond the last page.
pub open spec fn out_of_range() -> &'static str {
    "Page index out of range"
}

/// The message of [`free_raw`] for a page of another owner.
pub open spec fn permission_denied() -> &'static str {
    "Permission denied"
}

/// The message of [`change_owner`] for a page of another owner.
pub open spec fn owner_mismatch() -> &'static str {
    "Owner mismatch"
}

/// The bitmap allocator.
pub struct PhysicalAllocator {
    base: usize,
    total_pages: usize,
    free_pages: usize,
    bitmap: Vec<u64>,
    owners: Vec<u32>,
}

impl View for PhysicalAllocator {
    type V = PhysView;

    closed spec fn view(&self) -> PhysView {
        PhysView {
            base: self.base,
            total_pages: self.total_pages,
            free_pages: self.free_pages,
            used: Seq::new(
                MAX_PAGES as nat,
                |i: int| bit_set(self.bitmap@[i / 64], (i % 64) as u64),
            ),
            owners: self.owners@,
        }
    }
}

impl PhysicalAllocator {
    /// The allocator is well formed: the region has at most `MAX_PAGES` pages,
    /// all of them addressable, and the tables have their fixed sizes.
    pub closed spec fn wf(&self) -> bool {
        &&& self.bitmap@.len() == BITMAP_SIZE
        &&& self.owners@.len() == MAX_PAGES
        &&& self.total_pages <= MAX_PAGES
        &&& self.base + self.total_pages * PAGE_SIZE <= usize::MAX
    }

    /// What `wf` says of the view.
    pub proof fn lemma_wf_view(&self)
        requires
            self.wf(),
        ensures
            self@.wf(),
            self@.used.len() == MAX_PAGES,
            self@.owners.len() == MAX_PAGES,
            self@.total_pages <= MAX_PAGES,
            self@.base + self@.total_pages * PAGE_SIZE <= usize::MAX,
    {
    }

    /// An allocator without any page.
    pub fn empty() -> (r: Self)
        ensures
            r.wf(),
            r@.base == 0,
            r@.total_pages == 0,
            r@.free_pages == 0,
            forall|i: int| 0 <= i < MAX_PAGES ==> !r@.used[i] && r@.owners[i] == 0,
    {
        let mut r = PhysicalAllocator {
            base: 0,
            total_pages: 0,
            free_pages: 0,
            bitmap: Vec::new(),
            owners: Vec::new(),
        };
        r.reset_tables();
        r
    }

    /// Sets every bitmap word and every owner to zero.
    fn reset_tables(&mut self)
        ensures
            final(self).bitmap@.len() == BITMAP_SIZE,
            final(self).owners@.len() == MAX_PAGES,
            forall|i: int| 0 <= i < BITMAP_SIZE ==> final(self).bitmap@[i] == 0,
            forall|i: int| 0 <= i < MAX_PAGES ==> final(self).owners@[i] == 0,
            forall|i: int| 0 <= i < MAX_PAGES ==> !final(self)@.used[i],
            final(self).base == old(self).base,
            final(self).total_pages == old(self).total_pages,
            final(self).free_pages == old(self).free_pages,
    {
        let mut bitmap: Vec<u64> = Vec::new();
        let mut i: usize = 0;
        while i < BITMAP_SIZE
            invariant
                i <= BITMAP_SIZE,
                bitmap@.len() == i,
                forall|j: int| 0 <= j < i ==> bitmap@[j] == 0,
            decreases BITMAP_SIZE - i,
        {
            bitmap.push(0);
            i = i + 1;
        }
        let mut owners: Vec<u32> = Vec::new();
        let mut k: usize = 0;
        while k < MAX_PAGES
            invariant
                k <= MAX_PAGES,
                owners@.len() == k,
                forall|j: int| 0 <= j < k ==> owners@[j] == 0,
            decreases MAX_PAGES - k,
        {
            owners.push(0);
            k = k + 1;
        }
        self.bitmap = bitmap;
        self.owners = owners;
        proof {
            assert forall|p: int| 0 <= p < MAX_PAGES implies !self@.used[p] by {
                lemma_empty_word((p % 64) as u64);
            }
        }
    }
}

/// The number of pages that a region of `size` bytes gives the allocator.
pub open spec fn pages_of(size: usize) -> int {
    if size / PAGE_SIZE < MAX_PAGES {
        (size / PAGE_SIZE) as int
    } else {
        MAX_PAGES as int
    }
}

/// Takes over the region of `size` bytes at `base`: at most `MAX_PAGES` whole
/// pages of it, all free and without owner.
pub fn init(alloc: &mut PhysicalAllocator, base: usize, size: usize)
    requires
        base + pages_of(size) * PAGE_SIZE <= usize::MAX,
    ensures
        final(alloc).wf(),
        final(alloc)@.base == base,
        final(alloc)@.total_pages == pages_of(size),
        final(alloc)@.free_pages == pages_of(size),
        forall|i: int| 0 <= i < MAX_PAGES ==> !final(alloc)@.used[i] && final(alloc)@.owners[i] == 0,
{
    let pages = size / PAGE_SIZE;
    alloc.base = base;
    alloc.total_pages = if pages < MAX_PAGES {
        pages
    } else {
        MAX_PAGES
    };
    alloc.free_pages = alloc.total_pages;
    alloc.reset_tables();
}

/// Gives the free page with the lowest number to process `pid` and returns
/// its base address; `None`, and no change, where no page of the region is free.
pub fn alloc_raw(alloc: &mut PhysicalAllocator, pid: u32) -> (r: Option<usize>)
    requires
        old(alloc).wf(),
    ensures
        final(alloc).wf(),
        (final(alloc)@, r) == old(alloc)@.allocation(pid),
        r matches Some(addr) ==> old(alloc)@.is_lowest_free(old(alloc)@.lowest_free()) && addr
            == old(alloc)@.addr_of(old(alloc)@.lowest_free()),
        r is None <==> old(alloc)@.exhausted(),
{
    let mut word_idx: usize = 0;
    while word_idx < BITMAP_SIZE
        invariant
            word_idx <= BITMAP_SIZE,
            alloc.wf(),
            *alloc == *old(alloc),
            forall|j: int| 0 <= j < word_idx * 64 ==> alloc@.used[j],
        decreases BITMAP_SIZE - word_idx,
    {
        let word = alloc.bitmap[word_idx];
        if word != u64::MAX {
            let mut bit: usize = 0;
            while bit < 64
                invariant
                    bit <= 64,
                    word_idx < BITMAP_SIZE,
                    alloc.wf(),
                    *alloc == *old(alloc),
                    word == alloc.bitmap@[word_idx as int],
                    forall|j: int| 0 <= j < word_idx * 64 + bit ==> alloc@.used[j],
                decreases 64 - bit,
            {
                if (word & (1u64 << bit)) == 0 {
                    let page_idx = word_idx * 64 + bit;
                    assert(!alloc@.used[page_idx as int]);
                    if page_idx >= alloc.total_pages {
                        proof {
                            assert forall|j: int| 0 <= j < alloc@.total_pages implies alloc@.used[j] by {}
                        }
                        return None;
                    }
                    let ghost before = alloc@;
                    alloc.bitmap[word_idx] = word | (1u64 << bit);
                    alloc.owners[page_idx] = pid;
                    alloc.free_pages = alloc.free_pages.wrapping_sub(1);
                    proof {
                        assert(before.is_lowest_free(page_idx as int));
                        lemma_lowest_free(before, page_idx as int);
                        assert(alloc@.used =~= before.used.update(page_idx as int, true)) by {
                            assert forall|p: int| 0 <= p < MAX_PAGES implies alloc@.used[p]
                                == before.used.update(page_idx as int, true)[p] by {
                                if p / 64 == word_idx as int {
                                    lemma_bit_after_set(word, bit as u64, (p % 64) as u64);
                                }
                            }
                        }
                        assert(alloc@ == before.after_alloc(page_idx as int, pid));
                        assert(page_idx * PAGE_SIZE <= alloc.total_pages * PAGE_SIZE)
                            by (nonlinear_arith)
                            requires
                                page_idx <= alloc.total_pages,
                        ;
                    }
                    return Some(alloc.base + page_idx * PAGE_SIZE);
                }
                bit = bit + 1;
            }
        } else {
            proof {
                assert forall|j: int| word_idx * 64 <= j < word_idx * 64 + 64 implies alloc@.used[j] by {
                    lemma_full_word((j % 64) as u64);
                }
            }
        }
        word_idx = word_idx + 1;
    }
    None
}

/// The region has at most one lowest free page.
pub proof fn lemma_lowest_free(v: PhysView, i: int)
    requires
        v.is_lowest_free(i),
    ensures
        v.lowest_free() == i,
        !v.exhausted(),
{
    let j = v.lowest_free();
    assert(v.is_lowest_free(j));
    if j < i {
        assert(v.used[j]);
    }
    if i < j {
        assert(v.used[i]);
    }
}

/// Gives the page that holds `addr` back, where process `pid` owns it:
/// the page becomes free and without owner. Fails, without any change, where
/// `addr` lies below the region, beyond its last page, or in a page of
/// another owner.
pub fn free_raw(alloc: &mut PhysicalAllocator, pid: u32, addr: usize) -> (r: Result<
    (),
    &'static str,
>)
    requires
        old(alloc).wf(),
    ensures
        final(alloc).wf(),
        final(alloc)@ == old(alloc)@.release(pid, addr),
        match r {
            Ok(_) => old(alloc)@.may_free(pid, addr),
            Err(e) => {
                &&& !old(alloc)@.may_free(pid, addr)
                &&& if addr < old(alloc)@.base {
                    e == invalid_address()
                } else if !old(alloc)@.in_region(addr) {
                    e == out_of_range()
                } else {
                    e == permission_denied() && old(alloc)@.owners[old(alloc)@.page_of(addr)]
                        != pid
                }
            },
        },
{
    if addr < alloc.base {
        return Err("Invalid address");
    }
    let page_idx = (addr - alloc.base) / PAGE_SIZE;
    if page_idx >= alloc.total_pages {
        return Err("Page index out of range");
    }
    let owner = alloc.owners[page_idx];
    if owner != pid {
        return Err("Permission denied");
    }
    let ghost before = alloc@;
    alloc.owners[page_idx] = 0;
    let word_idx = page_idx / 64;
    let bit = page_idx % 64;
    let word = alloc.bitmap[word_idx];
    alloc.bitmap[word_idx] = word & !(1u64 << bit);
    alloc.free_pages = alloc.free_pages.wrapping_add(1);
    proof {
        assert(alloc@.used =~= before.used.update(page_idx as int, false)) by {
            assert forall|p: int| 0 <= p < MAX_PAGES implies alloc@.used[p] == before.used.update(
                page_idx as int,
                false,
            )[p] by {
                if p / 64 == word_idx as int {
                    lemma_bit_after_clear(word, bit as u64, (p % 64) as u64);
                }
            }
        }
        assert(alloc@ == before.after_free(page_idx as int));
    }
    Ok(())
}

/// Hands the page that holds `addr` from process `old_pid` to process
/// `new_pid`; fails, without any change, where `old_pid` does not own it.
pub fn change_owner(alloc: &mut PhysicalAllocator, addr: usize, old_pid: u32, new_pid: u32) -> (r:
    Result<(), &'static str>)
    requires
        old(alloc).wf(),
        addr >= old(alloc)@.base,
        old(alloc)@.page_of(addr) < MAX_PAGES,
    ensures
        final(alloc).wf(),
        match r {
            Ok(_) => {
                &&& old(alloc)@.owners[old(alloc)@.page_of(addr)] == old_pid
                &&& final(alloc)@ == (PhysView {
                    owners: old(alloc)@.owners.update(old(alloc)@.page_of(addr), new_pid),
                    ..old(alloc)@
                })
            },
            Err(e) => {
                &&& e == owner_mismatch()
                &&& old(alloc)@.owners[old(alloc)@.page_of(addr)] != old_pid
                &&& final(alloc)@ == old(alloc)@
            },
        },
{
    let page_idx = (addr - alloc.base) / PAGE_SIZE;
    if alloc.owners[page_idx] == old_pid {
        alloc.owners[page_idx] = new_pid;
        Ok(())
    } else {
        Err("Owner mismatch")
    }
}

/// The counter of free pages.
pub fn free_pages(alloc: &PhysicalAllocator) -> (n: usize)
    ensures
        n == alloc@.free_pages,
{
    alloc.free_pages
}

/// A region with a free page has a lowest free page.
pub proof fn lemma_lowest_exists(v: PhysView, j: int)
    requires
        0 <= j < v.total_pages,
        !v.used[j],
    ensures
        v.is_lowest_free(v.lowest_free()),
        0 <= v.lowest_free() <= j,
    decreases j,
{
    if forall|k: int| 0 <= k < j ==> v.used[k] {
        assert(v.is_lowest_free(j));
        lemma_lowest_free(v, j);
    } else {
        let k = choose|k: int| 0 <= k < j && !v.used[k];
        lemma_lowest_exists(v, k);
    }
}

/// The number of free pages among the first `n` lies between 0 and `n`, and
/// is 0 exactly where none of them is free.
pub proof fn lemma_free_count(v: PhysView, n: int)
    requires
        0 <= n,
    ensures
        0 <= v.free_count(n) <= n,
        v.free_count(n) == 0 <==> forall|j: int| 0 <= j < n ==> v.used[j],
    decreases n,
{
    if n > 0 {
        lemma_free_count(v, n - 1);
        if v.free_count(n) == 0 {
            assert forall|j: int| 0 <= j < n implies v.used[j] by {
                if j < n - 1 {
                }
            }
        }
    }
}

/// What a change of one page does to the number of free pages.
pub proof fn lemma_free_count_update(v: PhysView, i: int, b: bool, n: int)
    requires
        0 <= i < v.used.len(),
        0 <= n <= v.used.len(),
    ensures
        (PhysView { used: v.used.update(i, b), ..v }).free_count(n) == v.free_count(n) + (if i < n
            && v.used[i] && !b {
            1int
        } else if i < n && !v.used[i] && b {
            -1int
        } else {
            0int
        }),
    decreases n,
{
    if n > 0 {
        lemma_free_count_update(v, i, b, n - 1);
    }
}

/// The number of free pages does not depend on the counter or the owners.
proof fn lemma_free_count_same(v: PhysView, w: PhysView, n: int)
    requires
        v.used == w.used,
    ensures
        v.free_count(n) == w.free_count(n),
    decreases n,
{
    if n > 0 {
        lemma_free_count_same(v, w, n - 1);
    }
}

/// Page `i` of the region is the page that holds its base address.
pub proof fn lemma_page_of_addr(v: PhysView, i: int)
    requires
        v.wf(),
        0 <= i < v.total_pages,
    ensures
        v.base <= v.addr_of(i) <= usize::MAX,
        v.in_region(v.addr_of(i) as usize),
        v.page_of(v.addr_of(i) as usize) == i,
{
    assert(i * PAGE_SIZE <= v.total_pages * PAGE_SIZE) by (nonlinear_arith)
        requires
            0 <= i < v.total_pages,
    ;
}

/// `alloc → free`: a page that is given back at once leaves the allocator
/// with the pages in use and the counter of free pages that it had.
pub proof fn law_alloc_release(v: PhysView, pid: u32)
    requires
        v.wf(),
        !v.exhausted(),
    ensures
        v.allocation(pid).1 is Some,
        v.allocation(pid).0.may_free(pid, v.allocation(pid).1->0),
        v.allocation(pid).0.release(pid, v.allocation(pid).1->0).used == v.used,
        v.allocation(pid).0.release(pid, v.allocation(pid).1->0).free_pages == v.free_pages,
        v.allocation(pid).0.free_pages == v.free_pages.wrapping_sub(1),
{
    let j = choose|j: int| 0 <= j < v.total_pages && !v.used[j];
    lemma_lowest_exists(v, j);
    let i = v.lowest_free();
    lemma_page_of_addr(v, i);
    let w = v.allocation(pid).0;
    let a = v.allocation(pid).1->0;
    assert(w.page_of(a) == i);
    let r = w.release(pid, a);
    assert(r.used =~= v.used);
}

/// Accounting: allocation keeps the counter of free pages equal to the
/// number of free pages, and so does the release of a page by a process
/// other than 0. While that holds, the allocator is exhausted exactly where
/// the counter is 0.
pub proof fn law_accounting(v: PhysView, pid: u32, addr: usize)
    requires
        v.wf(),
        v.accounted(),
    ensures
        v.allocation(pid).0.accounted(),
        pid != 0 ==> v.release(pid, addr).accounted(),
        v.exhausted() <==> v.free_pages == 0,
        v.free_pages <= v.total_pages,
{
    lemma_free_count(v, v.total_pages as int);
    if !v.exhausted() {
        let j = choose|j: int| 0 <= j < v.total_pages && !v.used[j];
        lemma_lowest_exists(v, j);
        let i = v.lowest_free();
        let w = v.allocation(pid).0;
        lemma_free_count_update(v, i, true, v.total_pages as int);
        lemma_free_count_same(
            PhysView { used: v.used.update(i, true), ..v },
            w,
            v.total_pages as int,
        );
        assert(v.free_count(v.total_pages as int) > 0);
    }
    if pid != 0 && v.may_free(pid, addr) {
        let i = v.page_of(addr);
        let w = v.release(pid, addr);
        assert(v.used[i]);
        lemma_free_count_update(v, i, false, v.total_pages as int);
        lemma_free_count_same(
            PhysView { used: v.used.update(i, false), ..v },
            w,
            v.total_pages as int,
        );
    }
}

/// A fresh region is accounted for: every page is free and without owner.
pub proof fn law_fresh_accounted(v: PhysView)
    requires
        v.wf(),
        v.free_pages == v.total_pages,
        forall|i: int| 0 <= i < MAX_PAGES ==> !v.used[i] && v.owners[i] == 0,
    ensures
        v.accounted(),
{
    lemma_all_free(v, v.total_pages as int);
}

proof fn lemma_all_free(v: PhysView, n: int)
    requires
        0 <= n <= MAX_PAGES,
        v.used.len() == MAX_PAGES,
        forall|i: int| 0 <= i < MAX_PAGES ==> !v.used[i],
    ensures
        v.free_count(n) == n,
    decreases n,
{
    if n > 0 {
        lemma_all_free(v, n - 1);
    }
}

} // verus!
