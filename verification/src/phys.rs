//! Physical addresses and the bitmap-based physical page allocator.
//!
//! The allocator tracks 4 KiB pages in a bitmap (bit set = page used) and
//! serves physically contiguous, alignment-constrained runs, as DMA buffers
//! and NVMe PRP lists require. Everything starts marked used; `init` clears
//! the usable regions reported by the boot-time memory map.

use vstd::prelude::*;

use crate::bits::{
    bitmap_view, count_free, lemma_count_free_bounds, lemma_count_free_update, lemma_word_clear,
    lemma_word_set, word_bit, word_get,
};

verus! {

/// Bytes per physical page.
pub const PAGE_SIZE: usize = 4096;

/// A physical address; a transparent wrapper for clarity.
#[derive(Clone, Copy, PartialEq, Eq, Structural, Debug, Hash)]
pub struct PhysAddr(pub u64);

impl PhysAddr {
    pub fn new(addr: u64) -> (r: Self)
        ensures
            r.0 == addr,
    {
        PhysAddr(addr)
    }

    pub fn as_u64(self) -> (r: u64)
        ensures
            r == self.0,
    {
        self.0
    }
}

/// Physical allocation errors.
#[derive(Clone, Copy, PartialEq, Eq, Structural, Debug)]
pub enum AllocError {
    OutOfMemory,
    InvalidAlignment,
    InvalidSize,
}

/// Maximum supported physical memory: 4 GiB, one million pages.
pub const MAX_PAGES: usize = 1048576;

/// Words of the page bitmap.
pub const BITMAP_WORDS: usize = 16384;

/// Whether `a` is a power of two.
pub open spec fn is_pow2(a: int) -> bool
    decreases a,
{
    if a == 1 {
        true
    } else if a < 1 || a % 2 == 1 {
        false
    } else {
        is_pow2(a / 2)
    }
}

/// The bitmap-based physical page allocator: one bit per 4 KiB page, set
/// meaning used. Everything starts used; `init` clears the usable ranges
/// of the boot memory map.
pub struct PhysPageAllocator {
    bitmap: Vec<u64>,
    total_pages: usize,
    free_pages: usize,
}

impl PhysPageAllocator {
    /// One boolean per page: `true` = page used.
    pub closed spec fn bits(self) -> Seq<bool> {
        bitmap_view(self.bitmap@, MAX_PAGES as int)
    }

    pub closed spec fn spec_total_pages(self) -> usize {
        self.total_pages
    }

    pub closed spec fn spec_free_pages(self) -> usize {
        self.free_pages
    }

    /// The free counter always equals the number of clear bits.
    pub closed spec fn wf(self) -> bool {
        &&& self.bitmap@.len() == BITMAP_WORDS
        &&& self.free_pages == count_free(self.bits(), MAX_PAGES as int)
        &&& self.total_pages <= MAX_PAGES
    }

    /// All pages of `[s, s + c)` are free.
    pub open spec fn run_free(self, s: int, c: int) -> bool {
        forall|j: int| s <= j < s + c ==> !(#[trigger] self.bits()[j])
    }

    /// Bitmap consistency: under every sequence of operations the free
    /// counter equals the number of clear bits — every operation requires
    /// and re-establishes `wf`, and this is what `wf` holds.
    pub proof fn lemma_free_count_is_clear_bits(self)
        requires
            self.wf(),
        ensures
            self.spec_free_pages() == count_free(self.bits(), MAX_PAGES as int),
            self.bits().len() == MAX_PAGES,
    {
    }

    /// A fresh allocator with every page marked used.
    pub fn new() -> (r: Self)
        ensures
            r.wf(),
            r.spec_total_pages() == 0,
            r.spec_free_pages() == 0,
            forall|j: int| 0 <= j < MAX_PAGES ==> (#[trigger] r.bits()[j]),
    {
        let mut bitmap: Vec<u64> = Vec::new();
        let mut i: usize = 0;
        while i < BITMAP_WORDS
            invariant
                i <= BITMAP_WORDS,
                bitmap@.len() == i,
                forall|k: int| 0 <= k < i ==> bitmap@[k] == 0xFFFF_FFFF_FFFF_FFFFu64,
            decreases BITMAP_WORDS - i,
        {
            bitmap.push(0xFFFF_FFFF_FFFF_FFFF);
            i += 1;
        }
        let r = PhysPageAllocator { bitmap, total_pages: 0, free_pages: 0 };
        proof {
            assert forall|j: int| 0 <= j < MAX_PAGES implies (#[trigger] r.bits()[j]) by {
                lemma_page_index(j);
                lemma_all_ones((j % 64) as u64);
            }
            lemma_count_none_free(r.bits(), MAX_PAGES as int);
        }
        r
    }

    /// Initialize from a memory map: clear every whole page inside each
    /// usable `(base, length)` region, and size the tracked page count
    /// from the highest usable address.
    pub fn init(&mut self, regions: &Vec<(u64, u64)>)
        requires
            old(self).wf(),
            forall|r: int|
                0 <= r < regions@.len() ==> (#[trigger] regions@[r]).0 + regions@[r].1
                    < 0x1_0000_0000_0000,
        ensures
            final(self).wf(),
    {
        let n = regions.len();
        let mut r: usize = 0;
        while r < n
            invariant
                self.wf(),
                n == regions@.len(),
                r <= n,
                forall|k: int|
                    0 <= k < n ==> (#[trigger] regions@[k]).0 + regions@[k].1
                        < 0x1_0000_0000_0000,
            decreases n - r,
        {
            let (base, length) = regions[r];
            let start_page = ((base + 4095) / 4096) as usize;
            let end_page = ((base + length) / 4096) as usize;
            let stop = if end_page < MAX_PAGES {
                end_page
            } else {
                MAX_PAGES
            };
            let mut page = start_page;
            while page < stop
                invariant
                    self.wf(),
                    stop <= MAX_PAGES,
                decreases stop - page,
            {
                self.clear_bit(page);
                page += 1;
            }
            r += 1;
        }
        // Track pages up to the highest usable address.
        let mut max_addr: u64 = 0;
        let mut k: usize = 0;
        while k < n
            invariant
                n == regions@.len(),
                k <= n,
                max_addr < 0x1_0000_0000_0000,
                forall|j: int|
                    0 <= j < n ==> (#[trigger] regions@[j]).0 + regions@[j].1
                        < 0x1_0000_0000_0000,
            decreases n - k,
        {
            let (base, length) = regions[k];
            if base + length > max_addr {
                max_addr = base + length;
            }
            k += 1;
        }
        let pages = (max_addr / 4096) as usize;
        self.total_pages = if pages < MAX_PAGES {
            pages
        } else {
            MAX_PAGES
        };
    }

    /// Clear one page bit, adjusting the free counter if it was set.
    fn clear_bit(&mut self, page: usize)
        requires
            old(self).wf(),
            page < MAX_PAGES,
        ensures
            final(self).wf(),
            final(self).spec_total_pages() == old(self).spec_total_pages(),
            final(self).bits() == old(self).bits().update(page as int, false),
            final(self).spec_free_pages() >= old(self).spec_free_pages(),
    {
        proof {
            lemma_page_index(page as int);
            lemma_count_free_bounds(self.bits(), MAX_PAGES as int);
        }
        let word = page / 64;
        let bit = (page % 64) as u64;
        let ghost pre = *self;
        let w = self.bitmap[word];
        let was_set = word_get(w, bit);
        self.bitmap[word] = w & !(1u64 << bit);
        if was_set {
            self.free_pages = self.free_pages + 1;
        }
        proof {
            lemma_phys_one_word(pre, *self, word as int, page as int, false, w & !(1u64 << bit),
                w, bit);
            lemma_count_free_update(pre.bits(), page as int, false, MAX_PAGES as int);
        }
    }

    /// Set one page bit, adjusting the free counter if it was clear.
    fn set_bit(&mut self, page: usize)
        requires
            old(self).wf(),
            page < MAX_PAGES,
        ensures
            final(self).wf(),
            final(self).spec_total_pages() == old(self).spec_total_pages(),
            final(self).bits() == old(self).bits().update(page as int, true),
            final(self).spec_free_pages() <= old(self).spec_free_pages(),
            !old(self).bits()[page as int] ==> final(self).spec_free_pages() == old(
                self,
            ).spec_free_pages() - 1,
    {
        proof {
            lemma_page_index(page as int);
            lemma_count_free_bounds(self.bits(), MAX_PAGES as int);
        }
        let word = page / 64;
        let bit = (page % 64) as u64;
        let ghost pre = *self;
        let w = self.bitmap[word];
        let was_set = word_get(w, bit);
        self.bitmap[word] = w | (1u64 << bit);
        if !was_set {
            proof {
                assert(count_free(pre.bits(), MAX_PAGES as int) >= 1) by {
                    lemma_count_free_has_one(pre.bits(), page as int, MAX_PAGES as int);
                }
            }
            self.free_pages = self.free_pages - 1;
        }
        proof {
            lemma_phys_one_word(pre, *self, word as int, page as int, true, w | (1u64 << bit), w,
                bit);
            lemma_count_free_update(pre.bits(), page as int, true, MAX_PAGES as int);
        }
    }

    /// Mark a range of pages as used (the kernel image, MMIO windows).
    /// Marking an already-used page changes nothing.
    pub fn mark_used(&mut self, base: PhysAddr, count: usize)
        requires
            old(self).wf(),
            base.0 / 4096 + count <= usize::MAX,
        ensures
            final(self).wf(),
            final(self).spec_total_pages() == old(self).spec_total_pages(),
            final(self).bits() == crate::bits::with_run(
                old(self).bits(),
                base.0 as int / 4096,
                count as int,
                true,
            ),
    {
        let start_page = (base.0 / 4096) as usize;
        let mut i: usize = 0;
        let ghost orig = *self;
        proof {
            assert(self.bits() =~= crate::bits::with_run(orig.bits(), start_page as int, 0,
                true));
        }
        while i < count
            invariant
                i <= count,
                start_page == base.0 as int / 4096,
                start_page + count <= usize::MAX,
                self.wf(),
                self.spec_total_pages() == orig.spec_total_pages(),
                self.bits() == crate::bits::with_run(orig.bits(), start_page as int, i as int,
                    true),
            decreases count - i,
        {
            let page = start_page + i;
            let ghost pre = *self;
            if page < MAX_PAGES {
                self.set_bit(page);
            }
            proof {
                assert(self.bits() =~= crate::bits::with_run(orig.bits(), start_page as int, i
                    + 1, true));
            }
            i += 1;
        }
    }

    /// Allocate a single page.
    pub fn alloc_page(&mut self) -> (r: Result<PhysAddr, AllocError>)
        requires
            old(self).wf(),
        ensures
            final(self).wf(),
            final(self).spec_total_pages() == old(self).spec_total_pages(),
            match r {
                Ok(addr) => {
                    &&& addr.0 % 4096 == 0
                    &&& addr.0 / 4096 < old(self).spec_total_pages()
                    &&& !old(self).bits()[addr.0 as int / 4096]
                    &&& final(self).bits() == old(self).bits().update(addr.0 as int / 4096, true)
                    &&& final(self).spec_free_pages() == old(self).spec_free_pages() - 1
                },
                Err(_) => *final(self) == *old(self),
            },
    {
        match self.alloc_pages_contiguous(1, 1) {
            Ok(addr) => {
                proof {
                    assert(final(self).bits() =~= old(self).bits().update(
                        addr.0 as int / 4096,
                        true,
                    ));
                }
                Ok(addr)
            },
            Err(e) => Err(e),
        }
    }

    /// Allocate `count` physically contiguous pages whose first page index
    /// is a multiple of `align`; `align` must be a power of two. The scan
    /// is first fit over aligned candidates, so the result is the lowest
    /// aligned free run, and exhaustion is reported exactly when no such
    /// run exists.
    pub fn alloc_pages_contiguous(&mut self, count: usize, align: usize) -> (r: Result<
        PhysAddr,
        AllocError,
    >)
        requires
            old(self).wf(),
        ensures
            final(self).wf(),
            final(self).spec_total_pages() == old(self).spec_total_pages(),
            count == 0 <==> r == Err::<PhysAddr, AllocError>(AllocError::InvalidSize),
            count > 0 ==> (r == Err::<PhysAddr, AllocError>(AllocError::InvalidAlignment) <==> !
            is_pow2(align as int)),
            count > 0 && is_pow2(align as int) ==> (r == Err::<PhysAddr, AllocError>(
                AllocError::OutOfMemory,
            ) <==> forall|q: int|
                0 <= q && q % (align as int) == 0 && q + count <= old(self).spec_total_pages()
                    ==> !old(self).run_free(q, count as int)),
            match r {
                Ok(addr) => ({
                    let p = addr.0 as int / 4096;
                    &&& addr.0 % 4096 == 0
                    &&& p % align as int == 0
                    &&& p + count <= old(self).spec_total_pages()
                    &&& old(self).run_free(p, count as int)
                    &&& forall|q: int|
                        0 <= q && q % (align as int) == 0 && q < p ==> !old(self).run_free(
                            q,
                            count as int,
                        )
                    &&& final(self).bits() == crate::bits::with_run(
                        old(self).bits(),
                        p,
                        count as int,
                        true,
                    )
                    &&& final(self).spec_free_pages() == old(self).spec_free_pages() - count
                }),
                Err(_) => *final(self) == *old(self),
            },
    {
        if count == 0 {
            return Err(AllocError::InvalidSize);
        }
        if !pow2_check(align) {
            return Err(AllocError::InvalidAlignment);
        }
        proof {
            lemma_pow2_pos(align as int);
        }
        if self.free_pages < count {
            proof {
                lemma_count_free_bounds(self.bits(), MAX_PAGES as int);
                assert forall|q: int|
                    0 <= q && q % (align as int) == 0 && q + count <= self.spec_total_pages()
                        implies !self.run_free(q, count as int) by {
                    if self.run_free(q, count as int) {
                        crate::bits::lemma_run_free_count(self.bits(), q, count as int,
                            MAX_PAGES as int);
                    }
                }
            }
            return Err(AllocError::OutOfMemory);
        }
        let total = self.total_pages;
        if count > total {
            return Err(AllocError::OutOfMemory);
        }

        let mut candidate: usize = 0;
        while candidate + count <= total
            invariant
                *self == *old(self),
                self.wf(),
                count >= 1,
                count <= total,
                align >= 1,
                is_pow2(align as int),
                candidate <= total,
                total == self.total_pages,
                total <= MAX_PAGES,
                forall|q: int|
                    0 <= q && q % (align as int) == 0 && q < candidate ==> !self.run_free(
                        q,
                        count as int,
                    ),
            decreases total - candidate,
        {
            proof {
                let c = candidate as int;
                let a = align as int;
                if c >= 1 {
                    assert(((c - 1) / a + 1) * a <= a || ((c - 1) / a + 1) * a < 0x20_0000)
                        by (nonlinear_arith)
                        requires
                            1 <= c <= 0x10_0000,
                            a >= 1,
                    ;
                    assert(((c - 1) / a + 1) * a >= c && (((c - 1) / a + 1) * a) % a == 0)
                        by (nonlinear_arith)
                        requires
                            c >= 1,
                            a >= 1,
                    ;
                }
            }
            let aligned: usize = if candidate == 0 {
                0
            } else {
                ((candidate - 1) / align + 1) * align
            };
            if aligned > total || count > total - aligned {
                proof {
                    // `aligned` is the least multiple at or above
                    // `candidate`, and it already runs off the end.
                    assert forall|q: int|
                        0 <= q && q % (align as int) == 0 && q + count <= total implies !self.run_free(
                        q,
                        count as int,
                    ) by {
                        if q >= candidate {
                            lemma_next_multiple(q, candidate as int, align as int,
                                aligned as int);
                        }
                    }
                }
                return Err(AllocError::OutOfMemory);
            }

            let mut ok = true;
            let mut i: usize = 0;
            let mut hit: usize = 0;
            while i < count
                invariant
                    *self == *old(self),
                    self.wf(),
                    i <= count,
                    aligned + count <= total,
                    total <= MAX_PAGES,
                    ok ==> forall|j: int|
                        aligned <= j < aligned + i ==> !(#[trigger] self.bits()[j]),
                    !ok ==> aligned <= hit < aligned + count && self.bits()[hit as int],
                    !ok ==> i == count,
                decreases count - i,
            {
                let page = aligned + i;
                proof {
                    lemma_page_index(page as int);
                }
                let w = self.bitmap[page / 64];
                if word_get(w, (page % 64) as u64) {
                    hit = page;
                    ok = false;
                    i = count;
                } else {
                    i += 1;
                }
            }

            if ok {
                proof {
                    // First fit: every lower aligned candidate was refuted.
                    assert forall|q: int|
                        0 <= q && q % (align as int) == 0 && q < aligned as int
                            implies !self.run_free(q, count as int) by {
                        if q >= candidate {
                            lemma_next_multiple(q, candidate as int, align as int,
                                aligned as int);
                        }
                    }
                }
                // Mark the run as used.
                let ghost pre = *self;
                proof {
                    assert(self.bits() =~= crate::bits::with_run(pre.bits(), aligned as int, 0,
                        true));
                }
                let mut k: usize = 0;
                while k < count
                    invariant
                        k <= count,
                        self.wf(),
                        self.spec_total_pages() == pre.spec_total_pages(),
                        pre.wf(),
                        *old(self) == pre,
                        is_pow2(align as int),
                        align >= 1,
                        aligned as int % align as int == 0,
                        count >= 1,
                        aligned + count <= total,
                        total == pre.spec_total_pages(),
                        total <= MAX_PAGES,
                        pre.run_free(aligned as int, count as int),
                        forall|q: int|
                            0 <= q && q % (align as int) == 0 && q < aligned as int
                                ==> !pre.run_free(q, count as int),
                        self.bits() == crate::bits::with_run(pre.bits(), aligned as int,
                            k as int, true),
                        self.spec_free_pages() == pre.spec_free_pages() - k,
                    decreases count - k,
                {
                    let ghost mid = *self;
                    proof {
                        assert(!mid.bits()[(aligned + k) as int]);
                    }
                    self.set_bit(aligned + k);
                    proof {
                        assert(self.bits() =~= crate::bits::with_run(pre.bits(), aligned as int,
                            k + 1, true));
                    }
                    k += 1;
                }
                proof {
                    assert((aligned * 4096) as int % 4096 == 0 && (aligned * 4096) as int / 4096
                        == aligned as int && (aligned as int) % (align as int) == 0
                        && aligned * 4096 <= MAX_PAGES * 4096) by (nonlinear_arith)
                        requires
                            aligned as int % align as int == 0,
                            align >= 1,
                            0 <= aligned <= MAX_PAGES,
                    ;
                    // Exhaustion is refuted by the found run.
                    assert(!(forall|q: int|
                        0 <= q && q % (align as int) == 0 && q + count <= pre.spec_total_pages()
                            ==> !pre.run_free(q, count as int))) by {
                        assert(aligned as int % align as int == 0);
                        assert(pre.run_free(aligned as int, count as int));
                    }
                }
                return Ok(PhysAddr::new((aligned * 4096) as u64));
            }
            proof {
                assert forall|q: int|
                    0 <= q && q % (align as int) == 0 && q < hit + 1 implies !self.run_free(
                    q,
                    count as int,
                ) by {
                    if q >= candidate {
                        lemma_next_multiple(q, candidate as int, align as int, aligned as int);
                        assert(q + count > hit);
                        assert(self.bits()[hit as int]);
                    }
                }
            }
            candidate = hit + 1;
        }

        proof {
            assert forall|q: int|
                0 <= q && q % (align as int) == 0 && q + count <= total implies !self.run_free(
                q,
                count as int,
            ) by {
                assert(q < candidate);
            }
        }
        Err(AllocError::OutOfMemory)
    }

    /// Free `count` pages starting at `base`. Pages beyond the tracked
    /// maximum are ignored, and freeing an already-free page changes
    /// nothing, so double frees cannot corrupt the counter.
    pub fn free_pages(&mut self, base: PhysAddr, count: usize)
        requires
            old(self).wf(),
            base.0 / 4096 + count <= usize::MAX,
        ensures
            final(self).wf(),
            final(self).spec_total_pages() == old(self).spec_total_pages(),
            final(self).spec_free_pages() >= old(self).spec_free_pages(),
            final(self).bits() == crate::bits::with_run(
                old(self).bits(),
                base.0 as int / 4096,
                count as int,
                false,
            ),
    {
        let start_page = (base.0 / 4096) as usize;
        let mut i: usize = 0;
        let ghost orig = *self;
        proof {
            assert(self.bits() =~= crate::bits::with_run(orig.bits(), start_page as int, 0,
                false));
        }
        while i < count
            invariant
                i <= count,
                start_page == base.0 as int / 4096,
                start_page + count <= usize::MAX,
                self.wf(),
                self.spec_total_pages() == orig.spec_total_pages(),
                self.spec_free_pages() >= orig.spec_free_pages(),
                self.bits() == crate::bits::with_run(orig.bits(), start_page as int, i as int,
                    false),
            decreases count - i,
        {
            let page = start_page + i;
            let ghost pre = *self;
            if page < MAX_PAGES {
                self.clear_bit(page);
            }
            proof {
                assert(self.bits() =~= crate::bits::with_run(orig.bits(), start_page as int, i
                    + 1, false));
            }
            i += 1;
        }
    }

    /// Number of free pages remaining.
    pub fn free_count(&self) -> (r: usize)
        ensures
            r == self.spec_free_pages(),
    {
        self.free_pages
    }

    /// Total tracked pages.
    pub fn total_count(&self) -> (r: usize)
        ensures
            r == self.spec_total_pages(),
    {
        self.total_pages
    }
}

/// The least multiple of `a` at or above `c` bounds every multiple at or
/// above `c` from below.
proof fn lemma_next_multiple(q: int, c: int, a: int, aligned: int)
    requires
        a >= 1,
        c >= 0,
        q % a == 0,
        q >= c,
        aligned == if c == 0 {
            0int
        } else {
            ((c - 1) / a + 1) * a
        },
    ensures
        q >= aligned,
{
    if c > 0 {
        assert(q % a == 0 && q >= c ==> q >= ((c - 1) / a + 1) * a) by (nonlinear_arith)
            requires
                a >= 1,
                c >= 1,
        ;
    }
}

/// Whether `align` is a power of two, by repeated halving.
fn pow2_check(align: usize) -> (r: bool)
    ensures
        r == is_pow2(align as int),
{
    if align == 0 {
        return false;
    }
    let mut x = align;
    while x > 1 && x % 2 == 0
        invariant
            x >= 1,
            is_pow2(align as int) == is_pow2(x as int),
        decreases x,
    {
        x = x / 2;
    }
    x == 1
}

/// Powers of two are at least one.
proof fn lemma_pow2_pos(a: int)
    requires
        is_pow2(a),
    ensures
        a >= 1,
{
}

/// A page index lands in word `page / 64`.
proof fn lemma_page_index(page: int)
    requires
        0 <= page < MAX_PAGES,
    ensures
        0 <= page / 64 < BITMAP_WORDS,
        0 <= page % 64 < 64,
{
    assert(page == 64 * (page / 64) + (page % 64));
}

/// Every bit of the all-ones word is set.
proof fn lemma_all_ones(j: u64)
    requires
        j < 64,
    ensures
        word_bit(0xFFFF_FFFF_FFFF_FFFFu64, j as int),
{
    assert(0xFFFF_FFFF_FFFF_FFFFu64 >> j & 1u64 == 1u64) by (bit_vector)
        requires
            j < 64,
    ;
}

/// A fully-set prefix counts no bit as free.
proof fn lemma_count_none_free(bits: Seq<bool>, n: int)
    requires
        forall|j: int| 0 <= j < n ==> (#[trigger] bits[j]),
    ensures
        count_free(bits, n) == 0,
    decreases n,
{
    if n > 0 {
        lemma_count_none_free(bits, n - 1);
    }
}

/// A clear bit inside the range forces the count above zero.
proof fn lemma_count_free_has_one(bits: Seq<bool>, p: int, n: int)
    requires
        0 <= p < n,
        !bits[p],
    ensures
        count_free(bits, n) >= 1,
    decreases n,
{
    lemma_count_free_bounds(bits, p);
    if p == n - 1 {
    } else {
        lemma_count_free_has_one(bits, p, n - 1);
    }
}

/// One rewritten word updates one page bit of the view.
proof fn lemma_phys_one_word(
    pre: PhysPageAllocator,
    post: PhysPageAllocator,
    widx: int,
    page: int,
    v: bool,
    neww: u64,
    w: u64,
    b: u64,
)
    requires
        pre.bitmap@.len() == BITMAP_WORDS,
        post.bitmap@ == pre.bitmap@.update(widx, neww),
        0 <= page < MAX_PAGES,
        widx == page / 64,
        b == page % 64,
        w == pre.bitmap@[widx],
        neww == if v {
            w | (1u64 << b)
        } else {
            w & !(1u64 << b)
        },
    ensures
        post.bits() == pre.bits().update(page, v),
{
    assert forall|j: int| 0 <= j < MAX_PAGES implies post.bits()[j] == pre.bits().update(page, v)[
        j] by {
        lemma_page_index(j);
        if j / 64 == widx {
            if v {
                lemma_word_set(w, b, (j % 64) as u64);
            } else {
                lemma_word_clear(w, b, (j % 64) as u64);
            }
            assert(j == page <==> j % 64 == b as int) by {
                assert(page == 64 * (page / 64) + (page % 64));
                assert(j == 64 * (j / 64) + (j % 64));
            }
        }
    }
    assert(post.bits() =~= pre.bits().update(page, v));
}

} // verus!
