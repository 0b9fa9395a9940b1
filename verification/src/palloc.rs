use vstd::prelude::*;

verus! {

use crate::PAGE_SIZE;
use crate::addr::PHYS_BASE;
use crate::addr::ptov;
use crate::bit_set::BitSet;
use crate::bit_set::run_matches;
use crate::bit_set::spec_buffer_size;
use crate::div_round_up;
use crate::spec_div_round_up;

/// Flag for allocating pages: zero the page contents.
pub const ALLOCATE_ZERO: u8 = 0b0000_0001;

/// Flag for allocating pages: take the pages from the user pool.
pub const ALLOCATE_USER: u8 = 0b0000_0010;

/// Flags for allocating pages, a combination of the flag bits above.
#[derive(Debug, Clone, Copy, PartialEq, Eq, Structural)]
pub struct AllocateFlags(pub u8);

impl AllocateFlags {
    /// Whether the pages should be zeroed. Zeroing the memory itself is the
    /// caller's step; this model tracks the page bookkeeping.
    pub open spec fn spec_zero(self) -> bool {
        self.0 & ALLOCATE_ZERO != 0
    }

    /// Whether the pages come from the user pool.
    pub open spec fn spec_user(self) -> bool {
        self.0 & ALLOCATE_USER != 0
    }

    /// Flags asking for zeroed pages from the kernel pool.
    pub fn zero() -> (f: AllocateFlags)
        ensures
            f.spec_zero(),
            !f.spec_user(),
    {
        proof {
            assert(1u8 & 1u8 != 0 && 1u8 & 2u8 == 0) by (bit_vector);
        }
        AllocateFlags(ALLOCATE_ZERO)
    }

    /// Flags asking for pages from the user pool, not zeroed.
    pub fn user() -> (f: AllocateFlags)
        ensures
            !f.spec_zero(),
            f.spec_user(),
    {
        proof {
            assert(2u8 & 1u8 == 0 && 2u8 & 2u8 != 0) by (bit_vector);
        }
        AllocateFlags(ALLOCATE_USER)
    }

    /// Flags asking for nothing special: kernel pool, not zeroed.
    pub fn empty() -> (f: AllocateFlags)
        ensures
            !f.spec_zero(),
            !f.spec_user(),
    {
        proof {
            assert(0u8 & 1u8 == 0 && 0u8 & 2u8 == 0) by (bit_vector);
        }
        AllocateFlags(0)
    }

    /// Returns `true` if the zero flag is set.
    pub fn contains_zero(&self) -> (r: bool)
        ensures
            r == self.spec_zero(),
    {
        self.0 & ALLOCATE_ZERO != 0
    }

    /// Returns `true` if the user flag is set.
    pub fn contains_user(&self) -> (r: bool)
        ensures
            r == self.spec_user(),
    {
        self.0 & ALLOCATE_USER != 0
    }
}

/// Pages of bitmap bookkeeping that a pool of `page_count` pages spends: the
/// bitmap sits at the start of the pool's own memory.
pub open spec fn spec_pages_used(page_count: nat) -> nat {
    spec_div_round_up(spec_buffer_size(page_count), PAGE_SIZE as nat)
}

/// A memory pool: a contiguous run of page frames, with a bitmap recording
/// which are in use. Bit `i` corresponds to the page at `base + i * 4096`;
/// a page is free exactly when its bit is off.
pub struct Pool {
    /// Whether the pool has been initialized.
    initialized: bool,
    /// Bitmap of used pages.
    used_map: BitSet,
    /// Start address of the first allocatable page, just after the pages the
    /// bitmap itself occupies.
    base: u64,
}

impl Pool {
    /// Whether the pool has been initialized.
    pub closed spec fn is_initialized(self) -> bool {
        self.initialized
    }

    /// Start address of the first allocatable page.
    pub closed spec fn spec_base(self) -> u64 {
        self.base
    }

    /// Number of allocatable pages.
    pub closed spec fn spec_size(self) -> nat {
        self.used_map.spec_size()
    }

    /// The used bits, one per allocatable page.
    pub closed spec fn bits(self) -> Seq<bool> {
        self.used_map.bits()
    }

    /// An initialized pool starts at a page boundary, its pages fit in the
    /// address space, and its bitmap storage is consistent.
    pub closed spec fn wf(self) -> bool {
        self.initialized ==> {
            &&& self.base % (PAGE_SIZE as u64) == 0
            &&& self.base + (PAGE_SIZE as int) * self.spec_size() <= u64::MAX
            &&& self.used_map.wf()
        }
    }

    /// The address `addr` lies on one of this pool's allocatable pages.
    pub open spec fn spec_contains_page(self, addr: u64) -> bool {
        &&& self.is_initialized()
        &&& self.spec_base() <= addr
        &&& addr < self.spec_base() + (PAGE_SIZE as int) * self.spec_size()
    }

    /// Index of the page holding `addr`.
    pub open spec fn spec_page_index(self, addr: u64) -> int {
        (addr - self.spec_base()) / (PAGE_SIZE as int)
    }

    /// Creates an uninitialized pool.
    pub fn new() -> (r: Pool)
        ensures
            !r.is_initialized(),
            r.wf(),
            r.spec_size() == 0,
    {
        Pool { initialized: false, used_map: BitSet::new(), base: 0 }
    }

    /// Initializes the pool over `page_count` pages of memory starting at
    /// `base_addr`. The first pages hold the pool's own bitmap; the rest are
    /// allocatable, and all start free. Returns the number of allocatable
    /// pages.
    pub fn init(&mut self, base_addr: u64, page_count: usize) -> (avail: usize)
        requires
            base_addr % (PAGE_SIZE as u64) == 0,
            base_addr + (PAGE_SIZE as int) * page_count <= u64::MAX,
            1 <= page_count,
        ensures
            final(self).wf(),
            final(self).is_initialized(),
            avail == page_count - spec_pages_used(page_count as nat),
            final(self).spec_size() == avail,
            final(self).spec_base() == base_addr + (PAGE_SIZE as int) * spec_pages_used(
                page_count as nat,
            ),
            forall|i: int| 0 <= i < avail ==> !final(self).bits()[i],
    {
        proof {
            lemma_pool_bitmap_fits(page_count as nat);
            crate::lemma_div_round_up_bounds(
                spec_buffer_size(page_count as nat),
                PAGE_SIZE as nat,
            );
        }
        let buffer = BitSet::buffer_size(page_count);
        let pages_used = div_round_up(buffer, PAGE_SIZE);
        proof {
            assert(pages_used * PAGE_SIZE < buffer + PAGE_SIZE);
            assert((pages_used as int) * (PAGE_SIZE as int) <= (page_count as int) * (
            PAGE_SIZE as int)) by (nonlinear_arith)
                requires
                    pages_used <= page_count,
            ;
        }
        let bytes_used = pages_used * PAGE_SIZE;
        let cap = page_count - pages_used;
        proof {
            crate::bit_set::lemma_buffer_size_monotonic(cap as nat, page_count as nat);
        }
        let used_map = BitSet::from_buffer(cap, bytes_used);
        self.initialized = true;
        self.used_map = used_map;
        self.base = base_addr + (bytes_used as u64);
        proof {
            assert((pages_used as int) * (PAGE_SIZE as int) + (cap as int) * (PAGE_SIZE as int)
                == (page_count as int) * (PAGE_SIZE as int)) by (nonlinear_arith)
                requires
                    pages_used + cap == page_count,
            ;
            assert(((base_addr as int) + (pages_used as int) * (PAGE_SIZE as int)) % (
            PAGE_SIZE as int) == 0) by (nonlinear_arith)
                requires
                    (base_addr as int) % (PAGE_SIZE as int) == 0,
                    (pages_used as int) >= 0,
            ;
        }
        cap
    }

    /// Returns the start address of the first allocatable page.
    pub fn base_addr(&self) -> (r: u64)
        requires
            self.is_initialized(),
        ensures
            r == self.spec_base(),
    {
        self.base
    }

    /// Returns the bitmap index of the page holding `addr`, `None` if the
    /// pool is uninitialized.
    pub fn page_index(&self, addr: u64) -> (r: Option<usize>)
        requires
            self.wf(),
            self.is_initialized() ==> self.spec_base() <= addr,
            self.is_initialized() ==> addr < self.spec_base() + (PAGE_SIZE as int)
                * self.spec_size(),
        ensures
            match r {
                Some(i) => self.is_initialized() && i == self.spec_page_index(addr),
                None => !self.is_initialized(),
            },
    {
        if self.initialized {
            let size = self.used_map.size();
            proof {
                assert(((addr - self.base) as int) / (PAGE_SIZE as int) < size as int)
                    by (nonlinear_arith)
                    requires
                        self.base <= addr,
                        (addr as int) < (self.base as int) + (PAGE_SIZE as int) * (size as int),
                ;
            }
            Some(((addr - self.base) / (PAGE_SIZE as u64)) as usize)
        } else {
            None
        }
    }

    /// Returns `true` if `addr` lies on one of this pool's allocatable pages.
    pub fn contains_page(&self, addr: u64) -> (r: bool)
        requires
            self.wf(),
        ensures
            r == self.spec_contains_page(addr),
    {
        if self.initialized {
            let size = self.used_map.size();
            let r = addr >= self.base && ((addr - self.base) / (PAGE_SIZE as u64)) < (size as u64);
            proof {
                if addr >= self.base {
                    assert(((addr - self.base) as int / (PAGE_SIZE as int) < size as int) == (
                    addr - self.base < (PAGE_SIZE as int) * size)) by (nonlinear_arith)
                        requires
                            addr >= self.base,
                            size >= 0,
                    ;
                }
            }
            r
        } else {
            false
        }
    }

    /// Allocates `count` contiguous free pages: finds the first free run,
    /// marks it used, and returns its start address. Returns `None` when the
    /// pool is uninitialized or no free run of that length exists.
    pub fn allocate(&mut self, count: usize) -> (r: Option<u64>)
        requires
            old(self).wf(),
            1 <= count,
        ensures
            final(self).wf(),
            final(self).is_initialized() == old(self).is_initialized(),
            final(self).spec_base() == old(self).spec_base(),
            final(self).spec_size() == old(self).spec_size(),
            match r {
                Some(addr) => {
                    let i = old(self).spec_page_index(addr);
                    &&& old(self).is_initialized()
                    &&& addr == old(self).spec_base() + (PAGE_SIZE as int) * i
                    &&& 0 <= i && i + count <= old(self).spec_size()
                    &&& run_matches(old(self).bits(), i, count as int, false)
                    &&& forall|k: int|
                        0 <= k < i ==> !run_matches(old(self).bits(), k, count as int, false)
                    &&& final(self).bits() =~= Seq::new(
                        old(self).spec_size(),
                        |j: int|
                            if i <= j < i + count {
                                true
                            } else {
                                old(self).bits()[j]
                            },
                    )
                },
                None => {
                    &&& final(self).bits() == old(self).bits()
                    &&& (old(self).is_initialized() ==> pool_exhausted(*old(self), count as int))
                },
            },
    {
        if !self.initialized {
            return None;
        }
        match self.used_map.scan(0, count, false) {
            Some(page_index) => {
                self.used_map.set_many(page_index, count, true);
                proof {
                    lemma_page_address_round_trip(
                        self.base,
                        page_index as int,
                        self.spec_size() as int,
                    );
                }
                Some(self.base + (page_index as u64) * (PAGE_SIZE as u64))
            },
            None => None,
        }
    }

    /// Allocates `count` contiguous free pages whose first page index is a
    /// multiple of `align`: finds the first such free run, marks it used, and
    /// returns its start address. Returns `None` when the pool is
    /// uninitialized or no aligned free run exists.
    pub fn allocate_aligned(&mut self, count: usize, align: usize) -> (r: Option<u64>)
        requires
            old(self).wf(),
            1 <= count,
            1 <= align,
        ensures
            final(self).wf(),
            final(self).is_initialized() == old(self).is_initialized(),
            final(self).spec_base() == old(self).spec_base(),
            final(self).spec_size() == old(self).spec_size(),
            match r {
                Some(addr) => {
                    let i = old(self).spec_page_index(addr);
                    &&& old(self).is_initialized()
                    &&& addr == old(self).spec_base() + (PAGE_SIZE as int) * i
                    &&& 0 <= i && i + count <= old(self).spec_size()
                    &&& i % (align as int) == 0
                    &&& run_matches(old(self).bits(), i, count as int, false)
                    &&& final(self).bits() =~= Seq::new(
                        old(self).spec_size(),
                        |j: int|
                            if i <= j < i + count {
                                true
                            } else {
                                old(self).bits()[j]
                            },
                    )
                },
                None => {
                    &&& final(self).bits() == old(self).bits()
                    &&& (old(self).is_initialized() ==> pool_exhausted_aligned(
                        *old(self),
                        count as int,
                        align as int,
                    ))
                },
            },
    {
        if !self.initialized {
            return None;
        }
        let size = self.used_map.size();
        if count > size {
            proof {
                assert forall|k: int|
                    0 <= k && k + count <= self.spec_size() && k % (align as int) == 0 implies
                    !run_matches(self.bits(), k, count as int, false) by {
                    assert(k + count > self.spec_size());
                }
            }
            return None;
        }
        let mut i: usize = 0;
        while i <= size - count
            invariant
                self.wf(),
                self.is_initialized(),
                old(self).is_initialized(),
                self.spec_base() == old(self).spec_base(),
                self.spec_size() == old(self).spec_size(),
                self.bits() == old(self).bits(),
                1 <= count <= size,
                1 <= align,
                size == self.spec_size(),
                i % align == 0,
                forall|k: int|
                    0 <= k < i && k % (align as int) == 0 ==> !run_matches(
                        self.bits(),
                        k,
                        count as int,
                        false,
                    ),
            decreases size - i,
        {
            if !self.used_map.contains(i, count, true) {
                proof {
                    assert forall|j: int| i <= j < i + count implies self.bits()[j] == false by {
                        assert(!(self.bits()[j] == true));
                    }
                }
                let page_index = i;
                self.used_map.set_many(page_index, count, true);
                proof {
                    lemma_page_address_round_trip(
                        self.base,
                        page_index as int,
                        self.spec_size() as int,
                    );
                }
                return Some(self.base + (page_index as u64) * (PAGE_SIZE as u64));
            }
            if align > size - count - i {
                // No further aligned start fits.
                proof {
                    assert forall|k: int|
                        0 <= k && k + count <= self.spec_size() && k % (align as int) == 0 implies
                        !run_matches(self.bits(), k, count as int, false) by {
                        if k >= i + 1 {
                            assert(k >= i + align) by (nonlinear_arith)
                                requires
                                    k % (align as int) == 0,
                                    (i as int) % (align as int) == 0,
                                    k > i,
                                    align >= 1,
                            ;
                        }
                    }
                }
                return None;
            }
            i = i + align;
            proof {
                assert((i as int) % (align as int) == 0) by (nonlinear_arith)
                    requires
                        ((i - align) as int) % (align as int) == 0,
                        align >= 1,
                        i >= align,
                ;
                assert forall|k: int|
                    0 <= k < i && k % (align as int) == 0 implies !run_matches(
                        self.bits(),
                        k,
                        count as int,
                        false,
                    ) by {
                    if k > i - align {
                        assert(k >= i) by (nonlinear_arith)
                            requires
                                k % (align as int) == 0,
                                (i as int) % (align as int) == 0,
                                k > i - align,
                                align >= 1,
                        ;
                    }
                }
            }
        }
        None
    }

    /// Frees `count` pages starting at `page_start`, which must all be
    /// allocated: clears their bits. Freeing a page that is not allocated is
    /// a fatal error in the kernel, so it is excluded here.
    pub fn free(&mut self, page_start: u64, count: usize)
        requires
            old(self).wf(),
            old(self).is_initialized(),
            old(self).spec_base() <= page_start,
            (page_start - old(self).spec_base()) % (PAGE_SIZE as int) == 0,
            old(self).spec_page_index(page_start) + count <= old(self).spec_size(),
            run_matches(
                old(self).bits(),
                old(self).spec_page_index(page_start),
                count as int,
                true,
            ),
        ensures
            final(self).wf(),
            final(self).is_initialized(),
            final(self).spec_base() == old(self).spec_base(),
            final(self).spec_size() == old(self).spec_size(),
            final(self).bits() =~= Seq::new(
                old(self).spec_size(),
                |j: int|
                    if old(self).spec_page_index(page_start) <= j < old(self).spec_page_index(
                        page_start,
                    ) + count {
                        false
                    } else {
                        old(self).bits()[j]
                    },
            ),
    {
        let size = self.used_map.size();
        let page_index = ((page_start - self.base) / (PAGE_SIZE as u64)) as usize;
        self.used_map.set_many(page_index, count, false);
    }
}

/// What allocating `count` pages does to a pool: the pool was initialized,
/// its shape is unchanged, the returned address names a run of `count` pages
/// that were all free, and exactly those pages are now marked used.
pub open spec fn pool_alloc_post(old_pool: Pool, new_pool: Pool, count: int, addr: u64) -> bool {
    let i = old_pool.spec_page_index(addr);
    &&& old_pool.is_initialized()
    &&& new_pool.is_initialized()
    &&& new_pool.spec_base() == old_pool.spec_base()
    &&& new_pool.spec_size() == old_pool.spec_size()
    &&& addr == old_pool.spec_base() + (PAGE_SIZE as int) * i
    &&& 0 <= i && i + count <= old_pool.spec_size()
    &&& run_matches(old_pool.bits(), i, count, false)
    &&& new_pool.bits() =~= Seq::new(
        old_pool.spec_size(),
        |j: int|
            if i <= j < i + count {
                true
            } else {
                old_pool.bits()[j]
            },
    )
}

/// The run of `count` pages at `page_start` lies inside `pool` and every one
/// of its pages is marked used, so the run may be freed.
pub open spec fn pool_can_free(pool: Pool, page_start: u64, count: int) -> bool {
    let i = pool.spec_page_index(page_start);
    &&& pool.spec_contains_page(page_start)
    &&& (page_start - pool.spec_base()) % (PAGE_SIZE as int) == 0
    &&& i + count <= pool.spec_size()
    &&& run_matches(pool.bits(), i, count, true)
}

/// What freeing `count` pages at `page_start` does to a pool: its shape is
/// unchanged and exactly the run's pages are now marked free.
pub open spec fn pool_free_post(old_pool: Pool, new_pool: Pool, page_start: u64, count: int) -> bool {
    let i = old_pool.spec_page_index(page_start);
    &&& new_pool.is_initialized() == old_pool.is_initialized()
    &&& new_pool.spec_base() == old_pool.spec_base()
    &&& new_pool.spec_size() == old_pool.spec_size()
    &&& new_pool.bits() =~= Seq::new(
        old_pool.spec_size(),
        |j: int|
            if i <= j < i + count {
                false
            } else {
                old_pool.bits()[j]
            },
    )
}

/// Number of pages in the usable region `[start, end)`.
pub open spec fn spec_free_pages(start: u64, end: u64) -> int {
    (end - start) / (PAGE_SIZE as int)
}

/// Pages given to the user pool: at most `limit`, at most half the region.
pub open spec fn spec_user_split(limit: usize, free_pages: int) -> int {
    if limit < free_pages / 2 {
        limit as int
    } else {
        free_pages / 2
    }
}

/// The page allocator. Hands out memory in page-size (or page-multiple)
/// chunks.
///
/// System memory is divided into two pools, the kernel and user pools. The
/// user pool holds memory for user pages, the kernel pool everything else:
/// the kernel must have memory for its own operations even when user
/// processes are swapping hard. The kernel guards each pool with a sleeping
/// mutex; in this single-stepped model the pools are held directly and the
/// mutex itself is modeled with the other synchronization primitives.
pub struct PageAllocator {
    /// Memory pool for kernel data.
    pub kernel_pool: Pool,
    /// Memory pool for user data.
    pub user_pool: Pool,
}

impl PageAllocator {
    /// Both pools are in working shape.
    pub open spec fn wf(self) -> bool {
        &&& self.kernel_pool.wf()
        &&& self.user_pool.wf()
    }

    /// Creates a page allocator with both pools uninitialized.
    pub fn new() -> (r: PageAllocator)
        ensures
            r.wf(),
            !r.kernel_pool.is_initialized(),
            !r.user_pool.is_initialized(),
    {
        PageAllocator { kernel_pool: Pool::new(), user_pool: Pool::new() }
    }

    /// Initializes the page allocator from the usable physical region
    /// `[free_region_start, free_region_end)` reported at boot. At most
    /// `user_page_limit` pages go to the user pool, at most half the region;
    /// the kernel pool takes the rest. Returns the number of allocatable
    /// pages in the kernel and user pools, in that order.
    pub fn init(&mut self, free_region_start: u64, free_region_end: u64, user_page_limit: usize)
        -> (avail: (usize, usize))
        requires
            free_region_start % (PAGE_SIZE as u64) == 0,
            free_region_end % (PAGE_SIZE as u64) == 0,
            free_region_start < free_region_end,
            free_region_end <= PHYS_BASE,
        ensures
            final(self).wf(),
            final(self).kernel_pool.is_initialized(),
            ({
                let free_pages = spec_free_pages(free_region_start, free_region_end);
                let user_pages = spec_user_split(user_page_limit, free_pages);
                let kernel_pages = free_pages - user_pages;
                &&& avail.0 == kernel_pages - spec_pages_used(kernel_pages as nat)
                &&& final(self).kernel_pool.spec_size() == avail.0
                &&& final(self).kernel_pool.spec_base() == free_region_start + PHYS_BASE + (
                PAGE_SIZE as int) * spec_pages_used(kernel_pages as nat)
                &&& (user_pages >= 1 ==> {
                    &&& final(self).user_pool.is_initialized()
                    &&& avail.1 == user_pages - spec_pages_used(user_pages as nat)
                    &&& final(self).user_pool.spec_size() == avail.1
                    &&& final(self).user_pool.spec_base() == free_region_start + PHYS_BASE + (
                    PAGE_SIZE as int) * kernel_pages + (PAGE_SIZE as int) * spec_pages_used(
                        user_pages as nat,
                    )
                })
                &&& (user_pages == 0 ==> !final(self).user_pool.is_initialized() && avail.1 == 0)
            }),
            forall|i: int| 0 <= i < final(self).kernel_pool.spec_size()
                ==> !final(self).kernel_pool.bits()[i],
            forall|i: int| 0 <= i < final(self).user_pool.spec_size()
                ==> !final(self).user_pool.bits()[i],
    {
        let free_start = ptov(free_region_start);
        proof {
            assert((free_start as int) % (PAGE_SIZE as int) == 0) by (nonlinear_arith)
                requires
                    (free_region_start as int) % (PAGE_SIZE as int) == 0,
                    (PHYS_BASE as int) % (PAGE_SIZE as int) == 0,
                    free_start == free_region_start + PHYS_BASE,
            ;
            assert(((free_region_end - free_region_start) as int) / (PAGE_SIZE as int) <= (
            PHYS_BASE as int) / (PAGE_SIZE as int)) by (nonlinear_arith)
                requires
                    free_region_start < free_region_end,
                    free_region_end <= PHYS_BASE,
            ;
            assert(((free_region_end - free_region_start) as int) % (PAGE_SIZE as int) == 0)
                by (nonlinear_arith)
                requires
                    free_region_start % (PAGE_SIZE as u64) == 0,
                    free_region_end % (PAGE_SIZE as u64) == 0,
                    free_region_start < free_region_end,
            ;
        }
        let free_pages = ((free_region_end - free_region_start) / (PAGE_SIZE as u64)) as usize;
        proof {
            crate::lemma_div_round_up_bounds(
                (free_region_end - free_region_start) as nat,
                PAGE_SIZE as nat,
            );
            assert((free_pages as int) * (PAGE_SIZE as int) == free_region_end - free_region_start)
                by (nonlinear_arith)
                requires
                    free_pages == ((free_region_end - free_region_start) as int) / (
                    PAGE_SIZE as int),
                    ((free_region_end - free_region_start) as int) % (PAGE_SIZE as int) == 0,
            ;
        }
        let half = free_pages / 2;
        let user_pages = if user_page_limit < half {
            user_page_limit
        } else {
            half
        };
        let kernel_pages = free_pages - user_pages;
        proof {
            // The region holds at least one page, and the kernel keeps at
            // least the half the user pool does not take.
            assert(free_pages >= 1) by (nonlinear_arith)
                requires
                    (free_pages as int) * (PAGE_SIZE as int) == free_region_end
                        - free_region_start,
                    free_region_start < free_region_end,
            ;
            assert(kernel_pages >= 1);
            assert((kernel_pages as int) * (PAGE_SIZE as int) + (user_pages as int) * (
            PAGE_SIZE as int) == (free_pages as int) * (PAGE_SIZE as int)) by (nonlinear_arith)
                requires
                    kernel_pages + user_pages == free_pages,
            ;
            assert((free_start + (kernel_pages as int) * (PAGE_SIZE as int)) % (PAGE_SIZE as int)
                == 0) by (nonlinear_arith)
                requires
                    free_start % (PAGE_SIZE as u64) == 0,
                    kernel_pages >= 0,
            ;
        }
        let kernel_avail = self.kernel_pool.init(free_start, kernel_pages);
        if user_pages == 0 {
            // "At most that many" pages go to the user pool: none at all
            // leaves it uninitialized, refusing every request.
            self.user_pool = Pool::new();
            (kernel_avail, 0)
        } else {
            let user_start = free_start + (kernel_pages as u64) * (PAGE_SIZE as u64);
            let user_avail = self.user_pool.init(user_start, user_pages);
            (kernel_avail, user_avail)
        }
    }

    /// Obtains a single free page and returns its start address.
    ///
    /// With the user flag the page comes from the user pool, otherwise from
    /// the kernel pool. The zero flag asks the caller's memory layer to clear
    /// the page. Returns `None` if no page is available.
    pub fn get_page(&mut self, flags: AllocateFlags) -> (r: Option<u64>)
        requires
            old(self).wf(),
        ensures
            final(self).wf(),
            get_pages_post(*old(self), *final(self), 1, flags, r),
    {
        self.get_pages(1, flags)
    }

    /// Obtains a group of `count` contiguous free pages and returns the start
    /// address of the first.
    ///
    /// With the user flag the pages come from the user pool, otherwise from
    /// the kernel pool. The zero flag asks the caller's memory layer to clear
    /// the pages. Returns `None` if `count` is zero or too few pages are
    /// available.
    pub fn get_pages(&mut self, count: usize, flags: AllocateFlags) -> (r: Option<u64>)
        requires
            old(self).wf(),
        ensures
            final(self).wf(),
            get_pages_post(*old(self), *final(self), count as int, flags, r),
    {
        if count == 0 {
            return None;
        }
        if flags.contains_user() {
            let r = self.user_pool.allocate(count);
            r
        } else {
            let r = self.kernel_pool.allocate(count);
            r
        }
    }

    /// Obtains `count` contiguous free pages whose first page index within
    /// its pool is a multiple of `align_pages`, as a thread's 16 KiB-aligned
    /// stack needs. Returns `None` if `count` is zero or no such run is
    /// available.
    pub fn get_pages_aligned(&mut self, count: usize, align_pages: usize, flags: AllocateFlags)
        -> (r: Option<u64>)
        requires
            old(self).wf(),
            1 <= align_pages,
        ensures
            final(self).wf(),
            ({
                let old_pool = if flags.spec_user() {
                    old(self).user_pool
                } else {
                    old(self).kernel_pool
                };
                let new_pool = if flags.spec_user() {
                    final(self).user_pool
                } else {
                    final(self).kernel_pool
                };
                let other_old = if flags.spec_user() {
                    old(self).kernel_pool
                } else {
                    old(self).user_pool
                };
                let other_new = if flags.spec_user() {
                    final(self).kernel_pool
                } else {
                    final(self).user_pool
                };
                &&& other_new == other_old
                &&& match r {
                    Some(addr) => count >= 1 && pool_alloc_post(
                        old_pool,
                        new_pool,
                        count as int,
                        addr,
                    ) && old_pool.spec_page_index(addr) % (align_pages as int) == 0,
                    None => pool_unchanged(old_pool, new_pool) && ((count >= 1
                        && old_pool.is_initialized()) ==> pool_exhausted_aligned(
                        old_pool,
                        count as int,
                        align_pages as int,
                    )),
                }
            }),
    {
        if count == 0 {
            return None;
        }
        if flags.contains_user() {
            self.user_pool.allocate_aligned(count, align_pages)
        } else {
            self.kernel_pool.allocate_aligned(count, align_pages)
        }
    }

    /// Frees the page at `page_start`. The page must have been obtained from
    /// `get_page` or `get_pages`.
    pub fn free_page(&mut self, page_start: u64)
        requires
            old(self).wf(),
            old(self).kernel_pool.spec_contains_page(page_start) ==> pool_can_free(
                old(self).kernel_pool,
                page_start,
                1,
            ),
            !old(self).kernel_pool.spec_contains_page(page_start) ==> pool_can_free(
                old(self).user_pool,
                page_start,
                1,
            ),
        ensures
            final(self).wf(),
            free_pages_post(*old(self), *final(self), page_start, 1),
    {
        self.free_pages(page_start, 1);
    }

    /// Frees `count` pages starting at `page_start`. The pages must have been
    /// obtained from `get_page` or `get_pages`; the kernel overwrites them
    /// with a poison byte before clearing their bits, which is the caller's
    /// memory layer's step here. Freeing pages that no pool holds is a fatal
    /// error in the kernel, so it is excluded here.
    pub fn free_pages(&mut self, page_start: u64, count: usize)
        requires
            old(self).wf(),
            count >= 1 ==> old(self).kernel_pool.spec_contains_page(page_start) ==> pool_can_free(
                old(self).kernel_pool,
                page_start,
                count as int,
            ),
            count >= 1 ==> !old(self).kernel_pool.spec_contains_page(page_start)
                ==> pool_can_free(old(self).user_pool, page_start, count as int),
        ensures
            final(self).wf(),
            count == 0 ==> *final(self) == *old(self),
            count >= 1 ==> free_pages_post(*old(self), *final(self), page_start, count as int),
    {
        if count == 0 {
            return ;
        }
        if self.kernel_pool.contains_page(page_start) {
            self.kernel_pool.free(page_start, count);
        } else {
            self.user_pool.free(page_start, count);
        }
    }
}

/// The pool has no free run of `count` pages anywhere: the request exceeds
/// its largest free run.
pub open spec fn pool_exhausted(pool: Pool, count: int) -> bool {
    forall|k: int|
        0 <= k && k + count <= pool.spec_size() ==> !(#[trigger] run_matches(
            pool.bits(),
            k,
            count,
            false,
        ))
}

/// The pool has no free run of `count` pages starting at a page index that
/// is a multiple of `align`.
pub open spec fn pool_exhausted_aligned(pool: Pool, count: int, align: int) -> bool {
    forall|k: int|
        0 <= k && k + count <= pool.spec_size() && k % align == 0 ==> !(#[trigger] run_matches(
            pool.bits(),
            k,
            count,
            false,
        ))
}

/// The pool's observable state is unchanged: same shape, same bits.
pub open spec fn pool_unchanged(old_pool: Pool, new_pool: Pool) -> bool {
    &&& new_pool.is_initialized() == old_pool.is_initialized()
    &&& new_pool.spec_base() == old_pool.spec_base()
    &&& new_pool.spec_size() == old_pool.spec_size()
    &&& new_pool.bits() == old_pool.bits()
}

/// What `get_pages` promises: the pool the flags do not select is untouched;
/// the selected pool either supplied the first free run of `count` pages,
/// now marked used, or is unchanged because no such run existed (or the
/// request was for zero pages).
pub open spec fn get_pages_post(
    old_alloc: PageAllocator,
    new_alloc: PageAllocator,
    count: int,
    flags: AllocateFlags,
    r: Option<u64>,
) -> bool {
    let old_pool = if flags.spec_user() {
        old_alloc.user_pool
    } else {
        old_alloc.kernel_pool
    };
    let new_pool = if flags.spec_user() {
        new_alloc.user_pool
    } else {
        new_alloc.kernel_pool
    };
    let other_old = if flags.spec_user() {
        old_alloc.kernel_pool
    } else {
        old_alloc.user_pool
    };
    let other_new = if flags.spec_user() {
        new_alloc.kernel_pool
    } else {
        new_alloc.user_pool
    };
    &&& other_new == other_old
    &&& match r {
        Some(addr) => {
            &&& count >= 1
            &&& pool_alloc_post(old_pool, new_pool, count, addr)
            &&& forall|k: int|
                0 <= k < old_pool.spec_page_index(addr) ==> !run_matches(
                    old_pool.bits(),
                    k,
                    count,
                    false,
                )
        },
        None => {
            &&& pool_unchanged(old_pool, new_pool)
            &&& ((count >= 1 && old_pool.is_initialized()) ==> pool_exhausted(old_pool, count))
        },
    }
}

/// What `free_pages` promises: the run's pages are cleared in the pool that
/// holds them; the other pool is untouched.
pub open spec fn free_pages_post(
    old_alloc: PageAllocator,
    new_alloc: PageAllocator,
    page_start: u64,
    count: int,
) -> bool {
    if old_alloc.kernel_pool.spec_contains_page(page_start) {
        &&& new_alloc.user_pool == old_alloc.user_pool
        &&& pool_free_post(old_alloc.kernel_pool, new_alloc.kernel_pool, page_start, count)
    } else {
        &&& new_alloc.kernel_pool == old_alloc.kernel_pool
        &&& pool_free_post(old_alloc.user_pool, new_alloc.user_pool, page_start, count)
    }
}

/// A page stays marked used across any later allocation: allocating marks
/// more pages and clears none, so a page's bit is set throughout its
/// lifetime. The lemma speaks of one pool and covers both: every operation
/// touches one pool and leaves the other equal, as `get_pages_post` and
/// `free_pages_post` state.
pub proof fn lemma_marked_pages_stay_marked(
    old_pool: Pool,
    new_pool: Pool,
    count: int,
    addr: u64,
    j: int,
)
    requires
        pool_alloc_post(old_pool, new_pool, count, addr),
        0 <= j < old_pool.spec_size(),
        old_pool.bits()[j] == true,
    ensures
        new_pool.bits()[j] == true,
{
}

/// Freeing a run clears exactly that run: every other page's bit, set or
/// clear, is untouched.
pub proof fn lemma_free_clears_only_run(
    old_pool: Pool,
    new_pool: Pool,
    page_start: u64,
    count: int,
    j: int,
)
    requires
        pool_free_post(old_pool, new_pool, page_start, count),
        0 <= j < old_pool.spec_size(),
        !(old_pool.spec_page_index(page_start) <= j < old_pool.spec_page_index(page_start)
            + count),
    ensures
        new_pool.bits()[j] == old_pool.bits()[j],
{
}

/// When an allocation is refused, the request exceeded the pool's largest
/// free run: every free run is shorter than the request.
pub proof fn lemma_refusal_bounds_free_runs(
    bits: Seq<bool>,
    count: int,
    start: int,
    length: int,
)
    requires
        forall|j: int| 0 <= j && j + count <= bits.len() ==> !run_matches(bits, j, count, false),
        0 <= start,
        start + length <= bits.len(),
        run_matches(bits, start, length, false),
        count >= 0,
    ensures
        length < count,
{
    if length >= count {
        assert(run_matches(bits, start, count, false));
    }
}

/// The shape facts of an initialized, well-formed pool.
pub proof fn lemma_pool_shape(pool: Pool)
    requires
        pool.wf(),
        pool.is_initialized(),
    ensures
        pool.spec_base() % (PAGE_SIZE as u64) == 0,
        pool.spec_base() + (PAGE_SIZE as int) * pool.spec_size() <= u64::MAX,
{
}

/// For one page or more, the pool's bitmap pages never outnumber its pages.
proof fn lemma_pool_bitmap_fits(page_count: nat)
    requires
        1 <= page_count <= usize::MAX,
    ensures
        spec_pages_used(page_count) <= page_count,
{
    let elements = crate::bit_set::spec_element_count(page_count);
    assert(elements == (page_count + 31) / 32);
    assert((page_count + 31) / 32 <= page_count) by (nonlinear_arith)
        requires
            1 <= page_count,
    ;
    let buffer = spec_buffer_size(page_count);
    assert(buffer == 16 + 4 * elements);
    let pages = spec_pages_used(page_count);
    assert(pages == (buffer + 4095) / 4096);
    assert((16 + 4 * elements + 4095) / 4096 <= page_count) by (nonlinear_arith)
        requires
            1 <= page_count,
            elements <= page_count,
    ;
}

/// Page index arithmetic: the address of page `i` maps back to index `i`.
proof fn lemma_page_address_round_trip(base: u64, i: int, size: int)
    requires
        base % (PAGE_SIZE as u64) == 0,
        0 <= i <= size,
        base + (PAGE_SIZE as int) * size <= u64::MAX,
    ensures
        ((base + (PAGE_SIZE as int) * i) - base) / (PAGE_SIZE as int) == i,
        (base + (PAGE_SIZE as int) * i) % (PAGE_SIZE as int) == 0,
{
    assert(((base + (PAGE_SIZE as int) * i) - base) / (PAGE_SIZE as int) == i) by (nonlinear_arith)
        requires
            0 <= i,
    ;
    assert((base + (PAGE_SIZE as int) * i) % (PAGE_SIZE as int) == 0) by (nonlinear_arith)
        requires
            base % (PAGE_SIZE as u64) == 0,
            0 <= i,
            base + (PAGE_SIZE as int) * i <= u64::MAX,
    ;
}

} // verus!

