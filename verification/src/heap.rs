use vstd::prelude::*;

verus! {

use crate::PAGE_SIZE;
use crate::div_round_up;
use crate::spec_div_round_up;
use crate::linked_list::LinkedList;
use crate::linked_list::Node;
use crate::palloc::AllocateFlags;
use crate::palloc::PageAllocator;
use crate::palloc::Pool;
use crate::palloc::pool_can_free;
use crate::palloc::pool_free_post;
use crate::bit_set::run_matches;

/// Magic number at the start of every arena, for detecting corruption.
pub const ARENA_MAGIC: u32 = 0x8a547eed;

/// Bytes that the arena header occupies at the start of its page.
pub const ARENA_HEADER_SIZE: usize = 48;

/// Number of block size classes.
pub const DESCRIPTORS_SIZE: usize = 7;

/// Largest block size served from an arena; bigger requests get whole pages.
pub const MAX_BLOCK_SIZE: usize = 1024;

/// Mask that rounds an address down to its page.
pub const PAGE_MASK: u64 = 0xfff;

/// Block size of size class `i`: 16, 32, 64, 128, 256, 512, 1024.
pub open spec fn spec_class_block_size(i: int) -> int {
    if i == 0 {
        16
    } else if i == 1 {
        32
    } else if i == 2 {
        64
    } else if i == 3 {
        128
    } else if i == 4 {
        256
    } else if i == 5 {
        512
    } else if i == 6 {
        1024
    } else {
        0
    }
}

/// Blocks of size `block_size` that fit in one arena beside its header.
pub open spec fn spec_blocks_per_arena(block_size: int) -> int {
    ((PAGE_SIZE - ARENA_HEADER_SIZE) as int) / block_size
}

/// `addr` is one of the `n` blocks of size `bs` carved out of the arena page
/// at `base`: the blocks fill the page's tail, each aligned to the block
/// size.
pub open spec fn is_block_of(base: u64, bs: int, n: int, addr: u64) -> bool {
    &&& (addr as int) % bs == 0
    &&& base + PAGE_SIZE - n * bs <= addr
    &&& addr < base + PAGE_SIZE
}

/// The free list `s` with every block of the arena at `base` removed, in
/// order.
pub open spec fn spec_filter_blocks(s: Seq<u64>, base: u64, bs: int, n: int) -> Seq<u64>
    decreases s.len(),
{
    if s.len() == 0 {
        Seq::empty()
    } else {
        let rest = spec_filter_blocks(s.drop_first(), base, bs, n);
        if is_block_of(base, bs, n, s.first()) {
            rest
        } else {
            seq![s.first()] + rest
        }
    }
}

/// How many elements of `s` are blocks of the arena at `base`.
pub open spec fn spec_count_blocks(s: Seq<u64>, base: u64, bs: int, n: int) -> int
    decreases s.len(),
{
    if s.len() == 0 {
        0
    } else {
        spec_count_blocks(s.drop_first(), base, bs, n) + if is_block_of(base, bs, n, s.first()) {
            1int
        } else {
            0int
        }
    }
}

/// Metadata for the descriptor that owns an arena, recorded in the arena.
#[derive(Debug, Clone, Copy, PartialEq, Eq, Structural)]
pub struct ArenaDescriptor {
    /// Descriptor index.
    pub index: usize,
    /// Size of the blocks in this arena.
    pub block_size: usize,
    /// Number of blocks in this arena.
    pub blocks_per_arena: usize,
}

/// An arena: one page (or, for a large allocation, a run of pages) obtained
/// from the page allocator, carrying a header at its base. In the kernel the
/// header lives in the page itself; here it is carried as a record keyed by
/// the page's address.
#[derive(Debug, Clone, Copy, PartialEq, Eq, Structural)]
pub struct Arena {
    /// Start address of the page holding this arena's header.
    pub base: u64,
    /// Always `ARENA_MAGIC`; anything else means corruption.
    pub magic: u32,
    /// The metadata of the descriptor that owns this arena; `None` for a
    /// large allocation.
    pub descriptor: Option<ArenaDescriptor>,
    /// Free blocks, for an arena with a descriptor; number of pages, for an
    /// arena holding one large block.
    pub free_cnt: usize,
}

impl Arena {
    /// Pages this arena spans.
    pub open spec fn spec_page_count(self) -> int {
        match self.descriptor {
            Some(_) => 1,
            None => self.free_cnt as int,
        }
    }

    /// Initializes a new arena header at the start of the allocated page at
    /// `base`.
    pub fn from(base: u64) -> (a: Arena)
        ensures
            a == (Arena { base, magic: ARENA_MAGIC, descriptor: None, free_cnt: 0 }),
    {
        Arena { base, magic: ARENA_MAGIC, descriptor: None, free_cnt: 0 }
    }

    /// Sanity check: the magic is intact.
    pub fn is_arena(&self) -> (r: bool)
        ensures
            r == (self.magic == ARENA_MAGIC),
    {
        self.magic == ARENA_MAGIC
    }

    /// Notes that a block has been allocated from this arena. Allocating from
    /// an arena with no free blocks is a fatal error in the kernel, so it is
    /// excluded here.
    pub fn allocate_block(&mut self)
        requires
            old(self).free_cnt > 0,
        ensures
            *final(self) == (Arena { free_cnt: (old(self).free_cnt - 1) as usize, ..*old(self) }),
    {
        self.free_cnt = self.free_cnt - 1;
    }

    /// Returns the addresses of the blocks in this arena, in order. Only an
    /// arena owned by a descriptor has blocks.
    pub fn blocks(&self) -> (r: Vec<u64>)
        requires
            self.descriptor is Some,
            self.descriptor->Some_0.block_size >= 1,
            self.descriptor->Some_0.blocks_per_arena as int * self.descriptor->Some_0.block_size
                as int <= PAGE_SIZE - ARENA_HEADER_SIZE,
            self.base + PAGE_SIZE <= u64::MAX,
            self.base % (PAGE_SIZE as u64) == 0,
        ensures
            r@.len() == self.descriptor->Some_0.blocks_per_arena,
            forall|j: int|
                0 <= j < r@.len() ==> r@[j] == self.base + PAGE_SIZE - (
                self.descriptor->Some_0.blocks_per_arena as int) * (
                self.descriptor->Some_0.block_size as int) + j * (
                self.descriptor->Some_0.block_size as int),
    {
        let descriptor = match self.descriptor {
            Some(d) => d,
            None => {
                // Excluded by the precondition.
                return Vec::new();
            },
        };
        let n = descriptor.blocks_per_arena;
        let bs = descriptor.block_size;
        proof {
            assert((n as int) * (bs as int) >= 0) by (nonlinear_arith)
                requires
                    n >= 0,
                    bs >= 0,
            ;
        }
        let first = self.base + (PAGE_SIZE as u64) - (n as u64) * (bs as u64);
        let mut r: Vec<u64> = Vec::new();
        let mut j: usize = 0;
        while j < n
            invariant
                j <= n,
                r@.len() == j,
                1 <= bs,
                (n as int) * (bs as int) <= PAGE_SIZE - ARENA_HEADER_SIZE,
                self.base + PAGE_SIZE <= u64::MAX,
                first == self.base + PAGE_SIZE - (n as int) * (bs as int),
                forall|k: int|
                    0 <= k < j ==> r@[k] == self.base + PAGE_SIZE - (n as int) * (bs as int) + k * (
                    bs as int),
            decreases n - j,
        {
            proof {
                assert((j as int) * (bs as int) + (bs as int) <= (n as int) * (bs as int))
                    by (nonlinear_arith)
                    requires
                        j < n,
                        bs >= 1,
                ;
                assert((j as int) * (bs as int) >= 0) by (nonlinear_arith)
                    requires
                        j >= 0,
                        bs >= 0,
                ;
            }
            r.push(first + (j as u64) * (bs as u64));
            j = j + 1;
        }
        r
    }
}

/// Descriptor of the list of fixed-size blocks of one size class.
pub struct Descriptor {
    /// Size of each block in bytes.
    pub block_size: usize,
    /// Number of blocks in an arena of this class.
    pub blocks_per_arena: usize,
    /// List of free blocks, by address.
    pub free_list: LinkedList,
}

/// The kernel heap: a slab allocator over the page allocator.
///
/// The size of each request is rounded up to a power-of-two size class, whose
/// descriptor keeps a list of free blocks. When the list runs dry a fresh
/// page, an arena, is fetched from the kernel pool and split into blocks.
/// Requests too big for any class get whole pages, with the arena header
/// recording the page span. In the kernel each descriptor sits behind a
/// sleeping mutex; in this single-stepped model the descriptors are held
/// directly.
pub struct Allocator {
    /// One descriptor per size class.
    pub descriptors: Vec<Descriptor>,
    /// The live arena headers. In the kernel each lives at the base of its
    /// page run; here they are carried as records.
    pub arenas: Vec<Arena>,
}

impl Allocator {
    /// The descriptors hold their fixed classes; every free block belongs to
    /// a live arena of its class, exactly `free_cnt` of each arena's blocks
    /// are free, and distinct arenas cover disjoint page runs.
    pub open spec fn wf(self) -> bool {
        &&& self.descriptors@.len() == DESCRIPTORS_SIZE
        &&& forall|i: int|
            0 <= i < DESCRIPTORS_SIZE ==> (#[trigger] self.descriptors@[i]).block_size
                == spec_class_block_size(i) && self.descriptors@[i].blocks_per_arena
                == spec_blocks_per_arena(spec_class_block_size(i))
        &&& forall|i: int, k: int|
            0 <= i < DESCRIPTORS_SIZE && 0 <= k < self.descriptors@[i].free_list@.len()
                ==> self.block_has_arena(i, #[trigger] self.descriptors@[i].free_list@[k])
        &&& forall|ai: int| 0 <= ai < self.arenas@.len() ==> self.arena_wf(#[trigger] self.arenas@[ai])
        &&& forall|ai: int, aj: int|
            0 <= ai < self.arenas@.len() && 0 <= aj < self.arenas@.len() && ai != aj
                ==> arenas_disjoint(#[trigger] self.arenas@[ai], #[trigger] self.arenas@[aj])
    }

    /// The free block `addr` of class `i` belongs to some live arena of that
    /// class, which counts it among its free blocks.
    pub open spec fn block_has_arena(self, i: int, addr: u64) -> bool {
        exists|ai: int|
            0 <= ai < self.arenas@.len() && (#[trigger] self.arenas@[ai]).descriptor == Some(
                ArenaDescriptor {
                    index: i as usize,
                    block_size: spec_class_block_size(i) as usize,
                    blocks_per_arena: spec_blocks_per_arena(spec_class_block_size(i)) as usize,
                },
            ) && is_block_of(
                self.arenas@[ai].base,
                spec_class_block_size(i),
                spec_blocks_per_arena(spec_class_block_size(i)),
                addr,
            )
    }

    /// One arena's own shape, and its free count agreeing with its class's
    /// free list.
    pub open spec fn arena_wf(self, a: Arena) -> bool {
        &&& a.magic == ARENA_MAGIC
        &&& a.base % (PAGE_SIZE as u64) == 0
        &&& a.base + (PAGE_SIZE as int) * a.spec_page_count() <= u64::MAX
        &&& match a.descriptor {
            Some(d) => {
                &&& d.index < DESCRIPTORS_SIZE
                &&& d.block_size == spec_class_block_size(d.index as int)
                &&& d.blocks_per_arena == spec_blocks_per_arena(d.block_size as int)
                &&& a.free_cnt <= d.blocks_per_arena
                &&& a.free_cnt == spec_count_blocks(
                    self.descriptors@[d.index as int].free_list@,
                    a.base,
                    d.block_size as int,
                    d.blocks_per_arena as int,
                )
            },
            None => a.free_cnt >= 1,
        }
    }

    /// Every arena's page run is marked used in the kernel pool, so the pages
    /// the heap hands out stay the heap's until it frees them.
    pub open spec fn arenas_valid(self, palloc: PageAllocator) -> bool {
        forall|ai: int|
            0 <= ai < self.arenas@.len() ==> arena_pages_held(
                #[trigger] self.arenas@[ai],
                palloc.kernel_pool,
            )
    }

    /// Creates a new allocator with empty free lists and no arenas.
    pub fn new() -> (r: Allocator)
        ensures
            r.wf(),
            r.arenas@.len() == 0,
            forall|i: int|
                0 <= i < DESCRIPTORS_SIZE ==> (#[trigger] r.descriptors@[i]).free_list@.len() == 0,
    {
        let mut descriptors: Vec<Descriptor> = Vec::new();
        let mut i: usize = 0;
        while i < DESCRIPTORS_SIZE
            invariant
                i <= DESCRIPTORS_SIZE,
                descriptors@.len() == i,
                forall|k: int|
                    0 <= k < i ==> (#[trigger] descriptors@[k]).block_size == spec_class_block_size(
                        k,
                    ) && descriptors@[k].blocks_per_arena == spec_blocks_per_arena(
                        spec_class_block_size(k),
                    ) && descriptors@[k].free_list@.len() == 0,
            decreases DESCRIPTORS_SIZE - i,
        {
            let block_size = class_block_size(i);
            descriptors.push(
                Descriptor {
                    block_size,
                    blocks_per_arena: (PAGE_SIZE - ARENA_HEADER_SIZE) / block_size,
                    free_list: LinkedList::new(),
                },
            );
            i = i + 1;
        }
        Allocator { descriptors, arenas: Vec::new() }
    }

    /// Finds the index of the descriptor whose class is the smallest that
    /// fits a block of `size` bytes, `None` when `size` is too big for any
    /// class.
    pub fn get_descriptor(&self, size: usize) -> (r: Option<usize>)
        ensures
            match r {
                Some(i) => i < DESCRIPTORS_SIZE && size <= spec_class_block_size(i as int) && (
                forall|k: int| 0 <= k < i ==> size > spec_class_block_size(k)),
                None => size > MAX_BLOCK_SIZE,
            },
    {
        let mut i: usize = 0;
        while i < DESCRIPTORS_SIZE
            invariant
                i <= DESCRIPTORS_SIZE,
                forall|k: int| 0 <= k < i ==> size > spec_class_block_size(k),
            decreases DESCRIPTORS_SIZE - i,
        {
            if size <= class_block_size(i) {
                return Some(i);
            }
            i = i + 1;
        }
        proof {
            assert(size > spec_class_block_size(6));
        }
        None
    }

    /// Serves a request for `size` bytes.
    ///
    /// A request that fits a size class takes the head of that class's free
    /// list, fetching and splitting a fresh arena page from the kernel pool
    /// when the list is dry. A bigger request takes just enough whole pages
    /// for itself and an arena header. Returns `None` when the kernel pool
    /// cannot supply the pages; the kernel's global allocator then reports
    /// exhaustion to its caller.
    pub fn allocate(&mut self, palloc: &mut PageAllocator, size: usize) -> (r: Option<u64>)
        requires
            old(self).wf(),
            old(palloc).wf(),
            old(self).arenas_valid(*old(palloc)),
            size + ARENA_HEADER_SIZE <= usize::MAX,
        ensures
            final(self).wf(),
            final(palloc).wf(),
            final(self).arenas_valid(*final(palloc)),
            final(palloc).user_pool == old(palloc).user_pool,
            match r {
                None => final(self).descriptors@ =~= old(self).descriptors@ && final(self).arenas@
                    =~= old(self).arenas@ && crate::palloc::pool_unchanged(
                    old(palloc).kernel_pool,
                    final(palloc).kernel_pool,
                ) && (if size <= MAX_BLOCK_SIZE {
                    small_alloc_failed(*old(self), *old(palloc), size)
                } else {
                    large_alloc_failed(*old(palloc), size)
                }),
                Some(b) => if size <= MAX_BLOCK_SIZE {
                    small_alloc_post(
                        *old(self),
                        *final(self),
                        *old(palloc),
                        *final(palloc),
                        size,
                        b,
                    )
                } else {
                    large_alloc_post(
                        *old(self),
                        *final(self),
                        *old(palloc),
                        *final(palloc),
                        size,
                        b,
                    )
                },
            },
    {
        match self.get_descriptor(size) {
            Some(di) => {
                proof {
                    lemma_class_index_unique(size, di as int);
                }
                self.allocate_small(palloc, size, di)
            },
            None => self.allocate_large(palloc, size),
        }
    }

    /// Returns a block or a large allocation at `ptr` to the heap.
    ///
    /// A block of an arena is poisoned by the kernel's memory layer and put
    /// back at the front of its class's free list; when that makes the arena
    /// entirely unused, all of its blocks leave the list and its page goes
    /// back to the page allocator. A large allocation's pages go straight
    /// back. Freeing an address without a live arena, freeing a block twice,
    /// or freeing into a full arena corrupts the kernel heap, so those are
    /// excluded here.
    pub fn deallocate(&mut self, palloc: &mut PageAllocator, ptr: u64)
        requires
            old(self).wf(),
            old(palloc).wf(),
            old(self).arenas_valid(*old(palloc)),
            exists|ai: int|
                0 <= ai < old(self).arenas@.len() && (#[trigger] old(self).arenas@[ai]).base == ptr
                    & !PAGE_MASK,
            forall|ai: int|
                0 <= ai < old(self).arenas@.len() && (#[trigger] old(self).arenas@[ai]).base == ptr
                    & !PAGE_MASK ==> match old(self).arenas@[ai].descriptor {
                    Some(d) => is_block_of(
                        old(self).arenas@[ai].base,
                        d.block_size as int,
                        d.blocks_per_arena as int,
                        ptr,
                    ) && !old(self).descriptors@[d.index as int].free_list@.contains(ptr) && old(self).arenas@[ai].free_cnt < d.blocks_per_arena,
                    None => true,
                },
        ensures
            final(self).wf(),
            final(palloc).wf(),
            final(self).arenas_valid(*final(palloc)),
            final(palloc).user_pool == old(palloc).user_pool,
            forall|ai: int|
                0 <= ai < old(self).arenas@.len() && (#[trigger] old(self).arenas@[ai]).base == ptr
                    & !PAGE_MASK ==> dealloc_post(
                    *old(self),
                    *final(self),
                    *old(palloc),
                    *final(palloc),
                    ptr,
                    ai,
                ),
    {
        let base = ptr & !PAGE_MASK;
        let ai = self.find_arena(base);
        proof {
            // Arena bases are distinct, so this index is the one the
            // preconditions describe.
            let w = choose|w: int|
                0 <= w < old(self).arenas@.len() && (#[trigger] old(self).arenas@[w]).base == ptr
                    & !PAGE_MASK;
            if w != ai as int {
                assert(arenas_disjoint(old(self).arenas@[w], old(self).arenas@[ai as int]));
                assert(old(self).arena_wf(old(self).arenas@[w]));
                assert(old(self).arena_wf(old(self).arenas@[ai as int]));
                assert(old(self).arenas@[w].spec_page_count() >= 1);
                assert(old(self).arenas@[ai as int].spec_page_count() >= 1);
                assert(false);
            }
        }
        let a = self.arenas[ai];
        match a.descriptor {
            None => {
                // A large allocation: give back exactly its page span.
                self.arenas.remove(ai);
                proof {
                    self.lemma_release_arena(*old(self), *old(palloc), ai as int);
                }
                palloc.free_pages(base, a.free_cnt);
                proof {
                    self.lemma_release_holds(*old(self), *old(palloc), *palloc, ai as int);
                    assert forall|i: int, k: int|
                        0 <= i < DESCRIPTORS_SIZE && 0 <= k
                            < self.descriptors@[i].free_list@.len() implies self.block_has_arena(
                        i,
                        #[trigger] self.descriptors@[i].free_list@[k],
                    ) by {
                        let addr = self.descriptors@[i].free_list@[k];
                        assert(old(self).block_has_arena(i, addr));
                        let w = choose|w: int|
                            0 <= w < old(self).arenas@.len() && (#[trigger] old(self).arenas@[w]).descriptor == Some(
                                ArenaDescriptor {
                                    index: i as usize,
                                    block_size: spec_class_block_size(i) as usize,
                                    blocks_per_arena: spec_blocks_per_arena(
                                        spec_class_block_size(i),
                                    ) as usize,
                                },
                            ) && is_block_of(
                                old(self).arenas@[w].base,
                                spec_class_block_size(i),
                                spec_blocks_per_arena(spec_class_block_size(i)),
                                addr,
                            );
                        assert(w != ai as int);
                        if w < ai as int {
                            assert(self.arenas@[w] == old(self).arenas@[w]);
                        } else {
                            assert(self.arenas@[w - 1] == old(self).arenas@[w]);
                        }
                    }
                    assert forall|w: int| 0 <= w < self.arenas@.len() implies self.arena_wf(
                        #[trigger] self.arenas@[w],
                    ) by {
                        if w < ai as int {
                            assert(old(self).arena_wf(old(self).arenas@[w]));
                        } else {
                            assert(old(self).arena_wf(old(self).arenas@[w + 1]));
                        }
                    }
                    assert(self.wf());
                }
            },
            Some(d) => {
                let di = d.index;
                proof {
                    assert(old(self).arena_wf(old(self).arenas@[ai as int]));
                }
                let mut desc = self.descriptors.remove(di);
                let ghost old_list = desc.free_list@;
                if a.free_cnt + 1 < d.blocks_per_arena {
                    // Put the block back at the front of its class's list.
                    let mut node = Node::new(ptr);
                    desc.free_list.push_front(&mut node);
                    self.descriptors.insert(di, desc);
                    let mut a2 = self.arenas.remove(ai);
                    a2.free_cnt = a2.free_cnt + 1;
                    let ghost pre_arenas = old(self).arenas@;
                    self.arenas.insert(ai, a2);
                    proof {
                        assert(self.arenas@ =~= pre_arenas.update(ai as int, a2));
                        assert(self.descriptors@ =~= old(self).descriptors@.update(
                            di as int,
                            desc,
                        ));
                        assert(desc.free_list@ =~= seq![ptr] + old_list);
                        self.lemma_dealloc_push_restores(
                            *old(self),
                            *palloc,
                            di as int,
                            ai as int,
                            ptr,
                            old_list,
                        );
                    }
                } else {
                    // The arena is now entirely unused: remove all of its
                    // blocks from the list and give the page back.
                    let ghost gbs = d.block_size as int;
                    let ghost gn = d.blocks_per_arena as int;
                    proof {
                        lemma_class_geometry(gbs);
                    }
                    let mut kept = LinkedList::new();
                    let ghost whole = seq![ptr] + old_list;
                    proof {
                        // Freeing the block conceptually returns it first;
                        // its own arena block is filtered out again at once.
                        assert(whole.drop_first() =~= old_list);
                        assert(whole.first() == ptr);
                        assert(spec_filter_blocks(whole, base, gbs, gn) == spec_filter_blocks(
                            old_list,
                            base,
                            gbs,
                            gn,
                        ));
                    }
                    loop
                        invariant
                            old(self).wf(),
                            0 <= di < DESCRIPTORS_SIZE,
                            gbs == spec_class_block_size(di as int),
                            gn == spec_blocks_per_arena(gbs),
                            1 <= gbs <= MAX_BLOCK_SIZE,
                            desc.block_size == old(self).descriptors@[di as int].block_size,
                            desc.blocks_per_arena == old(self).descriptors@[di as int].blocks_per_arena,
                            base == old(self).arenas@[ai as int].base,
                            0 <= ai < old(self).arenas@.len(),
                            old(self).arenas@[ai as int].descriptor == Some(
                                ArenaDescriptor {
                                    index: di,
                                    block_size: gbs as usize,
                                    blocks_per_arena: gn as usize,
                                },
                            ),
                            old(self).descriptors@[di as int].free_list@ == old_list,
                            forall|k: int|
                                0 <= k < desc.free_list@.len() ==> old_list.contains(
                                    #[trigger] desc.free_list@[k],
                                ),
                            spec_filter_blocks(old_list, base, gbs, gn) =~= kept@
                                + spec_filter_blocks(desc.free_list@, base, gbs, gn),
                        ensures
                            desc.free_list@.len() == 0,
                            kept@ =~= spec_filter_blocks(old_list, base, gbs, gn),
                            desc.block_size == old(self).descriptors@[di as int].block_size,
                            desc.blocks_per_arena == old(self).descriptors@[di as int].blocks_per_arena,
                        decreases desc.free_list@.len(),
                    {
                        let ghost remaining = desc.free_list@;
                        let popped = desc.free_list.pop_front();
                        let node = match popped {
                            Some(node) => node,
                            None => {
                                break ;
                            },
                        };
                        let id = node.id();
                        proof {
                            assert(old_list.contains(id));
                            let w = choose|k: int|
                                0 <= k < old_list.len() && old_list[k] == id;
                            assert(old(self).block_has_arena(di as int, old_list[w]));
                            let wi = choose|wi: int|
                                0 <= wi < old(self).arenas@.len() && (#[trigger] old(self).arenas@[wi]).descriptor == Some(
                                    ArenaDescriptor {
                                        index: di,
                                        block_size: gbs as usize,
                                        blocks_per_arena: gn as usize,
                                    },
                                ) && is_block_of(old(self).arenas@[wi].base, gbs, gn, id);
                            let wa = old(self).arenas@[wi];
                            assert(old(self).arena_wf(wa));
                            lemma_class_geometry(gbs);
                            lemma_block_page_mask(wa.base, id);
                            if wa.base == base {
                                assert(is_block_of(base, gbs, gn, id));
                            } else {
                                if is_block_of(base, gbs, gn, id) {
                                    assert(old(self).arena_wf(old(self).arenas@[ai as int]));
                                    lemma_block_page_mask(base, id);
                                    assert(false);
                                }
                            }
                            assert((id & !PAGE_MASK == base) == is_block_of(base, gbs, gn, id));
                        }
                        let mut node = node;
                        if node.id() & !PAGE_MASK != base {
                            kept.push_back(&mut node);
                        }
                        proof {
                            assert(remaining.drop_first() =~= desc.free_list@);
                            assert(remaining.first() == id);
                            if !is_block_of(base, gbs, gn, id) {
                                assert(spec_filter_blocks(remaining, base, gbs, gn) == seq![id]
                                    + spec_filter_blocks(desc.free_list@, base, gbs, gn));
                            }
                            assert(spec_filter_blocks(old_list, base, gbs, gn) =~= kept@
                                + spec_filter_blocks(desc.free_list@, base, gbs, gn));
                        }
                    }
                    desc.free_list = kept;
                    self.descriptors.insert(di, desc);
                    proof {
                        assert(self.descriptors@ =~= old(self).descriptors@.update(
                            di as int,
                            desc,
                        ));
                    }
                    self.arenas.remove(ai);
                    proof {
                        self.lemma_release_arena(*old(self), *old(palloc), ai as int);
                    }
                    palloc.free_pages(base, 1);
                    proof {
                        self.lemma_dealloc_release_restores(
                            *old(self),
                            *old(palloc),
                            *palloc,
                            di as int,
                            ai as int,
                            ptr,
                            old_list,
                        );
                    }
                }
            },
        }
    }

    /// Serves a request of `size` bytes that must start at a multiple of
    /// `align`, the shape the kernel's global allocator receives: the request
    /// is rounded up by whichever of size and alignment is larger, so the
    /// class that serves it is aligned at least as strongly as asked.
    /// Alignments are powers of two up to the largest class, as allocation
    /// layouts guarantee; bigger alignments have no class and the page-span
    /// path cannot honor them.
    pub fn allocate_layout(&mut self, palloc: &mut PageAllocator, size: usize, align: usize) -> (r:
        Option<u64>)
        requires
            old(self).wf(),
            old(palloc).wf(),
            old(self).arenas_valid(*old(palloc)),
            size + ARENA_HEADER_SIZE <= usize::MAX,
            spec_is_alignment(align),
        ensures
            final(self).wf(),
            final(palloc).wf(),
            final(self).arenas_valid(*final(palloc)),
            final(palloc).user_pool == old(palloc).user_pool,
            ({
                let request = spec_layout_request(size, align);
                match r {
                    None => final(self).descriptors@ =~= old(self).descriptors@ && final(self).arenas@ =~= old(self).arenas@ && crate::palloc::pool_unchanged(
                        old(palloc).kernel_pool,
                        final(palloc).kernel_pool,
                    ) && (if request <= MAX_BLOCK_SIZE {
                        small_alloc_failed(*old(self), *old(palloc), request)
                    } else {
                        large_alloc_failed(*old(palloc), request)
                    }),
                    Some(b) => (if request <= MAX_BLOCK_SIZE {
                        small_alloc_post(
                            *old(self),
                            *final(self),
                            *old(palloc),
                            *final(palloc),
                            request,
                            b,
                        ) && (b as int) % (align as int) == 0
                    } else {
                        large_alloc_post(
                            *old(self),
                            *final(self),
                            *old(palloc),
                            *final(palloc),
                            request,
                            b,
                        )
                    }),
                }
            }),
    {
        let request = if size >= align {
            size
        } else {
            align
        };
        let r = self.allocate(palloc, request);
        proof {
            if r is Some && request <= MAX_BLOCK_SIZE {
                let b = r->Some_0;
                let di = spec_class_index(request as int);
                let class = spec_class_block_size(di);
                lemma_small_alloc_in_arena(*self, request, b);
                let ai = choose|ai: int|
                    0 <= ai < self.arenas@.len() && (#[trigger] self.arenas@[ai]).magic
                        == ARENA_MAGIC && self.arenas@[ai].base + ARENA_HEADER_SIZE <= b && b
                        + spec_class_block_size(spec_class_index(request as int))
                        <= self.arenas@[ai].base + PAGE_SIZE && (b as int) % spec_class_block_size(
                        spec_class_index(request as int),
                    ) == 0 && request <= spec_class_block_size(spec_class_index(request as int));
                assert((b as int) % class == 0);
                assert(align <= request <= class);
                assert(class == 16 || class == 32 || class == 64 || class == 128 || class == 256
                    || class == 512 || class == 1024);
                // Both are powers of two and the class is at least the
                // alignment, so the class is a multiple of it.
                assert(class % (align as int) == 0) by {
                    if align == 1 {
                        assert(class % 1 == 0);
                    } else if align == 2 {
                        assert(class % 2 == 0);
                    } else if align == 4 {
                        assert(class % 4 == 0);
                    } else if align == 8 {
                        assert(class % 8 == 0);
                    } else if align == 16 {
                        assert(class % 16 == 0);
                    } else if align == 32 {
                        assert(class % 32 == 0);
                    } else if align == 64 {
                        assert(class % 64 == 0);
                    } else if align == 128 {
                        assert(class % 128 == 0);
                    } else if align == 256 {
                        assert(class % 256 == 0);
                    } else if align == 512 {
                        assert(class % 512 == 0);
                    } else {
                        assert(class % 1024 == 0);
                    }
                }
                lemma_mod_transitive(b as int, class, align as int);
            }
        }
        r
    }

    /// Returns the index of the live arena whose page starts at `base`.
    fn find_arena(&self, base: u64) -> (ai: usize)
        requires
            exists|k: int| 0 <= k < self.arenas@.len() && (#[trigger] self.arenas@[k]).base == base,
        ensures
            ai < self.arenas@.len(),
            self.arenas@[ai as int].base == base,
    {
        let mut i: usize = 0;
        loop
            invariant
                i <= self.arenas@.len(),
                exists|k: int| 0 <= k < self.arenas@.len() && (#[trigger] self.arenas@[k]).base == base,
                forall|k: int| 0 <= k < i ==> (#[trigger] self.arenas@[k]).base != base,
            decreases self.arenas@.len() - i,
        {
            if i >= self.arenas.len() {
                proof {
                    let w = choose|w: int|
                        0 <= w < self.arenas@.len() && (#[trigger] self.arenas@[w]).base == base;
                    assert(self.arenas@[w].base != base);
                }
                // Unreachable: an arena at `base` exists.
                return 0;
            }
            if self.arenas[i].base == base {
                return i;
            }
            i = i + 1;
        }
    }

    /// Serves a request that fits size class `di`: the head of that class's
    /// free list, after splitting a fresh arena into blocks when the list is
    /// dry.
    fn allocate_small(&mut self, palloc: &mut PageAllocator, size: usize, di: usize) -> (r: Option<
        u64,
    >)
        requires
            old(self).wf(),
            old(palloc).wf(),
            old(self).arenas_valid(*old(palloc)),
            di == spec_class_index(size as int),
            di < DESCRIPTORS_SIZE,
            size <= spec_class_block_size(di as int),
        ensures
            final(self).wf(),
            final(palloc).wf(),
            final(self).arenas_valid(*final(palloc)),
            final(palloc).user_pool == old(palloc).user_pool,
            match r {
                None => final(self).descriptors@ =~= old(self).descriptors@ && final(self).arenas@
                    =~= old(self).arenas@ && crate::palloc::pool_unchanged(
                    old(palloc).kernel_pool,
                    final(palloc).kernel_pool,
                ) && small_alloc_failed(*old(self), *old(palloc), size),
                Some(b) => small_alloc_post(
                    *old(self),
                    *final(self),
                    *old(palloc),
                    *final(palloc),
                    size,
                    b,
                ),
            },
    {
        let bs = class_block_size(di);
        proof {
            lemma_class_geometry(bs as int);
            lemma_class_divides(di as int);
        }
        let mut desc = self.descriptors.remove(di);
        let ghost old_list = desc.free_list@;
        let ghost gbs = bs as int;
        let ghost gn = spec_blocks_per_arena(gbs);
        if !desc.free_list.is_empty() {
            // Take the head of the free list and note the allocation in its
            // arena.
            let popped = desc.free_list.pop_front();
            let b: u64 = match popped {
                Some(node) => node.id(),
                None => {
                    proof {
                        assert(false);
                    }
                    0
                },
            };
            proof {
                assert(old(self).descriptors@[di as int].free_list@ == old_list);
                assert(old(self).block_has_arena(di as int, b));
            }
            let ghost wa = choose|ai: int|
                0 <= ai < old(self).arenas@.len() && (#[trigger] old(self).arenas@[ai]).descriptor
                    == Some(
                    ArenaDescriptor {
                        index: di,
                        block_size: gbs as usize,
                        blocks_per_arena: gn as usize,
                    },
                ) && is_block_of(old(self).arenas@[ai].base, gbs, gn, b);
            proof {
                let a = old(self).arenas@[wa];
                assert(old(self).arena_wf(a));
                lemma_block_page_mask(a.base, b);
            }
            let base = b & !PAGE_MASK;
            let ai = self.find_arena(base);
            proof {
                // Arena bases are distinct, so the found index is the block's
                // own arena.
                if ai as int != wa {
                    assert(arenas_disjoint(self.arenas@[ai as int], self.arenas@[wa]));
                    assert(self.arena_wf(self.arenas@[ai as int]));
                    assert(self.arenas@[ai as int].spec_page_count() >= 1);
                    assert(self.arenas@[wa].spec_page_count() >= 1);
                    assert(false);
                }
                // The head is a block of this arena, so its free count is
                // positive.
                assert(old(self).arena_wf(old(self).arenas@[ai as int]));
                assert(self.arenas@[ai as int] == old(self).arenas@[ai as int]);
                assert(old_list.first() == b);
                assert(spec_count_blocks(old_list, base, gbs, gn) == spec_count_blocks(
                    old_list.drop_first(),
                    base,
                    gbs,
                    gn,
                ) + 1);
                let d = self.arenas@[ai as int].descriptor->Some_0;
                assert(d.index == di);
                assert(d.block_size as int == gbs);
                assert(d.blocks_per_arena as int == gn);
                assert(old(self).descriptors@[di as int].free_list@ == old_list);
                assert(self.arenas@[ai as int].free_cnt == spec_count_blocks(
                    old_list,
                    base,
                    gbs,
                    gn,
                ));
                lemma_count_bounds(old_list.drop_first(), base, gbs, gn);
                assert(self.arenas@[ai as int].free_cnt >= 1);
            }
            let ghost pre_arenas = self.arenas@;
            let mut a = self.arenas.remove(ai);
            a.allocate_block();
            self.arenas.insert(ai, a);
            self.descriptors.insert(di, desc);
            proof {
                assert(self.arenas@ =~= pre_arenas.update(ai as int, a));
                assert(self.descriptors@ =~= old(self).descriptors@.update(di as int, desc));
                assert(self.descriptors@[di as int] == desc);
                self.lemma_alloc_pop_restores(
                    *old(self),
                    *palloc,
                    di as int,
                    ai as int,
                    b,
                    old_list,
                );
                assert(self.arenas@[ai as int].descriptor == Some(
                    ArenaDescriptor {
                        index: di,
                        block_size: gbs as usize,
                        blocks_per_arena: gn as usize,
                    },
                ) && is_block_of(self.arenas@[ai as int].base, gbs, gn, b));
                assert(self.block_has_arena(di as int, b));
                assert(self.descriptors@[di as int].free_list@ =~= old_list.drop_first());
            }
            Some(b)
        } else {
            // The free list is dry: fetch one zeroed page from the kernel
            // pool and split it into blocks.
            let page = match palloc.get_page(AllocateFlags::zero()) {
                Some(page) => page,
                None => {
                    self.descriptors.insert(di, desc);
                    proof {
                        assert(self.descriptors@ =~= old(self).descriptors@);
                        assert(old(self).descriptors@[di as int].free_list@.len() == 0);
                    }
                    return None;
                },
            };
            proof {
                let pool = old(palloc).kernel_pool;
                crate::palloc::lemma_pool_shape(pool);
                let i = pool.spec_page_index(page);
                assert((PAGE_SIZE as int) * i >= 0) by (nonlinear_arith)
                    requires
                        i >= 0,
                ;
                assert((PAGE_SIZE as int) * (i + 1) == (PAGE_SIZE as int) * i + (
                PAGE_SIZE as int)) by (nonlinear_arith);
                assert((PAGE_SIZE as int) * (i + 1) <= (PAGE_SIZE as int) * pool.spec_size())
                    by (nonlinear_arith)
                    requires
                        i + 1 <= pool.spec_size(),
                ;
                assert(page % (PAGE_SIZE as u64) == 0) by (nonlinear_arith)
                    requires
                        (page as int) == (pool.spec_base() as int) + (PAGE_SIZE as int) * i,
                        (pool.spec_base() as int) % (PAGE_SIZE as int) == 0,
                        i >= 0,
                ;
                lemma_class_divides(di as int);
                lemma_class_blocks(page, gbs, gn);
            }
            let mut arena = Arena::from(page);
            arena.descriptor = Some(
                ArenaDescriptor {
                    index: di,
                    block_size: desc.block_size,
                    blocks_per_arena: desc.blocks_per_arena,
                },
            );
            arena.free_cnt = desc.blocks_per_arena;
            let blocks = arena.blocks();
            let n = desc.blocks_per_arena;
            let mut j: usize = 0;
            while j < n
                invariant
                    j <= n,
                    n == gn,
                    1 <= gbs <= MAX_BLOCK_SIZE,
                    desc.block_size == old(self).descriptors@[di as int].block_size,
                    desc.blocks_per_arena == old(self).descriptors@[di as int].blocks_per_arena,
                    blocks@.len() == n,
                    forall|k: int| 0 <= k < n ==> blocks@[k] == spec_block_addr(page, gbs, gn, k),
                    forall|k: int|
                        0 <= k < n ==> is_block_of(
                            page,
                            gbs,
                            gn,
                            (#[trigger] spec_block_addr(page, gbs, gn, k)) as u64,
                        ),
                    desc.free_list@ =~= Seq::new(
                        j as nat,
                        |k: int| (spec_block_addr(page, gbs, gn, k)) as u64,
                    ),
                    spec_count_blocks(desc.free_list@, page, gbs, gn) == j,
                    forall|ob: u64, obs: int, on: int|
                        (forall|x: u64|
                            is_block_of(page, gbs, gn, x) ==> !is_block_of(ob, obs, on, x))
                            ==> #[trigger] spec_count_blocks(desc.free_list@, ob, obs, on) == 0,
                decreases n - j,
            {
                let ghost before = desc.free_list@;
                let mut node = Node::new(blocks[j]);
                desc.free_list.push_back(&mut node);
                proof {
                    assert(desc.free_list@ =~= before.push(blocks@[j as int]));
                    lemma_count_push(before, page, gbs, gn, blocks@[j as int]);
                    assert forall|ob: u64, obs: int, on: int|
                        (forall|x: u64|
                            is_block_of(page, gbs, gn, x) ==> !is_block_of(
                                ob,
                                obs,
                                on,
                                x,
                            )) implies #[trigger] spec_count_blocks(desc.free_list@, ob, obs, on)
                        == 0 by {
                        lemma_count_push(before, ob, obs, on, blocks@[j as int]);
                        assert(is_block_of(page, gbs, gn, blocks@[j as int]));
                    }
                    assert(desc.free_list@ =~= Seq::new(
                        (j + 1) as nat,
                        |k: int| (spec_block_addr(page, gbs, gn, k)) as u64,
                    ));
                }
                j = j + 1;
            }
            // Take the first block and note the allocation in the new arena.
            let ghost full_list = desc.free_list@;
            let popped = desc.free_list.pop_front();
            let b: u64 = match popped {
                Some(node) => node.id(),
                None => {
                    proof {
                        assert(full_list[0] == spec_block_addr(page, gbs, gn, 0));
                        assert(false);
                    }
                    0
                },
            };
            arena.allocate_block();
            let ghost pre_arenas = self.arenas@;
            self.arenas.push(arena);
            self.descriptors.insert(di, desc);
            proof {
                assert(full_list.first() == full_list[0]);
                assert(is_block_of(page, gbs, gn, (spec_block_addr(page, gbs, gn, 0)) as u64));
                assert(spec_count_blocks(full_list, page, gbs, gn) == spec_count_blocks(
                    full_list.drop_first(),
                    page,
                    gbs,
                    gn,
                ) + 1);
                assert(self.descriptors@ =~= old(self).descriptors@.update(di as int, desc));
                assert(self.descriptors@[di as int] == desc);
                assert(desc.block_size == old(self).descriptors@[di as int].block_size);
                assert(old(self).descriptors@[di as int].block_size == spec_class_block_size(
                    di as int,
                ));
                assert(old(self).descriptors@[di as int].blocks_per_arena
                    == spec_blocks_per_arena(spec_class_block_size(di as int)));
                assert(arena == (Arena {
                    base: page,
                    magic: ARENA_MAGIC,
                    descriptor: Some(
                        ArenaDescriptor {
                            index: di,
                            block_size: spec_class_block_size(di as int) as usize,
                            blocks_per_arena: spec_blocks_per_arena(
                                spec_class_block_size(di as int),
                            ) as usize,
                        },
                    ),
                    free_cnt: (spec_blocks_per_arena(spec_class_block_size(di as int))
                        - 1) as usize,
                }));
                assert(self.arenas@ =~= old(self).arenas@.push(arena));
                self.lemma_alloc_refill_restores(
                    *old(self),
                    *old(palloc),
                    *palloc,
                    di as int,
                    page,
                    b,
                    full_list,
                );
                let w = self.arenas@.len() - 1;
                assert(self.arenas@[w].descriptor == Some(
                    ArenaDescriptor {
                        index: di,
                        block_size: gbs as usize,
                        blocks_per_arena: gn as usize,
                    },
                ) && is_block_of(self.arenas@[w].base, gbs, gn, b));
                assert(self.block_has_arena(di as int, b));
                assert(b == spec_block_addr(page, gbs, gn, 0));
                assert(self.descriptors@[di as int].free_list@ =~= Seq::new(
                    (gn - 1) as nat,
                    |j: int| (spec_block_addr(page, gbs, gn, j + 1)) as u64,
                ));
                assert(crate::palloc::pool_alloc_post(
                    old(palloc).kernel_pool,
                    palloc.kernel_pool,
                    1,
                    page,
                ));
                assert(small_alloc_post(*old(self), *self, *old(palloc), *palloc, size, b));
            }
            Some(b)
        }
    }

    /// After the head of class `di`'s free list is handed out and its
    /// arena's free count lowered, the allocator is well-formed again and
    /// still holds its pages.
    proof fn lemma_alloc_pop_restores(
        self,
        old_heap: Allocator,
        palloc: PageAllocator,
        di: int,
        ai: int,
        b: u64,
        old_list: Seq<u64>,
    )
        requires
            old_heap.wf(),
            old_heap.arenas_valid(palloc),
            0 <= di < DESCRIPTORS_SIZE,
            0 <= ai < old_heap.arenas@.len(),
            old_list == old_heap.descriptors@[di].free_list@,
            old_list.len() > 0,
            b == old_list[0],
            old_heap.arenas@[ai].descriptor == Some(
                ArenaDescriptor {
                    index: di as usize,
                    block_size: spec_class_block_size(di) as usize,
                    blocks_per_arena: spec_blocks_per_arena(spec_class_block_size(di)) as usize,
                },
            ),
            is_block_of(
                old_heap.arenas@[ai].base,
                spec_class_block_size(di),
                spec_blocks_per_arena(spec_class_block_size(di)),
                b,
            ),
            old_heap.arenas@[ai].free_cnt >= 1,
            self.descriptors@.len() == DESCRIPTORS_SIZE,
            forall|k: int|
                0 <= k < DESCRIPTORS_SIZE && k != di ==> self.descriptors@[k]
                    == old_heap.descriptors@[k],
            self.descriptors@[di].block_size == old_heap.descriptors@[di].block_size,
            self.descriptors@[di].blocks_per_arena == old_heap.descriptors@[di].blocks_per_arena,
            self.descriptors@[di].free_list@ == old_list.drop_first(),
            self.arenas@ == old_heap.arenas@.update(
                ai,
                (Arena {
                    free_cnt: (old_heap.arenas@[ai].free_cnt - 1) as usize,
                    ..old_heap.arenas@[ai]
                }),
            ),
        ensures
            self.wf(),
            self.arenas_valid(palloc),
    {
        let bs = spec_class_block_size(di);
        let n = spec_blocks_per_arena(bs);
        lemma_class_geometry(bs);
        let a = old_heap.arenas@[ai];
        // Every listed block still has its arena: the only arena change is a
        // free count.
        assert forall|i: int, k: int|
            0 <= i < DESCRIPTORS_SIZE && 0 <= k
                < self.descriptors@[i].free_list@.len() implies self.block_has_arena(
            i,
            #[trigger] self.descriptors@[i].free_list@[k],
        ) by {
            let addr = self.descriptors@[i].free_list@[k];
            if i == di {
                assert(addr == old_list[k + 1]);
                assert(old_heap.block_has_arena(i, addr));
            } else {
                assert(old_heap.block_has_arena(i, addr));
            }
            let w = choose|w: int|
                0 <= w < old_heap.arenas@.len() && (#[trigger] old_heap.arenas@[w]).descriptor
                    == Some(
                    ArenaDescriptor {
                        index: i as usize,
                        block_size: spec_class_block_size(i) as usize,
                        blocks_per_arena: spec_blocks_per_arena(spec_class_block_size(i)) as usize,
                    },
                ) && is_block_of(
                    old_heap.arenas@[w].base,
                    spec_class_block_size(i),
                    spec_blocks_per_arena(spec_class_block_size(i)),
                    addr,
                );
            assert(self.arenas@[w].descriptor == old_heap.arenas@[w].descriptor);
            assert(self.arenas@[w].base == old_heap.arenas@[w].base);
        }
        // Every arena's free count still matches its class's free list.
        assert forall|w: int| 0 <= w < self.arenas@.len() implies self.arena_wf(
            #[trigger] self.arenas@[w],
        ) by {
            let wa = self.arenas@[w];
            let old_wa = old_heap.arenas@[w];
            assert(old_heap.arena_wf(old_wa));
            match old_wa.descriptor {
                Some(d) => {
                    if d.index as int == di {
                        assert(spec_count_blocks(old_list, old_wa.base, bs, n)
                            == spec_count_blocks(old_list.drop_first(), old_wa.base, bs, n) + (
                        if is_block_of(old_wa.base, bs, n, old_list.first()) {
                            1int
                        } else {
                            0int
                        }));
                        if w == ai {
                            assert(is_block_of(old_wa.base, bs, n, b));
                        } else {
                            assert(arenas_disjoint(old_wa, a));
                            lemma_block_of_one_arena(a.base, bs, n, old_wa.base, bs, n, b);
                        }
                    } else {
                        assert(self.descriptors@[d.index as int] == old_heap.descriptors@[d.index as int]);
                    }
                },
                None => {},
            }
        }
        assert forall|w1: int, w2: int|
            0 <= w1 < self.arenas@.len() && 0 <= w2 < self.arenas@.len() && w1
                != w2 implies arenas_disjoint(
            #[trigger] self.arenas@[w1],
            #[trigger] self.arenas@[w2],
        ) by {
            assert(arenas_disjoint(old_heap.arenas@[w1], old_heap.arenas@[w2]));
            assert(self.arenas@[w1].spec_page_count() == old_heap.arenas@[w1].spec_page_count());
            assert(self.arenas@[w2].spec_page_count() == old_heap.arenas@[w2].spec_page_count());
        }
        assert forall|w: int| 0 <= w < self.arenas@.len() implies arena_pages_held(
            #[trigger] self.arenas@[w],
            palloc.kernel_pool,
        ) by {
            assert(arena_pages_held(old_heap.arenas@[w], palloc.kernel_pool));
            assert(self.arenas@[w].spec_page_count() == old_heap.arenas@[w].spec_page_count());
            assert(self.arenas@[w].base == old_heap.arenas@[w].base);
        }
    }

    /// After a fresh arena is split into blocks, its first block handed out,
    /// and the rest made the class's free list, the allocator is well-formed
    /// again and holds the new page along with all its old ones.
    proof fn lemma_alloc_refill_restores(
        self,
        old_heap: Allocator,
        old_palloc: PageAllocator,
        new_palloc: PageAllocator,
        di: int,
        page: u64,
        b: u64,
        full_list: Seq<u64>,
    )
        requires
            old_heap.wf(),
            old_heap.arenas_valid(old_palloc),
            old_palloc.wf(),
            0 <= di < DESCRIPTORS_SIZE,
            old_heap.descriptors@[di].free_list@.len() == 0,
            crate::palloc::pool_alloc_post(
                old_palloc.kernel_pool,
                new_palloc.kernel_pool,
                1,
                page,
            ),
            page % (PAGE_SIZE as u64) == 0,
            page + PAGE_SIZE <= u64::MAX,
            full_list =~= Seq::new(
                spec_blocks_per_arena(spec_class_block_size(di)) as nat,
                |k: int|
                    (spec_block_addr(
                        page,
                        spec_class_block_size(di),
                        spec_blocks_per_arena(spec_class_block_size(di)),
                        k,
                    )) as u64,
            ),
            b == full_list[0],
            spec_count_blocks(
                full_list,
                page,
                spec_class_block_size(di),
                spec_blocks_per_arena(spec_class_block_size(di)),
            ) == spec_blocks_per_arena(spec_class_block_size(di)),
            forall|ob: u64, obs: int, on: int|
                (forall|x: u64|
                    is_block_of(
                        page,
                        spec_class_block_size(di),
                        spec_blocks_per_arena(spec_class_block_size(di)),
                        x,
                    ) ==> !is_block_of(ob, obs, on, x)) ==> #[trigger] spec_count_blocks(
                    full_list,
                    ob,
                    obs,
                    on,
                ) == 0,
            (PAGE_SIZE as int) % spec_class_block_size(di) == 0,
            self.descriptors@.len() == DESCRIPTORS_SIZE,
            forall|k: int|
                0 <= k < DESCRIPTORS_SIZE && k != di ==> self.descriptors@[k]
                    == old_heap.descriptors@[k],
            self.descriptors@[di].block_size == old_heap.descriptors@[di].block_size,
            self.descriptors@[di].blocks_per_arena == old_heap.descriptors@[di].blocks_per_arena,
            self.descriptors@[di].free_list@ == full_list.drop_first(),
            self.arenas@ == old_heap.arenas@.push(
                (Arena {
                    base: page,
                    magic: ARENA_MAGIC,
                    descriptor: Some(
                        ArenaDescriptor {
                            index: di as usize,
                            block_size: spec_class_block_size(di) as usize,
                            blocks_per_arena: spec_blocks_per_arena(
                                spec_class_block_size(di),
                            ) as usize,
                        },
                    ),
                    free_cnt: (spec_blocks_per_arena(spec_class_block_size(di)) - 1) as usize,
                }),
            ),
        ensures
            self.wf(),
            self.arenas_valid(new_palloc),
    {
        let bs = spec_class_block_size(di);
        let n = spec_blocks_per_arena(bs);
        lemma_class_geometry(bs);
        lemma_class_blocks(page, bs, n);
        let new_arena = self.arenas@[self.arenas@.len() - 1];
        let pool_old = old_palloc.kernel_pool;
        let pool_new = new_palloc.kernel_pool;
        let pi = pool_old.spec_page_index(page);
        // The fresh page is disjoint from every old arena's run.
        assert forall|w: int| 0 <= w < old_heap.arenas@.len() implies arenas_disjoint(
            #[trigger] old_heap.arenas@[w],
            new_arena,
        ) by {
            assert(old_heap.arena_wf(old_heap.arenas@[w]));
            assert(arena_pages_held(old_heap.arenas@[w], pool_old));
            lemma_marked_run_disjoint(pool_old, old_heap.arenas@[w], page, 1);
        }
        // The head really is the first block.
        assert(spec_count_blocks(full_list, page, bs, n) == spec_count_blocks(
            full_list.drop_first(),
            page,
            bs,
            n,
        ) + (if is_block_of(page, bs, n, full_list.first()) {
            1int
        } else {
            0int
        }));
        assert(full_list.first() == full_list[0]);
        // Every listed block still has its arena.
        assert forall|i: int, k: int|
            0 <= i < DESCRIPTORS_SIZE && 0 <= k
                < self.descriptors@[i].free_list@.len() implies self.block_has_arena(
            i,
            #[trigger] self.descriptors@[i].free_list@[k],
        ) by {
            let addr = self.descriptors@[i].free_list@[k];
            if i == di {
                assert(addr == full_list[k + 1]);
                assert(addr == (spec_block_addr(page, bs, n, k + 1)) as u64);
                assert(is_block_of(page, bs, n, (spec_block_addr(page, bs, n, k + 1)) as u64));
                let w = self.arenas@.len() - 1;
                assert(self.arenas@[w].descriptor == Some(
                    ArenaDescriptor {
                        index: i as usize,
                        block_size: spec_class_block_size(i) as usize,
                        blocks_per_arena: spec_blocks_per_arena(spec_class_block_size(i)) as usize,
                    },
                ) && is_block_of(
                    self.arenas@[w].base,
                    spec_class_block_size(i),
                    spec_blocks_per_arena(spec_class_block_size(i)),
                    addr,
                ));
            } else {
                assert(old_heap.block_has_arena(i, addr));
                let w = choose|w: int|
                    0 <= w < old_heap.arenas@.len() && (#[trigger] old_heap.arenas@[w]).descriptor
                        == Some(
                        ArenaDescriptor {
                            index: i as usize,
                            block_size: spec_class_block_size(i) as usize,
                            blocks_per_arena: spec_blocks_per_arena(
                                spec_class_block_size(i),
                            ) as usize,
                        },
                    ) && is_block_of(
                        old_heap.arenas@[w].base,
                        spec_class_block_size(i),
                        spec_blocks_per_arena(spec_class_block_size(i)),
                        addr,
                    );
                assert(self.arenas@[w] == old_heap.arenas@[w]);
            }
        }
        // Every arena's free count still matches its class's free list.
        assert forall|w: int| 0 <= w < self.arenas@.len() implies self.arena_wf(
            #[trigger] self.arenas@[w],
        ) by {
            let wa = self.arenas@[w];
            if w == self.arenas@.len() - 1 {
                assert(wa.free_cnt == n - 1);
                assert(spec_count_blocks(full_list.drop_first(), page, bs, n) == n - 1);
            } else {
                let old_wa = old_heap.arenas@[w];
                assert(old_heap.arena_wf(old_wa));
                assert(wa == old_wa);
                match old_wa.descriptor {
                    Some(d) => {
                        if d.index as int == di {
                            // The old list was empty, so this arena's count
                            // was zero; none of the new blocks are its.
                            assert(old_wa.free_cnt == 0);
                            assert(arenas_disjoint(old_wa, new_arena));
                            assert forall|x: u64| is_block_of(page, bs, n, x) implies !is_block_of(
                                old_wa.base,
                                bs,
                                n,
                                x,
                            ) by {
                                lemma_block_of_one_arena(page, bs, n, old_wa.base, bs, n, x);
                            }
                            assert(spec_count_blocks(full_list, old_wa.base, bs, n) == 0);
                            assert(spec_count_blocks(full_list, old_wa.base, bs, n)
                                == spec_count_blocks(full_list.drop_first(), old_wa.base, bs, n) + (
                            if is_block_of(old_wa.base, bs, n, full_list.first()) {
                                1int
                            } else {
                                0int
                            }));
                            assert(!is_block_of(old_wa.base, bs, n, full_list.first())) by {
                                lemma_block_of_one_arena(
                                    page,
                                    bs,
                                    n,
                                    old_wa.base,
                                    bs,
                                    n,
                                    full_list.first(),
                                );
                            }
                        } else {
                            assert(self.descriptors@[d.index as int] == old_heap.descriptors@[d.index as int]);
                        }
                    },
                    None => {},
                }
            }
        }
        assert forall|w1: int, w2: int|
            0 <= w1 < self.arenas@.len() && 0 <= w2 < self.arenas@.len() && w1
                != w2 implies arenas_disjoint(
            #[trigger] self.arenas@[w1],
            #[trigger] self.arenas@[w2],
        ) by {
            let last = self.arenas@.len() - 1;
            if w1 < last && w2 < last {
                assert(arenas_disjoint(old_heap.arenas@[w1], old_heap.arenas@[w2]));
            } else if w1 < last {
                assert(arenas_disjoint(old_heap.arenas@[w1], new_arena));
            } else {
                assert(arenas_disjoint(old_heap.arenas@[w2], new_arena));
            }
        }
        // Every arena's pages are still held in the grown pool.
        assert forall|w: int| 0 <= w < self.arenas@.len() implies arena_pages_held(
            #[trigger] self.arenas@[w],
            pool_new,
        ) by {
            if w < self.arenas@.len() - 1 {
                assert(arena_pages_held(old_heap.arenas@[w], pool_old));
                lemma_marked_runs_stay(pool_old, pool_new, old_heap.arenas@[w], pi, 1);
            } else {
                assert forall|j: int| pi <= j < pi + 1 implies pool_new.bits()[j] == true by {}
            }
        }
    }

    /// An arena about to be released satisfies what freeing its page run in
    /// the kernel pool asks for.
    proof fn lemma_release_arena(self, old_heap: Allocator, old_palloc: PageAllocator, ai: int)
        requires
            old_heap.wf(),
            old_heap.arenas_valid(old_palloc),
            old_palloc.wf(),
            0 <= ai < old_heap.arenas@.len(),
        ensures
            old_palloc.kernel_pool.spec_contains_page(old_heap.arenas@[ai].base),
            pool_can_free(
                old_palloc.kernel_pool,
                old_heap.arenas@[ai].base,
                old_heap.arenas@[ai].spec_page_count(),
            ),
    {
        let a = old_heap.arenas@[ai];
        let pool = old_palloc.kernel_pool;
        assert(old_heap.arena_wf(a));
        assert(arena_pages_held(a, pool));
        let i = pool.spec_page_index(a.base);
        lemma_index_to_addr(pool.spec_base(), a.base, i);
        assert(a.spec_page_count() >= 1);
        assert((PAGE_SIZE as int) * i + (PAGE_SIZE as int) <= (PAGE_SIZE as int)
            * pool.spec_size()) by (nonlinear_arith)
            requires
                i + 1 <= pool.spec_size(),
        ;
    }

    /// After an arena's run goes back to the pool, every other arena's run is
    /// still held, and the remaining arenas are still pairwise disjoint.
    proof fn lemma_release_holds(
        self,
        old_heap: Allocator,
        old_palloc: PageAllocator,
        new_palloc: PageAllocator,
        ai: int,
    )
        requires
            old_heap.wf(),
            old_heap.arenas_valid(old_palloc),
            old_palloc.wf(),
            0 <= ai < old_heap.arenas@.len(),
            self.arenas@ == old_heap.arenas@.remove(ai),
            pool_free_post(
                old_palloc.kernel_pool,
                new_palloc.kernel_pool,
                old_heap.arenas@[ai].base,
                old_heap.arenas@[ai].spec_page_count(),
            ),
        ensures
            forall|w: int|
                0 <= w < self.arenas@.len() ==> arena_pages_held(
                    #[trigger] self.arenas@[w],
                    new_palloc.kernel_pool,
                ),
            forall|w1: int, w2: int|
                0 <= w1 < self.arenas@.len() && 0 <= w2 < self.arenas@.len() && w1 != w2
                    ==> arenas_disjoint(
                    #[trigger] self.arenas@[w1],
                    #[trigger] self.arenas@[w2],
                ),
    {
        let a = old_heap.arenas@[ai];
        let pool_old = old_palloc.kernel_pool;
        let pool_new = new_palloc.kernel_pool;
        let ia = pool_old.spec_page_index(a.base);
        assert(old_heap.arena_wf(a));
        assert(arena_pages_held(a, pool_old));
        lemma_index_to_addr(pool_old.spec_base(), a.base, ia);
        assert forall|w: int| 0 <= w < self.arenas@.len() implies arena_pages_held(
            #[trigger] self.arenas@[w],
            pool_new,
        ) by {
            let wo = if w < ai {
                w
            } else {
                w + 1
            };
            let wa = old_heap.arenas@[wo];
            assert(self.arenas@[w] == wa);
            assert(arena_pages_held(wa, pool_old));
            assert(old_heap.arena_wf(wa));
            assert(arenas_disjoint(wa, a));
            let iw = pool_old.spec_page_index(wa.base);
            lemma_index_to_addr(pool_old.spec_base(), wa.base, iw);
            // Address disjointness carries over to page indexes.
            if wa.base + (PAGE_SIZE as int) * wa.spec_page_count() <= a.base {
                assert(iw + wa.spec_page_count() <= ia) by (nonlinear_arith)
                    requires
                        (wa.base as int) == (pool_old.spec_base() as int) + (PAGE_SIZE as int)
                            * iw,
                        (a.base as int) == (pool_old.spec_base() as int) + (PAGE_SIZE as int) * ia,
                        wa.base + (PAGE_SIZE as int) * wa.spec_page_count() <= a.base,
                ;
            } else {
                assert(ia + a.spec_page_count() <= iw) by (nonlinear_arith)
                    requires
                        (wa.base as int) == (pool_old.spec_base() as int) + (PAGE_SIZE as int)
                            * iw,
                        (a.base as int) == (pool_old.spec_base() as int) + (PAGE_SIZE as int) * ia,
                        a.base + (PAGE_SIZE as int) * a.spec_page_count() <= wa.base,
                ;
            }
            assert forall|j: int| iw <= j < iw + wa.spec_page_count() implies pool_new.bits()[j]
                == true by {
                assert(pool_old.bits()[j] == true);
            }
        }
        assert forall|w1: int, w2: int|
            0 <= w1 < self.arenas@.len() && 0 <= w2 < self.arenas@.len() && w1
                != w2 implies arenas_disjoint(
            #[trigger] self.arenas@[w1],
            #[trigger] self.arenas@[w2],
        ) by {
            let wo1 = if w1 < ai {
                w1
            } else {
                w1 + 1
            };
            let wo2 = if w2 < ai {
                w2
            } else {
                w2 + 1
            };
            assert(arenas_disjoint(old_heap.arenas@[wo1], old_heap.arenas@[wo2]));
        }
    }

    /// After a freed block returns to the front of its class's list and its
    /// arena's free count rises, the allocator is well-formed again and
    /// still holds its pages.
    proof fn lemma_dealloc_push_restores(
        self,
        old_heap: Allocator,
        palloc: PageAllocator,
        di: int,
        ai: int,
        ptr: u64,
        old_list: Seq<u64>,
    )
        requires
            old_heap.wf(),
            old_heap.arenas_valid(palloc),
            0 <= di < DESCRIPTORS_SIZE,
            0 <= ai < old_heap.arenas@.len(),
            old_list == old_heap.descriptors@[di].free_list@,
            old_heap.arenas@[ai].descriptor == Some(
                ArenaDescriptor {
                    index: di as usize,
                    block_size: spec_class_block_size(di) as usize,
                    blocks_per_arena: spec_blocks_per_arena(spec_class_block_size(di)) as usize,
                },
            ),
            is_block_of(
                old_heap.arenas@[ai].base,
                spec_class_block_size(di),
                spec_blocks_per_arena(spec_class_block_size(di)),
                ptr,
            ),
            old_heap.arenas@[ai].free_cnt + 1 <= spec_blocks_per_arena(
                spec_class_block_size(di),
            ),
            self.descriptors@.len() == DESCRIPTORS_SIZE,
            forall|k: int|
                0 <= k < DESCRIPTORS_SIZE && k != di ==> self.descriptors@[k]
                    == old_heap.descriptors@[k],
            self.descriptors@[di].block_size == old_heap.descriptors@[di].block_size,
            self.descriptors@[di].blocks_per_arena == old_heap.descriptors@[di].blocks_per_arena,
            self.descriptors@[di].free_list@ == seq![ptr] + old_list,
            self.arenas@ == old_heap.arenas@.update(
                ai,
                (Arena {
                    free_cnt: (old_heap.arenas@[ai].free_cnt + 1) as usize,
                    ..old_heap.arenas@[ai]
                }),
            ),
        ensures
            self.wf(),
            self.arenas_valid(palloc),
    {
        let bs = spec_class_block_size(di);
        let n = spec_blocks_per_arena(bs);
        lemma_class_geometry(bs);
        let a = old_heap.arenas@[ai];
        let new_list = seq![ptr] + old_list;
        assert(new_list.drop_first() =~= old_list);
        assert(new_list.first() == ptr);
        assert forall|i: int, k: int|
            0 <= i < DESCRIPTORS_SIZE && 0 <= k
                < self.descriptors@[i].free_list@.len() implies self.block_has_arena(
            i,
            #[trigger] self.descriptors@[i].free_list@[k],
        ) by {
            let addr = self.descriptors@[i].free_list@[k];
            if i == di && k == 0 {
                assert(addr == ptr);
                assert(self.arenas@[ai].descriptor == a.descriptor);
                assert(self.arenas@[ai].base == a.base);
            } else {
                if i == di {
                    assert(addr == old_list[k - 1]);
                }
                assert(old_heap.block_has_arena(i, addr));
                let w = choose|w: int|
                    0 <= w < old_heap.arenas@.len() && (#[trigger] old_heap.arenas@[w]).descriptor
                        == Some(
                        ArenaDescriptor {
                            index: i as usize,
                            block_size: spec_class_block_size(i) as usize,
                            blocks_per_arena: spec_blocks_per_arena(
                                spec_class_block_size(i),
                            ) as usize,
                        },
                    ) && is_block_of(
                        old_heap.arenas@[w].base,
                        spec_class_block_size(i),
                        spec_blocks_per_arena(spec_class_block_size(i)),
                        addr,
                    );
                assert(self.arenas@[w].descriptor == old_heap.arenas@[w].descriptor);
                assert(self.arenas@[w].base == old_heap.arenas@[w].base);
            }
        }
        assert forall|w: int| 0 <= w < self.arenas@.len() implies self.arena_wf(
            #[trigger] self.arenas@[w],
        ) by {
            let old_wa = old_heap.arenas@[w];
            assert(old_heap.arena_wf(old_wa));
            match old_wa.descriptor {
                Some(d) => {
                    if d.index as int == di {
                        assert(spec_count_blocks(new_list, old_wa.base, bs, n)
                            == spec_count_blocks(old_list, old_wa.base, bs, n) + (if is_block_of(
                            old_wa.base,
                            bs,
                            n,
                            ptr,
                        ) {
                            1int
                        } else {
                            0int
                        }));
                        if w == ai {
                            assert(is_block_of(old_wa.base, bs, n, ptr));
                        } else {
                            assert(arenas_disjoint(old_wa, a));
                            lemma_block_of_one_arena(a.base, bs, n, old_wa.base, bs, n, ptr);
                        }
                    } else {
                        assert(self.descriptors@[d.index as int] == old_heap.descriptors@[d.index as int]);
                    }
                },
                None => {},
            }
        }
        assert forall|w1: int, w2: int|
            0 <= w1 < self.arenas@.len() && 0 <= w2 < self.arenas@.len() && w1
                != w2 implies arenas_disjoint(
            #[trigger] self.arenas@[w1],
            #[trigger] self.arenas@[w2],
        ) by {
            assert(arenas_disjoint(old_heap.arenas@[w1], old_heap.arenas@[w2]));
            assert(self.arenas@[w1].spec_page_count() == old_heap.arenas@[w1].spec_page_count());
            assert(self.arenas@[w2].spec_page_count() == old_heap.arenas@[w2].spec_page_count());
        }
        assert forall|w: int| 0 <= w < self.arenas@.len() implies arena_pages_held(
            #[trigger] self.arenas@[w],
            palloc.kernel_pool,
        ) by {
            assert(arena_pages_held(old_heap.arenas@[w], palloc.kernel_pool));
            assert(self.arenas@[w].spec_page_count() == old_heap.arenas@[w].spec_page_count());
            assert(self.arenas@[w].base == old_heap.arenas@[w].base);
        }
    }

    /// After an entirely unused arena's blocks leave the free list and its
    /// page returns to the pool, the allocator is well-formed again and
    /// holds all its remaining pages.
    proof fn lemma_dealloc_release_restores(
        self,
        old_heap: Allocator,
        old_palloc: PageAllocator,
        new_palloc: PageAllocator,
        di: int,
        ai: int,
        ptr: u64,
        old_list: Seq<u64>,
    )
        requires
            old_heap.wf(),
            old_heap.arenas_valid(old_palloc),
            old_palloc.wf(),
            0 <= di < DESCRIPTORS_SIZE,
            0 <= ai < old_heap.arenas@.len(),
            old_list == old_heap.descriptors@[di].free_list@,
            old_heap.arenas@[ai].descriptor == Some(
                ArenaDescriptor {
                    index: di as usize,
                    block_size: spec_class_block_size(di) as usize,
                    blocks_per_arena: spec_blocks_per_arena(spec_class_block_size(di)) as usize,
                },
            ),
            self.descriptors@.len() == DESCRIPTORS_SIZE,
            forall|k: int|
                0 <= k < DESCRIPTORS_SIZE && k != di ==> self.descriptors@[k]
                    == old_heap.descriptors@[k],
            self.descriptors@[di].block_size == old_heap.descriptors@[di].block_size,
            self.descriptors@[di].blocks_per_arena == old_heap.descriptors@[di].blocks_per_arena,
            self.descriptors@[di].free_list@ == spec_filter_blocks(
                old_list,
                old_heap.arenas@[ai].base,
                spec_class_block_size(di),
                spec_blocks_per_arena(spec_class_block_size(di)),
            ),
            self.arenas@ == old_heap.arenas@.remove(ai),
            pool_free_post(
                old_palloc.kernel_pool,
                new_palloc.kernel_pool,
                old_heap.arenas@[ai].base,
                old_heap.arenas@[ai].spec_page_count(),
            ),
        ensures
            self.wf(),
            self.arenas_valid(new_palloc),
    {
        let bs = spec_class_block_size(di);
        let n = spec_blocks_per_arena(bs);
        lemma_class_geometry(bs);
        let a = old_heap.arenas@[ai];
        let new_list = self.descriptors@[di].free_list@;
        lemma_filter_blocks_props(old_list, a.base, bs, n);
        self.lemma_release_holds(old_heap, old_palloc, new_palloc, ai);
        assert forall|i: int, k: int|
            0 <= i < DESCRIPTORS_SIZE && 0 <= k
                < self.descriptors@[i].free_list@.len() implies self.block_has_arena(
            i,
            #[trigger] self.descriptors@[i].free_list@[k],
        ) by {
            let addr = self.descriptors@[i].free_list@[k];
            if i == di {
                assert(old_list.contains(addr) && !is_block_of(a.base, bs, n, addr));
                let c = choose|c: int| 0 <= c < old_list.len() && old_list[c] == addr;
                assert(old_heap.block_has_arena(i, old_list[c]));
            } else {
                assert(old_heap.block_has_arena(i, addr));
            }
            let w = choose|w: int|
                0 <= w < old_heap.arenas@.len() && (#[trigger] old_heap.arenas@[w]).descriptor
                    == Some(
                    ArenaDescriptor {
                        index: i as usize,
                        block_size: spec_class_block_size(i) as usize,
                        blocks_per_arena: spec_blocks_per_arena(spec_class_block_size(i)) as usize,
                    },
                ) && is_block_of(
                    old_heap.arenas@[w].base,
                    spec_class_block_size(i),
                    spec_blocks_per_arena(spec_class_block_size(i)),
                    addr,
                );
            assert(w != ai);
            if w < ai {
                assert(self.arenas@[w] == old_heap.arenas@[w]);
            } else {
                assert(self.arenas@[w - 1] == old_heap.arenas@[w]);
            }
        }
        assert forall|w: int| 0 <= w < self.arenas@.len() implies self.arena_wf(
            #[trigger] self.arenas@[w],
        ) by {
            let wo = if w < ai {
                w
            } else {
                w + 1
            };
            let old_wa = old_heap.arenas@[wo];
            assert(self.arenas@[w] == old_wa);
            assert(old_heap.arena_wf(old_wa));
            match old_wa.descriptor {
                Some(d) => {
                    if d.index as int == di {
                        assert(arenas_disjoint(old_wa, a));
                        assert forall|x: u64| is_block_of(a.base, bs, n, x) implies !is_block_of(
                            old_wa.base,
                            bs,
                            n,
                            x,
                        ) by {
                            lemma_block_of_one_arena(a.base, bs, n, old_wa.base, bs, n, x);
                        }
                        lemma_filter_preserves_other_count(
                            old_list,
                            a.base,
                            bs,
                            n,
                            old_wa.base,
                            bs,
                            n,
                        );
                    } else {
                        assert(self.descriptors@[d.index as int] == old_heap.descriptors@[d.index as int]);
                    }
                },
                None => {},
            }
        }
    }

    /// Serves a request too big for any size class: whole pages with an arena
    /// header recording the span.
    fn allocate_large(&mut self, palloc: &mut PageAllocator, size: usize) -> (r: Option<u64>)
        requires
            old(self).wf(),
            old(palloc).wf(),
            old(self).arenas_valid(*old(palloc)),
            size + ARENA_HEADER_SIZE <= usize::MAX,
            size > MAX_BLOCK_SIZE,
        ensures
            final(self).wf(),
            final(palloc).wf(),
            final(self).arenas_valid(*final(palloc)),
            final(palloc).user_pool == old(palloc).user_pool,
            match r {
                None => final(self).descriptors@ =~= old(self).descriptors@ && final(self).arenas@
                    =~= old(self).arenas@ && crate::palloc::pool_unchanged(
                    old(palloc).kernel_pool,
                    final(palloc).kernel_pool,
                ) && large_alloc_failed(*old(palloc), size),
                Some(b) => large_alloc_post(
                    *old(self),
                    *final(self),
                    *old(palloc),
                    *final(palloc),
                    size,
                    b,
                ),
            },
    {
        let num_pages = div_round_up(size + ARENA_HEADER_SIZE, PAGE_SIZE);
        proof {
            crate::lemma_div_round_up_bounds((size + ARENA_HEADER_SIZE) as nat, PAGE_SIZE as nat);
            assert(num_pages >= 1) by (nonlinear_arith)
                requires
                    size + ARENA_HEADER_SIZE <= (num_pages as int) * (PAGE_SIZE as int),
                    size >= 1,
                    num_pages >= 0,
            ;
        }
        match palloc.get_pages(num_pages, AllocateFlags::zero()) {
            Some(page) => {
                proof {
                    let pool = old(palloc).kernel_pool;
                    crate::palloc::lemma_pool_shape(pool);
                    let i = pool.spec_page_index(page);
                    assert((PAGE_SIZE as int) * i >= 0) by (nonlinear_arith)
                        requires
                            i >= 0,
                    ;
                    assert((PAGE_SIZE as int) * (i + num_pages) == (PAGE_SIZE as int) * i + (
                    PAGE_SIZE as int) * num_pages) by (nonlinear_arith);
                    assert((PAGE_SIZE as int) * (i + num_pages) <= (PAGE_SIZE as int)
                        * pool.spec_size()) by (nonlinear_arith)
                        requires
                            i + num_pages <= pool.spec_size(),
                    ;
                    assert(page % (PAGE_SIZE as u64) == 0) by (nonlinear_arith)
                        requires
                            (page as int) == (pool.spec_base() as int) + (PAGE_SIZE as int) * i,
                            (pool.spec_base() as int) % (PAGE_SIZE as int) == 0,
                            i >= 0,
                    ;
                }
                let mut arena = Arena::from(page);
                arena.free_cnt = num_pages;
                let ghost old_arenas = self.arenas@;
                self.arenas.push(arena);
                proof {
                    let pool_old = old(palloc).kernel_pool;
                    let pool_new = palloc.kernel_pool;
                    let i = pool_old.spec_page_index(page);
                    assert forall|ai: int| 0 <= ai < self.arenas@.len() implies self.arena_wf(
                        #[trigger] self.arenas@[ai],
                    ) && arena_pages_held(self.arenas@[ai], pool_new) by {
                        if ai < old_arenas.len() {
                            assert(old(self).arena_wf(old_arenas[ai]));
                            lemma_marked_runs_stay(
                                pool_old,
                                pool_new,
                                old_arenas[ai],
                                i,
                                num_pages as int,
                            );
                        } else {
                            assert forall|j: int| i <= j < i + num_pages implies pool_new.bits()[j]
                                == true by {}
                        }
                    }
                    assert forall|ii: int, k: int|
                        0 <= ii < DESCRIPTORS_SIZE && 0 <= k
                            < self.descriptors@[ii].free_list@.len() implies self.block_has_arena(
                        ii,
                        #[trigger] self.descriptors@[ii].free_list@[k],
                    ) by {
                        let addr = self.descriptors@[ii].free_list@[k];
                        assert(old(self).block_has_arena(ii, addr));
                        let w = choose|w: int|
                            0 <= w < old_arenas.len() && (#[trigger] old_arenas[w]).descriptor
                                == Some(
                                ArenaDescriptor {
                                    index: ii as usize,
                                    block_size: spec_class_block_size(ii) as usize,
                                    blocks_per_arena: spec_blocks_per_arena(
                                        spec_class_block_size(ii),
                                    ) as usize,
                                },
                            ) && is_block_of(
                                old_arenas[w].base,
                                spec_class_block_size(ii),
                                spec_blocks_per_arena(spec_class_block_size(ii)),
                                addr,
                            );
                        assert(self.arenas@[w] == old_arenas[w]);
                    }
                    assert forall|ai: int, aj: int|
                        0 <= ai < self.arenas@.len() && 0 <= aj < self.arenas@.len() && ai
                            != aj implies arenas_disjoint(
                        #[trigger] self.arenas@[ai],
                        #[trigger] self.arenas@[aj],
                    ) by {
                        if ai < old_arenas.len() && aj < old_arenas.len() {
                            assert(old(self).wf());
                            assert(arenas_disjoint(old_arenas[ai], old_arenas[aj]));
                        } else if ai < old_arenas.len() {
                            lemma_marked_run_disjoint(
                                pool_old,
                                old_arenas[ai],
                                page,
                                num_pages as int,
                            );
                        } else {
                            lemma_marked_run_disjoint(
                                pool_old,
                                old_arenas[aj],
                                page,
                                num_pages as int,
                            );
                        }
                    }
                    assert(self.wf());
                }
                Some(page + (ARENA_HEADER_SIZE as u64))
            },
            None => {
                proof {
                    assert(num_pages as nat == spec_div_round_up(
                        (size + ARENA_HEADER_SIZE) as nat,
                        PAGE_SIZE as nat,
                    ));
                    assert(large_alloc_failed(*old(palloc), size));
                }
                None
            },
        }
    }
}

/// Address of block `j` in an arena at `base` whose `n` blocks of size `bs`
/// fill the page's tail.
pub open spec fn spec_block_addr(base: u64, bs: int, n: int, j: int) -> int {
    base + PAGE_SIZE - n * bs + j * bs
}

/// The size class that serves a request of `size` bytes: the smallest class
/// whose blocks fit it.
pub open spec fn spec_class_index(size: int) -> int {
    if size <= 16 {
        0
    } else if size <= 32 {
        1
    } else if size <= 64 {
        2
    } else if size <= 128 {
        3
    } else if size <= 256 {
        4
    } else if size <= 512 {
        5
    } else {
        6
    }
}

/// What a small allocation promises: the returned block belongs to a live
/// arena of the request's class; no other class is touched; and the block is
/// the head of the class's free list — either the list's old head, or, when
/// the list was empty, the first block of a freshly fetched arena whose
/// remaining blocks now form the list.
pub open spec fn small_alloc_post(
    old_heap: Allocator,
    new_heap: Allocator,
    old_palloc: PageAllocator,
    new_palloc: PageAllocator,
    size: usize,
    b: u64,
) -> bool {
    let di = spec_class_index(size as int);
    let bs = spec_class_block_size(di);
    let n = spec_blocks_per_arena(bs);
    let old_list = old_heap.descriptors@[di].free_list@;
    let new_list = new_heap.descriptors@[di].free_list@;
    &&& new_heap.block_has_arena(di, b)
    &&& forall|k: int|
        0 <= k < DESCRIPTORS_SIZE && k != di ==> new_heap.descriptors@[k]
            == old_heap.descriptors@[k]
    &&& if old_list.len() > 0 {
        &&& b == old_list[0]
        &&& new_list =~= old_list.drop_first()
        &&& new_heap.arenas@.len() == old_heap.arenas@.len()
        &&& crate::palloc::pool_unchanged(old_palloc.kernel_pool, new_palloc.kernel_pool)
    } else {
        exists|page: u64|
            {
                &&& #[trigger] crate::palloc::pool_alloc_post(
                    old_palloc.kernel_pool,
                    new_palloc.kernel_pool,
                    1,
                    page,
                )
                &&& b == spec_block_addr(page, bs, n, 0)
                &&& new_list =~= Seq::new(
                    (n - 1) as nat,
                    |j: int| (spec_block_addr(page, bs, n, j + 1)) as u64,
                )
                &&& new_heap.arenas@.len() == old_heap.arenas@.len() + 1
            }
    }
}

/// The alignments the allocation interface can ask for: powers of two up to
/// the largest size class.
pub open spec fn spec_is_alignment(align: usize) -> bool {
    align == 1 || align == 2 || align == 4 || align == 8 || align == 16 || align == 32 || align
        == 64 || align == 128 || align == 256 || align == 512 || align == 1024
}

/// The size the allocator really serves for a request of `size` bytes at
/// alignment `align`: whichever is larger.
pub open spec fn spec_layout_request(size: usize, align: usize) -> usize {
    if size >= align {
        size
    } else {
        align
    }
}

/// Why a small allocation fails: the request's class had no free block and
/// the kernel pool had no free page left for a fresh arena.
pub open spec fn small_alloc_failed(
    old_heap: Allocator,
    old_palloc: PageAllocator,
    size: usize,
) -> bool {
    let di = spec_class_index(size as int);
    &&& old_heap.descriptors@[di].free_list@.len() == 0
    &&& (old_palloc.kernel_pool.is_initialized() ==> crate::palloc::pool_exhausted(
        old_palloc.kernel_pool,
        1,
    ))
}

/// Why a large allocation fails: the kernel pool had no free run of the
/// pages the request and its header span.
pub open spec fn large_alloc_failed(old_palloc: PageAllocator, size: usize) -> bool {
    let pages = spec_div_round_up((size + ARENA_HEADER_SIZE) as nat, PAGE_SIZE as nat);
    old_palloc.kernel_pool.is_initialized() ==> crate::palloc::pool_exhausted(
        old_palloc.kernel_pool,
        pages as int,
    )
}

/// What a large allocation promises: a run of just enough pages for the
/// request and an arena header was fetched from the kernel pool, a new
/// header records the span, and the returned address sits right after the
/// header. The size classes are untouched.
pub open spec fn large_alloc_post(
    old_heap: Allocator,
    new_heap: Allocator,
    old_palloc: PageAllocator,
    new_palloc: PageAllocator,
    size: usize,
    b: u64,
) -> bool {
    let pages = spec_div_round_up((size + ARENA_HEADER_SIZE) as nat, PAGE_SIZE as nat);
    &&& b >= ARENA_HEADER_SIZE
    &&& crate::palloc::pool_alloc_post(
        old_palloc.kernel_pool,
        new_palloc.kernel_pool,
        pages as int,
        (b - ARENA_HEADER_SIZE) as u64,
    )
    &&& new_heap.arenas@ =~= old_heap.arenas@.push(
        Arena {
            base: (b - ARENA_HEADER_SIZE) as u64,
            magic: ARENA_MAGIC,
            descriptor: None,
            free_cnt: pages as usize,
        },
    )
    &&& new_heap.descriptors@ =~= old_heap.descriptors@
}

/// What `deallocate` does, by the case of the arena at `ptr`'s page (the one
/// at index `ai`). A large allocation's span goes back to the kernel pool and
/// its header disappears. A block returning to a still-used arena goes to the
/// front of its class's free list and the arena's free count rises. A block
/// that makes its arena entirely unused takes all the arena's blocks out of
/// the list, and the page goes back to the kernel pool.
pub open spec fn dealloc_post(
    old_heap: Allocator,
    new_heap: Allocator,
    old_palloc: PageAllocator,
    new_palloc: PageAllocator,
    ptr: u64,
    ai: int,
) -> bool {
    let base = ptr & !PAGE_MASK;
    let a = old_heap.arenas@[ai];
    match a.descriptor {
        None => {
            &&& new_heap.descriptors@ =~= old_heap.descriptors@
            &&& new_heap.arenas@ =~= old_heap.arenas@.remove(ai)
            &&& pool_free_post(
                old_palloc.kernel_pool,
                new_palloc.kernel_pool,
                base,
                a.free_cnt as int,
            )
        },
        Some(d) => {
            let di = d.index as int;
            if a.free_cnt + 1 < d.blocks_per_arena {
                &&& new_heap.arenas@ =~= old_heap.arenas@.update(
                    ai,
                    (Arena { free_cnt: (a.free_cnt + 1) as usize, ..a }),
                )
                &&& new_heap.descriptors@[di].free_list@ =~= seq![ptr]
                    + old_heap.descriptors@[di].free_list@
                &&& forall|k: int|
                    0 <= k < DESCRIPTORS_SIZE && k != di ==> new_heap.descriptors@[k]
                        == old_heap.descriptors@[k]
                &&& crate::palloc::pool_unchanged(old_palloc.kernel_pool, new_palloc.kernel_pool)
            } else {
                &&& new_heap.arenas@ =~= old_heap.arenas@.remove(ai)
                &&& new_heap.descriptors@[di].free_list@ =~= spec_filter_blocks(
                    old_heap.descriptors@[di].free_list@,
                    base,
                    d.block_size as int,
                    d.blocks_per_arena as int,
                )
                &&& forall|k: int|
                    0 <= k < DESCRIPTORS_SIZE && k != di ==> new_heap.descriptors@[k]
                        == old_heap.descriptors@[k]
                &&& pool_free_post(old_palloc.kernel_pool, new_palloc.kernel_pool, base, 1)
            }
        },
    }
}

/// The arena's page run lies inside `pool` with every page marked used.
pub open spec fn arena_pages_held(a: Arena, pool: Pool) -> bool {
    let i = pool.spec_page_index(a.base);
    &&& pool.is_initialized()
    &&& pool.spec_base() <= a.base
    &&& (a.base - pool.spec_base()) % (PAGE_SIZE as int) == 0
    &&& i + a.spec_page_count() <= pool.spec_size()
    &&& run_matches(pool.bits(), i, a.spec_page_count(), true)
}

/// Two arenas' page runs do not overlap.
pub open spec fn arenas_disjoint(a: Arena, b: Arena) -> bool {
    a.base + (PAGE_SIZE as int) * a.spec_page_count() <= b.base || b.base + (PAGE_SIZE as int)
        * b.spec_page_count() <= a.base
}

/// A page run's address recovers from its index in the pool.
proof fn lemma_index_to_addr(pool_base: u64, base: u64, i: int)
    requires
        pool_base <= base,
        (base - pool_base) % (PAGE_SIZE as int) == 0,
        i == (base - pool_base) / (PAGE_SIZE as int),
    ensures
        base == pool_base + (PAGE_SIZE as int) * i,
        i >= 0,
{
    assert((base - pool_base) == (PAGE_SIZE as int) * i) by (nonlinear_arith)
        requires
            (base - pool_base) % (PAGE_SIZE as int) == 0,
            i == (base - pool_base) / (PAGE_SIZE as int),
            base - pool_base >= 0,
    ;
    assert(i >= 0) by (nonlinear_arith)
        requires
            i == (base - pool_base) / (PAGE_SIZE as int),
            base - pool_base >= 0,
    ;
}

/// An arena whose run is marked used and a fresh run that was entirely free
/// cannot overlap, neither by page index nor by address.
proof fn lemma_marked_run_disjoint(pool: Pool, held: Arena, new_base: u64, new_pages: int)
    requires
        pool.wf(),
        arena_pages_held(held, pool),
        held.spec_page_count() >= 1,
        new_pages >= 1,
        pool.is_initialized(),
        pool.spec_base() <= new_base,
        (new_base - pool.spec_base()) % (PAGE_SIZE as int) == 0,
        pool.spec_page_index(new_base) + new_pages <= pool.spec_size(),
        run_matches(pool.bits(), pool.spec_page_index(new_base), new_pages, false),
    ensures
        held.base + (PAGE_SIZE as int) * held.spec_page_count() <= new_base || new_base + (
        PAGE_SIZE as int) * new_pages <= held.base,
{
    let ih = pool.spec_page_index(held.base);
    let iw = pool.spec_page_index(new_base);
    let ph = held.spec_page_count();
    lemma_index_to_addr(pool.spec_base(), held.base, ih);
    lemma_index_to_addr(pool.spec_base(), new_base, iw);
    if !(ih + ph <= iw || iw + new_pages <= ih) {
        let k = if ih >= iw {
            ih
        } else {
            iw
        };
        assert(pool.bits()[k] == true);
        assert(pool.bits()[k] == false);
    }
    if ih + ph <= iw {
        assert(pool.spec_base() + (PAGE_SIZE as int) * (ih + ph) <= pool.spec_base() + (
        PAGE_SIZE as int) * iw) by (nonlinear_arith)
            requires
                ih + ph <= iw,
        ;
        assert((PAGE_SIZE as int) * (ih + ph) == (PAGE_SIZE as int) * ih + (PAGE_SIZE as int) * ph)
            by (nonlinear_arith);
    } else {
        assert(pool.spec_base() + (PAGE_SIZE as int) * (iw + new_pages) <= pool.spec_base() + (
        PAGE_SIZE as int) * ih) by (nonlinear_arith)
            requires
                iw + new_pages <= ih,
        ;
        assert((PAGE_SIZE as int) * (iw + new_pages) == (PAGE_SIZE as int) * iw + (
        PAGE_SIZE as int) * new_pages) by (nonlinear_arith);
    }
}

/// After a fresh run is marked used, every run that was already marked stays
/// marked.
proof fn lemma_marked_runs_stay(old_pool: Pool, new_pool: Pool, held: Arena, i: int, count: int)
    requires
        arena_pages_held(held, old_pool),
        new_pool.is_initialized() == old_pool.is_initialized(),
        new_pool.spec_base() == old_pool.spec_base(),
        new_pool.spec_size() == old_pool.spec_size(),
        0 <= i,
        i + count <= old_pool.spec_size(),
        new_pool.bits() =~= Seq::new(
            old_pool.spec_size(),
            |j: int|
                if i <= j < i + count {
                    true
                } else {
                    old_pool.bits()[j]
                },
        ),
    ensures
        arena_pages_held(held, new_pool),
{
    let ih = new_pool.spec_page_index(held.base);
    assert forall|j: int| ih <= j < ih + held.spec_page_count() implies new_pool.bits()[j]
        == true by {
        assert(old_pool.bits()[j] == true);
    }
}

/// Every one of the `n` block addresses of an arena page really is a block
/// of that arena: it lies in the page's tail and is aligned to the class
/// size.
proof fn lemma_class_blocks(base: u64, bs: int, n: int)
    requires
        base % (PAGE_SIZE as u64) == 0,
        base + PAGE_SIZE <= u64::MAX,
        1 <= bs <= MAX_BLOCK_SIZE,
        (PAGE_SIZE as int) % bs == 0,
        n == spec_blocks_per_arena(bs),
    ensures
        forall|j: int|
            0 <= j < n ==> is_block_of(base, bs, n, (#[trigger] spec_block_addr(base, bs, n, j)) as u64),
        forall|j1: int, j2: int|
            0 <= j1 < n && 0 <= j2 < n && j1 != j2 ==> spec_block_addr(base, bs, n, j1)
                != spec_block_addr(base, bs, n, j2),
{
    lemma_class_geometry(bs);
    let q = (base as int) / 4096;
    let w = 4096int / bs;
    assert(base == q * 4096) by (nonlinear_arith)
        requires
            (base as int) % 4096 == 0,
            q == (base as int) / 4096,
    ;
    assert(4096int == w * bs) by (nonlinear_arith)
        requires
            4096int % bs == 0,
            1 <= bs,
            w == 4096int / bs,
    ;
    assert forall|j: int| 0 <= j < n implies is_block_of(
        base,
        bs,
        n,
        (#[trigger] spec_block_addr(base, bs, n, j)) as u64,
    ) by {
        let addr = spec_block_addr(base, bs, n, j);
        assert(0 <= j * bs && (j + 1) * bs <= n * bs) by (nonlinear_arith)
            requires
                0 <= j < n,
                1 <= bs,
        ;
        assert(j * bs + bs == (j + 1) * bs) by (nonlinear_arith);
        assert(base + PAGE_SIZE - n * bs <= addr);
        assert(addr + bs <= base + PAGE_SIZE);
        assert(0 <= addr <= u64::MAX);
        assert((addr as u64) as int == addr);
        assert(addr == (q * w + w - n + j) * bs) by (nonlinear_arith)
            requires
                addr == base + 4096 - n * bs + j * bs,
                base == q * 4096,
                4096int == w * bs,
        ;
        assert(addr % bs == 0) by (nonlinear_arith)
            requires
                addr == (q * w + w - n + j) * bs,
                1 <= bs,
        ;
    }
    assert forall|j1: int, j2: int|
        0 <= j1 < n && 0 <= j2 < n && j1 != j2 implies spec_block_addr(base, bs, n, j1)
        != spec_block_addr(base, bs, n, j2) by {
        assert(j1 * bs != j2 * bs) by (nonlinear_arith)
            requires
                j1 != j2,
                1 <= bs,
        ;
    }
}

/// A block count is bounded by the list's length.
proof fn lemma_count_bounds(s: Seq<u64>, base: u64, bs: int, n: int)
    ensures
        0 <= spec_count_blocks(s, base, bs, n) <= s.len(),
    decreases s.len(),
{
    if s.len() > 0 {
        lemma_count_bounds(s.drop_first(), base, bs, n);
    }
}

/// Appending an element to a free list extends its block count by one when
/// the element is a block of the arena, and not otherwise.
proof fn lemma_count_push(s: Seq<u64>, base: u64, bs: int, n: int, x: u64)
    ensures
        spec_count_blocks(s.push(x), base, bs, n) == spec_count_blocks(s, base, bs, n) + (
        if is_block_of(base, bs, n, x) {
            1int
        } else {
            0int
        }),
    decreases s.len(),
{
    let t = s.push(x);
    let delta: int = if is_block_of(base, bs, n, x) {
        1int
    } else {
        0int
    };
    assert(t.len() == s.len() + 1);
    assert(spec_count_blocks(t, base, bs, n) == spec_count_blocks(t.drop_first(), base, bs, n) + (
    if is_block_of(base, bs, n, t.first()) {
        1int
    } else {
        0int
    }));
    if s.len() == 0 {
        assert(t.drop_first() =~= Seq::<u64>::empty());
        assert(t.first() == x);
        assert(spec_count_blocks(Seq::<u64>::empty(), base, bs, n) == 0);
    } else {
        assert(t.drop_first() =~= s.drop_first().push(x));
        assert(t.first() == s.first());
        lemma_count_push(s.drop_first(), base, bs, n, x);
        assert(spec_count_blocks(t.drop_first(), base, bs, n) == spec_count_blocks(
            s.drop_first(),
            base,
            bs,
            n,
        ) + delta);
        assert(spec_count_blocks(s, base, bs, n) == spec_count_blocks(s.drop_first(), base, bs, n)
            + (if is_block_of(base, bs, n, s.first()) {
            1int
        } else {
            0int
        }));
    }
}

/// What filtering an arena's blocks out of a free list leaves: no block of
/// that arena, every survivor drawn from the list it filtered, and the block
/// count of any arena whose page run is disjoint unchanged.
proof fn lemma_filter_blocks_props(s: Seq<u64>, base: u64, bs: int, n: int)
    ensures
        spec_count_blocks(spec_filter_blocks(s, base, bs, n), base, bs, n) == 0,
        spec_filter_blocks(s, base, bs, n).len() <= s.len(),
        forall|k: int|
            0 <= k < spec_filter_blocks(s, base, bs, n).len() ==> s.contains(
                #[trigger] spec_filter_blocks(s, base, bs, n)[k],
            ) && !is_block_of(base, bs, n, spec_filter_blocks(s, base, bs, n)[k]),
    decreases s.len(),
{
    if s.len() > 0 {
        lemma_filter_blocks_props(s.drop_first(), base, bs, n);
        let f = spec_filter_blocks(s, base, bs, n);
        let fr = spec_filter_blocks(s.drop_first(), base, bs, n);
        if is_block_of(base, bs, n, s.first()) {
            assert forall|k: int| 0 <= k < f.len() implies s.contains(#[trigger] f[k])
                && !is_block_of(base, bs, n, f[k]) by {
                assert(s.drop_first().contains(f[k]));
                let w = choose|w: int| 0 <= w < s.drop_first().len() && s.drop_first()[w] == f[k];
                assert(s[w + 1] == f[k]);
            }
        } else {
            assert(f =~= seq![s.first()] + fr);
            assert(f.drop_first() =~= fr);
            assert forall|k: int| 0 <= k < f.len() implies s.contains(#[trigger] f[k])
                && !is_block_of(base, bs, n, f[k]) by {
                if k == 0 {
                    assert(s[0] == f[0]);
                } else {
                    assert(fr[k - 1] == f[k]);
                    assert(s.drop_first().contains(f[k]));
                    let w = choose|w: int|
                        0 <= w < s.drop_first().len() && s.drop_first()[w] == f[k];
                    assert(s[w + 1] == f[k]);
                }
            }
        }
    }
}

/// A block count over a filtered list is unchanged for an arena none of
/// whose blocks are blocks of the filtered arena.
proof fn lemma_filter_preserves_other_count(
    s: Seq<u64>,
    base: u64,
    bs: int,
    n: int,
    other_base: u64,
    other_bs: int,
    other_n: int,
)
    requires
        forall|x: u64|
            is_block_of(base, bs, n, x) ==> !is_block_of(other_base, other_bs, other_n, x),
    ensures
        spec_count_blocks(
            spec_filter_blocks(s, base, bs, n),
            other_base,
            other_bs,
            other_n,
        ) == spec_count_blocks(s, other_base, other_bs, other_n),
    decreases s.len(),
{
    if s.len() > 0 {
        lemma_filter_preserves_other_count(
            s.drop_first(),
            base,
            bs,
            n,
            other_base,
            other_bs,
            other_n,
        );
        let fr = spec_filter_blocks(s.drop_first(), base, bs, n);
        if !is_block_of(base, bs, n, s.first()) {
            let f = seq![s.first()] + fr;
            assert(f.drop_first() =~= fr);
            assert(f.first() == s.first());
        }
    }
}

/// A block belongs to at most one of two arenas whose single pages are
/// disjoint address ranges.
proof fn lemma_block_of_one_arena(
    base_a: u64,
    bs_a: int,
    n_a: int,
    base_b: u64,
    bs_b: int,
    n_b: int,
    addr: u64,
)
    requires
        base_a + PAGE_SIZE <= base_b || base_b + PAGE_SIZE <= base_a,
        0 <= n_a * bs_a <= PAGE_SIZE,
        0 <= n_b * bs_b <= PAGE_SIZE,
        is_block_of(base_a, bs_a, n_a, addr),
    ensures
        !is_block_of(base_b, bs_b, n_b, addr),
{
}

/// Divisibility carries across a chain: a multiple of a multiple of `k` is a
/// multiple of `k`.
proof fn lemma_mod_transitive(a: int, m: int, k: int)
    requires
        0 <= a,
        1 <= k <= m,
        a % m == 0,
        m % k == 0,
    ensures
        a % k == 0,
{
    let q1 = a / m;
    let q2 = m / k;
    assert(a == q1 * m) by (nonlinear_arith)
        requires
            a % m == 0,
            m >= 1,
            q1 == a / m,
            a >= 0,
    ;
    assert(m == q2 * k) by (nonlinear_arith)
        requires
            m % k == 0,
            k >= 1,
            q2 == m / k,
            m >= 1,
    ;
    assert(a == (q1 * q2) * k) by (nonlinear_arith)
        requires
            a == q1 * m,
            m == q2 * k,
    ;
    assert(a % k == 0) by (nonlinear_arith)
        requires
            a == (q1 * q2) * k,
            k >= 1,
    ;
}

/// Rounding a block's address down to its page recovers the arena's base.
proof fn lemma_block_page_mask(base: u64, addr: u64)
    requires
        base % (PAGE_SIZE as u64) == 0,
        base <= addr,
        addr < base + PAGE_SIZE,
    ensures
        addr & !PAGE_MASK == base,
{
    assert(addr & !0xfffu64 == base) by (bit_vector)
        requires
            base % 0x1000u64 == 0,
            base <= addr,
            addr < base + 0x1000u64,
    ;
}

/// A minimal fitting class, as the descriptor search finds it, is the class
/// of the request.
proof fn lemma_class_index_unique(size: usize, di: int)
    requires
        0 <= di < DESCRIPTORS_SIZE,
        size <= spec_class_block_size(di),
        forall|k: int| 0 <= k < di ==> size > spec_class_block_size(k),
    ensures
        di == spec_class_index(size as int),
{
    if di > 0 {
        assert(size > spec_class_block_size(di - 1));
    }
}

/// Every size class divides the page size and stays within bounds.
proof fn lemma_class_divides(i: int)
    requires
        0 <= i < DESCRIPTORS_SIZE,
    ensures
        (PAGE_SIZE as int) % spec_class_block_size(i) == 0,
        1 <= spec_class_block_size(i) <= MAX_BLOCK_SIZE,
{
}

/// A class's blocks-per-arena count is at least one and the blocks fit in
/// the page beside the header.
proof fn lemma_class_geometry(bs: int)
    requires
        1 <= bs <= MAX_BLOCK_SIZE,
    ensures
        1 <= spec_blocks_per_arena(bs),
        spec_blocks_per_arena(bs) * bs <= PAGE_SIZE - ARENA_HEADER_SIZE,
        PAGE_SIZE - spec_blocks_per_arena(bs) * bs >= ARENA_HEADER_SIZE,
{
    let n = spec_blocks_per_arena(bs);
    assert(1 <= n && n * bs <= PAGE_SIZE - ARENA_HEADER_SIZE) by (nonlinear_arith)
        requires
            1 <= bs <= 1024,
            n == ((PAGE_SIZE - ARENA_HEADER_SIZE) as int) / bs,
    ;
}

/// Returns the block size of size class `i`.
pub fn class_block_size(i: usize) -> (r: usize)
    requires
        i < DESCRIPTORS_SIZE,
    ensures
        r == spec_class_block_size(i as int),
        1 <= r <= MAX_BLOCK_SIZE,
{
    if i == 0 {
        16
    } else if i == 1 {
        32
    } else if i == 2 {
        64
    } else if i == 3 {
        128
    } else if i == 4 {
        256
    } else if i == 5 {
        512
    } else {
        1024
    }
}

/// Every block a small allocation returns lies inside its arena's page past
/// the header, is aligned to its size class, and the arena's magic is intact.
pub proof fn lemma_small_alloc_in_arena(heap: Allocator, size: usize, b: u64)
    requires
        heap.wf(),
        size <= MAX_BLOCK_SIZE,
        heap.block_has_arena(spec_class_index(size as int), b),
    ensures
        exists|ai: int|
            0 <= ai < heap.arenas@.len() && (#[trigger] heap.arenas@[ai]).magic == ARENA_MAGIC
                && heap.arenas@[ai].base + ARENA_HEADER_SIZE <= b && b + spec_class_block_size(
                spec_class_index(size as int),
            ) <= heap.arenas@[ai].base + PAGE_SIZE && (b as int) % spec_class_block_size(
                spec_class_index(size as int),
            ) == 0 && size <= spec_class_block_size(spec_class_index(size as int)),
{
    let di = spec_class_index(size as int);
    let bs = spec_class_block_size(di);
    let n = spec_blocks_per_arena(bs);
    lemma_class_geometry(bs);
    lemma_class_divides(di);
    let ai = choose|ai: int|
        0 <= ai < heap.arenas@.len() && (#[trigger] heap.arenas@[ai]).descriptor == Some(
            ArenaDescriptor {
                index: di as usize,
                block_size: bs as usize,
                blocks_per_arena: n as usize,
            },
        ) && is_block_of(heap.arenas@[ai].base, bs, n, b);
    let a = heap.arenas@[ai];
    assert(heap.arena_wf(a));
    // The block ends at or before the page's end: both the block and the
    // page's end are multiples of the class size.
    let base = a.base;
    let q = (base as int) / 4096;
    let w = 4096int / bs;
    assert(base == q * 4096) by (nonlinear_arith)
        requires
            (base as int) % 4096 == 0,
            q == (base as int) / 4096,
    ;
    assert(4096int == w * bs) by (nonlinear_arith)
        requires
            4096int % bs == 0,
            1 <= bs,
            w == 4096int / bs,
    ;
    let u = (b as int) / bs;
    assert(b == u * bs) by (nonlinear_arith)
        requires
            (b as int) % bs == 0,
            1 <= bs,
            u == (b as int) / bs,
    ;
    assert(base + 4096 == (q * w + w) * bs) by (nonlinear_arith)
        requires
            base == q * 4096,
            4096int == w * bs,
    ;
    assert(q * w + w - u >= 1) by (nonlinear_arith)
        requires
            u * bs < (q * w + w) * bs,
            1 <= bs,
    ;
    assert(b + bs <= base + PAGE_SIZE) by (nonlinear_arith)
        requires
            b == u * bs,
            base + 4096 == (q * w + w) * bs,
            q * w + w - u >= 1,
            1 <= bs,
    ;
    assert(a.magic == ARENA_MAGIC && base + ARENA_HEADER_SIZE <= b);
}

/// A block freed into a still-used arena is the very next allocation of its
/// size class: the free returns it to the head of the class's list, and the
/// following allocation of that class takes the head.
pub proof fn lemma_freed_block_reallocated(
    heap0: Allocator,
    heap1: Allocator,
    heap2: Allocator,
    palloc0: PageAllocator,
    palloc1: PageAllocator,
    palloc2: PageAllocator,
    ai: int,
    ptr: u64,
    size: usize,
    b: u64,
)
    requires
        0 <= ai < heap0.arenas@.len(),
        heap0.arenas@[ai].base == ptr & !PAGE_MASK,
        heap0.arenas@[ai].descriptor == Some(
            ArenaDescriptor {
                index: spec_class_index(size as int) as usize,
                block_size: spec_class_block_size(spec_class_index(size as int)) as usize,
                blocks_per_arena: spec_blocks_per_arena(
                    spec_class_block_size(spec_class_index(size as int)),
                ) as usize,
            },
        ),
        heap0.arenas@[ai].free_cnt + 1 < spec_blocks_per_arena(
            spec_class_block_size(spec_class_index(size as int)),
        ),
        size <= MAX_BLOCK_SIZE,
        dealloc_post(heap0, heap1, palloc0, palloc1, ptr, ai),
        small_alloc_post(heap1, heap2, palloc1, palloc2, size, b),
    ensures
        b == ptr,
{
    let di = spec_class_index(size as int);
    assert(heap1.descriptors@[di].free_list@ =~= seq![ptr] + heap0.descriptors@[di].free_list@);
    assert(heap1.descriptors@[di].free_list@[0] == ptr);
}

} // verus!
