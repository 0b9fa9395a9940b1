use cheetos::heap::Allocator;
use cheetos::heap::ARENA_HEADER_SIZE;
use cheetos::interrupt::control::Interrupts;
use cheetos::interrupt::handler::InterruptHandlersRegistry;
use cheetos::palloc::AllocateFlags;
use cheetos::palloc::PageAllocator;
use cheetos::console::Console;
use cheetos::console::format_usize;
use cheetos::scheduler::Scheduler;
use cheetos::shutdown::host_exit_status;
use cheetos::shutdown::power_off_write;
use cheetos::shutdown::power_off_with_failure_write;
use cheetos::thread;

const MIB: u64 = 1024 * 1024;
const PAGE: u64 = 4096;
const BOOT_STACK: u64 = 0x7000_0000_0000;

/// Brings up the whole kernel model on 16 MiB of RAM, as the boot test does:
/// adopt the main thread, split the memory into the two pools, set up the
/// interrupt tables, and start the scheduler.
#[test]
fn boot() {
    let mut ints = Interrupts::new();
    let mut sched = Scheduler::new();
    thread::init(&mut sched, BOOT_STACK, &ints);

    let mut palloc = PageAllocator::new();
    // A 16 MiB usable region, placed so that the kernel pool's first page
    // lands on a stack-size boundary, as the bootloader arranges.
    let (kernel_avail, user_avail) = palloc.init(3 * PAGE, 3 * PAGE + 16 * MIB, usize::MAX);
    assert_eq!(kernel_avail, 2047);
    assert_eq!(user_avail, 2047);

    let mut registry = InterruptHandlersRegistry::new();
    registry.init();
    cheetos::timer::init(&mut registry, 1);

    let started = sched.start(&mut palloc, &mut ints);
    assert!(started);
    assert!(ints.are_enabled());
    assert!(sched.ready_list.is_empty());
    assert_eq!(sched.threads[sched.current].name(), b"main".to_vec());
}

/// The console counts exactly the bytes written through it and reports them
/// in its stats line.
#[test]
fn console() {
    let mut console = Console::new();
    console.init();
    let sent = console.write_str("Hello, world!\n");
    assert_eq!(sent, b"Hello, world!\n".to_vec());
    let line = console.print_stats();
    assert_eq!(line, b"Console: 14 characters output\n".to_vec());
}

/// The panic path powers the machine off with the failure code; the host
/// sees the failure status.
#[test]
fn panic() {
    let write = power_off_with_failure_write();
    assert_eq!(write, (0xf4, 0x42));
    assert_eq!(host_exit_status(write.1), 0x85);

    let clean = power_off_write();
    assert_eq!(clean, (0xf4, 0x31));
    assert_eq!(host_exit_status(clean.1), 0x63);
}

/// Heap stress: a long-lived allocation survives a thousand short-lived ones,
/// which all reuse the same block, and a large allocation takes whole pages.
#[test]
fn heap() {
    let mut palloc = PageAllocator::new();
    palloc.init(0, 16 * MIB, usize::MAX);
    let mut heap = Allocator::new();

    let long_lived = heap.allocate(&mut palloc, 8).unwrap();

    let mut last = None;
    for _ in 0..1024 {
        let x = heap.allocate(&mut palloc, 8).unwrap();
        assert_ne!(x, long_lived);
        if let Some(previous) = last {
            // Freed blocks are eligible for reallocation at the same class:
            // the very same block returns.
            assert_eq!(x, previous);
        }
        heap.deallocate(&mut palloc, x);
        last = Some(x);
    }

    // The long-lived block is untouched and still where it was.
    assert_eq!(heap.allocate(&mut palloc, 8).unwrap(), last.unwrap());
    heap.deallocate(&mut palloc, last.unwrap());

    let mut sum: u64 = 0;
    for i in 0..10000u64 {
        sum += i;
    }
    assert_eq!(sum, 49_995_000);
}

/// Allocating many blocks, freeing them all, and allocating again hands back
/// addresses from the first batch.
#[test]
fn heap_round_trip() {
    let mut palloc = PageAllocator::new();
    palloc.init(0, 16 * MIB, usize::MAX);
    let mut heap = Allocator::new();

    let first: Vec<u64> = (0..16).map(|_| heap.allocate(&mut palloc, 64).unwrap()).collect();
    for &b in &first {
        heap.deallocate(&mut palloc, b);
    }
    for _ in 0..16 {
        let again = heap.allocate(&mut palloc, 64).unwrap();
        assert!(first.contains(&again));
    }
}

/// Every block of a size class lies past the arena header, within the page,
/// and aligned to the class.
#[test]
fn heap_block_placement() {
    let mut palloc = PageAllocator::new();
    palloc.init(0, 16 * MIB, usize::MAX);
    let mut heap = Allocator::new();

    for &size in &[1usize, 16, 17, 100, 512, 1024] {
        let b = heap.allocate(&mut palloc, size).unwrap();
        let class = size.next_power_of_two().max(16) as u64;
        let page = b & !0xfff;
        assert!(b % class == 0);
        assert!(b >= page + ARENA_HEADER_SIZE as u64);
        assert!(b + class <= page + PAGE);
        heap.deallocate(&mut palloc, b);
    }
}

/// A request for zero bytes gets a block of the smallest class: non-null and
/// aligned, consistently.
#[test]
fn heap_zero_size() {
    let mut palloc = PageAllocator::new();
    palloc.init(0, 16 * MIB, usize::MAX);
    let mut heap = Allocator::new();

    let a = heap.allocate(&mut palloc, 0).unwrap();
    assert!(a != 0);
    assert!(a % 16 == 0);
    heap.deallocate(&mut palloc, a);
    let b = heap.allocate(&mut palloc, 0).unwrap();
    assert_eq!(a, b);
}

/// A request too big for any class takes whole pages, with the object just
/// after the arena header.
#[test]
fn heap_large_allocation() {
    let mut palloc = PageAllocator::new();
    palloc.init(0, 16 * MIB, usize::MAX);
    let mut heap = Allocator::new();

    let b = heap.allocate(&mut palloc, 10000).unwrap();
    assert_eq!(b % PAGE, ARENA_HEADER_SIZE as u64);
    heap.deallocate(&mut palloc, b);
    // The pages went back: the next large allocation reuses them.
    let c = heap.allocate(&mut palloc, 10000).unwrap();
    assert_eq!(b, c);
}

/// The page allocator marks allocated runs used and clears freed ones; a run
/// longer than the pool's largest free run is refused.
#[test]
fn page_allocator() {
    let mut palloc = PageAllocator::new();
    // A tiny region: 16 pages split 8/8, each pool losing one page to its
    // bitmap.
    let (kernel_avail, user_avail) = palloc.init(0, 16 * PAGE, usize::MAX);
    assert_eq!(kernel_avail, 7);
    assert_eq!(user_avail, 7);

    let a = palloc.get_pages(3, AllocateFlags::zero()).unwrap();
    let b = palloc.get_pages(4, AllocateFlags::zero()).unwrap();
    assert_ne!(a, b);
    // Only seven pages: an eighth is not there.
    assert!(palloc.get_pages(1, AllocateFlags::zero()).is_none());
    palloc.free_pages(a, 3);
    // Three pages are free again, but not four in a row.
    assert!(palloc.get_pages(4, AllocateFlags::zero()).is_none());
    let c = palloc.get_pages(3, AllocateFlags::zero()).unwrap();
    assert_eq!(a, c);
    palloc.free_pages(b, 4);
    palloc.free_pages(c, 3);

    // The user pool is its own space.
    let u = palloc.get_pages(7, AllocateFlags::user()).unwrap();
    assert!(u >= 8 * PAGE as u64);
    palloc.free_pages(u, 7);
}

/// A zero-page request returns nothing and changes nothing.
#[test]
fn page_allocator_zero_pages() {
    let mut palloc = PageAllocator::new();
    palloc.init(0, 16 * PAGE, usize::MAX);
    assert!(palloc.get_pages(0, AllocateFlags::zero()).is_none());
}

/// Aligned page requests start on the asked multiple, as thread stacks need.
#[test]
fn page_allocator_aligned() {
    let mut palloc = PageAllocator::new();
    palloc.init(0, 64 * PAGE, 0x7fff_ffff_ffff_ffff);
    let one = palloc.get_pages(1, AllocateFlags::zero()).unwrap();
    let run = palloc.get_pages_aligned(4, 4, AllocateFlags::zero()).unwrap();
    assert_ne!(one, run);
    // The run starts at a page index that is a multiple of four.
    let base = {
        let mut p = PageAllocator::new();
        let _ = p.init(0, 64 * PAGE, 0x7fff_ffff_ffff_ffff);
        p.get_pages(1, AllocateFlags::zero()).unwrap()
    };
    assert_eq!((run - base) % (4 * PAGE), 0);
}

/// A zero user-page limit leaves the whole region to the kernel pool and an
/// empty user pool that refuses every request.
#[test]
fn page_allocator_no_user_pool() {
    let mut palloc = PageAllocator::new();
    let (kernel_avail, user_avail) = palloc.init(0, 16 * PAGE, 0);
    assert_eq!(kernel_avail, 15);
    assert_eq!(user_avail, 0);
    assert!(palloc.get_pages(1, AllocateFlags::user()).is_none());
    assert!(palloc.get_pages(15, AllocateFlags::zero()).is_some());
}

/// A layout request is served from a class at least as big as its alignment,
/// so the block starts on the asked boundary.
#[test]
fn heap_layout_alignment() {
    let mut palloc = PageAllocator::new();
    palloc.init(0, 16 * MIB, usize::MAX);
    let mut heap = Allocator::new();

    for &(size, align) in &[(24usize, 256usize), (8, 64), (100, 512), (1, 1024), (700, 4)] {
        let b = heap.allocate_layout(&mut palloc, size, align).unwrap();
        assert_eq!(b % align as u64, 0);
        heap.deallocate(&mut palloc, b);
    }
}

/// Spawning threads past the pool's room reports exhaustion rather than a
/// thread.
#[test]
fn spawn_exhausts_pool() {
    let mut ints = Interrupts::new();
    let mut sched = Scheduler::new();
    thread::init(&mut sched, BOOT_STACK, &ints);
    let mut palloc = PageAllocator::new();
    // Sixteen kernel pages minus the bitmap page: room for three stacks at
    // most, fewer aligned.
    palloc.init(0, 32 * PAGE, 0);
    let mut spawned = 0;
    while sched
        .spawn(&mut palloc, &b"filler".to_vec(), 1)
        .is_some() {
        spawned += 1;
        assert!(spawned < 16);
    }
    assert!(spawned >= 1);
}

/// The decimal formatter prints exact digit strings.
#[test]
fn format_numbers() {
    assert_eq!(format_usize(0), b"0".to_vec());
    assert_eq!(format_usize(7), b"7".to_vec());
    assert_eq!(format_usize(49_995_000), b"49995000".to_vec());
    assert_eq!(format_usize(2047), b"2047".to_vec());
}
