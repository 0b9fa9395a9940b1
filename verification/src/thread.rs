use vstd::prelude::*;

verus! {

use crate::PAGE_SIZE;
use crate::linked_list::Node;
use crate::interrupt::control::Interrupts;
use crate::scheduler::Scheduler;

/// Sentinel value for a thread record's `magic` member, used to detect stack
/// overflow: the record sits at the base of its stack region, so an overflow
/// overwrites it.
pub const THREAD_MAGIC: u32 = 0xcd6a_bf4b;

/// Maximum length of a thread name.
pub const NAME_LENGTH: usize = 16;

/// Lowest priority.
pub const PRIORITY_MIN: u32 = 0;

/// Default priority.
pub const PRIORITY_DEFAULT: u32 = 31;

/// Highest priority.
pub const PRIORITY_MAX: u32 = 63;

/// Thread stack size; 16 KiB.
pub const STACK_SIZE: usize = 0x4000;

/// Number of pages in the thread stack.
pub const STACK_PAGES: usize = STACK_SIZE / PAGE_SIZE;

/// Bitmask for retrieving the thread record from a stack pointer.
pub const STACK_MASK: u64 = 0x3fff;

/// Thread identifier.
#[derive(Debug, Clone, Copy, PartialEq, Eq, Structural)]
pub struct Id(pub u32);

impl Id {
    /// Returns a thread id with the given raw value. The scheduler assigns
    /// raw values from a counter, so every thread gets a fresh id.
    pub fn new(raw: u32) -> (r: Id)
        ensures
            r == Id(raw),
    {
        Id(raw)
    }
}

/// States in a thread's life cycle.
#[derive(Debug, Clone, Copy, PartialEq, Eq, Structural)]
pub enum Status {
    /// Running thread.
    Running,
    /// Not running but ready to run.
    Ready,
    /// Waiting for an event to trigger.
    Blocked,
    /// About to be destroyed.
    Dying,
}

/// A kernel thread.
///
/// Each thread occupies a 16 KiB stack region aligned to 16 KiB. The thread
/// record sits at the very base of that region (the kernel writes it at
/// offset 0); the rest is the thread's kernel stack, which grows downward
/// from the top of the region. Because of this placement, masking any stack
/// pointer inside the region with `!STACK_MASK` recovers the record's
/// address. Here the region's base address and the saved stack pointer are
/// carried as plain numbers.
pub struct Thread {
    /// Thread identifier.
    pub id: Id,
    /// Thread state.
    pub status: Status,
    /// Name (for debugging purposes); exactly `NAME_LENGTH` bytes,
    /// zero-padded.
    pub name: Vec<u8>,
    /// Saved stack pointer.
    pub stack: u64,
    /// Priority; advisory in this scheduler.
    pub priority: u32,
    /// Number of timer ticks since last yield.
    pub ticks: u32,
    /// Whether an entrypoint closure has been stored for this thread. The
    /// closure itself lives on the kernel heap and is invoked by the
    /// trampoline, outside this model.
    pub has_entrypoint: bool,
    /// Linked list node owned by the all-threads list of the scheduler.
    pub all_list_node: Node,
    /// Linked list node owned by the ready list of the scheduler or the wait
    /// list of some semaphore.
    pub status_list_node: Node,
    /// Detects stack overflow.
    pub magic: u32,
    /// Base address of the thread's 16 KiB stack region, where this record
    /// sits.
    pub base: u64,
}

/// The first `end` bytes of `name` are nonzero and `end` is the end of the
/// name: either the name fills the buffer or a zero byte follows.
pub open spec fn is_name_end(name: Seq<u8>, end: int) -> bool {
    &&& 0 <= end <= name.len()
    &&& forall|k: int| 0 <= k < end ==> name[k] != 0
    &&& end == name.len() || name[end] == 0
}

/// `name` padded with zero bytes to `NAME_LENGTH`.
pub open spec fn spec_padded_name(name: Seq<u8>) -> Seq<u8> {
    name + Seq::new((NAME_LENGTH - name.len()) as nat, |i: int| 0u8)
}

impl Thread {
    /// The record is placed as the kernel places it: at the base of a 16 KiB
    /// region aligned to 16 KiB, with the saved stack pointer inside the
    /// region, and a full-size name buffer.
    pub open spec fn wf(self) -> bool {
        &&& self.base % (STACK_SIZE as u64) == 0
        &&& self.base + STACK_SIZE <= u64::MAX
        &&& self.base <= self.stack <= self.base + STACK_SIZE
        &&& self.spec_name().len() == NAME_LENGTH
    }

    /// The full, zero-padded name buffer.
    pub open spec fn spec_name(self) -> Seq<u8> {
        self.name@
    }

    /// Whether the magic member is intact.
    pub open spec fn spec_is_thread(self) -> bool {
        self.magic == THREAD_MAGIC
    }

    /// Creates the blank record the kernel finds at the base of a freshly
    /// zeroed stack region.
    pub fn new(base: u64) -> (t: Thread)
        requires
            base % (STACK_SIZE as u64) == 0,
            base + STACK_SIZE <= u64::MAX,
        ensures
            t.base == base,
            !t.spec_is_thread(),
            t.wf(),
    {
        let mut name: Vec<u8> = Vec::new();
        while name.len() < NAME_LENGTH
            invariant
                name@.len() <= NAME_LENGTH,
            decreases NAME_LENGTH - name@.len(),
        {
            name.push(0u8);
        }
        Thread {
            id: Id(0),
            status: Status::Blocked,
            name,
            stack: base,
            priority: 0,
            ticks: 0,
            has_entrypoint: false,
            all_list_node: Node::new(base),
            status_list_node: Node::new(base),
            magic: 0,
            base,
        }
    }

    /// Does basic initialization as a blocked thread named `name` with the
    /// given `id`. A priority above the maximum or an over-long name is a
    /// fatal error in the kernel, so both are excluded here.
    pub fn init(&mut self, id: Id, name: &Vec<u8>, priority: u32)
        requires
            old(self).wf(),
            priority <= PRIORITY_MAX,
            name@.len() <= NAME_LENGTH,
        ensures
            final(self).wf(),
            final(self).id == id,
            final(self).status == Status::Blocked,
            final(self).spec_name() =~= spec_padded_name(name@),
            final(self).stack == old(self).base + STACK_SIZE,
            final(self).priority == priority,
            final(self).ticks == 0,
            !final(self).has_entrypoint,
            final(self).spec_is_thread(),
            final(self).base == old(self).base,
            final(self).all_list_node.spec_id() == old(self).base,
            !final(self).all_list_node.spec_linked(),
            final(self).status_list_node.spec_id() == old(self).base,
            !final(self).status_list_node.spec_linked(),
    {
        self.id = id;
        self.status = Status::Blocked;
        let mut buf: Vec<u8> = Vec::new();
        let mut i: usize = 0;
        while i < name.len()
            invariant
                i <= name@.len(),
                buf@ =~= name@.take(i as int),
            decreases name@.len() - i,
        {
            buf.push(name[i]);
            i = i + 1;
        }
        while buf.len() < NAME_LENGTH
            invariant
                name@.len() <= buf@.len() <= NAME_LENGTH,
                buf@.take(name@.len() as int) =~= name@,
                forall|k: int| name@.len() <= k < buf@.len() ==> buf@[k] == 0u8,
            decreases NAME_LENGTH - buf@.len(),
        {
            buf.push(0u8);
        }
        proof {
            assert(buf@ =~= spec_padded_name(name@));
        }
        self.name = buf;
        self.stack = self.base + STACK_SIZE as u64;
        self.priority = priority;
        self.ticks = 0;
        self.has_entrypoint = false;
        self.all_list_node = Node::new(self.base);
        self.status_list_node = Node::new(self.base);
        self.magic = THREAD_MAGIC;
    }

    /// Returns true if this record appears to be a valid thread.
    pub fn is_thread(&self) -> (r: bool)
        ensures
            r == self.spec_is_thread(),
    {
        self.magic == THREAD_MAGIC
    }

    /// Returns the name of the thread: the bytes of its name buffer up to the
    /// first zero.
    pub fn name(&self) -> (r: Vec<u8>)
        ensures
            is_name_end(self.spec_name(), r@.len() as int),
            r@ =~= self.spec_name().take(r@.len() as int),
    {
        let mut end: usize = 0;
        while end < self.name.len() && self.name[end] != 0
            invariant
                end <= self.name@.len(),
                forall|k: int| 0 <= k < end ==> self.name@[k] != 0,
            decreases self.name@.len() - end,
        {
            end = end + 1;
        }
        let mut r: Vec<u8> = Vec::new();
        let mut i: usize = 0;
        while i < end
            invariant
                i <= end <= self.name@.len(),
                r@ =~= self.name@.take(i as int),
            decreases end - i,
        {
            r.push(self.name[i]);
            i = i + 1;
        }
        r
    }

    /// Moves the saved stack pointer down by `size` bytes, as pushing a value
    /// of that size onto the thread's stack does. A value that does not fit
    /// above the record would corrupt it, so it is excluded here.
    pub fn push_to_stack(&mut self, size: usize)
        requires
            old(self).wf(),
            size < STACK_SIZE,
            size as u64 <= old(self).stack - old(self).base,
        ensures
            final(self).wf(),
            final(self).stack == old(self).stack - size,
            *final(self) == (Thread { stack: final(self).stack, ..*old(self) }),
    {
        self.stack = self.stack - size as u64;
    }

    /// Records that an entrypoint closure has been stored for this thread.
    /// The closure itself is boxed on the kernel heap outside this model.
    pub fn entrypoint(&mut self)
        ensures
            *final(self) == (Thread { has_entrypoint: true, ..*old(self) }),
    {
        self.has_entrypoint = true;
    }
}

/// The name of the main thread, as bytes.
pub open spec fn spec_main_name() -> Seq<u8> {
    seq![0x6du8, 0x61u8, 0x69u8, 0x6eu8]
}

/// Returns the main thread's name, the bytes of "main".
pub fn main_thread_name() -> (r: Vec<u8>)
    ensures
        r@ =~= spec_main_name(),
{
    let mut r: Vec<u8> = Vec::new();
    r.push(0x6d);
    r.push(0x61);
    r.push(0x69);
    r.push(0x6e);
    r
}

/// Transforms the code that's currently running into a thread, named "main".
/// This works only because the bootloader put the bottom of the boot stack at
/// a 16 KiB boundary; `base` is that boundary. Interrupts must still be off,
/// and no other thread may exist yet.
pub fn init(scheduler: &mut Scheduler, base: u64, ints: &Interrupts)
    requires
        old(scheduler).threads@.len() == 0,
        old(scheduler).ready_list@.len() == 0,
        old(scheduler).idle_thread is None,
        old(scheduler).next_id < u32::MAX,
        !ints.spec_enabled(),
        base % (STACK_SIZE as u64) == 0,
        base + STACK_SIZE <= u64::MAX,
    ensures
        final(scheduler).wf(),
        final(scheduler).threads@.len() == 1,
        final(scheduler).spec_current().base == base,
        final(scheduler).spec_current().status == Status::Running,
        final(scheduler).spec_current().id == Id(old(scheduler).next_id),
        final(scheduler).spec_current().spec_name() =~= spec_padded_name(spec_main_name()),
        final(scheduler).spec_current().priority == PRIORITY_DEFAULT,
        final(scheduler).next_id == old(scheduler).next_id + 1,
        final(scheduler).ready_list@ == old(scheduler).ready_list@,
        final(scheduler).idle_thread == old(scheduler).idle_thread,
{
    let mut kernel_thread = Thread::new(base);
    let id = Id::new(scheduler.next_id);
    scheduler.next_id = scheduler.next_id + 1;
    let name = main_thread_name();
    kernel_thread.init(id, &name, PRIORITY_DEFAULT);
    kernel_thread.status = Status::Running;
    scheduler.threads.push(kernel_thread);
    scheduler.current = 0;
}

/// Recovers a thread record's address from a stack pointer anywhere in the
/// thread's stack region, by rounding the pointer down to the stack size.
pub fn running_thread(rsp: u64) -> (base: u64)
    ensures
        base == rsp & !STACK_MASK,
{
    rsp & !STACK_MASK
}

/// For every thread placed as the kernel places it, masking any stack
/// pointer strictly inside its region with the stack mask recovers the
/// record's address.
pub proof fn lemma_stack_pointer_locates_thread(t: Thread)
    requires
        t.wf(),
        t.stack < t.base + STACK_SIZE,
    ensures
        t.stack & !STACK_MASK == t.base,
{
    let s = t.stack;
    let b = t.base;
    assert(s & !0x3fffu64 == b) by (bit_vector)
        requires
            b % 0x4000u64 == 0,
            b <= s,
            s < b + 0x4000u64,
    ;
}

} // verus!
