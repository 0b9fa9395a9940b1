use cheetos::addr;
use cheetos::bit_set::BitSet;
use cheetos::div_round_up;
use cheetos::interrupt::control::Interrupts;
use cheetos::interrupt::handler::DispatchOutcome;
use cheetos::interrupt::handler::GateKind;
use cheetos::interrupt::handler::InterruptHandlersRegistry;
use cheetos::interrupt::mutex::Mutex;
use cheetos::interrupt::pic::Pics;
use cheetos::linked_list::LinkedList;
use cheetos::linked_list::Node;
use cheetos::pit::Channel;
use cheetos::pit::Mode;
use cheetos::pit::Pit;

/// Bits are set, cleared, flipped, and read back individually.
#[test]
fn bit_set_single_bits() {
    let mut bits = BitSet::from_buffer(100, BitSet::buffer_size(100));
    assert_eq!(bits.size(), 100);
    for i in 0..100 {
        assert!(!bits.get(i));
    }
    bits.mark(3);
    bits.set(64, true);
    assert!(bits.get(3) && bits.get(64));
    bits.flip(3);
    assert!(!bits.get(3));
    bits.reset(64);
    assert!(!bits.get(64));
}

/// A window of bits is written at once and scanned for runs; a run longer
/// than any free stretch is not found.
#[test]
fn bit_set_runs() {
    let mut bits = BitSet::from_buffer(64, BitSet::buffer_size(64));
    bits.set_many(8, 16, true);
    assert!(bits.contains(0, 64, true));
    assert!(!bits.contains(9, 4, false));
    // The first free run of eight starts at zero; after the used window there
    // is a long free stretch.
    assert_eq!(bits.scan(0, 8, false), Some(0));
    assert_eq!(bits.scan(8, 8, false), Some(24));
    assert_eq!(bits.scan(0, 16, true), Some(8));
    // No free run of forty-one exists anywhere.
    assert_eq!(bits.scan(0, 41, false), None);
    bits.set_all(false);
    assert_eq!(bits.scan(0, 64, false), Some(0));
}

/// A zero-length run begins anywhere: the scan returns its starting point.
#[test]
fn bit_set_zero_length_scan() {
    let mut bits = BitSet::from_buffer(8, BitSet::buffer_size(8));
    bits.set_all(true);
    assert_eq!(bits.scan(0, 0, false), Some(0));
    assert_eq!(bits.scan(8, 0, false), Some(8));
    assert_eq!(bits.scan(3, 0, true), Some(3));
}

/// Rounding division up behaves on the boundaries.
#[test]
fn round_up() {
    assert_eq!(div_round_up(0, 4096), 0);
    assert_eq!(div_round_up(1, 4096), 1);
    assert_eq!(div_round_up(4096, 4096), 1);
    assert_eq!(div_round_up(4097, 4096), 2);
}

/// Nodes pushed at one end come back from the same end in reverse order, and
/// from the opposite end in arrival order.
#[test]
fn list_push_pop_order() {
    // Last in, first out from the same end.
    let mut list = LinkedList::new();
    for id in 1..=4u64 {
        let mut node = Node::new(id);
        list.push_back(&mut node);
        assert!(node.is_element());
    }
    assert_eq!(list.len(), 4);
    for expected in [4u64, 3, 2, 1] {
        let popped = list.pop_back().unwrap();
        assert_eq!(popped.id(), expected);
        assert!(!popped.is_element());
    }

    // First in, first out from the opposite end.
    let mut list = LinkedList::new();
    for id in 1..=4u64 {
        let mut node = Node::new(id);
        list.push_back(&mut node);
    }
    for expected in [1u64, 2, 3, 4] {
        assert_eq!(list.pop_front().unwrap().id(), expected);
    }
    assert!(list.is_empty());
    assert!(list.pop_front().is_none());
}

/// The cursor walks, inserts, removes, and splices where it stands.
#[test]
fn list_cursor() {
    let mut list = LinkedList::new();
    for id in [10u64, 20, 30] {
        let mut node = Node::new(id);
        list.push_back(&mut node);
    }

    let mut cursor = list.cursor_mut();
    assert_eq!(cursor.current(&list), None);
    cursor.move_next(&list);
    assert_eq!(cursor.current(&list), Some(10));
    assert_eq!(cursor.peek_next(&list), Some(20));
    assert_eq!(cursor.peek_prev(&list), None);
    cursor.move_next(&list);

    let mut node = Node::new(15);
    cursor.insert_before(&mut list, &mut node);
    assert_eq!(cursor.current(&list), Some(20));
    let removed = cursor.remove_current(&mut list).unwrap();
    assert_eq!(removed.id(), 20);
    assert_eq!(cursor.current(&list), Some(30));

    // The list is now 10, 15, 30.
    assert_eq!(list.front(), Some(10));
    assert_eq!(list.back(), Some(30));

    let mut other = LinkedList::new();
    for id in [21u64, 22] {
        let mut node = Node::new(id);
        other.push_back(&mut node);
    }
    cursor.splice_before(&mut list, other);
    assert_eq!(cursor.current(&list), Some(30));

    let tail = cursor.split_before(&mut list);
    assert_eq!(tail.len(), 4);
    assert_eq!(list.front(), Some(30));
    assert_eq!(list.len(), 1);
}

/// The iterator walks both directions over a snapshot of the list.
#[test]
fn list_iteration() {
    let mut list = LinkedList::new();
    for id in [1u64, 2, 3] {
        let mut node = Node::new(id);
        list.push_back(&mut node);
    }
    let mut it = list.iter();
    assert_eq!(it.next(), Some(1));
    assert_eq!(it.next_back(), Some(3));
    assert_eq!(it.next(), Some(2));
    assert_eq!(it.next(), None);
    let mut it = list.iter_mut();
    assert_eq!(it.next(), Some(1));
}

/// Saving and disabling interrupts, then restoring, leaves the enable state
/// exactly as it was.
#[test]
fn without_interrupts_restores() {
    let mut ints = Interrupts::new();
    ints.enable();
    let saved = ints.save_and_disable();
    assert!(ints.are_disabled());
    ints.restore(saved);
    assert!(ints.are_enabled());

    ints.disable();
    let saved = ints.save_and_disable();
    ints.restore(saved);
    assert!(ints.are_disabled());
}

/// The interrupt mutex guard disables interrupts for the critical section and
/// re-enables them if and only if they were on.
#[test]
fn interrupt_mutex() {
    let mut ints = Interrupts::new();
    ints.enable();
    let mut mutex = Mutex::new(5u32);
    let mut guard = mutex.lock();
    {
        let value = guard.deref_mut(&mut mutex, &mut ints);
        assert!(*value == 5);
        *value = 6;
    }
    assert!(ints.are_disabled());
    guard.release(&mut ints);
    assert!(ints.are_enabled());
    assert_eq!(*mutex.peek(), 6);
}

/// Initialization installs the documented gates and names; dispatch hands
/// exceptions to their handlers, drops spurious vectors, and acknowledges
/// external interrupts.
#[test]
fn interrupt_dispatch() {
    let mut ints = Interrupts::new();
    let mut registry = InterruptHandlersRegistry::new();
    registry.init();

    assert_eq!(registry.gates[8], GateKind::DoubleFault);
    assert_eq!(registry.gates[14], GateKind::PageFault);
    assert_eq!(registry.gates[15], GateKind::Missing);
    assert_eq!(registry.gates[13], GateKind::WithErrorCode);
    assert_eq!(registry.gates[0x21], GateKind::Generic);
    assert_eq!(registry.registries[0].name(), "#DE Divide Error");
    assert_eq!(registry.registries[0x40].name(), "unknown");

    registry.register(0x20, 77, "8254 Timer");
    assert_eq!(registry.registries[0x20].name(), "8254 Timer");

    // An internal vector dispatches with no acknowledgement.
    match registry.dispatch(&mut ints, 13) {
        DispatchOutcome::Internal { handler } => assert_eq!(handler, None),
        _ => panic!("an exception must dispatch internally"),
    }

    // Spurious vectors are silently dropped.
    match registry.dispatch(&mut ints, 0x27) {
        DispatchOutcome::Spurious => (),
        _ => panic!("vector 0x27 is spurious"),
    }

    // The timer vector finds its handler and acknowledges the master only;
    // the handler observes the external-context flag throughout, and the stub
    // lowers it before acknowledging.
    match registry.dispatch(&mut ints, 0x20) {
        DispatchOutcome::External { handler, ack_master, ack_slave } => {
            assert_eq!(handler, Some(77));
            assert!(ack_master);
            assert!(!ack_slave);
        },
        _ => panic!("the timer is an external interrupt"),
    }
    assert!(ints.is_external_handler_context());
    registry.finish_dispatch(&mut ints);
    assert!(!ints.is_external_handler_context());

    // A slave-range vector with no handler counts as unexpected and
    // acknowledges both controllers.
    match registry.dispatch(&mut ints, 0x2a) {
        DispatchOutcome::External { handler, ack_master, ack_slave } => {
            assert_eq!(handler, None);
            assert!(ack_master);
            assert!(ack_slave);
        },
        _ => panic!("vector 0x2a is an external interrupt"),
    }
    assert_eq!(registry.registries[0x2a].unexpected_count, 1);
    registry.finish_dispatch(&mut ints);
    assert!(!ints.is_external_handler_context());
}

/// The controller pair is programmed with the documented initialization words
/// and acknowledged per interrupt range.
#[test]
fn pic_programming() {
    let pics = Pics::new(0x20);
    let writes = pics.init();
    assert_eq!(
        writes,
        vec![
            (0x21, 0xff),
            (0xa1, 0xff),
            (0x20, 0x11),
            (0x21, 0x20),
            (0x21, 0x04),
            (0x21, 0x01),
            (0xa0, 0x11),
            (0xa1, 0x28),
            (0xa1, 0x02),
            (0xa1, 0x01),
            (0x21, 0x00),
            (0xa1, 0x00),
        ]
    );
    assert_eq!(pics.end_of_interrupt(0x21), vec![(0x20, 0x20)]);
    assert_eq!(pics.end_of_interrupt(0x2c), vec![(0x20, 0x20), (0xa0, 0x20)]);
}

/// The timer divisor follows the documented formula with its two clamps.
#[test]
fn pit_configure() {
    let pit = Pit::new();
    // 100 Hz: divisor (1193180 + 50) / 100 = 11932 = 0x2e9c.
    let writes = pit.configure(Channel::OUT0, Mode::RateGenerator, 100);
    assert_eq!(writes, vec![(0x43, 0x34), (0x40, 0x9c), (0x40, 0x2e)]);
    // Below the minimum the count is forced to zero, which means 65536.
    let writes = pit.configure(Channel::OUT0, Mode::RateGenerator, 10);
    assert_eq!(writes, vec![(0x43, 0x34), (0x40, 0x00), (0x40, 0x00)]);
    // Above the maximum the count is forced to two.
    let writes = pit.configure(Channel::OUT2, Mode::SquareWave, 2_000_000);
    assert_eq!(writes, vec![(0x43, 0xb6), (0x42, 0x02), (0x42, 0x00)]);
}

/// Physical and kernel-virtual addresses convert back and forth across the
/// fixed mapping base.
#[test]
fn address_mapping() {
    let phys = 0x1234u64;
    let virt = addr::ptov(phys);
    assert_eq!(virt, 0x0100_0000_1234);
    assert_eq!(addr::vtop(virt), phys);
    assert!(addr::is_kernel_vaddr(virt));
    assert!(addr::is_user_vaddr(phys));
    assert_eq!(addr::page_number(0x5000), 5);
}
