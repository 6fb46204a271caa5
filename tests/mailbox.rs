use smp_boot::mailbox::{
    bring_up, is_payload_fenced, poll_slot, BringUp, BringUpError, CoreSlot, StackPolicy, WaitAction, NUM_CORES,
    RELEASE_BASE,
};
use smp_boot::mmio::{BusOp, EntryPoint};

const HEAP_START: usize = 0x10_0000;
const HEAP_SIZE: usize = 6 * 1024 * 1024;
const WAIT_ROUTINE: usize = 0x8_0100;

fn entries() -> Vec<EntryPoint> {
    vec![EntryPoint::Unset, EntryPoint::CoreMain, EntryPoint::Park, EntryPoint::CoreMain]
}

#[test]
fn new_controller_has_unpublished_slots() {
    let b = BringUp::new(HEAP_START, HEAP_SIZE, WAIT_ROUTINE);
    for i in 0..NUM_CORES {
        let s = b.slot(i);
        assert_eq!(s, CoreSlot { ready: false, entry_point: EntryPoint::Unset, stack_pointer: 0, core_id: i });
    }
    assert_eq!(b.bus().len(), 0);
    assert_eq!(b.allocator().current(), HEAP_START);
}

#[test]
fn publish_writes_payload_barrier_release_ready_barrier_wake() {
    let mut b = BringUp::new(HEAP_START, HEAP_SIZE, WAIT_ROUTINE);
    b.publish(2, 0x12_3450, EntryPoint::Park);
    assert_eq!(
        b.bus().ops(),
        vec![
            BusOp::SlotStackPointer { core: 2, sp: 0x12_3450 },
            BusOp::SlotEntry { core: 2, entry: EntryPoint::Park },
            BusOp::StoreBarrier,
            BusOp::StoreWord { addr: 0xe8, value: WAIT_ROUTINE },
            BusOp::SlotReady { core: 2 },
            BusOp::StoreBarrier,
            BusOp::WakeEvent,
        ]
    );
    assert_eq!(b.slot(2), CoreSlot { ready: true, entry_point: EntryPoint::Park, stack_pointer: 0x12_3450, core_id: 2 });
    assert!(!b.slot(1).ready);
}

#[test]
fn three_secondaries_get_disjoint_increasing_stacks() {
    let (b, r) = bring_up(HEAP_START, HEAP_SIZE, WAIT_ROUTINE, 0, &entries(), 0x80000, StackPolicy::Halt);
    assert_eq!(r, Ok(()));
    let tops: Vec<usize> = (1..NUM_CORES).map(|i| b.slot(i).stack_pointer).collect();
    assert_eq!(tops, vec![HEAP_START + 0x80000, HEAP_START + 0x100000, HEAP_START + 0x180000]);
    for w in tops.windows(2) {
        assert!(w[0] < w[1]);
        assert!(w[1] - 0x80000 >= w[0]);
    }
    assert_eq!(b.slot(1).entry_point, EntryPoint::CoreMain);
    assert_eq!(b.slot(2).entry_point, EntryPoint::Park);
    assert_eq!(b.slot(3).entry_point, EntryPoint::CoreMain);
    for i in 1..NUM_CORES {
        assert!(b.slot(i).ready);
        assert_eq!(b.slot(i).core_id, i);
    }
    assert_eq!(b.slot(0), CoreSlot { ready: false, entry_point: EntryPoint::Unset, stack_pointer: 0, core_id: 0 });
    assert_eq!(b.allocator().current(), HEAP_START + 0x180000);
}

#[test]
fn stacks_are_aligned_from_an_unaligned_heap() {
    let (b, r) = bring_up(0x10_0008, 0x1000, WAIT_ROUTINE, 0, &entries(), 0x100, StackPolicy::Halt);
    assert_eq!(r, Ok(()));
    assert_eq!(b.slot(1).stack_pointer, 0x10_0110);
    assert_eq!(b.slot(2).stack_pointer, 0x10_0210);
    assert_eq!(b.slot(3).stack_pointer, 0x10_0310);
}

#[test]
fn release_words_and_order_on_the_bus() {
    let (b, _) = bring_up(HEAP_START, HEAP_SIZE, WAIT_ROUTINE, 0, &entries(), 0x80000, StackPolicy::Halt);
    let ops = b.bus().ops();
    let releases: Vec<BusOp> = ops.iter().copied().filter(|op| matches!(op, BusOp::StoreWord { .. })).collect();
    assert_eq!(
        releases,
        vec![
            BusOp::StoreWord { addr: RELEASE_BASE + 8, value: WAIT_ROUTINE },
            BusOp::StoreWord { addr: RELEASE_BASE + 16, value: WAIT_ROUTINE },
            BusOp::StoreWord { addr: RELEASE_BASE + 24, value: WAIT_ROUTINE },
        ]
    );
    let wakes = ops.iter().filter(|op| **op == BusOp::WakeEvent).count();
    assert_eq!(wakes, 3);
}

#[test]
fn published_payload_is_fenced_before_ready() {
    let (b, _) = bring_up(HEAP_START, HEAP_SIZE, WAIT_ROUTINE, 0, &entries(), 0x80000, StackPolicy::Halt);
    let ops = b.bus().ops();
    for i in 1..NUM_CORES {
        let s = b.slot(i);
        assert!(is_payload_fenced(&ops, i, s.stack_pointer, s.entry_point));
    }
}

#[test]
fn removing_the_barrier_breaks_the_fence() {
    let (b, _) = bring_up(HEAP_START, HEAP_SIZE, WAIT_ROUTINE, 0, &entries(), 0x80000, StackPolicy::Halt);
    let ops = b.bus().ops();
    let s = b.slot(1);
    let first_ready = ops.iter().position(|op| *op == BusOp::SlotReady { core: 1 }).unwrap();
    let mut broken = ops.clone();
    let barrier = broken[..first_ready].iter().rposition(|op| *op == BusOp::StoreBarrier).unwrap();
    broken.remove(barrier);
    assert!(!is_payload_fenced(&broken, 1, s.stack_pointer, s.entry_point));
    assert!(is_payload_fenced(&broken, 2, b.slot(2).stack_pointer, b.slot(2).entry_point));
}

#[test]
fn ready_before_payload_is_not_fenced() {
    let ops = vec![
        BusOp::SlotReady { core: 1 },
        BusOp::SlotStackPointer { core: 1, sp: 0x1000 },
        BusOp::SlotEntry { core: 1, entry: EntryPoint::CoreMain },
        BusOp::StoreBarrier,
    ];
    assert!(!is_payload_fenced(&ops, 1, 0x1000, EntryPoint::CoreMain));
    assert!(is_payload_fenced(&ops[1..].to_vec(), 1, 0x1000, EntryPoint::CoreMain));
    assert!(is_payload_fenced(&Vec::new(), 1, 0x1000, EntryPoint::CoreMain));
}

#[test]
fn stale_payload_value_is_not_fenced() {
    let ops = vec![
        BusOp::SlotStackPointer { core: 1, sp: 0x1000 },
        BusOp::SlotEntry { core: 1, entry: EntryPoint::CoreMain },
        BusOp::StoreBarrier,
        BusOp::SlotReady { core: 1 },
    ];
    assert!(is_payload_fenced(&ops, 1, 0x1000, EntryPoint::CoreMain));
    assert!(!is_payload_fenced(&ops, 1, 0x2000, EntryPoint::CoreMain));
    assert!(!is_payload_fenced(&ops, 1, 0x1000, EntryPoint::Park));
}

#[test]
fn halt_policy_stops_at_the_first_core_without_a_stack() {
    let (b, r) = bring_up(HEAP_START, 0x100, WAIT_ROUTINE, 0, &entries(), 0x80, StackPolicy::Halt);
    assert_eq!(r, Err(BringUpError::StackExhausted { core: 3 }));
    assert!(b.slot(1).ready);
    assert!(b.slot(2).ready);
    assert!(!b.slot(3).ready);
    assert_eq!(b.allocator().current(), HEAP_START + 0x100);
}

#[test]
fn halt_policy_with_no_heap_releases_nothing() {
    let (b, r) = bring_up(HEAP_START, 0, WAIT_ROUTINE, 0, &entries(), 0x80000, StackPolicy::Halt);
    assert_eq!(r, Err(BringUpError::StackExhausted { core: 1 }));
    for i in 0..NUM_CORES {
        assert!(!b.slot(i).ready);
    }
    assert!(!b.bus().ops().iter().any(|op| matches!(op, BusOp::SlotReady { .. })));
}

#[test]
fn shrink_policy_halves_until_a_stack_fits() {
    let (b, r) = bring_up(HEAP_START, 0x1c0, WAIT_ROUTINE, 0, &entries(), 0x100, StackPolicy::Shrink);
    assert_eq!(r, Ok(()));
    assert_eq!(b.slot(1).stack_pointer, HEAP_START + 0x100);
    assert_eq!(b.slot(2).stack_pointer, HEAP_START + 0x180);
    assert_eq!(b.slot(3).stack_pointer, HEAP_START + 0x1c0);
}

#[test]
fn shrink_policy_fails_once_nothing_is_left() {
    let (b, r) = bring_up(HEAP_START, 0x180, WAIT_ROUTINE, 0, &entries(), 0x100, StackPolicy::Shrink);
    assert_eq!(r, Err(BringUpError::StackExhausted { core: 3 }));
    assert_eq!(b.slot(2).stack_pointer, HEAP_START + 0x180);
    assert!(!b.slot(3).ready);
}

#[test]
fn shrink_policy_gives_up_on_an_exhausted_heap() {
    let (b, r) = bring_up(HEAP_START, 0, WAIT_ROUTINE, 0, &entries(), 0x100, StackPolicy::Shrink);
    assert_eq!(r, Err(BringUpError::StackExhausted { core: 1 }));
    assert!(!b.slot(1).ready);
}

#[test]
fn unpublished_slot_keeps_its_core_spinning() {
    let b = BringUp::new(HEAP_START, HEAP_SIZE, WAIT_ROUTINE);
    let slot = b.slot(2);
    for _ in 0..10_000 {
        assert_eq!(poll_slot(&slot), WaitAction::Spin);
    }
}

#[test]
fn published_slot_sends_its_core_to_the_entry_point() {
    let (b, _) = bring_up(HEAP_START, HEAP_SIZE, WAIT_ROUTINE, 0, &entries(), 0x80000, StackPolicy::Halt);
    assert_eq!(
        poll_slot(&b.slot(2)),
        WaitAction::Jump { stack_pointer: HEAP_START + 0x100000, entry_point: EntryPoint::Park }
    );
    assert_eq!(poll_slot(&b.slot(0)), WaitAction::Spin);
}
