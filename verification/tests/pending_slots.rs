use segs::dataflow::CommandId;
use segs::pending::PendingCommandSlots;

/// Component ID reserved for telemetry frames.
const TELEMETRY_COMPONENT_ID: u8 = 0;

#[test]
fn correlation_slots_allocate_sequentially_and_wrap_without_using_zero() {
    let mut slots = PendingCommandSlots::default();

    for expected in 1..=u8::MAX {
        let command_id = CommandId(u64::from(expected));
        let allocated = slots.acquire(command_id).unwrap();
        assert_eq!(allocated, expected);
        assert_eq!(slots.get(allocated), Some(command_id));
        slots.release(allocated);
        assert_eq!(slots.get(allocated), None);
    }

    assert_eq!(slots.acquire(CommandId(256)), Some(1));
    assert_eq!(slots.get(TELEMETRY_COMPONENT_ID), None);
}

#[test]
fn correlation_slots_skip_active_ids_and_report_exhaustion() {
    let mut slots = PendingCommandSlots::default();
    assert_eq!(slots.acquire(CommandId(1000)), Some(1));

    assert_eq!(slots.acquire(CommandId(1001)), Some(2));

    let mut full = PendingCommandSlots::default();
    for id in 0..u8::MAX {
        full.acquire(CommandId(u64::from(id))).unwrap();
    }
    // All slots should be taken, so allocation should fail
    assert_eq!(full.acquire(CommandId(256)), None);

    full.release(42);
    assert_eq!(full.acquire(CommandId(257)), Some(42));
    assert_eq!(full.get(42), Some(CommandId(257)));
}

#[test]
fn acquired_slots_are_unavailable_until_released() {
    let mut slots = PendingCommandSlots::default();

    assert_eq!(slots.acquire(CommandId(1)), Some(1));
    assert_eq!(slots.get(1), Some(CommandId(1)));
    assert_eq!(slots.acquire(CommandId(2)), Some(2));
    slots.release(1);
    slots.next_sequence = 1;
    assert_eq!(slots.acquire(CommandId(3)), Some(1));
    assert_eq!(slots.get(1), Some(CommandId(3)));
}

#[test]
fn occupied_slot_is_skipped_after_wrapping() {
    let mut slots = PendingCommandSlots::default();
    assert_eq!(slots.acquire(CommandId(1)), Some(1));
    slots.next_sequence = 255;
    assert_eq!(slots.acquire(CommandId(2)), Some(255));
    // Slot 1 is still taken, so the allocation after 255 continues at 2
    assert_eq!(slots.acquire(CommandId(3)), Some(2));
}

#[test]
fn oldest_deadline_follows_the_earliest_remaining_slot() {
    let mut slots = PendingCommandSlots::default();
    assert!(slots.oldest().is_none());
    slots.acquire(CommandId(10)).unwrap();
    slots.acquire(CommandId(11)).unwrap();
    assert_eq!(slots.oldest().unwrap().sequence, 1);
    slots.release(1);
    assert_eq!(slots.oldest().unwrap().sequence, 2);
    slots.release(2);
    assert!(slots.oldest().is_none());
}

#[test]
fn advance_wraps_from_the_last_slot_to_the_first() {
    assert_eq!(PendingCommandSlots::advance(1), 2);
    assert_eq!(PendingCommandSlots::advance(254), 255);
    assert_eq!(PendingCommandSlots::advance(255), 1);
}
