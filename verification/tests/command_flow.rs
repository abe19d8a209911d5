use segs::commands::CommandStore;
use segs::correlation::{
    message_id_named, message_info, profile_timestamps_numeric, CommandTracker, OutgoingStep, ProfileError,
    ResponseOutcome,
};
use segs::dataflow::{Command, CommandId, CommandStatus, DataValue, MessageKey, SourceKey};
use segs::mavlink::{
    compute_data_key, CommandError, FieldInfo, MavMessage, MavProfile, MavType, MessageInfo, MsgField, UnixSeconds,
};

const ACK: u32 = 10;
const WACK: u32 = 11;
const NACK: u32 = 12;
const RESPONSE: u32 = 20;

fn info(id: u32, name: &str, fields: &[(&str, MavType)]) -> MessageInfo {
    MessageInfo {
        id,
        name: name.into(),
        fields: fields
            .iter()
            .map(|(field, mavtype)| FieldInfo { name: (*field).into(), mavtype: mavtype.clone(), enumtype: None })
            .collect(),
    }
}

fn profile() -> MavProfile {
    MavProfile {
        enums: Vec::new(),
        messages: vec![
            (ACK, info(ACK, "ACK_TM", &[("recv_msgid", MavType::UInt8)])),
            (WACK, info(WACK, "WACK_TM", &[("recv_msgid", MavType::UInt8)])),
            (NACK, info(NACK, "NACK_TM", &[("recv_msgid", MavType::UInt8)])),
            (RESPONSE, info(RESPONSE, "RESPONSE_TM", &[("count", MavType::UInt16)])),
        ],
    }
}

fn command(target: u32) -> Command {
    Command { key: MessageKey(1), target: SourceKey(target), timestamp: 5, fields: Vec::new() }
}

fn ack(id: u32) -> MavMessage {
    MavMessage { id, fields: vec![MsgField::UInt8(1)] }
}

#[test]
fn commands_are_sent_in_issue_order_through_fresh_slots() {
    let mut store = CommandStore::new();
    let mut tracker = CommandTracker::new(ACK, WACK, NACK);
    assert!(tracker.take_next_outgoing(&mut store).is_none());

    let first = store.enqueue_command(command(3));
    let second = store.enqueue_command(command(4));
    assert_eq!(first, CommandId(0));
    assert_eq!(second, CommandId(1));
    assert_eq!(store.len(), 2);

    assert_eq!(tracker.take_next_outgoing(&mut store), Some((first, 1)));
    assert_eq!(tracker.take_next_outgoing(&mut store), Some((second, 2)));
    assert!(tracker.take_next_outgoing(&mut store).is_none());
    assert_eq!(tracker.pending.get(1), Some(first));
    assert_eq!(tracker.pending.get(2), Some(second));
}

#[test]
fn responses_are_recorded_until_an_acknowledgement_completes_the_command() {
    let profile = profile();
    let mut store = CommandStore::new();
    let mut tracker = CommandTracker::new(ACK, WACK, NACK);
    let id = store.enqueue_command(command(3));
    let (_, slot) = tracker.take_next_outgoing(&mut store).unwrap();

    let response = MavMessage { id: RESPONSE, fields: vec![MsgField::UInt16(7)] };
    let outcome = tracker.handle_command(&mut store, &profile, response, slot, 99);
    assert!(matches!(outcome, ResponseOutcome::Recorded(r) if r == id));
    let sequence = store.command_sequence(id);
    assert_eq!(sequence.status, CommandStatus::Pending);
    assert_eq!(sequence.responses.len(), 1);
    let recorded = &sequence.responses[0];
    assert_eq!(recorded.key, MessageKey(RESPONSE as u64));
    assert_eq!(recorded.target, SourceKey(3));
    assert_eq!(recorded.timestamp, 99);
    assert!(matches!(recorded.fields[0].1, DataValue::U16(7)));

    let outcome = tracker.handle_command(&mut store, &profile, ack(ACK), slot, 100);
    assert!(matches!(outcome, ResponseOutcome::Completed(r) if r == id));
    assert_eq!(store.command_sequence(id).status, CommandStatus::Success);
    assert_eq!(tracker.pending.get(slot), None);

    let late = tracker.handle_command(&mut store, &profile, ack(ACK), slot, 101);
    assert!(matches!(late, ResponseOutcome::NoPendingCommand));
}

#[test]
fn warnings_succeed_and_rejections_fail() {
    let profile = profile();
    let mut store = CommandStore::new();
    let mut tracker = CommandTracker::new(ACK, WACK, NACK);
    let warned = store.enqueue_command(command(3));
    let rejected = store.enqueue_command(command(3));
    let (_, warned_slot) = tracker.take_next_outgoing(&mut store).unwrap();
    let (_, rejected_slot) = tracker.take_next_outgoing(&mut store).unwrap();

    tracker.handle_command(&mut store, &profile, ack(WACK), warned_slot, 1);
    tracker.handle_command(&mut store, &profile, ack(NACK), rejected_slot, 1);
    assert_eq!(store.command_sequence(warned).status, CommandStatus::Success);
    assert_eq!(store.command_sequence(rejected).status, CommandStatus::Rejected);
}

#[test]
fn unknown_messages_change_nothing() {
    let profile = profile();
    let mut store = CommandStore::new();
    let mut tracker = CommandTracker::new(ACK, WACK, NACK);
    let id = store.enqueue_command(command(3));
    let (_, slot) = tracker.take_next_outgoing(&mut store).unwrap();
    let outcome = tracker.handle_command(&mut store, &profile, ack(99), slot, 1);
    assert!(matches!(outcome, ResponseOutcome::UnknownMessage));
    assert_eq!(store.command_sequence(id).status, CommandStatus::Pending);
    assert_eq!(tracker.pending.get(slot), Some(id));
    assert!(message_info(&profile, 99).is_none());
    assert_eq!(message_info(&profile, RESPONSE).unwrap().name, "RESPONSE_TM");
}

#[test]
fn undecodable_responses_are_reported() {
    let profile = profile();
    let mut store = CommandStore::new();
    let mut tracker = CommandTracker::new(ACK, WACK, NACK);
    let id = store.enqueue_command(command(3));
    let (_, slot) = tracker.take_next_outgoing(&mut store).unwrap();
    let wrong = MavMessage { id: RESPONSE, fields: vec![MsgField::Array(Vec::new())] };
    let outcome = tracker.handle_command(&mut store, &profile, wrong, slot, 1);
    assert!(matches!(outcome, ResponseOutcome::Undecodable(r, _) if r == id));
    assert_eq!(store.command_sequence(id).responses.len(), 0);
}

#[test]
fn send_failures_free_the_slot_of_their_own_command_only() {
    let mut store = CommandStore::new();
    let mut tracker = CommandTracker::new(ACK, WACK, NACK);
    let first = store.enqueue_command(command(3));
    let second = store.enqueue_command(command(3));
    let (_, slot) = tracker.take_next_outgoing(&mut store).unwrap();

    tracker.record_send_failure(&mut store, slot, second);
    assert_eq!(tracker.pending.get(slot), Some(first));
    assert_eq!(store.command_sequence(first).status, CommandStatus::Pending);

    tracker.record_send_failure(&mut store, slot, first);
    assert_eq!(tracker.pending.get(slot), None);
    assert_eq!(store.command_sequence(first).status, CommandStatus::LocalError);
}

#[test]
fn expired_commands_time_out_and_free_their_slots() {
    let mut store = CommandStore::new();
    let mut tracker = CommandTracker::new(ACK, WACK, NACK);
    let id = store.enqueue_command(command(3));
    let (_, slot) = tracker.take_next_outgoing(&mut store).unwrap();
    let expires_at = tracker.pending.oldest().unwrap().expires_at;

    tracker.expire_pending_commands(&mut store, expires_at - 1);
    assert_eq!(store.command_sequence(id).status, CommandStatus::Pending);
    assert_eq!(tracker.pending.get(slot), Some(id));

    tracker.expire_pending_commands(&mut store, expires_at);
    assert_eq!(store.command_sequence(id).status, CommandStatus::TimedOut);
    assert_eq!(tracker.pending.get(slot), None);
    assert!(tracker.pending.oldest().is_none());
}

#[test]
fn status_updates_report_final_messages() {
    let mut store = CommandStore::new();
    let tracker = CommandTracker::new(ACK, WACK, NACK);
    let id = store.enqueue_command(command(3));
    assert!(!tracker.update_sequence_status(&mut store, id, RESPONSE));
    assert_eq!(store.command_sequence(id).status, CommandStatus::Pending);
    assert!(tracker.update_sequence_status(&mut store, id, NACK));
    assert_eq!(store.command_sequence(id).status, CommandStatus::Rejected);
}

const PING: u32 = 30;

fn sending_profile() -> MavProfile {
    let mut profile = profile();
    profile.messages.push((PING, info(PING, "PING_TC", &[("timestamp", MavType::UInt32), ("value", MavType::UInt8)])));
    profile
}

fn ping(target: u32, value: Option<u8>) -> Command {
    Command {
        key: MessageKey(PING as u64),
        target: SourceKey(target),
        timestamp: 5,
        fields: value.map(|v| (compute_data_key(PING, 1, "value"), DataValue::U8(v))).into_iter().collect(),
    }
}

#[test]
fn queued_commands_are_encoded_for_their_slot_and_target() {
    let profile = sending_profile();
    assert!(profile_timestamps_numeric(&profile));
    let now = UnixSeconds { secs: 1_000, secs_f32_bits: 1_000f32.to_bits(), secs_f64_bits: 1_000f64.to_bits() };
    let mut store = CommandStore::new();
    let mut tracker = CommandTracker::new(ACK, WACK, NACK);

    let ready = store.enqueue_command(ping(260, Some(9)));
    let missing = store.enqueue_command(command(3));
    let unencodable = store.enqueue_command(ping(3, None));

    match tracker.prepare_outgoing(&mut store, &profile, &now) {
        Some(OutgoingStep::Ready { id, slot, system_id, message }) => {
            assert_eq!(id, ready);
            assert_eq!(slot, 1);
            assert_eq!(system_id, 4);
            assert_eq!(message.id, PING);
            assert_eq!(message.fields, vec![MsgField::UInt32(1_000), MsgField::UInt8(9)]);
        },
        other => panic!("unexpected step {other:?}"),
    }
    assert!(matches!(tracker.prepare_outgoing(&mut store, &profile, &now), Some(OutgoingStep::MissingMessage(id)) if id == missing));
    assert_eq!(store.command_sequence(missing).status, CommandStatus::LocalError);
    assert!(matches!(
        tracker.prepare_outgoing(&mut store, &profile, &now),
        Some(OutgoingStep::Unencodable(id, CommandError::MissingValue { .. })) if id == unencodable
    ));
    assert_eq!(store.command_sequence(unencodable).status, CommandStatus::LocalError);
    assert!(tracker.prepare_outgoing(&mut store, &profile, &now).is_none());
    // Only the command that was sent keeps its slot.
    assert_eq!(tracker.pending.get(1), Some(ready));
    assert_eq!(tracker.pending.get(2), None);
    assert_eq!(tracker.pending.get(3), None);
}

#[test]
fn text_timestamps_cannot_be_managed() {
    let mut profile = profile();
    assert!(profile_timestamps_numeric(&profile));
    profile.messages.push((PING, info(PING, "PING_TC", &[("timestamp", MavType::CharArray(8))])));
    assert!(!profile_timestamps_numeric(&profile));
}

#[test]
fn trackers_find_the_final_status_messages_by_name() {
    let tracker = CommandTracker::for_profile(&profile()).unwrap();
    assert_eq!((tracker.ack_message_id, tracker.wack_message_id, tracker.nack_message_id), (ACK, WACK, NACK));
    assert_eq!(message_id_named(&profile(), "RESPONSE_TM"), Some(RESPONSE));
    assert_eq!(message_id_named(&profile(), "MISSING_TM"), None);

    let mut without_wack = profile();
    without_wack.messages.retain(|(id, _)| *id != WACK);
    let error = CommandTracker::for_profile(&without_wack).err().unwrap();
    assert_eq!(error, ProfileError::MissingMessage("WACK_TM".to_owned()));
    assert_eq!(error.message(), "Unsupported MAVLink profile: WACK_TM not found");
}
