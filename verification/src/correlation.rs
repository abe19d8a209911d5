//! Correlating commands with their responses: correlation slots, final statuses, timeouts, and
//! the order in which queued commands are sent.

use vstd::prelude::*;

use crate::commands::{spec_issued, CommandStore};
use crate::dataflow::{CommandId, CommandSequence, CommandStatus, DataKey};
use crate::mavlink::{
    command_from_mav_message, command_to_mav_message, spec_command_encoding, spec_field_keys,
    spec_response_decoding,
    spec_timestamps_numeric, timestamps_numeric, CommandError, FieldError, MavMessage, MavProfile,
    MessageInfo, UnixSeconds,
};
use crate::pending::{spec_deadline, PendingCommandSlot, PendingCommandSlots, SLOT_COUNT};
use crate::text::{push_str, str_equals, string_from_chars};

verus! {

/// The message registered under identifier `id`: the first entry with that key.
pub open spec fn spec_message_by_id(msgs: Seq<(u32, MessageInfo)>, id: u32) -> Option<MessageInfo>
    decreases msgs.len(),
{
    if msgs.len() == 0 {
        None
    } else if msgs[0].0 == id {
        Some(msgs[0].1)
    } else {
        spec_message_by_id(msgs.drop_first(), id)
    }
}

/// Returns the message registered under identifier `id`.
pub fn message_info(profile: &MavProfile, id: u32) -> (r: Option<&MessageInfo>)
    ensures
        match (r, spec_message_by_id(profile.messages@, id)) {
            (Some(a), Some(b)) => *a == b,
            (None, None) => true,
            _ => false,
        },
{
    let ghost msgs = profile.messages@;
    let mut i: usize = 0;
    assert(msgs.subrange(0, msgs.len() as int) =~= msgs);
    while i < profile.messages.len()
        invariant
            i <= msgs.len(),
            msgs == profile.messages@,
            spec_message_by_id(msgs, id) == spec_message_by_id(msgs.subrange(i as int, msgs.len() as int), id),
        decreases msgs.len() - i,
    {
        let ghost rest = msgs.subrange(i as int, msgs.len() as int);
        assert(rest.drop_first() =~= msgs.subrange(i + 1, msgs.len() as int));
        assert(rest[0] == msgs[i as int]);
        if profile.messages[i].0 == id {
            return Some(&profile.messages[i].1);
        }
        i += 1;
    }
    None
}

/// The correlation state of an adapter: the slots of pending commands and the identifiers of the
/// messages that end a command sequence.
pub struct CommandTracker {
    pub pending: PendingCommandSlots,
    /// The message that reports a command accepted.
    pub ack_message_id: u32,
    /// The message that reports a command accepted with a warning.
    pub wack_message_id: u32,
    /// The message that reports a command rejected.
    pub nack_message_id: u32,
}

/// What handling a command response frame led to.
#[derive(Debug)]
pub enum ResponseOutcome {
    /// The profile does not define the message.
    UnknownMessage,
    /// No pending command uses the frame's correlation slot.
    NoPendingCommand,
    /// The message ended the command sequence with a final status, and the slot was freed.
    Completed(CommandId),
    /// The message was recorded as a response of the command.
    Recorded(CommandId),
    /// The message could not be decoded as a response of the command.
    Undecodable(CommandId, FieldError),
}

impl CommandTracker {
    /// The final status that a message gives a command sequence, if it ends one.
    pub open spec fn spec_final_status(&self, message_id: u32) -> Option<CommandStatus> {
        if message_id == self.ack_message_id || message_id == self.wack_message_id {
            Some(CommandStatus::Success)
        } else if message_id == self.nack_message_id {
            Some(CommandStatus::Rejected)
        } else {
            None
        }
    }

    /// The slots are well formed and every pending command is in the store.
    pub open spec fn tracks(&self, store: &CommandStore) -> bool {
        &&& self.pending.wf()
        &&& store.wf()
        &&& forall|q: int|
            0 <= q < SLOT_COUNT ==> (#[trigger] self.pending.view_slots()[q] matches Some(s)
                ==> store.spec_has(s.command_id))
    }

    /// Creates a tracker with no pending command.
    pub fn new(ack_message_id: u32, wack_message_id: u32, nack_message_id: u32) -> (t: Self)
        ensures
            t.pending.wf(),
            forall|q: int| 0 <= q < SLOT_COUNT ==> #[trigger] t.pending.view_slots()[q] is None,
            t.ack_message_id == ack_message_id,
            t.wack_message_id == wack_message_id,
            t.nack_message_id == nack_message_id,
    {
        CommandTracker { pending: PendingCommandSlots::new(), ack_message_id, wack_message_id, nack_message_id }
    }

    /// Updates the status of a command sequence on an ACK, WACK or NACK message.
    ///
    /// Returns `true` when the status became final: no more responses are expected.
    pub fn update_sequence_status(&self, store: &mut CommandStore, id: CommandId, message_id: u32) -> (r:
        bool)
        requires
            old(store).wf(),
            old(store).spec_has(id),
        ensures
            spec_issued(final(store).view_commands()) == spec_issued(old(store).view_commands()),
            final(store).wf(),
            r == self.spec_final_status(message_id) is Some,
            match self.spec_final_status(message_id) {
                Some(status) => {
                    &&& final(store).view_commands() == old(store).view_commands().update(
                        id.0 as int,
                        CommandSequence { status, ..old(store).view_commands()[id.0 as int] },
                    )
                    &&& final(store).view_next_outgoing() == old(store).view_next_outgoing()
                },
                None => *final(store) == *old(store),
            },
    {
        if message_id == self.ack_message_id || message_id == self.wack_message_id {
            store.set_status(id, CommandStatus::Success);
            assert(store.view_commands() =~= old(store).view_commands().update(
                id.0 as int,
                CommandSequence { status: CommandStatus::Success, ..old(store).view_commands()[id.0 as int] },
            ));
            true
        } else if message_id == self.nack_message_id {
            store.set_status(id, CommandStatus::Rejected);
            assert(store.view_commands() =~= old(store).view_commands().update(
                id.0 as int,
                CommandSequence { status: CommandStatus::Rejected, ..old(store).view_commands()[id.0 as int] },
            ));
            true
        } else {
            false
        }
    }
}

/// Whether `after` is `before` with some sequences marked timed out, each the command of a
/// slot of `slots` whose deadline passed at `now`.
pub open spec fn spec_timed_out(
    before: Seq<CommandSequence>,
    after: Seq<CommandSequence>,
    slots: Seq<Option<PendingCommandSlot>>,
    now: u64,
) -> bool {
    &&& after.len() == before.len()
    &&& forall|k: int|
        0 <= k < before.len() ==> #[trigger] after[k] == before[k] || (after[k] == CommandSequence {
            status: CommandStatus::TimedOut,
            ..before[k]
        } && spec_expired_command(slots, before[k].id, now))
}

impl CommandTracker {
    /// Frees a slot and marks its command as failed locally.
    pub fn abandon_outgoing(&mut self, store: &mut CommandStore, slot: u8, id: CommandId)
        requires
            old(self).tracks(old(store)),
            old(store).spec_has(id),
        ensures
            spec_issued(final(store).view_commands()) == spec_issued(old(store).view_commands()),
            final(self).tracks(final(store)),
            final(self).pending.view_slots() == old(self).pending.view_slots().update(slot as int, None),
            final(self).pending.next_sequence == old(self).pending.next_sequence,
            final(store).view_commands() == old(store).view_commands().update(
                id.0 as int,
                CommandSequence { status: CommandStatus::LocalError, ..old(store).view_commands()[id.0 as int] },
            ),
            final(store).view_next_outgoing() == old(store).view_next_outgoing(),
            final(self).ack_message_id == old(self).ack_message_id,
            final(self).wack_message_id == old(self).wack_message_id,
            final(self).nack_message_id == old(self).nack_message_id,
    {
        self.pending.release(slot);
        store.set_status(id, CommandStatus::LocalError);
        proof {
            assert(store.view_commands() =~= old(store).view_commands().update(
                id.0 as int,
                CommandSequence { status: CommandStatus::LocalError, ..old(store).view_commands()[id.0 as int] },
            ));
            assert forall|q: int| 0 <= q < SLOT_COUNT implies (#[trigger] self.pending.view_slots()[q] matches Some(
                s,
            ) ==> store.spec_has(s.command_id)) by {
                if q != slot {
                    assert(self.pending.view_slots()[q] == old(self).pending.view_slots()[q]);
                }
            }
        }
    }

    /// Handles a failure to send the command of a slot: when the slot still holds that command,
    /// the command fails locally and the slot is freed; otherwise nothing changes.
    pub fn record_send_failure(&mut self, store: &mut CommandStore, slot: u8, id: CommandId)
        requires
            old(self).tracks(old(store)),
        ensures
            spec_issued(final(store).view_commands()) == spec_issued(old(store).view_commands()),
            final(self).tracks(final(store)),
            old(self).pending.spec_get(slot) == Some(id) ==> {
                &&& final(self).pending.view_slots() == old(self).pending.view_slots().update(slot as int, None)
                &&& final(store).view_commands() == old(store).view_commands().update(
                    id.0 as int,
                    CommandSequence { status: CommandStatus::LocalError, ..old(store).view_commands()[id.0 as int] },
                )
            },
            old(self).pending.spec_get(slot) != Some(id) ==> final(self).pending.view_slots() == old(
                self,
            ).pending.view_slots() && *final(store) == *old(store),
            final(store).view_next_outgoing() == old(store).view_next_outgoing(),
    {
        let current = self.pending.get(slot);
        let matches = match current {
            Some(held) => held == id,
            None => false,
        };
        if matches {
            proof {
                assert(self.pending.view_slots()[slot as int] is Some);
            }
            self.abandon_outgoing(store, slot, id);
        }
    }

    /// Marks every command whose recorded earliest deadline has passed at `now` as timed out,
    /// freeing its slot, until the earliest deadline lies after `now`.
    pub fn expire_pending_commands(&mut self, store: &mut CommandStore, now: u64)
        requires
            old(self).tracks(old(store)),
        ensures
            spec_issued(final(store).view_commands()) == spec_issued(old(store).view_commands()),
            final(self).tracks(final(store)),
            final(self).pending.view_oldest() matches Some(d) ==> now < d.expires_at,
            forall|q: int|
                0 <= q < SLOT_COUNT ==> spec_slot_expired(
                    old(self).pending.view_slots()[q],
                    #[trigger] final(self).pending.view_slots()[q],
                    now,
                    final(store).view_commands(),
                ),
            spec_timed_out(
                old(store).view_commands(),
                final(store).view_commands(),
                old(self).pending.view_slots(),
                now,
            ),
            final(store).view_next_outgoing() == old(store).view_next_outgoing(),
    {
        let ghost slots0 = self.pending.view_slots();
        let ghost commands0 = store.view_commands();
        proof {
            store.lemma_ids();
        }
        loop
            invariant
                self.tracks(store),
                forall|q: int|
                    0 <= q < SLOT_COUNT ==> spec_slot_expired(
                        slots0[q],
                        #[trigger] self.pending.view_slots()[q],
                        now,
                        store.view_commands(),
                    ),
                spec_timed_out(commands0, store.view_commands(), slots0, now),
                store.view_next_outgoing() == old(store).view_next_outgoing(),
                forall|q: int|
                    0 <= q < SLOT_COUNT ==> (#[trigger] slots0[q] matches Some(s) ==> s.command_id.0
                        < commands0.len()),
                forall|k: int| 0 <= k < commands0.len() ==> (#[trigger] commands0[k]).id == CommandId(k as u64),
            ensures
                self.tracks(store),
                self.pending.view_oldest() matches Some(d) ==> now < d.expires_at,
                forall|q: int|
                    0 <= q < SLOT_COUNT ==> spec_slot_expired(
                        slots0[q],
                        #[trigger] self.pending.view_slots()[q],
                        now,
                        store.view_commands(),
                    ),
                spec_timed_out(commands0, store.view_commands(), slots0, now),
                store.view_next_outgoing() == old(store).view_next_outgoing(),
            decreases spec_occupied(self.pending.view_slots(), SLOT_COUNT as int),
        {
            let deadline = match self.pending.oldest() {
                Some(d) => d,
                None => break,
            };
            if now < deadline.expires_at {
                break;
            }
            let sequence = deadline.sequence;
            let ghost slots_before = self.pending.view_slots();
            let ghost commands_before = store.view_commands();
            proof {
                assert(slots_before[sequence as int] is Some);
            }
            let slot = match self.pending.slots[sequence as usize] {
                Some(slot) => slot,
                None => break,
            };
            proof {
                assert(spec_slot_expired(slots0[sequence as int], slots_before[sequence as int], now, commands_before));
                assert(slots_before[sequence as int] == slots0[sequence as int]);
                assert(store.spec_has(slot.command_id));
                lemma_occupied_release(slots_before, sequence as int, SLOT_COUNT as int);
            }
            self.pending.release(sequence);
            store.set_status(slot.command_id, CommandStatus::TimedOut);
            proof {
                let c = slot.command_id;
                assert(spec_expired_holder(slots0[sequence as int], c, now));
                assert(spec_expired_command(slots0, c, now));
                store.lemma_ids();
                assert forall|k: int| 0 <= k < commands0.len() implies #[trigger] store.view_commands()[k]
                    == commands0[k] || (store.view_commands()[k] == CommandSequence {
                    status: CommandStatus::TimedOut,
                    ..commands0[k]
                } && spec_expired_command(slots0, commands0[k].id, now)) by {
                    if k == c.0 as int {
                        assert(commands0[k].id == c);
                        let cb = commands_before[k];
                        assert(cb == commands0[k] || cb == CommandSequence { status: CommandStatus::TimedOut, ..commands0[k] });
                        assert(cb.id == commands0[k].id && cb.request == commands0[k].request && cb.responses == commands0[k].responses);
                        assert(store.view_commands()[k] == CommandSequence { status: CommandStatus::TimedOut, ..commands0[k] });
                    } else {
                        assert(store.view_commands()[k] == commands_before[k]);
                    }
                }
                assert forall|q: int| 0 <= q < SLOT_COUNT implies spec_slot_expired(
                    slots0[q],
                    #[trigger] self.pending.view_slots()[q],
                    now,
                    store.view_commands(),
                ) by {
                    assert(spec_slot_expired(slots0[q], slots_before[q], now, commands_before));
                    if q != sequence as int {
                        assert(self.pending.view_slots()[q] == slots_before[q]);
                        if slots_before[q] != slots0[q] {
                            let k = slots0[q]->0.command_id.0 as int;
                            if k != c.0 as int {
                                assert(store.view_commands()[k] == commands_before[k]);
                            }
                        }
                    }
                }
                assert forall|q: int| 0 <= q < SLOT_COUNT implies (#[trigger] self.pending.view_slots()[q] matches Some(
                    s,
                ) ==> store.spec_has(s.command_id)) by {
                    if q != sequence as int {
                        assert(self.pending.view_slots()[q] == slots_before[q]);
                    }
                }
            }
        }
    }
}

impl CommandTracker {
    /// Takes the next queued command for sending when a correlation slot is free for it.
    ///
    /// `None` when no command is waiting, or when every slot is taken; then nothing changes.
    /// Otherwise the command takes a slot, as [`PendingCommandSlots::acquire`] hands it out, and
    /// is marked as sent.
    pub fn take_next_outgoing(&mut self, store: &mut CommandStore) -> (r: Option<(CommandId, u8)>)
        requires
            old(self).tracks(old(store)),
        ensures
            spec_issued(final(store).view_commands()) == spec_issued(old(store).view_commands()),
            final(self).tracks(final(store)),
            final(store).view_commands() == old(store).view_commands(),
            final(self).ack_message_id == old(self).ack_message_id,
            final(self).wack_message_id == old(self).wack_message_id,
            final(self).nack_message_id == old(self).nack_message_id,
            match r {
                None => {
                    &&& (old(store).view_next_outgoing() == old(store).view_commands().len() || forall|q: int|
                        1 <= q < SLOT_COUNT ==> #[trigger] old(self).pending.view_slots()[q] is Some)
                    &&& final(store).view_next_outgoing() == old(store).view_next_outgoing()
                    &&& final(self).pending.view_slots() == old(self).pending.view_slots()
                },
                Some((id, slot)) => {
                    &&& id.0 == old(store).view_next_outgoing()
                    &&& id.0 < old(store).view_commands().len()
                    &&& final(store).view_next_outgoing() == old(store).view_next_outgoing() + 1
                    &&& 1 <= slot
                    &&& old(self).pending.view_slots()[slot as int] is None
                    &&& final(self).pending.spec_get(slot) == Some(id)
                    &&& forall|q: int|
                        0 <= q < SLOT_COUNT && q != slot ==> #[trigger] final(self).pending.view_slots()[q]
                            == old(self).pending.view_slots()[q]
                },
            },
    {
        let id = match store.next_outgoing() {
            Some(id) => id,
            None => return None,
        };
        match self.pending.acquire(id) {
            None => None,
            Some(slot) => {
                store.advance_outgoing();
                proof {
                    assert forall|q: int| 0 <= q < SLOT_COUNT implies (#[trigger] self.pending.view_slots()[q] matches Some(
                        s,
                    ) ==> store.spec_has(s.command_id)) by {
                        if q != slot as int {
                            assert(self.pending.view_slots()[q] == old(self).pending.view_slots()[q]);
                        }
                    }
                }
                Some((id, slot))
            },
        }
    }

    /// Handles a command response frame: `message` from correlation slot `pending_slot`, received
    /// at `timestamp` (milliseconds since the Unix epoch).
    ///
    /// A message that the profile does not define, or a slot without a pending command, changes
    /// nothing. An ACK, WACK or NACK gives the command its final status and frees the slot. Any
    /// other message is decoded as a response from the command's target and appended to the
    /// command's responses.
    pub fn handle_command(
        &mut self,
        store: &mut CommandStore,
        profile: &MavProfile,
        message: MavMessage,
        pending_slot: u8,
        timestamp: u64,
    ) -> (r: ResponseOutcome)
        requires
            old(self).tracks(old(store)),
        ensures
            spec_issued(final(store).view_commands()) == spec_issued(old(store).view_commands()),
            final(self).tracks(final(store)),
            final(store).view_next_outgoing() == old(store).view_next_outgoing(),
            final(store).view_commands().len() == old(store).view_commands().len(),
            final(self).ack_message_id == old(self).ack_message_id,
            final(self).wack_message_id == old(self).wack_message_id,
            final(self).nack_message_id == old(self).nack_message_id,
            match spec_message_by_id(profile.messages@, message.id) {
                None => r is UnknownMessage && *final(store) == *old(store) && final(self).pending
                    == old(self).pending,
                Some(info) => match old(self).pending.spec_get(pending_slot) {
                    None => r is NoPendingCommand && *final(store) == *old(store) && final(self).pending
                        == old(self).pending,
                    Some(id) => match old(self).spec_final_status(message.id) {
                        Some(status) => {
                            &&& r == ResponseOutcome::Completed(id)
                            &&& final(store).view_commands() == old(store).view_commands().update(
                                id.0 as int,
                                CommandSequence { status, ..old(store).view_commands()[id.0 as int] },
                            )
                            &&& final(self).pending.view_slots() == old(self).pending.view_slots().update(
                                pending_slot as int,
                                None,
                            )
                        },
                        None => {
                            &&& final(self).pending == old(self).pending
                            &&& (r matches ResponseOutcome::Recorded(rid) ==> rid == id)
                            &&& (r matches ResponseOutcome::Undecodable(uid, _) ==> uid == id
                                && *final(store) == *old(store))
                            &&& (r is Recorded || r is Undecodable)
                            &&& (r is Recorded ==> {
                                &&& forall|k: int|
                                    0 <= k < old(store).view_commands().len() && k != id.0
                                        ==> #[trigger] final(store).view_commands()[k] == old(
                                        store,
                                    ).view_commands()[k]
                                &&& final(store).view_commands()[id.0 as int].status == old(
                                    store,
                                ).view_commands()[id.0 as int].status
                                &&& final(store).view_commands()[id.0 as int].responses@.len()
                                    == old(store).view_commands()[id.0 as int].responses@.len() + 1
                                &&& exists|keys: Seq<DataKey>|
                                    spec_field_keys(info, keys) && spec_response_decoding(
                                        message,
                                        info,
                                        keys,
                                        old(store).view_commands()[id.0 as int].request.target,
                                        timestamp,
                                        Ok(final(store).view_commands()[id.0 as int].responses@.last()),
                                    )
                            })
                            &&& (r matches ResponseOutcome::Undecodable(_, e) ==> exists|keys: Seq<DataKey>|
                                spec_field_keys(info, keys) && spec_response_decoding(
                                    message,
                                    info,
                                    keys,
                                    old(store).view_commands()[id.0 as int].request.target,
                                    timestamp,
                                    Err(e),
                                ))
                        },
                    },
                },
            },
    {
        let info = match message_info(profile, message.id) {
            Some(info) => info,
            None => return ResponseOutcome::UnknownMessage,
        };
        let id = match self.pending.get(pending_slot) {
            Some(id) => id,
            None => return ResponseOutcome::NoPendingCommand,
        };
        proof {
            assert(self.pending.view_slots()[pending_slot as int] is Some);
            assert(store.spec_has(id));
        }
        if self.update_sequence_status(store, id, message.id) {
            self.pending.release(pending_slot);
            proof {
                assert forall|q: int| 0 <= q < SLOT_COUNT implies (#[trigger] self.pending.view_slots()[q] matches Some(
                    s,
                ) ==> store.spec_has(s.command_id)) by {
                    if q != pending_slot as int {
                        assert(self.pending.view_slots()[q] == old(self).pending.view_slots()[q]);
                    }
                }
            }
            return ResponseOutcome::Completed(id);
        }
        let target = store.command_sequence(id).request.target;
        let ghost msg = message;
        let decoded = command_from_mav_message(message, info, target, timestamp);
        match decoded {
            Ok(response) => {
                let ghost keys = choose|keys: Seq<DataKey>|
                    spec_field_keys(*info, keys) && spec_response_decoding(
                        msg,
                        *info,
                        keys,
                        target,
                        timestamp,
                        decoded,
                    );
                store.push_response(id, response);
                assert(store.view_commands()[id.0 as int].responses@.last() == response);
                assert(spec_field_keys(*info, keys) && spec_response_decoding(
                    msg,
                    *info,
                    keys,
                    target,
                    timestamp,
                    Ok(store.view_commands()[id.0 as int].responses@.last()),
                ));
                ResponseOutcome::Recorded(id)
            },
            Err(e) => ResponseOutcome::Undecodable(id, e),
        }
    }
}

/// Whether a slot went from `before` to `after` by timing out at `now`, its command then marked
/// timed out in `commands`, or stayed as it was.
pub open spec fn spec_slot_expired(
    before: Option<PendingCommandSlot>,
    after: Option<PendingCommandSlot>,
    now: u64,
    commands: Seq<CommandSequence>,
) -> bool {
    ||| after == before
    ||| {
        &&& after is None
        &&& before is Some
        &&& spec_deadline(before->0.sent_at) <= now
        &&& commands[before->0.command_id.0 as int].status == CommandStatus::TimedOut
    }
}

/// Whether some slot of `slots` holds command `c` and its deadline has passed at `now`.
pub open spec fn spec_expired_command(slots: Seq<Option<PendingCommandSlot>>, c: CommandId, now: u64) -> bool {
    exists|q: int| 0 <= q < SLOT_COUNT && spec_expired_holder(#[trigger] slots[q], c, now)
}

/// Whether a slot holds command `c` and its deadline has passed at `now`.
pub open spec fn spec_expired_holder(slot: Option<PendingCommandSlot>, c: CommandId, now: u64) -> bool {
    &&& slot is Some
    &&& slot->0.command_id == c
    &&& spec_deadline(slot->0.sent_at) <= now
}

/// The number of occupied slots among the first `n`.
pub open spec fn spec_occupied(slots: Seq<Option<PendingCommandSlot>>, n: int) -> nat
    decreases n,
{
    if n <= 0 {
        0
    } else {
        spec_occupied(slots, n - 1) + if slots[n - 1] is Some {
            1nat
        } else {
            0nat
        }
    }
}

proof fn lemma_occupied_release(slots: Seq<Option<PendingCommandSlot>>, q: int, n: int)
    requires
        0 <= q < n <= slots.len(),
        slots[q] is Some,
    ensures
        spec_occupied(slots.update(q, None), n) + 1 == spec_occupied(slots, n),
    decreases n,
{
    if n - 1 > q {
        lemma_occupied_release(slots, q, n - 1);
    } else {
        lemma_occupied_same(slots, slots.update(q, None), q);
    }
}

proof fn lemma_occupied_same(
    a: Seq<Option<PendingCommandSlot>>,
    b: Seq<Option<PendingCommandSlot>>,
    n: int,
)
    requires
        0 <= n <= a.len(),
        n <= b.len(),
        forall|j: int| 0 <= j < n ==> #[trigger] a[j] == b[j],
    ensures
        spec_occupied(a, n) == spec_occupied(b, n),
    decreases n,
{
    if n > 0 {
        lemma_occupied_same(a, b, n - 1);
    }
}


/// Whether every message of the profile can be encoded with managed timestamps: each of their
/// managed timestamp fields has a numeric or character wire type.
pub open spec fn spec_profile_timestamps_numeric(profile: &MavProfile) -> bool {
    forall|i: int|
        0 <= i < profile.messages@.len() ==> spec_timestamps_numeric(#[trigger] profile.messages@[i].1)
}

/// Returns whether every message of the profile can be encoded with managed timestamps.
pub fn profile_timestamps_numeric(profile: &MavProfile) -> (b: bool)
    ensures
        b == spec_profile_timestamps_numeric(profile),
{
    let mut i: usize = 0;
    while i < profile.messages.len()
        invariant
            i <= profile.messages@.len(),
            forall|j: int| 0 <= j < i ==> spec_timestamps_numeric(#[trigger] profile.messages@[j].1),
        decreases profile.messages.len() - i,
    {
        if !timestamps_numeric(&profile.messages[i].1) {
            return false;
        }
        i += 1;
    }
    true
}

/// A message found by identifier is one of the profile's messages.
proof fn lemma_message_by_id_member(msgs: Seq<(u32, MessageInfo)>, id: u32)
    requires
        spec_message_by_id(msgs, id) is Some,
    ensures
        exists|i: int| 0 <= i < msgs.len() && #[trigger] msgs[i].1 == spec_message_by_id(msgs, id)->0,
    decreases msgs.len(),
{
    if msgs[0].0 != id {
        lemma_message_by_id_member(msgs.drop_first(), id);
        let i = choose|i: int|
            0 <= i < msgs.drop_first().len() && #[trigger] msgs.drop_first()[i].1 == spec_message_by_id(
                msgs.drop_first(),
                id,
            )->0;
        assert(msgs[i + 1].1 == spec_message_by_id(msgs, id)->0);
    } else {
        assert(msgs[0].1 == spec_message_by_id(msgs, id)->0);
    }
}

/// What preparing the next queued command for sending led to.
#[derive(Debug)]
pub enum OutgoingStep {
    /// The command took correlation slot `slot` and is encoded as `message`, addressed to
    /// system `system_id`.
    Ready { id: CommandId, slot: u8, system_id: u8, message: MavMessage },
    /// The profile defines no message for the command: it failed locally and its slot was freed.
    MissingMessage(CommandId),
    /// The command cannot be encoded: it failed locally and its slot was freed.
    Unencodable(CommandId, CommandError),
}

impl OutgoingStep {
    /// The command that the step is about.
    pub open spec fn spec_id(self) -> CommandId {
        match self {
            OutgoingStep::Ready { id, .. } => id,
            OutgoingStep::MissingMessage(id) => id,
            OutgoingStep::Unencodable(id, _) => id,
        }
    }
}

impl CommandTracker {
    /// Prepares the next queued command for sending, when a correlation slot is free for it.
    ///
    /// `None` when no command is waiting, or when every slot is taken; then nothing changes.
    /// Otherwise the command is marked as sent and takes a slot, as [`Self::take_next_outgoing`]
    /// does, and its message is looked up by the command's message key and encoded with managed
    /// timestamps set to `now`. When either fails, the command fails locally and the slot is
    /// freed again.
    pub fn prepare_outgoing(
        &mut self,
        store: &mut CommandStore,
        profile: &MavProfile,
        now: &UnixSeconds,
    ) -> (r: Option<OutgoingStep>)
        requires
            old(self).tracks(old(store)),
            spec_profile_timestamps_numeric(profile),
        ensures
            spec_issued(final(store).view_commands()) == spec_issued(old(store).view_commands()),
            final(self).tracks(final(store)),
            final(self).ack_message_id == old(self).ack_message_id,
            final(self).wack_message_id == old(self).wack_message_id,
            final(self).nack_message_id == old(self).nack_message_id,
            match r {
                None => {
                    &&& (old(store).view_next_outgoing() == old(store).view_commands().len() || forall|q: int|
                        1 <= q < SLOT_COUNT ==> #[trigger] old(self).pending.view_slots()[q] is Some)
                    &&& final(store).view_commands() == old(store).view_commands()
                    &&& final(store).view_next_outgoing() == old(store).view_next_outgoing()
                    &&& final(self).pending.view_slots() == old(self).pending.view_slots()
                },
                Some(step) => {
                    let id = step.spec_id();
                    let request = old(store).view_commands()[id.0 as int].request;
                    let info = spec_message_by_id(profile.messages@, request.key.0 as u32);
                    &&& id.0 == old(store).view_next_outgoing()
                    &&& id.0 < old(store).view_commands().len()
                    &&& final(store).view_next_outgoing() == old(store).view_next_outgoing() + 1
                    &&& match step {
                        OutgoingStep::Ready { slot, system_id, message, .. } => {
                            &&& 1 <= slot
                            &&& old(self).pending.view_slots()[slot as int] is None
                            &&& final(self).pending.spec_get(slot) == Some(id)
                            &&& forall|q: int|
                                0 <= q < SLOT_COUNT && q != slot ==> #[trigger] final(self).pending.view_slots()[q]
                                    == old(self).pending.view_slots()[q]
                            &&& final(store).view_commands() == old(store).view_commands()
                            &&& system_id == request.target.0 as u8
                            &&& info matches Some(i) && exists|keys: Seq<DataKey>|
                                spec_field_keys(i, keys) && spec_command_encoding(
                                    request.fields@,
                                    i,
                                    keys,
                                    *now,
                                    Ok(message),
                                )
                        },
                        OutgoingStep::MissingMessage(_) => {
                            &&& info is None
                            &&& final(self).pending.view_slots() == old(self).pending.view_slots()
                            &&& final(store).view_commands() == old(store).view_commands().update(
                                id.0 as int,
                                CommandSequence { status: CommandStatus::LocalError, ..old(store).view_commands()[id.0 as int] },
                            )
                        },
                        OutgoingStep::Unencodable(_, e) => {
                            &&& info matches Some(i) && exists|keys: Seq<DataKey>|
                                spec_field_keys(i, keys) && spec_command_encoding(
                                    request.fields@,
                                    i,
                                    keys,
                                    *now,
                                    Err(e),
                                )
                            &&& final(self).pending.view_slots() == old(self).pending.view_slots()
                            &&& final(store).view_commands() == old(store).view_commands().update(
                                id.0 as int,
                                CommandSequence { status: CommandStatus::LocalError, ..old(store).view_commands()[id.0 as int] },
                            )
                        },
                    }
                },
            },
    {
        let ghost slots0 = self.pending.view_slots();
        let (id, slot) = match self.take_next_outgoing(store) {
            Some(taken) => taken,
            None => return None,
        };
        proof {
            store.lemma_ids();
        }
        let request = &store.command_sequence(id).request;
        let target = request.target.0;
        let info = match message_info(profile, request.key.0 as u32) {
            Some(info) => info,
            None => {
                self.abandon_outgoing(store, slot, id);
                proof {
                    assert(self.pending.view_slots() =~= slots0);
                }
                return Some(OutgoingStep::MissingMessage(id));
            },
        };
        proof {
            lemma_message_by_id_member(profile.messages@, request.key.0 as u32);
        }
        let ghost keyed = spec_message_by_id(profile.messages@, request.key.0 as u32);
        assert(keyed == Some(*info));
        let encoded = command_to_mav_message(request, info, now);
        match encoded {
            Ok(message) => {
                let ghost keys = choose|keys: Seq<DataKey>|
                    spec_field_keys(keyed->0, keys) && spec_command_encoding(
                        request.fields@,
                        keyed->0,
                        keys,
                        *now,
                        encoded,
                    );
                let ghost msg = message;
                let step = OutgoingStep::Ready { id, slot, system_id: target as u8, message };
                assert(step matches OutgoingStep::Ready { message: m, .. } && m == msg);
                assert(spec_command_encoding(request.fields@, keyed->0, keys, *now, Ok(msg)));
                Some(step)
            },
            Err(e) => {
                self.abandon_outgoing(store, slot, id);
                proof {
                    assert(self.pending.view_slots() =~= slots0);
                }
                Some(OutgoingStep::Unencodable(id, e))
            },
        }
    }
}


/// Whether the profile defines a message named `name`.
pub open spec fn spec_has_message_named(profile: &MavProfile, name: Seq<char>) -> bool {
    exists|i: int| 0 <= i < profile.messages@.len() && (#[trigger] profile.messages@[i]).1.name@ == name
}

/// Returns the identifier of a message named `name`, if the profile defines one.
pub fn message_id_named(profile: &MavProfile, name: &str) -> (r: Option<u32>)
    ensures
        r is None <==> !spec_has_message_named(profile, name@),
        r matches Some(id) ==> exists|i: int|
            0 <= i < profile.messages@.len() && (#[trigger] profile.messages@[i]).1.name@ == name@
                && profile.messages@[i].1.id == id,
{
    let mut i: usize = 0;
    while i < profile.messages.len()
        invariant
            i <= profile.messages@.len(),
            forall|j: int| 0 <= j < i ==> (#[trigger] profile.messages@[j]).1.name@ != name@,
        decreases profile.messages.len() - i,
    {
        if str_equals(profile.messages[i].1.name.as_str(), name) {
            assert(profile.messages@[i as int].1.name@ == name@);
            return Some(profile.messages[i].1.id);
        }
        i += 1;
    }
    None
}

/// Why a profile cannot be used to correlate commands.
#[derive(Debug, Clone, PartialEq, Eq)]
pub enum ProfileError {
    /// The profile defines no message with this name.
    MissingMessage(String),
}

impl ProfileError {
    /// The message shown to users.
    pub open spec fn spec_message(&self) -> Seq<char> {
        match self {
            ProfileError::MissingMessage(name) => "Unsupported MAVLink profile: "@ + name@ + " not found"@,
        }
    }

    /// Returns the message shown to users.
    pub fn message(&self) -> (m: String)
        ensures
            m@ == self.spec_message(),
    {
        let mut out: Vec<char> = Vec::new();
        match self {
            ProfileError::MissingMessage(name) => {
                push_str(&mut out, "Unsupported MAVLink profile: ");
                push_str(&mut out, name.as_str());
                push_str(&mut out, " not found");
            },
        }
        string_from_chars(out.as_slice())
    }
}

/// The message that reports a command accepted.
pub open spec fn spec_ack_name() -> Seq<char> {
    "ACK_TM"@
}

/// The message that reports a command accepted with a warning.
pub open spec fn spec_wack_name() -> Seq<char> {
    "WACK_TM"@
}

/// The message that reports a command rejected.
pub open spec fn spec_nack_name() -> Seq<char> {
    "NACK_TM"@
}

/// Returns the identifier of the message named `name`, or the error that reports it missing.
fn required_message_id(profile: &MavProfile, name: &str) -> (r: Result<u32, ProfileError>)
    ensures
        match r {
            Ok(id) => exists|i: int|
                0 <= i < profile.messages@.len() && (#[trigger] profile.messages@[i]).1.name@ == name@
                    && profile.messages@[i].1.id == id,
            Err(ProfileError::MissingMessage(n)) => n@ == name@ && !spec_has_message_named(profile, name@),
        },
{
    match message_id_named(profile, name) {
        Some(id) => Ok(id),
        None => Err(ProfileError::MissingMessage(name.to_owned())),
    }
}

/// Whether message `id` of the profile is named `name`.
pub open spec fn spec_id_named(profile: &MavProfile, id: u32, name: Seq<char>) -> bool {
    exists|i: int|
        0 <= i < profile.messages@.len() && (#[trigger] profile.messages@[i]).1.name@ == name
            && profile.messages@[i].1.id == id
}

impl CommandTracker {
    /// Creates a tracker for a profile, with no pending command, that ends command sequences on
    /// the profile's `ACK_TM`, `WACK_TM` and `NACK_TM` messages; the first of them that the
    /// profile lacks, in that order, is reported.
    pub fn for_profile(profile: &MavProfile) -> (r: Result<Self, ProfileError>)
        ensures
            match r {
                Ok(t) => {
                    &&& t.pending.wf()
                    &&& forall|q: int| 0 <= q < SLOT_COUNT ==> #[trigger] t.pending.view_slots()[q] is None
                    &&& spec_id_named(profile, t.ack_message_id, spec_ack_name())
                    &&& spec_id_named(profile, t.wack_message_id, spec_wack_name())
                    &&& spec_id_named(profile, t.nack_message_id, spec_nack_name())
                },
                Err(ProfileError::MissingMessage(n)) => {
                    &&& !spec_has_message_named(profile, n@)
                    &&& if !spec_has_message_named(profile, spec_ack_name()) {
                        n@ == spec_ack_name()
                    } else if !spec_has_message_named(profile, spec_wack_name()) {
                        n@ == spec_wack_name()
                    } else {
                        n@ == spec_nack_name()
                    }
                },
            },
    {
        proof {
            reveal_strlit("ACK_TM");
            reveal_strlit("WACK_TM");
            reveal_strlit("NACK_TM");
        }
        let ack = required_message_id(profile, "ACK_TM");
        let ack = match ack {
            Ok(id) => id,
            Err(e) => return Err(e),
        };
        let wack = match required_message_id(profile, "WACK_TM") {
            Ok(id) => id,
            Err(e) => return Err(e),
        };
        let nack = match required_message_id(profile, "NACK_TM") {
            Ok(id) => id,
            Err(e) => return Err(e),
        };
        Ok(CommandTracker::new(ack, wack, nack))
    }
}

} // verus!
