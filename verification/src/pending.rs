//! Correlation slots for commands awaiting a response.
//!
//! The Skyward MAVLink dialect carries a correlation number in the component ID of each command
//! frame. Component ID 0 is reserved for telemetry, so commands use the slots 1 to 255, handed out
//! in cyclic order starting after the most recently allocated one.

use vstd::prelude::*;

use crate::clock::{elapsed_nanos, monotonic_now};
use crate::dataflow::CommandId;

verus! {

/// Time after which an unanswered command is considered lost, in nanoseconds.
pub const COMMAND_TIMEOUT_NANOS: u64 = 10_000_000_000;

/// Number of slots, including the reserved slot 0.
pub const SLOT_COUNT: usize = 256;

/// One occupied correlation slot.
#[derive(Clone, Copy, Debug)]
pub struct PendingCommandSlot {
    pub command_id: CommandId,
    /// Time the slot was taken, in nanoseconds since the slots were created.
    pub sent_at: u64,
}

/// The slot whose command expires first, and when.
#[derive(Clone, Copy, Debug)]
pub struct PendingDeadline {
    pub sequence: u8,
    /// Expiry time, in nanoseconds since the slots were created.
    pub expires_at: u64,
}

/// Adapter-local state for pending commands, tracking which correlation numbers are in use.
pub struct PendingCommandSlots {
    /// Slot contents, indexed by correlation number.
    pub slots: Vec<Option<PendingCommandSlot>>,
    /// The first slot examined by the next allocation.
    pub next_sequence: u8,
    /// The earliest deadline among the pending commands.
    pub oldest: Option<PendingDeadline>,
    /// The origin of the slot timestamps.
    pub epoch: std::time::Instant,
}

/// The deadline of a command sent at `sent_at`.
pub open spec fn spec_deadline(sent_at: u64) -> u64 {
    if sent_at + COMMAND_TIMEOUT_NANOS <= u64::MAX {
        (sent_at + COMMAND_TIMEOUT_NANOS) as u64
    } else {
        u64::MAX
    }
}

/// The slot that follows `sequence` in allocation order: slots 1 to 255 in a cycle, skipping 0.
pub open spec fn spec_advance(sequence: u8) -> u8 {
    if sequence < 255 {
        (sequence + 1) as u8
    } else {
        1
    }
}

/// The `k`-th slot visited from `start` in allocation order.
pub open spec fn spec_cycle(start: u8, k: int) -> u8 {
    (((start - 1 + k) % 255) + 1) as u8
}

/// Whether slot `i` of `slots` is the occupied slot sent earliest, the lowest such index on ties.
pub open spec fn spec_is_first_oldest(slots: Seq<Option<PendingCommandSlot>>, i: int) -> bool {
    &&& 0 <= i < slots.len()
    &&& slots[i] is Some
    &&& forall|j: int|
        0 <= j < slots.len() && #[trigger] slots[j] is Some ==> slots[i]->0.sent_at
            <= slots[j]->0.sent_at && (slots[j]->0.sent_at == slots[i]->0.sent_at ==> i <= j)
}

/// Whether `after` is `before` with the free slot `q` taken by command `id`.
pub open spec fn spec_takes_slot(
    before: Seq<Option<PendingCommandSlot>>,
    after: Seq<Option<PendingCommandSlot>>,
    q: u8,
    id: CommandId,
) -> bool {
    &&& after.len() == before.len()
    &&& before[q as int] is None
    &&& after[q as int] matches Some(slot) && slot.command_id == id
    &&& forall|i: int| 0 <= i < before.len() && i != q ==> #[trigger] after[i] == before[i]
}

/// Whether every slot from 1 to 255 is occupied.
pub open spec fn spec_all_taken(slots: Seq<Option<PendingCommandSlot>>) -> bool {
    forall|q: int| 1 <= q < SLOT_COUNT ==> #[trigger] slots[q] is Some
}

/// Whether any slot of `slots` is occupied.
pub open spec fn spec_any_occupied(slots: Seq<Option<PendingCommandSlot>>) -> bool {
    exists|j: int| 0 <= j < slots.len() && #[trigger] slots[j] is Some
}

impl PendingCommandSlots {
    /// The content of every slot.
    pub open spec fn view_slots(&self) -> Seq<Option<PendingCommandSlot>> {
        self.slots@
    }

    /// The recorded earliest deadline.
    pub open spec fn view_oldest(&self) -> Option<PendingDeadline> {
        self.oldest
    }

    /// The command held by slot `sequence`, if any.
    pub open spec fn spec_get(&self, sequence: u8) -> Option<CommandId> {
        match self.view_slots()[sequence as int] {
            Some(slot) => Some(slot.command_id),
            None => None,
        }
    }

    /// Whether the recorded earliest deadline belongs to a command sent no later than any other
    /// pending command.
    pub open spec fn spec_oldest_is_least(&self) -> bool {
        self.view_oldest() matches Some(d) ==> forall|j: int|
            0 <= j < self.view_slots().len() && #[trigger] self.view_slots()[j] is Some
                ==> self.view_slots()[d.sequence as int]->0.sent_at <= self.view_slots()[j]->0.sent_at
    }

    /// The slots are 256, the next slot to examine is not the reserved one, and the recorded
    /// deadline belongs to an occupied slot, present exactly when some slot is occupied.
    pub open spec fn wf(&self) -> bool {
        &&& self.view_slots().len() == SLOT_COUNT
        &&& 1 <= self.next_sequence
        &&& (self.view_oldest() is None <==> !spec_any_occupied(self.view_slots()))
        &&& (self.view_oldest() matches Some(d) ==> {
            &&& self.view_slots()[d.sequence as int] is Some
            &&& d.expires_at == spec_deadline(self.view_slots()[d.sequence as int]->0.sent_at)
        })
    }

    /// Creates empty slots whose first allocation uses slot 1.
    pub fn new() -> (s: Self)
        ensures
            s.wf(),
            s.next_sequence == 1,
            s.view_oldest() is None,
            forall|i: int| 0 <= i < SLOT_COUNT ==> #[trigger] s.view_slots()[i] is None,
    {
        let mut slots: Vec<Option<PendingCommandSlot>> = Vec::new();
        while slots.len() < SLOT_COUNT
            invariant
                slots@.len() <= SLOT_COUNT,
                forall|i: int| 0 <= i < slots@.len() ==> #[trigger] slots@[i] is None,
            decreases SLOT_COUNT - slots@.len(),
        {
            slots.push(None);
        }
        Self { slots, next_sequence: 1, oldest: None, epoch: monotonic_now() }
    }

    /// Returns the slot that follows `sequence` in allocation order, wrapping from 255 to 1.
    pub fn advance(sequence: u8) -> (r: u8)
        ensures
            r == spec_advance(sequence),
    {
        match sequence.checked_add(1) {
            Some(next) => next,
            None => 1,
        }
    }

    /// Returns the command held by slot `sequence`.
    pub fn get(&self, sequence: u8) -> (r: Option<CommandId>)
        requires
            self.wf(),
        ensures
            r == self.spec_get(sequence),
    {
        match self.slots[sequence as usize] {
            Some(slot) => Some(slot.command_id),
            None => None,
        }
    }

    /// Returns the earliest deadline among the pending commands.
    pub fn oldest(&self) -> (r: Option<PendingDeadline>)
        ensures
            r == self.view_oldest(),
    {
        self.oldest
    }

    /// Takes the first free slot in allocation order for `command_id`.
    ///
    /// Slots are examined from `next_sequence` on, cycling through 1 to 255. `None` means every
    /// slot from 1 to 255 is occupied, and nothing changes. Otherwise the chosen slot records the
    /// command and the current time, the next allocation starts after it, and the earliest
    /// deadline is set to this slot's when no other command was pending.
    pub fn acquire(&mut self, command_id: CommandId) -> (r: Option<u8>)
        requires
            old(self).wf(),
        ensures
            final(self).wf(),
            r is None <==> spec_all_taken(old(self).view_slots()),
            match r {
                None => {
                    &&& forall|q: int| 1 <= q < SLOT_COUNT ==> #[trigger] old(self).view_slots()[q] is Some
                    &&& final(self).view_slots() == old(self).view_slots()
                    &&& final(self).next_sequence == old(self).next_sequence
                    &&& final(self).view_oldest() == old(self).view_oldest()
                },
                Some(q) => {
                    &&& exists|k: int|
                        0 <= k < 255 && q == spec_cycle(old(self).next_sequence, k) && (forall|k2: int|
                            0 <= k2 < k ==> #[trigger] old(self).view_slots()[spec_cycle(
                                old(self).next_sequence,
                                k2,
                            ) as int] is Some)
                    &&& 1 <= q
                    &&& spec_takes_slot(old(self).view_slots(), final(self).view_slots(), q, command_id)
                    &&& final(self).next_sequence == spec_advance(q)
                    &&& (old(self).view_oldest() is Some ==> final(self).view_oldest()
                        == old(self).view_oldest())
                    &&& (old(self).view_oldest() is None ==> final(self).view_oldest() == Some(
                        PendingDeadline {
                            sequence: q,
                            expires_at: spec_deadline(final(self).view_slots()[q as int]->0.sent_at),
                        },
                    ))
                    &&& (old(self).spec_oldest_is_least() && (forall|j: int|
                        0 <= j < SLOT_COUNT && #[trigger] old(self).view_slots()[j] is Some
                            ==> old(self).view_slots()[j]->0.sent_at
                            <= final(self).view_slots()[q as int]->0.sent_at)
                        ==> final(self).spec_oldest_is_least())
                },
            },
    {
        let start = self.next_sequence;
        let mut sequence = start;
        let mut k: usize = 0;
        proof {
            assert(spec_cycle(start, 0) == start) by {
                assert((start - 1 + 0) % 255 == start - 1);
            }
        }
        while self.slots[sequence as usize].is_some()
            invariant
                self.wf(),
                self.next_sequence == start,
                1 <= start,
                k < 255,
                sequence == spec_cycle(start, k as int),
                forall|k2: int|
                    0 <= k2 < k ==> #[trigger] self.view_slots()[spec_cycle(start, k2) as int] is Some,
            decreases 255 - k,
        {
            let ghost prev = sequence;
            sequence = Self::advance(sequence);
            proof {
                assert(spec_cycle(start, k + 1) == spec_advance(prev)) by {
                    let a = (start - 1 + k) % 255;
                    assert(prev == a + 1);
                    if a < 254 {
                        assert((start - 1 + k + 1) % 255 == a + 1);
                    } else {
                        assert((start - 1 + k + 1) % 255 == 0);
                    }
                }
            }
            k += 1;
            if sequence == start {
                proof {
                    assert(k == 255) by {
                        assert((start - 1 + k) % 255 == start - 1);
                    }
                    assert forall|q: int| 1 <= q < SLOT_COUNT implies #[trigger] self.view_slots()[q]
                        is Some by {
                        let k2 = (q - start + 255) % 255;
                        assert(spec_cycle(start, k2) == q);
                    }
                }
                return None;
            }
        }
        let sent_at = elapsed_nanos(&self.epoch);
        self.slots.set(sequence as usize, Some(PendingCommandSlot { command_id, sent_at }));
        if self.oldest.is_none() {
            self.oldest = Some(PendingDeadline { sequence, expires_at: deadline(sent_at) });
        }
        self.next_sequence = Self::advance(sequence);
        proof {
            assert(self.view_slots()[sequence as int] is Some);
        }
        Some(sequence)
    }

    /// Frees slot `sequence`. When it held the earliest deadline, the earliest deadline becomes
    /// that of the remaining command sent first (the lowest slot on ties), or none when no command
    /// is left.
    pub fn release(&mut self, sequence: u8)
        requires
            old(self).wf(),
        ensures
            final(self).wf(),
            final(self).view_slots() == old(self).view_slots().update(sequence as int, None),
            final(self).next_sequence == old(self).next_sequence,
            old(self).spec_oldest_is_least() ==> final(self).spec_oldest_is_least(),
            match old(self).view_oldest() {
                Some(d) => if d.sequence == sequence {
                    match final(self).view_oldest() {
                        Some(n) => spec_is_first_oldest(final(self).view_slots(), n.sequence as int),
                        None => !spec_any_occupied(final(self).view_slots()),
                    }
                } else {
                    final(self).view_oldest() == old(self).view_oldest()
                },
                None => final(self).view_oldest() is None,
            },
    {
        self.slots.set(sequence as usize, None);
        let recompute = match self.oldest {
            Some(d) => d.sequence == sequence,
            None => false,
        };
        if recompute {
            let mut best: Option<u8> = None;
            let mut i: usize = 0;
            while i < SLOT_COUNT
                invariant
                    self.view_slots().len() == SLOT_COUNT,
                    i <= SLOT_COUNT,
                    match best {
                        Some(b) => {
                            &&& b < i
                            &&& spec_is_first_oldest(self.view_slots().subrange(0, i as int), b as int)
                        },
                        None => forall|j: int| 0 <= j < i ==> #[trigger] self.view_slots()[j] is None,
                    },
                decreases SLOT_COUNT - i,
            {
                let ghost before = self.view_slots().subrange(0, i as int);
                let ghost after = self.view_slots().subrange(0, i + 1);
                proof {
                    assert forall|j: int| 0 <= j < i implies #[trigger] after[j] == before[j] by {}
                }
                if let Some(slot) = self.slots[i] {
                    let better = match best {
                        Some(b) => match self.slots[b as usize] {
                            Some(current) => slot.sent_at < current.sent_at,
                            None => true,
                        },
                        None => true,
                    };
                    if better {
                        best = Some(i as u8);
                    }
                }
                i += 1;
            }
            proof {
                assert(self.view_slots().subrange(0, SLOT_COUNT as int) =~= self.view_slots());
            }
            self.oldest = match best {
                Some(b) => match self.slots[b as usize] {
                    Some(slot) => Some(PendingDeadline { sequence: b, expires_at: deadline(slot.sent_at) }),
                    None => None,
                },
                None => None,
            };
        }
        proof {
            if !recompute {
                if let Some(d) = self.oldest {
                    assert(d.sequence != sequence);
                    assert(self.view_slots()[d.sequence as int] == old(self).view_slots()[d.sequence as int]);
                    assert(self.view_slots()[d.sequence as int] is Some);
                } else {
                    assert forall|j: int| 0 <= j < SLOT_COUNT implies !(#[trigger] self.view_slots()[j] is Some) by {
                        if j != sequence {
                            assert(self.view_slots()[j] == old(self).view_slots()[j]);
                        }
                    }
                }
            }
        }
    }
}

fn deadline(sent_at: u64) -> (r: u64)
    ensures
        r == spec_deadline(sent_at),
{
    sent_at.saturating_add(COMMAND_TIMEOUT_NANOS)
}

impl Default for PendingCommandSlots {
    fn default() -> (s: Self)
        ensures
            s.wf(),
            s.next_sequence == 1,
            s.view_oldest() is None,
            forall|i: int| 0 <= i < SLOT_COUNT ==> #[trigger] s.view_slots()[i] is None,
    {
        Self::new()
    }
}

/// Releasing a slot that `acquire` took restores every slot to what it was before.
pub proof fn law_release_undoes_acquire(
    before: Seq<Option<PendingCommandSlot>>,
    after: Seq<Option<PendingCommandSlot>>,
    q: u8,
    id: CommandId,
)
    requires
        spec_takes_slot(before, after, q, id),
        q < before.len(),
    ensures
        after.update(q as int, None) == before,
{
    assert(after.update(q as int, None) =~= before);
}

/// A slot taken by a command reads back as that command, and no other slot changes owner.
pub proof fn law_taken_slot_reads_back(
    before: Seq<Option<PendingCommandSlot>>,
    after: Seq<Option<PendingCommandSlot>>,
    q: u8,
    id: CommandId,
    other: int,
)
    requires
        spec_takes_slot(before, after, q, id),
        0 <= other < before.len(),
        other != q,
    ensures
        after[q as int]->0.command_id == id,
        after[other] == before[other],
{
}

/// Telemetry's slot 0 is never handed out: a slot taken by a command is between 1 and 255.
pub proof fn law_reserved_slot_stays_free(
    before: Seq<Option<PendingCommandSlot>>,
    after: Seq<Option<PendingCommandSlot>>,
    q: u8,
    id: CommandId,
)
    requires
        spec_takes_slot(before, after, q, id),
        1 <= q,
        before.len() == SLOT_COUNT,
    ensures
        after[0] == before[0],
{
}

} // verus!
