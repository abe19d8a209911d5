//! The command log of the data store: every command sequence issued, in issue order, and the
//! position of the next one to send.

use vstd::prelude::*;

use crate::dataflow::{Command, CommandId, CommandSequence, CommandStatus};

verus! {

/// The commands issued by the user, in issue order: the request of every command sequence.
pub open spec fn spec_issued(commands: Seq<CommandSequence>) -> Seq<Command> {
    commands.map_values(|c: CommandSequence| c.request)
}

/// Command sequences, either pending response or completed, by issue order.
///
/// Identifiers are issued in order from 0, so a sequence's identifier is its position. Commands
/// are sent in issue order; `next_outgoing_index` is the position of the first one not yet sent.
#[derive(Debug)]
pub struct CommandStore {
    commands: Vec<CommandSequence>,
    next_command_id: u64,
    next_outgoing_index: u64,
}

impl CommandStore {
    /// The command sequences in issue order.
    pub closed spec fn view_commands(&self) -> Seq<CommandSequence> {
        self.commands@
    }

    /// The position of the first command not yet sent.
    pub closed spec fn view_next_outgoing(&self) -> int {
        self.next_outgoing_index as int
    }

    /// Each sequence's identifier is its position, the next identifier is the count, and the
    /// next command to send is at most one past the last.
    pub closed spec fn wf(&self) -> bool {
        &&& forall|k: int| 0 <= k < self.commands@.len() ==> (#[trigger] self.commands@[k]).id == CommandId(k as u64)
        &&& self.next_command_id as int == self.commands@.len()
        &&& self.commands@.len() <= usize::MAX
        &&& self.next_outgoing_index <= self.next_command_id
    }

    /// Each sequence's identifier is its position.
    pub proof fn lemma_ids(&self)
        requires
            self.wf(),
        ensures
            forall|k: int|
                0 <= k < self.view_commands().len() ==> (#[trigger] self.view_commands()[k]).id == CommandId(
                    k as u64,
                ),
    {
    }

    /// Whether `id` names an issued command sequence.
    pub open spec fn spec_has(&self, id: CommandId) -> bool {
        id.0 < self.view_commands().len()
    }

    /// Creates an empty log.
    pub fn new() -> (s: Self)
        ensures
            s.wf(),
            s.view_commands().len() == 0,
            s.view_next_outgoing() == 0,
    {
        CommandStore { commands: Vec::new(), next_command_id: 0, next_outgoing_index: 0 }
    }

    /// Returns the number of issued command sequences.
    pub fn len(&self) -> (n: usize)
        ensures
            n == self.view_commands().len(),
    {
        self.commands.len()
    }

    /// Returns the command sequence with the given identifier.
    pub fn command_sequence(&self, id: CommandId) -> (r: &CommandSequence)
        requires
            self.wf(),
            self.spec_has(id),
        ensures
            *r == self.view_commands()[id.0 as int],
    {
        &self.commands[id.0 as usize]
    }

    /// Enqueues a command for transmission as a new pending sequence and returns its identifier.
    pub fn enqueue_command(&mut self, command: Command) -> (id: CommandId)
        requires
            old(self).wf(),
            old(self).view_commands().len() < u64::MAX,
        ensures
            final(self).wf(),
            id.0 == old(self).view_commands().len(),
            final(self).view_commands().len() == old(self).view_commands().len() + 1,
            final(self).view_commands().drop_last() == old(self).view_commands(),
            final(self).view_commands().last().id == id,
            final(self).view_commands().last().status == CommandStatus::Pending,
            final(self).view_commands().last().request == command,
            final(self).view_commands().last().responses@.len() == 0,
            final(self).view_next_outgoing() == old(self).view_next_outgoing(),
            spec_issued(final(self).view_commands()) == spec_issued(old(self).view_commands()).push(command),
    {
        let id = CommandId(self.next_command_id);
        self.commands.push(
            CommandSequence { id, status: CommandStatus::Pending, request: command, responses: Vec::new() },
        );
        self.next_command_id = self.next_command_id + 1;
        // Reading the length records that it fits in a `usize`.
        let _ = self.commands.len();
        proof {
            assert(spec_issued(self.commands@) =~= spec_issued(old(self).commands@).push(command));
            assert(self.commands@.drop_last() =~= old(self).commands@);
            assert forall|k: int| 0 <= k < self.commands@.len() implies (#[trigger] self.commands@[k]).id
                == CommandId(k as u64) by {
                if k < old(self).commands@.len() {
                    assert(self.commands@[k] == old(self).commands@[k]);
                }
            }
        }
        id
    }

    /// Sets the status of a command sequence.
    pub fn set_status(&mut self, id: CommandId, status: CommandStatus)
        requires
            old(self).wf(),
            old(self).spec_has(id),
        ensures
            final(self).wf(),
            final(self).view_commands().len() == old(self).view_commands().len(),
            final(self).view_next_outgoing() == old(self).view_next_outgoing(),
            final(self).view_commands()[id.0 as int] == (CommandSequence {
                status,
                ..old(self).view_commands()[id.0 as int]
            }),
            forall|k: int|
                0 <= k < old(self).view_commands().len() && k != id.0 ==> #[trigger] final(self).view_commands()[k] == old(self).view_commands()[k],
            spec_issued(final(self).view_commands()) == spec_issued(old(self).view_commands()),
    {
        self.commands[id.0 as usize].status = status;
        proof {
            assert(spec_issued(self.commands@) =~= spec_issued(old(self).commands@));
            assert forall|k: int| 0 <= k < self.commands@.len() implies (#[trigger] self.commands@[k]).id
                == CommandId(k as u64) by {
                if k != id.0 {
                    assert(self.commands@[k] == old(self).commands@[k]);
                }
            }
        }
    }

    /// Appends a correlated response to a command sequence.
    pub fn push_response(&mut self, id: CommandId, response: Command)
        requires
            old(self).wf(),
            old(self).spec_has(id),
        ensures
            final(self).wf(),
            final(self).view_commands().len() == old(self).view_commands().len(),
            final(self).view_next_outgoing() == old(self).view_next_outgoing(),
            final(self).view_commands()[id.0 as int].id == old(self).view_commands()[id.0 as int].id,
            final(self).view_commands()[id.0 as int].status == old(self).view_commands()[id.0 as int].status,
            final(self).view_commands()[id.0 as int].request == old(self).view_commands()[id.0 as int].request,
            final(self).view_commands()[id.0 as int].responses@ == old(self).view_commands()[id.0 as int].responses@.push(
                response,
            ),
            forall|k: int|
                0 <= k < old(self).view_commands().len() && k != id.0 ==> #[trigger] final(self).view_commands()[k] == old(self).view_commands()[k],
            spec_issued(final(self).view_commands()) == spec_issued(old(self).view_commands()),
    {
        self.commands[id.0 as usize].responses.push(response);
        proof {
            assert(spec_issued(self.commands@) =~= spec_issued(old(self).commands@));
            assert forall|k: int| 0 <= k < self.commands@.len() implies (#[trigger] self.commands@[k]).id
                == CommandId(k as u64) by {
                if k != id.0 {
                    assert(self.commands@[k] == old(self).commands@[k]);
                }
            }
        }
    }

    /// Returns the identifier of the next command to send, if any is waiting.
    pub fn next_outgoing(&self) -> (r: Option<CommandId>)
        requires
            self.wf(),
        ensures
            match r {
                Some(id) => id.0 == self.view_next_outgoing() && self.spec_has(id),
                None => self.view_next_outgoing() == self.view_commands().len(),
            },
    {
        if self.next_outgoing_index < self.next_command_id {
            Some(CommandId(self.next_outgoing_index))
        } else {
            None
        }
    }

    /// Marks the next command as sent.
    pub fn advance_outgoing(&mut self)
        requires
            old(self).wf(),
            old(self).view_next_outgoing() < old(self).view_commands().len(),
        ensures
            final(self).wf(),
            final(self).view_commands() == old(self).view_commands(),
            final(self).view_next_outgoing() == old(self).view_next_outgoing() + 1,
    {
        self.next_outgoing_index = self.next_outgoing_index + 1;
    }
}

} // verus!
