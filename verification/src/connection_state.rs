//! The connection-attached state a caller has set at runtime, so a new socket
//! can be brought back to the state the old one was in. Each slot holds the
//! last command that set it: restoring is a replay of what the caller issued.
use crate::bytes_util::{bytes_eq_ignore_case, eq_ignore_case};
use crate::command::{kw_on, Command, CommandView, StateSlot};
use vstd::prelude::*;

verus! {

#[derive(Debug, Default)]
pub struct ConnectionState {
    pub select: Option<Command>,
    pub client_name: Option<Command>,
    pub reply_mode: Option<Command>,
}

pub open spec fn opt_view(c: Option<Command>) -> Option<CommandView> {
    match c {
        Some(c) => Some(c@),
        None => None,
    }
}

impl ConnectionState {
    /// The command a slot holds.
    pub open spec fn slot(self, slot: StateSlot) -> Option<CommandView> {
        match slot {
            StateSlot::Select => opt_view(self.select),
            StateSlot::ClientName => opt_view(self.client_name),
            StateSlot::ReplyMode => opt_view(self.reply_mode),
        }
    }

    /// The commands a replay sends, in slot declaration order.
    pub open spec fn replay(self) -> Seq<(StateSlot, CommandView)> {
        let s0: Seq<(StateSlot, CommandView)> = match opt_view(self.select) {
            Some(c) => seq![(StateSlot::Select, c)],
            None => seq![],
        };
        let s1: Seq<(StateSlot, CommandView)> = match opt_view(self.client_name) {
            Some(c) => s0.push((StateSlot::ClientName, c)),
            None => s0,
        };
        match opt_view(self.reply_mode) {
            Some(c) => s1.push((StateSlot::ReplyMode, c)),
            None => s1,
        }
    }

    /// Whether a connection restored from this state answers commands: no
    /// recorded `CLIENT REPLY`, one without a mode, or one whose mode is `ON`.
    pub open spec fn spec_is_reply_on(self) -> bool {
        match opt_view(self.reply_mode) {
            None => true,
            Some(c) => c.args.len() < 2 || eq_ignore_case(c.args[1], kw_on()),
        }
    }

    /// A registry holding nothing.
    pub fn new() -> (r: ConnectionState)
        ensures
            forall|s: StateSlot| r.slot(s) is None,
    {
        ConnectionState { select: None, client_name: None, reply_mode: None }
    }

    /// Records the command that just set `slot`, replacing whatever set it
    /// before.
    pub fn record(&mut self, slot: StateSlot, command: &Command)
        ensures
            final(self).slot(slot) == Some(command@),
            forall|s: StateSlot| s != slot ==> final(self).slot(s) == old(self).slot(s),
    {
        let copy = command.duplicate();
        match slot {
            StateSlot::Select => self.select = Some(copy),
            StateSlot::ClientName => self.client_name = Some(copy),
            StateSlot::ReplyMode => self.reply_mode = Some(copy),
        }
    }

    /// Forgets everything, as `RESET` does server-side.
    pub fn clear(&mut self)
        ensures
            forall|s: StateSlot| final(self).slot(s) is None,
    {
        self.select = None;
        self.client_name = None;
        self.reply_mode = None;
    }

    /// Drops a single slot, used when its replay was rejected by the server.
    pub fn forget(&mut self, slot: StateSlot)
        ensures
            final(self).slot(slot) is None,
            forall|s: StateSlot| s != slot ==> final(self).slot(s) == old(self).slot(s),
    {
        match slot {
            StateSlot::Select => self.select = None,
            StateSlot::ClientName => self.client_name = None,
            StateSlot::ReplyMode => self.reply_mode = None,
        }
    }

    /// Whether a slot holds a command.
    pub fn holds(&self, slot: StateSlot) -> (r: bool)
        ensures
            r == self.slot(slot) is Some,
    {
        match slot {
            StateSlot::Select => self.select.is_some(),
            StateSlot::ClientName => self.client_name.is_some(),
            StateSlot::ReplyMode => self.reply_mode.is_some(),
        }
    }

    /// The commands to replay, in slot declaration order.
    pub fn commands(&self) -> (r: Vec<(StateSlot, Command)>)
        ensures
            r@.len() == self.replay().len(),
            forall|i: int|
                0 <= i < r@.len() ==> (#[trigger] r@[i]).0 == self.replay()[i].0 && r@[i].1@
                    == self.replay()[i].1,
    {
        let mut r: Vec<(StateSlot, Command)> = Vec::new();
        if let Some(c) = &self.select {
            r.push((StateSlot::Select, c.duplicate()));
        }
        if let Some(c) = &self.client_name {
            r.push((StateSlot::ClientName, c.duplicate()));
        }
        if let Some(c) = &self.reply_mode {
            r.push((StateSlot::ReplyMode, c.duplicate()));
        }
        r
    }

    /// Whether a connection restored from this state answers commands.
    pub fn is_reply_on(&self) -> (r: bool)
        ensures
            r == self.spec_is_reply_on(),
    {
        match &self.reply_mode {
            None => true,
            Some(command) => match command.get_arg(1) {
                None => true,
                Some(mode) => {
                    let on: [u8; 2] = ['O' as u8, 'N' as u8];
                    assert(on@ == kw_on());
                    bytes_eq_ignore_case(mode, &on)
                },
            },
        }
    }
}

/// Recording a slot and then replaying yields the recorded command in that
/// slot's place: a reconnection restores what the caller last issued.
pub proof fn lemma_record_then_replay(after: ConnectionState, slot: StateSlot, command: CommandView)
    requires
        after.slot(slot) == Some(command),
    ensures
        exists|i: int| 0 <= i < after.replay().len() && #[trigger] after.replay()[i] == (slot, command),
{
    match slot {
        StateSlot::Select => {
            assert(after.replay()[0] == (slot, command));
        },
        StateSlot::ClientName => {
            let k: int = if opt_view(after.select) is Some { 1 } else { 0 };
            assert(after.replay()[k] == (slot, command));
        },
        StateSlot::ReplyMode => {
            let k: int = (if opt_view(after.select) is Some { 1int } else { 0int }) + (if opt_view(
                after.client_name,
            ) is Some {
                1int
            } else {
                0int
            });
            assert(after.replay()[k] == (slot, command));
        },
    }
}

} // verus!
