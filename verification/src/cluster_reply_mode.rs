//! The client's picture of `CLIENT REPLY` across the nodes of a cluster.
//!
//! `ON` / `OFF` reach every node, so one flag describes the whole cluster
//! connection. `SKIP` silences whatever the node it reaches receives next, so
//! it is held here until the next command is routed and travels with it.
use crate::command::{ClientReplyMode, Command, CommandKind, CommandView};
use vstd::prelude::*;

verus! {

pub struct ClusterReplyMode {
    /// Whether the nodes are answering, mirroring `CLIENT REPLY ON` / `OFF`.
    pub on: bool,
    /// A `CLIENT REPLY SKIP` held back until the command it silences is routed.
    pub pending_skip: Option<Command>,
}

/// The held skip, by its view.
pub open spec fn skip_view(skip: Option<Command>) -> Option<CommandView> {
    match skip {
        Some(c) => Some(c@),
        None => None,
    }
}

/// A call on the mode: accepting a command, lifting the held `SKIP`,
/// restoring one, or forgetting it.
pub enum ModeCall {
    Accept(CommandView),
    Lift,
    Restore(Option<CommandView>),
    Forget,
}

/// What a call does to the mode, seen as whether the nodes answer and which
/// `SKIP` is held.
pub open spec fn mode_step(state: (bool, Option<CommandView>), call: ModeCall) -> (bool, Option<CommandView>) {
    match call {
        ModeCall::Accept(command) => if command.kind() == CommandKind::ClientReply(ClientReplyMode::Skip) {
            (state.0, Some(command))
        } else if command.kind() == CommandKind::ClientReply(ClientReplyMode::On) {
            (true, state.1)
        } else if command.kind() == CommandKind::ClientReply(ClientReplyMode::Off) {
            (false, state.1)
        } else {
            state
        },
        ModeCall::Lift => (state.0, None),
        ModeCall::Restore(skip) => (state.0, skip),
        ModeCall::Forget => (state.0, None),
    }
}

/// The mode after a run of calls, in order.
pub open spec fn mode_after(state: (bool, Option<CommandView>), calls: Seq<ModeCall>) -> (bool, Option<CommandView>)
    decreases calls.len(),
{
    if calls.len() == 0 {
        state
    } else {
        mode_step(mode_after(state, calls.drop_last()), calls.last())
    }
}

/// Whether the nodes answer after a run of calls: as the last `CLIENT REPLY
/// ON` or `OFF` accepted says, or as they did before if there was none.
pub open spec fn last_switch(on: bool, calls: Seq<ModeCall>) -> bool
    decreases calls.len(),
{
    if calls.len() == 0 {
        on
    } else {
        match calls.last() {
            ModeCall::Accept(command) => if command.kind() == CommandKind::ClientReply(ClientReplyMode::On) {
                true
            } else if command.kind() == CommandKind::ClientReply(ClientReplyMode::Off) {
                false
            } else {
                last_switch(on, calls.drop_last())
            },
            _ => last_switch(on, calls.drop_last()),
        }
    }
}

impl ClusterReplyMode {
    pub open spec fn held(self) -> Option<CommandView> {
        skip_view(self.pending_skip)
    }

    /// Whether the nodes answer, and which `SKIP` is held.
    pub open spec fn state(self) -> (bool, Option<CommandView>) {
        (self.on, self.held())
    }

    /// A cluster connection starts answering.
    pub fn new() -> (r: ClusterReplyMode)
        ensures
            r.on,
            r.pending_skip is None,
    {
        ClusterReplyMode { on: true, pending_skip: None }
    }

    /// Applies `command` to the mode and reports whether it must still be
    /// routed: `false` for a `SKIP`, which is held rather than sent.
    pub fn accept(&mut self, command: &Command) -> (r: bool)
        ensures
            final(self).state() == mode_step(old(self).state(), ModeCall::Accept(command@)),
            command@.kind() == CommandKind::ClientReply(ClientReplyMode::Skip) ==> {
                &&& !r
                &&& final(self).on == old(self).on
                &&& final(self).held() == Some(command@)
            },
            command@.kind() != CommandKind::ClientReply(ClientReplyMode::Skip) ==> {
                &&& r
                &&& final(self).held() == old(self).held()
                &&& final(self).on == (if command@.kind() == CommandKind::ClientReply(
                    ClientReplyMode::On,
                ) {
                    true
                } else if command@.kind() == CommandKind::ClientReply(ClientReplyMode::Off) {
                    false
                } else {
                    old(self).on
                })
            },
    {
        match command.kind() {
            CommandKind::ClientReply(ClientReplyMode::On) => self.on = true,
            CommandKind::ClientReply(ClientReplyMode::Off) => self.on = false,
            CommandKind::ClientReply(ClientReplyMode::Skip) => {
                self.pending_skip = Some(command.duplicate());
                return false;
            },
            _ => {},
        }
        true
    }

    /// Whether the command currently being routed draws a reply, and so owes
    /// an entry in the request queue.
    pub fn awaits_a_reply(&self) -> (r: bool)
        ensures
            r == (self.on && self.pending_skip is None),
    {
        self.on && self.pending_skip.is_none()
    }

    /// The held `SKIP`, to be emitted on each node the routed command reaches.
    pub fn held_skip(&self) -> (r: Option<&Command>)
        ensures
            skip_view(
                match r {
                    Some(c) => Some(*c),
                    None => None,
                },
            ) == self.held(),
    {
        match &self.pending_skip {
            Some(c) => Some(c),
            None => None,
        }
    }

    /// Lifts the held `SKIP` out of the way of a command sent on the caller's
    /// behalf rather than by them.
    pub fn lift_held_skip(&mut self) -> (r: Option<Command>)
        ensures
            final(self).state() == mode_step(old(self).state(), ModeCall::Lift),
            skip_view(r) == old(self).held(),
            final(self).pending_skip is None,
            final(self).on == old(self).on,
    {
        self.pending_skip.take()
    }

    pub fn restore_held_skip(&mut self, skip: Option<Command>)
        ensures
            final(self).state() == mode_step(old(self).state(), ModeCall::Restore(skip_view(skip))),
            final(self).held() == skip_view(skip),
            final(self).on == old(self).on,
    {
        self.pending_skip = skip;
    }

    /// Drops a held `SKIP` without touching `ON` / `OFF`.
    pub fn forget_held_skip(&mut self)
        ensures
            final(self).state() == mode_step(old(self).state(), ModeCall::Forget),
            final(self).pending_skip is None,
            final(self).on == old(self).on,
    {
        self.pending_skip = None;
    }
}

/// Lifting the held `SKIP` out of the way of an injected command and
/// restoring it afterwards gives back exactly the skip that was held, and
/// leaves `ON` / `OFF` alone throughout.
pub proof fn lemma_a_lifted_skip_comes_back(
    before: ClusterReplyMode,
    lifted: Option<Command>,
    during: ClusterReplyMode,
    after: ClusterReplyMode,
)
    requires
        skip_view(lifted) == before.held(),
        during.pending_skip is None,
        during.on == before.on,
        after.held() == skip_view(lifted),
        after.on == during.on,
    ensures
        after.held() == before.held(),
        after.on == before.on,
        during.on && during.pending_skip is None ==> before.on,
{
}

/// Over any run of calls, whether the nodes answer is what the last
/// `CLIENT REPLY ON` or `OFF` accepted says: a `SKIP`, held, lifted,
/// restored or forgotten, never changes it. So, from a fresh mode, a command
/// is awaited exactly when the last switch was `ON` (or there was none) and
/// no `SKIP` is held.
pub proof fn lemma_answering_follows_the_last_switch(state: (bool, Option<CommandView>), calls: Seq<ModeCall>)
    ensures
        mode_after(state, calls).0 == last_switch(state.0, calls),
    decreases calls.len(),
{
    if calls.len() > 0 {
        lemma_answering_follows_the_last_switch(state, calls.drop_last());
    }
}

/// After a run of calls ending in a forget or a lift, no `SKIP` is held, and
/// after one ending in accepting a `SKIP`, that `SKIP` is held.
pub proof fn lemma_the_last_skip_call_decides_what_is_held(state: (bool, Option<CommandView>), calls: Seq<ModeCall>)
    requires
        calls.len() > 0,
    ensures
        (calls.last() is Forget || calls.last() is Lift) ==> mode_after(state, calls).1 is None,
        match calls.last() {
            ModeCall::Accept(c) => c.kind() == CommandKind::ClientReply(ClientReplyMode::Skip) ==> mode_after(
                state,
                calls,
            ).1 == Some(c),
            _ => true,
        },
{
}

} // verus!
