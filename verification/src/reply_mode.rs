//! The client's picture of `CLIENT REPLY` on one connection.
//!
//! Replies are matched to the commands that await them by position, so a reply
//! the server never sends must never be awaited. `ON` / `OFF` hold until the
//! next `CLIENT REPLY`; `OFF` silences the whole connection, its own reply
//! included. `SKIP` silences itself and exactly the one command that follows.
use crate::command::{ClientReplyMode, CommandKind};
use vstd::prelude::*;

verus! {

/// Whether the server answers, and whether a `SKIP` waits for the command it
/// silences.
#[derive(Clone, Copy, Debug, PartialEq, Eq, Structural)]
pub struct ReplyMode {
    pub on: bool,
    /// A `SKIP` waiting for the command it silences.
    pub skip_next: bool,
}

impl ReplyMode {
    /// What accepting a command of kind `kind` does: the mode afterwards, and
    /// whether that command is answered.
    pub open spec fn accept_step(self, kind: CommandKind) -> (ReplyMode, bool) {
        match kind {
            CommandKind::ClientReply(ClientReplyMode::On) | CommandKind::Reset => (
                ReplyMode { on: true, skip_next: false },
                true,
            ),
            CommandKind::ClientReply(ClientReplyMode::Off) => (
                ReplyMode { on: false, skip_next: false },
                false,
            ),
            CommandKind::ClientReply(ClientReplyMode::Skip) => (
                ReplyMode { on: self.on, skip_next: true },
                false,
            ),
            _ => if !self.on {
                (self, false)
            } else if self.skip_next {
                (ReplyMode { on: true, skip_next: false }, false)
            } else {
                (self, true)
            },
        }
    }

    /// A run of commands accepted in turn: the final mode and, for each
    /// command, whether it is answered.
    pub open spec fn accept_all(self, kinds: Seq<CommandKind>) -> (ReplyMode, Seq<bool>)
        decreases kinds.len(),
    {
        if kinds.len() == 0 {
            (self, seq![])
        } else {
            let (next, answered) = self.accept_step(kinds[0]);
            let (last, rest) = next.accept_all(kinds.drop_first());
            (last, seq![answered] + rest)
        }
    }

    /// A connection starts answering.
    pub fn new() -> (r: ReplyMode)
        ensures
            r == (ReplyMode { on: true, skip_next: false }),
    {
        ReplyMode { on: true, skip_next: false }
    }

    /// Applies `kind` to the mode and reports whether the command it names is
    /// answered by the server.
    pub fn accept(&mut self, kind: CommandKind) -> (r: bool)
        ensures
            (*final(self), r) == old(self).accept_step(kind),
    {
        match kind {
            CommandKind::ClientReply(ClientReplyMode::On) | CommandKind::Reset => {
                self.on = true;
                self.skip_next = false;
            },
            CommandKind::ClientReply(ClientReplyMode::Off) => {
                self.on = false;
                self.skip_next = false;
            },
            CommandKind::ClientReply(ClientReplyMode::Skip) => {
                self.skip_next = true;
                // `SKIP` is not answered, and it must not consume itself.
                return false;
            },
            _ => {},
        }

        if !self.on {
            return false;
        }

        if self.skip_next {
            self.skip_next = false;
            return false;
        }

        true
    }

    /// Adopts the reply mode a remade connection was restored to. A `SKIP`
    /// waiting for the command it silences died with the old socket.
    pub fn restore(&mut self, on: bool)
        ensures
            *final(self) == (ReplyMode { on, skip_next: false }),
    {
        self.on = on;
        self.skip_next = false;
    }

    /// Drops a pending `SKIP` without touching `ON` / `OFF`.
    pub fn forget_pending_skip(&mut self)
        ensures
            *final(self) == (ReplyMode { on: old(self).on, skip_next: false }),
    {
        self.skip_next = false;
    }
}

/// Whether a command kind is one that switches answering back on.
pub open spec fn reopens(kind: CommandKind) -> bool {
    kind == CommandKind::ClientReply(ClientReplyMode::On) || kind == CommandKind::Reset
}

/// On an answering connection, `SKIP` silences itself and exactly the next
/// ordinary command: the one after that is answered again.
pub proof fn lemma_skip_silences_exactly_one(mode: ReplyMode, first: CommandKind, second: CommandKind)
    requires
        mode.on,
        first == CommandKind::Other || first matches CommandKind::ConnectionState(_),
        second == CommandKind::Other || second matches CommandKind::ConnectionState(_),
    ensures
        ({
            let (m1, a1) = mode.accept_step(CommandKind::ClientReply(ClientReplyMode::Skip));
            let (m2, a2) = m1.accept_step(first);
            let (m3, a3) = m2.accept_step(second);
            !a1 && !a2 && a3 && m3 == (ReplyMode { on: true, skip_next: false })
        }),
{
}

/// `CLIENT REPLY ON` and `RESET` are always answered, and leave the
/// connection answering with no `SKIP` pending, whatever came before.
pub proof fn lemma_reopening_is_answered(mode: ReplyMode, kind: CommandKind)
    requires
        reopens(kind),
    ensures
        mode.accept_step(kind) == (ReplyMode { on: true, skip_next: false }, true),
{
}

/// Once `OFF` is accepted, nothing is answered until a command reopens the
/// connection: every reply the client awaits is one the server will send.
pub proof fn lemma_off_silences_until_reopened(mode: ReplyMode, kinds: Seq<CommandKind>)
    requires
        !mode.on,
        forall|i: int| 0 <= i < kinds.len() ==> !reopens(#[trigger] kinds[i]),
    ensures
        forall|i: int| 0 <= i < kinds.len() ==> !(#[trigger] mode.accept_all(kinds).1[i]),
        !mode.accept_all(kinds).0.on,
        mode.accept_all(kinds).1.len() == kinds.len(),
    decreases kinds.len(),
{
    if kinds.len() > 0 {
        let (next, answered) = mode.accept_step(kinds[0]);
        assert(!reopens(kinds[0]));
        assert(!next.on && !answered);
        let rest = kinds.drop_first();
        assert forall|i: int| 0 <= i < rest.len() implies !reopens(#[trigger] rest[i]) by {
            assert(rest[i] == kinds[i + 1]);
        }
        lemma_off_silences_until_reopened(next, rest);
        let (last, answers) = next.accept_all(rest);
        assert(mode.accept_all(kinds).1 == seq![answered] + answers);
    }
}

/// A run of commands reports one answer per command.
pub proof fn lemma_one_answer_per_command(mode: ReplyMode, kinds: Seq<CommandKind>)
    ensures
        mode.accept_all(kinds).1.len() == kinds.len(),
    decreases kinds.len(),
{
    if kinds.len() > 0 {
        let (next, _) = mode.accept_step(kinds[0]);
        lemma_one_answer_per_command(next, kinds.drop_first());
    }
}

} // verus!
