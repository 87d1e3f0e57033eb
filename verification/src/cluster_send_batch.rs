//! What a batch of commands owes only once, however many of them ask for it.
//!
//! A retried batch re-feeds every command with the same retry reasons; a
//! topology reload and a transient-error delay are owed per batch, not per
//! command. Each is claimed rather than checked: the flag moves in the same
//! step that grants the turn.
use vstd::prelude::*;

verus! {

/// Something owed once, granted to the first caller that asks.
#[derive(Debug, Default)]
pub struct Turn {
    pub taken: bool,
}

impl Turn {
    pub fn claim(&mut self) -> (r: bool)
        ensures
            r == !old(self).taken,
            final(self).taken,
    {
        let was_taken = self.taken;
        self.taken = true;
        !was_taken
    }
}

/// The once-per-batch turns.
#[derive(Debug, Default)]
pub struct SendBatch {
    pub topology_refresh: Turn,
    pub transient_delay: Turn,
}

impl SendBatch {
    /// A batch with both turns available.
    pub fn new() -> (r: SendBatch)
        ensures
            !r.topology_refresh.taken,
            !r.transient_delay.taken,
    {
        SendBatch { topology_refresh: Turn { taken: false }, transient_delay: Turn { taken: false } }
    }

    /// Whether this batch may still reload the topology. Answers `true` once.
    pub fn claim_topology_refresh(&mut self) -> (r: bool)
        ensures
            ((final(self).topology_refresh.taken, final(self).transient_delay.taken), r) == batch_step(
                (old(self).topology_refresh.taken, old(self).transient_delay.taken),
                BatchCall::ClaimTopologyRefresh,
            ),
            r == !old(self).topology_refresh.taken,
            final(self).topology_refresh.taken,
            final(self).transient_delay == old(self).transient_delay,
    {
        self.topology_refresh.claim()
    }

    /// Whether this batch may still wait out a transient cluster error.
    /// Answers `true` once.
    pub fn claim_transient_delay(&mut self) -> (r: bool)
        ensures
            ((final(self).topology_refresh.taken, final(self).transient_delay.taken), r) == batch_step(
                (old(self).topology_refresh.taken, old(self).transient_delay.taken),
                BatchCall::ClaimTransientDelay,
            ),
            r == !old(self).transient_delay.taken,
            final(self).transient_delay.taken,
            final(self).topology_refresh == old(self).topology_refresh,
    {
        self.transient_delay.claim()
    }

    /// Ends the batch: the next one owes both again.
    pub fn end(&mut self)
        ensures
            (final(self).topology_refresh.taken, final(self).transient_delay.taken) == batch_step(
                (old(self).topology_refresh.taken, old(self).transient_delay.taken),
                BatchCall::End,
            ).0,
            !final(self).topology_refresh.taken,
            !final(self).transient_delay.taken,
    {
        self.topology_refresh.taken = false;
        self.transient_delay.taken = false;
    }
}

/// A call on a batch.
pub enum BatchCall {
    ClaimTopologyRefresh,
    ClaimTransientDelay,
    End,
}

/// What a call does to the batch's two turns, and what it answers.
pub open spec fn batch_step(taken: (bool, bool), call: BatchCall) -> ((bool, bool), bool) {
    match call {
        BatchCall::ClaimTopologyRefresh => ((true, taken.1), !taken.0),
        BatchCall::ClaimTransientDelay => ((taken.0, true), !taken.1),
        BatchCall::End => ((false, false), true),
    }
}

/// The turns after a run of calls, in order.
pub open spec fn batch_after(taken: (bool, bool), calls: Seq<BatchCall>) -> (bool, bool)
    decreases calls.len(),
{
    if calls.len() == 0 {
        taken
    } else {
        batch_step(batch_after(taken, calls.drop_last()), calls.last()).0
    }
}

/// Whether a run of calls claims the topology reload.
pub open spec fn claims_refresh(calls: Seq<BatchCall>) -> bool {
    exists|i: int| 0 <= i < calls.len() && calls[i] is ClaimTopologyRefresh
}

/// Whether a run of calls claims the transient-error wait.
pub open spec fn claims_delay(calls: Seq<BatchCall>) -> bool {
    exists|i: int| 0 <= i < calls.len() && calls[i] is ClaimTransientDelay
}

/// Within a batch (no `End` among the calls), each turn is taken exactly
/// when it was taken at the start or claimed since, whatever the other turn
/// does: so a claim answers `true` the first time in a batch and `false`
/// after, until the batch ends.
pub proof fn lemma_each_turn_is_granted_once_per_batch(taken: (bool, bool), calls: Seq<BatchCall>)
    requires
        forall|i: int| 0 <= i < calls.len() ==> !(#[trigger] calls[i] is End),
    ensures
        batch_after(taken, calls).0 == (taken.0 || claims_refresh(calls)),
        batch_after(taken, calls).1 == (taken.1 || claims_delay(calls)),
    decreases calls.len(),
{
    if calls.len() > 0 {
        let init = calls.drop_last();
        assert forall|i: int| 0 <= i < init.len() implies !(#[trigger] init[i] is End) by {
            assert(init[i] == calls[i]);
        }
        lemma_each_turn_is_granted_once_per_batch(taken, init);
        if claims_refresh(init) {
            let i = choose|i: int| 0 <= i < init.len() && init[i] is ClaimTopologyRefresh;
            assert(calls[i] == init[i]);
        }
        if claims_delay(init) {
            let i = choose|i: int| 0 <= i < init.len() && init[i] is ClaimTransientDelay;
            assert(calls[i] == init[i]);
        }
        if claims_refresh(calls) && !(calls.last() is ClaimTopologyRefresh) {
            let i = choose|i: int| 0 <= i < calls.len() && calls[i] is ClaimTopologyRefresh;
            assert(i < init.len() && init[i] == calls[i]);
        }
        if claims_delay(calls) && !(calls.last() is ClaimTransientDelay) {
            let i = choose|i: int| 0 <= i < calls.len() && calls[i] is ClaimTransientDelay;
            assert(i < init.len() && init[i] == calls[i]);
        }
        assert(calls.last() is ClaimTopologyRefresh ==> calls[calls.len() - 1] is ClaimTopologyRefresh);
        assert(calls.last() is ClaimTransientDelay ==> calls[calls.len() - 1] is ClaimTransientDelay);
    }
}

/// Ending a batch makes both turns available again, whatever came before.
pub proof fn lemma_ending_frees_both_turns(taken: (bool, bool), calls: Seq<BatchCall>)
    requires
        calls.len() > 0,
        calls.last() is End,
    ensures
        batch_after(taken, calls) == (false, false),
{
}

} // verus!
