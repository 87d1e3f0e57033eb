//! The two queues a connection holds, and the totals that bound them.
//!
//! A command is charged when it is queued and released when its reply
//! arrives, so a connection that answers nothing stays bounded. Commands are
//! counted only until they are written. The totals are maintained by the
//! operations themselves: a caller cannot move a message without moving its
//! charge.
use crate::message::Message;
use crate::reply::Reply;
use std::collections::VecDeque;
use vstd::prelude::*;

verus! {

/// A message waiting to be written to the socket.
pub struct MessageToSend {
    pub message: Message,
}

impl MessageToSend {
    pub fn new(message: Message) -> (r: MessageToSend)
        ensures
            r.message == message,
    {
        MessageToSend { message }
    }
}

/// A message that has been written and is waiting for its reply.
pub struct MessageToReceive {
    pub message: Message,
    pub num_commands: usize,
    pub pending_responses: Vec<Reply>,
    /// What this message still holds of the queue budget. It is carried, so
    /// the amount released is exactly the amount charged.
    pub queued_bytes: usize,
}

impl MessageToReceive {
    pub fn new(message: Message, num_commands: usize, queued_bytes: usize) -> (r: MessageToReceive)
        ensures
            r.message == message,
            r.num_commands == num_commands,
            r.pending_responses@.len() == 0,
            r.queued_bytes == queued_bytes,
    {
        MessageToReceive { message, num_commands, pending_responses: Vec::new(), queued_bytes }
    }
}

/// The bytes charged to messages waiting to be written.
pub open spec fn send_bytes(s: Seq<MessageToSend>) -> nat
    decreases s.len(),
{
    if s.len() == 0 {
        0
    } else {
        send_bytes(s.drop_last()) + s.last().message.queued_bytes as nat
    }
}

/// The commands of messages waiting to be written.
pub open spec fn send_commands(s: Seq<MessageToSend>) -> nat
    decreases s.len(),
{
    if s.len() == 0 {
        0
    } else {
        send_commands(s.drop_last()) + s.last().message.commands@.len()
    }
}

/// The bytes still held by written messages awaiting their reply.
pub open spec fn receive_bytes(s: Seq<MessageToReceive>) -> nat
    decreases s.len(),
{
    if s.len() == 0 {
        0
    } else {
        receive_bytes(s.drop_last()) + s.last().queued_bytes as nat
    }
}

proof fn lemma_send_drop_first(s: Seq<MessageToSend>)
    requires
        s.len() > 0,
    ensures
        send_bytes(s) == s[0].message.queued_bytes + send_bytes(s.subrange(1, s.len() as int)),
        send_commands(s) == s[0].message.commands@.len() + send_commands(
            s.subrange(1, s.len() as int),
        ),
    decreases s.len(),
{
    if s.len() > 1 {
        let t = s.drop_last();
        lemma_send_drop_first(t);
        assert(t.subrange(1, t.len() as int) =~= s.subrange(1, s.len() as int).drop_last());
    } else {
        assert(s.subrange(1, s.len() as int) =~= Seq::<MessageToSend>::empty());
        assert(s.drop_last() =~= Seq::<MessageToSend>::empty());
    }
}

proof fn lemma_receive_drop_first(s: Seq<MessageToReceive>)
    requires
        s.len() > 0,
    ensures
        receive_bytes(s) == s[0].queued_bytes + receive_bytes(s.subrange(1, s.len() as int)),
    decreases s.len(),
{
    if s.len() > 1 {
        let t = s.drop_last();
        lemma_receive_drop_first(t);
        assert(t.subrange(1, t.len() as int) =~= s.subrange(1, s.len() as int).drop_last());
    } else {
        assert(s.subrange(1, s.len() as int) =~= Seq::<MessageToReceive>::empty());
        assert(s.drop_last() =~= Seq::<MessageToReceive>::empty());
    }
}

pub struct MessageQueue {
    pub to_send: VecDeque<MessageToSend>,
    pub to_receive: VecDeque<MessageToReceive>,
    /// The byte budget; `0` disables it.
    pub max_queued_bytes: usize,
    pub queued_bytes: usize,
    pub queued_commands: usize,
    /// Replies belonging to a message already resolved, to be dropped.
    pub results_to_discard: usize,
    /// The bytes of messages taken for writing whose charge has not yet been
    /// handed back to the queue.
    pub in_flight: Ghost<nat>,
}

impl MessageQueue {
    /// The totals are exactly the charges the queue holds.
    pub open spec fn wf(&self) -> bool {
        &&& self.queued_bytes == send_bytes(self.to_send@) + receive_bytes(self.to_receive@)
            + self.in_flight@
        &&& self.queued_commands == send_commands(self.to_send@)
    }

    pub fn new(max_queued_bytes: usize) -> (r: MessageQueue)
        ensures
            r.wf(),
            r.to_send@.len() == 0,
            r.to_receive@.len() == 0,
            r.max_queued_bytes == max_queued_bytes,
            r.queued_bytes == 0,
            r.queued_commands == 0,
            r.results_to_discard == 0,
            r.in_flight@ == 0,
    {
        MessageQueue {
            to_send: VecDeque::new(),
            to_receive: VecDeque::new(),
            max_queued_bytes,
            queued_bytes: 0,
            queued_commands: 0,
            results_to_discard: 0,
            in_flight: Ghost(0),
        }
    }

    /// Whether queuing `cost` more bytes breaches a budget that is set (not
    /// 0), with something already charged: the exact sum exceeds the budget.
    pub open spec fn exceeds_budget(&self, cost: usize) -> bool {
        self.max_queued_bytes != 0 && self.queued_bytes != 0 && self.queued_bytes + cost > self.max_queued_bytes
    }

    /// Whether queuing `cost` more bytes would breach the budget. With
    /// nothing outstanding a message is always admitted, whatever its size;
    /// a sum past `usize::MAX` is above any budget.
    pub fn would_exceed_budget(&self, cost: usize) -> (r: bool)
        ensures
            r == self.exceeds_budget(cost),
    {
        self.max_queued_bytes != 0 && self.queued_bytes != 0 && match self.queued_bytes.checked_add(cost) {
            Some(total) => total > self.max_queued_bytes,
            None => true,
        }
    }

    pub fn queued_bytes(&self) -> (r: usize)
        ensures
            r == self.queued_bytes,
    {
        self.queued_bytes
    }

    /// Commands still waiting to be written.
    pub fn queued_commands(&self) -> (r: usize)
        ensures
            r == self.queued_commands,
    {
        self.queued_commands
    }

    pub fn to_send_len(&self) -> (r: usize)
        ensures
            r == self.to_send@.len(),
    {
        self.to_send.len()
    }

    pub fn to_receive_len(&self) -> (r: usize)
        ensures
            r == self.to_receive@.len(),
    {
        self.to_receive.len()
    }

    pub fn to_send_is_empty(&self) -> (r: bool)
        ensures
            r == (self.to_send@.len() == 0),
    {
        self.to_send.len() == 0
    }

    /// Queues a message for writing, charging both totals.
    pub fn push_to_send(&mut self, message: Message)
        requires
            old(self).wf(),
            old(self).queued_bytes + message.queued_bytes <= usize::MAX,
            old(self).queued_commands + message.commands@.len() <= usize::MAX,
        ensures
            final(self).wf(),
            final(self).to_send@.len() == old(self).to_send@.len() + 1,
            final(self).to_send@.last().message == message,
            final(self).to_send@.drop_last() == old(self).to_send@,
            final(self).to_receive@ == old(self).to_receive@,
            final(self).queued_bytes == old(self).queued_bytes + message.queued_bytes,
            final(self).queued_commands == old(self).queued_commands + message.commands@.len(),
            final(self).in_flight == old(self).in_flight,
            final(self).results_to_discard == old(self).results_to_discard,
            final(self).max_queued_bytes == old(self).max_queued_bytes,
    {
        self.queued_bytes = self.queued_bytes + message.queued_bytes();
        self.queued_commands = self.queued_commands + message.num_commands();
        let ghost before = self.to_send@;
        self.to_send.push_back(MessageToSend::new(message));
        assert(self.to_send@.drop_last() =~= before);
    }

    /// Takes the next message to write, releasing its command charge only,
    /// and hands back the byte charge it still holds.
    pub fn pop_to_send(&mut self) -> (r: Option<(Message, usize)>)
        requires
            old(self).wf(),
        ensures
            final(self).wf(),
            final(self).to_receive@ == old(self).to_receive@,
            final(self).queued_bytes == old(self).queued_bytes,
            final(self).results_to_discard == old(self).results_to_discard,
            final(self).max_queued_bytes == old(self).max_queued_bytes,
            match r {
                Some((m, charge)) => {
                    &&& old(self).to_send@.len() > 0
                    &&& m == old(self).to_send@[0].message
                    &&& charge == m.queued_bytes
                    &&& final(self).to_send@ == old(self).to_send@.subrange(
                        1,
                        old(self).to_send@.len() as int,
                    )
                    &&& final(self).queued_commands == old(self).queued_commands - m.commands@.len()
                    &&& final(self).in_flight@ == old(self).in_flight@ + charge
                },
                None => {
                    &&& old(self).to_send@.len() == 0
                    &&& final(self).to_send@ == old(self).to_send@
                    &&& final(self).queued_commands == old(self).queued_commands
                    &&& final(self).in_flight == old(self).in_flight
                },
            },
    {
        let ghost before = self.to_send@;
        match self.to_send.pop_front() {
            Some(message_to_send) => {
                proof {
                    lemma_send_drop_first(before);
                }
                self.queued_commands = self.queued_commands - message_to_send.message.num_commands();
                let charge = message_to_send.message.queued_bytes();
                proof {
                    self.in_flight = Ghost(self.in_flight@ + charge as nat);
                }
                Some((message_to_send.message, charge))
            },
            None => None,
        }
    }

    /// Records a written message as awaiting `num_commands` replies, `cost`
    /// bytes of its charge staying held until they arrive.
    pub fn await_reply(&mut self, message: Message, num_commands: usize, cost: usize)
        requires
            old(self).wf(),
            cost <= old(self).in_flight@,
        ensures
            final(self).wf(),
            final(self).to_receive@.len() == old(self).to_receive@.len() + 1,
            final(self).to_receive@.drop_last() == old(self).to_receive@,
            final(self).to_receive@.last().message == message,
            final(self).to_receive@.last().num_commands == num_commands,
            final(self).to_receive@.last().queued_bytes == cost,
            final(self).to_receive@.last().pending_responses@.len() == 0,
            final(self).to_send@ == old(self).to_send@,
            final(self).queued_bytes == old(self).queued_bytes,
            final(self).queued_commands == old(self).queued_commands,
            final(self).in_flight@ == old(self).in_flight@ - cost,
            final(self).results_to_discard == old(self).results_to_discard,
            final(self).max_queued_bytes == old(self).max_queued_bytes,
    {
        let ghost before = self.to_receive@;
        self.to_receive.push_back(MessageToReceive::new(message, num_commands, cost));
        assert(self.to_receive@.drop_last() =~= before);
        proof {
            self.in_flight = Ghost((self.in_flight@ - cost) as nat);
        }
    }

    /// Releases the byte charge of a written message that awaits no reply.
    pub fn release(&mut self, cost: usize)
        requires
            old(self).wf(),
            cost <= old(self).in_flight@,
        ensures
            final(self).wf(),
            final(self).queued_bytes == old(self).queued_bytes - cost,
            final(self).in_flight@ == old(self).in_flight@ - cost,
            final(self).to_send@ == old(self).to_send@,
            final(self).to_receive@ == old(self).to_receive@,
            final(self).queued_commands == old(self).queued_commands,
            final(self).results_to_discard == old(self).results_to_discard,
            final(self).max_queued_bytes == old(self).max_queued_bytes,
    {
        self.queued_bytes = self.queued_bytes - cost;
        proof {
            self.in_flight = Ghost((self.in_flight@ - cost) as nat);
        }
    }

    /// Adds a response to the message at the head of the receive queue.
    pub fn push_response_to_front(&mut self, response: Reply) -> (r: bool)
        requires
            old(self).wf(),
        ensures
            final(self).wf(),
            r == (old(self).to_receive@.len() > 0),
            final(self).to_receive@.len() == old(self).to_receive@.len(),
            r ==> final(self).to_receive@.subrange(1, final(self).to_receive@.len() as int)
                == old(self).to_receive@.subrange(1, old(self).to_receive@.len() as int),
            r ==> final(self).to_receive@[0].pending_responses@.len() == old(
                self,
            ).to_receive@[0].pending_responses@.len() + 1,
            r ==> final(self).to_receive@[0].queued_bytes == old(self).to_receive@[0].queued_bytes,
            r ==> final(self).to_receive@[0].num_commands == old(self).to_receive@[0].num_commands,
            !r ==> final(self).to_receive@ == old(self).to_receive@,
            final(self).to_send@ == old(self).to_send@,
            final(self).queued_bytes == old(self).queued_bytes,
            final(self).queued_commands == old(self).queued_commands,
            final(self).in_flight == old(self).in_flight,
            final(self).results_to_discard == old(self).results_to_discard,
            final(self).max_queued_bytes == old(self).max_queued_bytes,
    {
        let ghost before = self.to_receive@;
        match self.to_receive.pop_front() {
            Some(mut front) => {
                front.pending_responses.push(response);
                self.to_receive.push_front(front);
                proof {
                    let rest = before.subrange(1, before.len() as int);
                    assert(self.to_receive@.subrange(1, self.to_receive@.len() as int) =~= rest);
                    lemma_receive_drop_first(before);
                    lemma_receive_drop_first(self.to_receive@);
                }
                true
            },
            None => false,
        }
    }

    /// Takes the message whose reply has arrived, releasing its byte charge.
    pub fn pop_to_receive(&mut self) -> (r: Option<MessageToReceive>)
        requires
            old(self).wf(),
        ensures
            final(self).wf(),
            final(self).to_send@ == old(self).to_send@,
            final(self).queued_commands == old(self).queued_commands,
            final(self).in_flight == old(self).in_flight,
            final(self).results_to_discard == old(self).results_to_discard,
            final(self).max_queued_bytes == old(self).max_queued_bytes,
            match r {
                Some(m) => {
                    &&& old(self).to_receive@.len() > 0
                    &&& m == old(self).to_receive@[0]
                    &&& final(self).to_receive@ == old(self).to_receive@.subrange(
                        1,
                        old(self).to_receive@.len() as int,
                    )
                    &&& final(self).queued_bytes == old(self).queued_bytes - m.queued_bytes
                },
                None => {
                    &&& old(self).to_receive@.len() == 0
                    &&& final(self).to_receive@ == old(self).to_receive@
                    &&& final(self).queued_bytes == old(self).queued_bytes
                },
            },
    {
        let ghost before = self.to_receive@;
        match self.to_receive.pop_front() {
            Some(message_to_receive) => {
                proof {
                    lemma_receive_drop_first(before);
                }
                self.queued_bytes = self.queued_bytes - message_to_receive.queued_bytes;
                Some(message_to_receive)
            },
            None => None,
        }
    }

    /// Undoes the tail of a write wave that failed to flush, back to the depth
    /// the wave started at, releasing each message's charge and handing it
    /// back, the latest first.
    pub fn rollback_awaiting(&mut self, start_len: usize) -> (r: Vec<MessageToReceive>)
        requires
            old(self).wf(),
        ensures
            final(self).wf(),
            old(self).to_receive@.len() <= start_len ==> final(self).to_receive@ == old(
                self,
            ).to_receive@ && r@.len() == 0,
            start_len < old(self).to_receive@.len() ==> {
                &&& final(self).to_receive@ == old(self).to_receive@.subrange(0, start_len as int)
                &&& r@.len() == old(self).to_receive@.len() - start_len
                &&& forall|i: int|
                    0 <= i < r@.len() ==> #[trigger] r@[i] == old(self).to_receive@[old(
                        self,
                    ).to_receive@.len() - 1 - i]
            },
            final(self).queued_bytes == old(self).queued_bytes - (receive_bytes(
                old(self).to_receive@,
            ) - receive_bytes(final(self).to_receive@)),
            final(self).to_send@ == old(self).to_send@,
            final(self).queued_commands == old(self).queued_commands,
            final(self).in_flight == old(self).in_flight,
            final(self).results_to_discard == old(self).results_to_discard,
            final(self).max_queued_bytes == old(self).max_queued_bytes,
    {
        let ghost initial = self.to_receive@;
        let mut rolled_back: Vec<MessageToReceive> = Vec::new();
        while self.to_receive.len() > start_len
            invariant
                self.wf(),
                self.to_send@ == old(self).to_send@,
                self.queued_commands == old(self).queued_commands,
                self.in_flight == old(self).in_flight,
                self.results_to_discard == old(self).results_to_discard,
                self.max_queued_bytes == old(self).max_queued_bytes,
                initial == old(self).to_receive@,
                self.to_receive@.len() <= initial.len(),
                self.to_receive@ == initial.subrange(0, self.to_receive@.len() as int),
                rolled_back@.len() == initial.len() - self.to_receive@.len(),
                forall|i: int|
                    0 <= i < rolled_back@.len() ==> #[trigger] rolled_back@[i] == initial[initial.len()
                        - 1 - i],
                self.queued_bytes == old(self).queued_bytes - (receive_bytes(initial)
                    - receive_bytes(self.to_receive@)),
                initial.len() <= start_len ==> self.to_receive@ == initial,
                start_len < initial.len() ==> start_len <= self.to_receive@.len(),
            decreases self.to_receive@.len(),
        {
            let ghost before = self.to_receive@;
            match self.to_receive.pop_back() {
                Some(message_to_receive) => {
                    assert(before.drop_last() =~= self.to_receive@);
                    self.queued_bytes = self.queued_bytes - message_to_receive.queued_bytes;
                    rolled_back.push(message_to_receive);
                    assert(self.to_receive@ =~= initial.subrange(0, self.to_receive@.len() as int));
                },
                None => {},
            }
        }
        rolled_back
    }

    /// Whether the next reply belongs to an already-resolved message and must
    /// be dropped, consuming one of the pending discards if so.
    pub fn take_discard(&mut self) -> (r: bool)
        requires
            old(self).wf(),
        ensures
            final(self).wf(),
            r == (old(self).results_to_discard > 0),
            final(self).results_to_discard == if r {
                (old(self).results_to_discard - 1) as usize
            } else {
                0
            },
            final(self).to_send@ == old(self).to_send@,
            final(self).to_receive@ == old(self).to_receive@,
            final(self).queued_bytes == old(self).queued_bytes,
            final(self).queued_commands == old(self).queued_commands,
            final(self).in_flight == old(self).in_flight,
            final(self).max_queued_bytes == old(self).max_queued_bytes,
    {
        if self.results_to_discard > 0 {
            self.results_to_discard = self.results_to_discard - 1;
            true
        } else {
            false
        }
    }

    /// Marks `count` further replies as belonging to a message already
    /// resolved.
    pub fn discard_further(&mut self, count: usize)
        requires
            old(self).wf(),
        ensures
            final(self).wf(),
            final(self).results_to_discard == if old(self).results_to_discard + count
                <= usize::MAX {
                (old(self).results_to_discard + count) as usize
            } else {
                usize::MAX
            },
            final(self).to_send@ == old(self).to_send@,
            final(self).to_receive@ == old(self).to_receive@,
            final(self).queued_bytes == old(self).queued_bytes,
            final(self).queued_commands == old(self).queued_commands,
            final(self).in_flight == old(self).in_flight,
            final(self).max_queued_bytes == old(self).max_queued_bytes,
    {
        self.results_to_discard = self.results_to_discard.saturating_add(count);
    }

    /// Empties both queues and both totals, handing back every message in
    /// replay order: those awaiting a reply first, then those still queued,
    /// which preserves the initial send order.
    pub fn take_all(&mut self) -> (r: Vec<Message>)
        requires
            old(self).wf(),
        ensures
            final(self).wf(),
            final(self).to_send@.len() == 0,
            final(self).to_receive@.len() == 0,
            final(self).queued_bytes == 0,
            final(self).queued_commands == 0,
            final(self).results_to_discard == 0,
            final(self).in_flight@ == 0,
            final(self).max_queued_bytes == old(self).max_queued_bytes,
            r@.len() == old(self).to_receive@.len() + old(self).to_send@.len(),
            forall|i: int|
                0 <= i < old(self).to_receive@.len() ==> #[trigger] r@[i] == old(
                    self,
                ).to_receive@[i].message,
            forall|j: int|
                0 <= j < old(self).to_send@.len() ==> r@[old(self).to_receive@.len() + j] == old(
                    self,
                ).to_send@[j].message,
    {
        self.queued_bytes = 0;
        self.queued_commands = 0;
        self.results_to_discard = 0;
        proof {
            self.in_flight = Ghost(0);
        }
        let ghost received = self.to_receive@;
        let ghost sent = self.to_send@;
        let mut all: Vec<Message> = Vec::new();
        while self.to_receive.len() > 0
            invariant
                self.queued_bytes == 0,
                self.queued_commands == 0,
                self.results_to_discard == 0,
                self.in_flight@ == 0,
                self.max_queued_bytes == old(self).max_queued_bytes,
                received == old(self).to_receive@,
                sent == old(self).to_send@,
                self.to_send@ == sent,
                self.to_receive@.len() <= received.len(),
                self.to_receive@ == received.subrange(
                    received.len() - self.to_receive@.len(),
                    received.len() as int,
                ),
                all@.len() == received.len() - self.to_receive@.len(),
                forall|i: int| 0 <= i < all@.len() ==> #[trigger] all@[i] == received[i].message,
            decreases self.to_receive@.len(),
        {
            let ghost before = self.to_receive@;
            match self.to_receive.pop_front() {
                Some(m) => {
                    all.push(m.message);
                    assert(self.to_receive@ =~= received.subrange(
                        received.len() - self.to_receive@.len(),
                        received.len() as int,
                    ));
                },
                None => {},
            }
        }
        assert(sent.subrange(0, sent.len() as int) =~= sent);
        while self.to_send.len() > 0
            invariant
                self.queued_bytes == 0,
                self.queued_commands == 0,
                self.results_to_discard == 0,
                self.in_flight@ == 0,
                self.max_queued_bytes == old(self).max_queued_bytes,
                received == old(self).to_receive@,
                sent == old(self).to_send@,
                self.to_receive@.len() == 0,
                self.to_send@.len() <= sent.len(),
                self.to_send@ == sent.subrange(sent.len() - self.to_send@.len(), sent.len() as int),
                all@.len() == received.len() + sent.len() - self.to_send@.len(),
                forall|i: int| 0 <= i < received.len() ==> #[trigger] all@[i] == received[i].message,
                forall|j: int|
                    0 <= j < sent.len() - self.to_send@.len() ==> all@[received.len() + j]
                        == sent[j].message,
            decreases self.to_send@.len(),
        {
            match self.to_send.pop_front() {
                Some(m) => {
                    all.push(m.message);
                    assert(self.to_send@ =~= sent.subrange(
                        sent.len() - self.to_send@.len(),
                        sent.len() as int,
                    ));
                },
                None => {},
            }
        }
        all
    }

    /// Takes both queues for a reconnection purge, leaving the totals for
    /// `restore` to recompute. Pending discards go: they name replies that
    /// died with the connection.
    pub fn take_queues(&mut self) -> (r: (VecDeque<MessageToReceive>, VecDeque<MessageToSend>))
        ensures
            r.0@ == old(self).to_receive@,
            r.1@ == old(self).to_send@,
            final(self).to_receive@.len() == 0,
            final(self).to_send@.len() == 0,
            final(self).results_to_discard == 0,
            final(self).queued_bytes == old(self).queued_bytes,
            final(self).queued_commands == old(self).queued_commands,
            final(self).in_flight == old(self).in_flight,
            final(self).max_queued_bytes == old(self).max_queued_bytes,
    {
        self.results_to_discard = 0;
        let mut to_receive: VecDeque<MessageToReceive> = VecDeque::new();
        let mut to_send: VecDeque<MessageToSend> = VecDeque::new();
        std::mem::swap(&mut to_receive, &mut self.to_receive);
        std::mem::swap(&mut to_send, &mut self.to_send);
        (to_receive, to_send)
    }

    /// Puts back what a purge kept, recomputing both totals from it: bytes
    /// from both queues, commands from the send queue alone.
    pub fn restore(&mut self, to_receive: VecDeque<MessageToReceive>, to_send: VecDeque<MessageToSend>)
        requires
            receive_bytes(to_receive@) + send_bytes(to_send@) <= usize::MAX,
            send_commands(to_send@) <= usize::MAX,
        ensures
            final(self).wf(),
            final(self).to_receive@ == to_receive@,
            final(self).to_send@ == to_send@,
            final(self).in_flight@ == 0,
            final(self).queued_bytes == receive_bytes(to_receive@) + send_bytes(to_send@),
            final(self).queued_commands == send_commands(to_send@),
            final(self).results_to_discard == old(self).results_to_discard,
            final(self).max_queued_bytes == old(self).max_queued_bytes,
    {
        let mut bytes: usize = 0;
        let mut i: usize = 0;
        while i < to_receive.len()
            invariant
                0 <= i <= to_receive@.len(),
                receive_bytes(to_receive@) + send_bytes(to_send@) <= usize::MAX,
                bytes == receive_bytes(to_receive@.subrange(0, i as int)),
            decreases to_receive@.len() - i,
        {
            proof {
                lemma_receive_prefix(to_receive@, i as int + 1);
                assert(to_receive@.subrange(0, i + 1).drop_last() =~= to_receive@.subrange(0, i as int));
            }
            bytes = bytes + to_receive[i].queued_bytes;
            i = i + 1;
        }
        assert(to_receive@.subrange(0, to_receive@.len() as int) =~= to_receive@);
        let mut commands: usize = 0;
        let mut j: usize = 0;
        while j < to_send.len()
            invariant
                0 <= j <= to_send@.len(),
                receive_bytes(to_receive@) + send_bytes(to_send@) <= usize::MAX,
                send_commands(to_send@) <= usize::MAX,
                bytes == receive_bytes(to_receive@) + send_bytes(to_send@.subrange(0, j as int)),
                commands == send_commands(to_send@.subrange(0, j as int)),
            decreases to_send@.len() - j,
        {
            proof {
                lemma_send_prefix(to_send@, j as int + 1);
                assert(to_send@.subrange(0, j + 1).drop_last() =~= to_send@.subrange(0, j as int));
            }
            bytes = bytes + to_send[j].message.queued_bytes;
            commands = commands + to_send[j].message.commands.len();
            j = j + 1;
        }
        assert(to_send@.subrange(0, to_send@.len() as int) =~= to_send@);
        self.queued_bytes = bytes;
        self.queued_commands = commands;
        proof {
            self.in_flight = Ghost(0);
        }
        self.to_receive = to_receive;
        self.to_send = to_send;
    }
}

proof fn lemma_receive_prefix(s: Seq<MessageToReceive>, k: int)
    requires
        0 <= k <= s.len(),
    ensures
        receive_bytes(s.subrange(0, k)) <= receive_bytes(s),
    decreases s.len() - k,
{
    if k < s.len() {
        lemma_receive_prefix(s, k + 1);
        assert(s.subrange(0, k + 1).drop_last() =~= s.subrange(0, k));
    } else {
        assert(s.subrange(0, k) =~= s);
    }
}

proof fn lemma_send_prefix(s: Seq<MessageToSend>, k: int)
    requires
        0 <= k <= s.len(),
    ensures
        send_bytes(s.subrange(0, k)) <= send_bytes(s),
        send_commands(s.subrange(0, k)) <= send_commands(s),
    decreases s.len() - k,
{
    if k < s.len() {
        lemma_send_prefix(s, k + 1);
        assert(s.subrange(0, k + 1).drop_last() =~= s.subrange(0, k));
    } else {
        assert(s.subrange(0, k) =~= s);
    }
}

/// A queue whose every message has been written and answered, with no charge
/// out for writing, holds no commands and no bytes.
pub proof fn lemma_idle_queue_holds_nothing(q: MessageQueue)
    requires
        q.wf(),
        q.to_send@.len() == 0,
        q.to_receive@.len() == 0,
        q.in_flight@ == 0,
    ensures
        q.queued_bytes == 0,
        q.queued_commands == 0,
{
}

/// Charging is additive: the totals of a queue are the charges of what it
/// holds, so a message put back after `take_all` is charged exactly once.
pub proof fn lemma_charges_add_up(s: Seq<MessageToSend>, m: MessageToSend)
    ensures
        send_bytes(s.push(m)) == send_bytes(s) + m.message.queued_bytes,
        send_commands(s.push(m)) == send_commands(s) + m.message.commands@.len(),
{
    assert(s.push(m).drop_last() =~= s);
}

/// Under a budget, the queue holds at most the budget plus one message: a
/// message admitted under it either fits beside what is already charged, or
/// is charged alone, the queue holding nothing else.
pub proof fn lemma_admitted_message_fits_or_is_alone(q: MessageQueue, cost: usize)
    requires
        q.max_queued_bytes != 0,
        !q.exceeds_budget(cost),
    ensures
        q.queued_bytes + cost <= q.max_queued_bytes || q.queued_bytes == 0,
{
}

/// With no charge out for writing, the queue's invariant is exactly that its
/// totals are the sums over both queues: commands over what waits to be
/// written, bytes over what waits to be written and what awaits replies.
pub proof fn lemma_totals_are_the_sums_when_nothing_is_in_flight(q: MessageQueue)
    requires
        q.in_flight@ == 0,
    ensures
        q.wf() <==> (q.queued_commands == send_commands(q.to_send@) && q.queued_bytes == send_bytes(q.to_send@)
            + receive_bytes(q.to_receive@)),
{
}

/// A budget of 0 is no budget: nothing is ever over it, whatever is queued
/// and whatever comes next. With nothing queued, nothing is over any budget.
pub proof fn lemma_no_budget_admits_everything(q: MessageQueue, cost: usize)
    ensures
        q.max_queued_bytes == 0 ==> !q.exceeds_budget(cost),
        q.queued_bytes == 0 ==> !q.exceeds_budget(cost),
        q.max_queued_bytes != 0 && q.queued_bytes != 0 ==> (q.exceeds_budget(cost) <==> q.queued_bytes + cost
            > q.max_queued_bytes),
{
}

} // verus!
