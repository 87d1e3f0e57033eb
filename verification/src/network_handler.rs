//! The decisions of the network loop that owns a connection: whether an
//! incoming message is queued, shed or failed, where a reply goes, and how
//! an answer is named after its command. Reading, writing and waking callers
//! are the loop's I/O.
use crate::connection_mode::{ConnectionMode, ReplyRoute};
use crate::error::{ClientError, Error, ErrorKind};
use crate::message_queue::MessageQueue;
use crate::reply::Reply;
use vstd::prelude::*;

verus! {

/// What becomes of a message handed to the network loop.
#[derive(Clone, Copy, Debug, PartialEq, Eq, Structural)]
pub enum Admission {
    /// Refused with `SendQueueFull`: queuing it would breach the budget.
    Shed,
    /// Connected: handled by its kind, then queued.
    Accept,
    /// Disconnected, but retried: queued for the reconnection.
    QueueWhileDisconnected,
    /// Disconnected and not retried: failed with `DisconnectedByPeer`.
    FailDisconnected,
    /// Monitoring: queued, each command watched for the `RESET` that ends
    /// the stream.
    QueueWhileMonitoring,
}

/// The admission of a message. Only a new message is shed: one with an
/// attempt behind it was accepted already, an invalidation registers a sink
/// and costs the queue nothing, and a message about to be failed for a
/// disconnection never reaches the queue.
pub open spec fn spec_admission(
    mode: ConnectionMode,
    retry_on_error: bool,
    attempts: usize,
    is_invalidation: bool,
    exceeds_budget: bool,
) -> Admission {
    let will_be_queued = mode != ConnectionMode::Disconnected || retry_on_error;
    if will_be_queued && attempts == 0 && !is_invalidation && exceeds_budget {
        Admission::Shed
    } else {
        match mode {
            ConnectionMode::Connected => Admission::Accept,
            ConnectionMode::Disconnected => if retry_on_error {
                Admission::QueueWhileDisconnected
            } else {
                Admission::FailDisconnected
            },
            _ => Admission::QueueWhileMonitoring,
        }
    }
}

pub fn admission(
    mode: ConnectionMode,
    retry_on_error: bool,
    attempts: usize,
    is_invalidation: bool,
    cost: usize,
    queue: &MessageQueue,
) -> (r: Admission)
    ensures
        r == spec_admission(mode, retry_on_error, attempts, is_invalidation, queue.exceeds_budget(cost)),
{
    let will_be_queued = !mode.is_disconnected() || retry_on_error;
    if will_be_queued && attempts == 0 && !is_invalidation && queue.would_exceed_budget(cost) {
        return Admission::Shed;
    }
    match mode {
        ConnectionMode::Connected => Admission::Accept,
        ConnectionMode::Disconnected => if retry_on_error {
            Admission::QueueWhileDisconnected
        } else {
            Admission::FailDisconnected
        },
        _ => Admission::QueueWhileMonitoring,
    }
}

/// Where a reply read off the connection goes.
#[derive(Clone, Copy, Debug, PartialEq, Eq, Structural)]
pub enum ResultRoute {
    /// Nothing awaits it.
    Drop,
    /// A `MONITOR` line, for the monitor sink.
    MonitorSink,
    /// For the caller at the head of the receive queue.
    Caller,
    /// A push frame: a pub/sub event or an invalidation.
    Push,
}

/// Routes a reply: the connection mode decides first, and ordinary traffic
/// goes to the push handling when it is a push frame, to the caller
/// otherwise.
pub fn route_result(mode: &mut ConnectionMode, result: &Result<Reply, Error>, is_monitor_line: bool) -> (r: ResultRoute)
    ensures
        *final(mode) == old(mode).route_step(is_monitor_line).0,
        r == (match old(mode).route_step(is_monitor_line).1 {
            ReplyRoute::Dropped => ResultRoute::Drop,
            ReplyRoute::MonitorSink => ResultRoute::MonitorSink,
            ReplyRoute::ToCaller => ResultRoute::Caller,
            ReplyRoute::Routed => if result matches Ok(reply) && reply is Push {
                ResultRoute::Push
            } else {
                ResultRoute::Caller
            },
        }),
{
    match mode.route_reply(is_monitor_line) {
        ReplyRoute::Dropped => ResultRoute::Drop,
        ReplyRoute::MonitorSink => ResultRoute::MonitorSink,
        ReplyRoute::ToCaller => ResultRoute::Caller,
        ReplyRoute::Routed => match result {
            Ok(reply) => if reply.is_push() {
                ResultRoute::Push
            } else {
                ResultRoute::Caller
            },
            Err(_) => ResultRoute::Caller,
        },
    }
}

/// An answer as its caller receives it: an error is named after the command
/// that drew it, unless it already names one; a success is unchanged.
pub fn name_answer(result: Result<Reply, Error>, command_name: Option<Vec<u8>>) -> (r: Result<Reply, Error>)
    ensures
        match (result, command_name) {
            (Err(e), Some(name)) => r matches Err(named) && named.kind == e.kind && (e.context is Some ==> named.context
                == e.context) && (e.context is None ==> (named.context matches Some(c) && c.command@ == name@)),
            _ => r == result,
        },
{
    match (result, command_name) {
        (Err(e), Some(name)) => Err(e.with_command(name)),
        (result, _) => result,
    }
}

/// The error a message gets when the queue has no room for it.
pub fn send_queue_full() -> (r: Error)
    ensures
        r.kind == ErrorKind::Client(ClientError::SendQueueFull),
        r.context is None,
{
    Error::client(ClientError::SendQueueFull)
}

/// An admitted message is never shed once it has been tried, and a
/// disconnected connection never queues a message that is not retried.
pub proof fn lemma_admission_keeps_its_promises(
    mode: ConnectionMode,
    retry_on_error: bool,
    attempts: usize,
    is_invalidation: bool,
    exceeds_budget: bool,
)
    ensures
        attempts > 0 ==> spec_admission(mode, retry_on_error, attempts, is_invalidation, exceeds_budget) != Admission::Shed,
        is_invalidation ==> spec_admission(mode, retry_on_error, attempts, is_invalidation, exceeds_budget) != Admission::Shed,
        !exceeds_budget ==> spec_admission(mode, retry_on_error, attempts, is_invalidation, exceeds_budget) != Admission::Shed,
        mode == ConnectionMode::Disconnected && !retry_on_error ==> spec_admission(mode, retry_on_error, attempts, is_invalidation, exceeds_budget) == Admission::FailDisconnected,
{
}

} // verus!
