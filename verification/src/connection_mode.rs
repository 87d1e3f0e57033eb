//! What a connection is currently carrying, and where each reply it reads goes.
//!
//! `MONITOR` turns the connection into a one-way stream until `RESET` ends it.
//! Neither edge is instantaneous: `MONITOR` is answered before the stream
//! starts and `RESET` after its last line, so each edge has a state of its own.
use crate::command::CommandKind;
use vstd::prelude::*;

verus! {

/// Where a reply goes, once the mode has been consulted.
#[derive(Debug, Clone, Copy, PartialEq, Eq, Structural)]
pub enum ReplyRoute {
    /// Nothing awaits it: it belongs to a socket that is already gone.
    Dropped,
    /// Ordinary traffic: a push goes to its sink, anything else to its caller.
    Routed,
    /// A MONITOR line, which belongs to the MONITOR sink.
    MonitorSink,
    /// A reply to a command, handed straight to its caller.
    ToCaller,
}

/// What the connection is currently carrying.
#[derive(Debug, Clone, Copy, PartialEq, Eq, Structural)]
pub enum ConnectionMode {
    Disconnected,
    Connected,
    /// `MONITOR` is queued or written; its own reply is still to come.
    EnteringMonitor,
    Monitor,
    /// `RESET` is queued or written; monitor lines may still be in flight
    /// ahead of its reply.
    LeavingMonitor,
}

impl ConnectionMode {
    /// Where a reply goes and the mode afterwards.
    pub open spec fn route_step(self, is_monitor_line: bool) -> (ConnectionMode, ReplyRoute) {
        match self {
            ConnectionMode::Disconnected => (self, ReplyRoute::Dropped),
            ConnectionMode::Connected => (self, ReplyRoute::Routed),
            ConnectionMode::EnteringMonitor => (ConnectionMode::Monitor, ReplyRoute::ToCaller),
            ConnectionMode::Monitor => if is_monitor_line {
                (self, ReplyRoute::MonitorSink)
            } else {
                (self, ReplyRoute::ToCaller)
            },
            ConnectionMode::LeavingMonitor => if is_monitor_line {
                (self, ReplyRoute::MonitorSink)
            } else {
                (ConnectionMode::Connected, ReplyRoute::ToCaller)
            },
        }
    }

    pub open spec fn spec_is_monitoring(self) -> bool {
        self == ConnectionMode::Monitor || self == ConnectionMode::EnteringMonitor
    }

    pub fn is_disconnected(self) -> (r: bool)
        ensures
            r == (self == ConnectionMode::Disconnected),
    {
        match self {
            ConnectionMode::Disconnected => true,
            _ => false,
        }
    }

    /// Whether the connection was carrying a MONITOR stream, edges included.
    pub fn is_monitoring(self) -> (r: bool)
        ensures
            r == self.spec_is_monitoring(),
    {
        match self {
            ConnectionMode::Monitor | ConnectionMode::EnteringMonitor => true,
            _ => false,
        }
    }

    /// Marks the socket as gone and hands back what the connection was
    /// carrying, which is what a reconnection has to restore.
    pub fn disconnect(&mut self) -> (r: ConnectionMode)
        ensures
            r == *old(self),
            *final(self) == ConnectionMode::Disconnected,
    {
        let was = *self;
        *self = ConnectionMode::Disconnected;
        was
    }

    /// A `MONITOR` message is queued: its reply comes before the stream.
    pub fn enter_monitor(&mut self)
        ensures
            *final(self) == ConnectionMode::EnteringMonitor,
    {
        *self = ConnectionMode::EnteringMonitor;
    }

    /// A `RESET` queued while monitoring ends the stream, but only after the
    /// lines already in flight.
    pub fn observe_queued(&mut self, kind: CommandKind)
        ensures
            *final(self) == (if *old(self) == ConnectionMode::Monitor && kind == CommandKind::Reset {
                ConnectionMode::LeavingMonitor
            } else {
                *old(self)
            }),
    {
        let is_reset = match kind {
            CommandKind::Reset => true,
            _ => false,
        };
        let is_monitor = match *self {
            ConnectionMode::Monitor => true,
            _ => false,
        };
        if is_monitor && is_reset {
            *self = ConnectionMode::LeavingMonitor;
        }
    }

    /// Decides where a reply goes, and moves the mode on if that reply is an
    /// edge. `is_monitor_line` tells a line of the MONITOR stream from anything
    /// else.
    pub fn route_reply(&mut self, is_monitor_line: bool) -> (r: ReplyRoute)
        ensures
            (*final(self), r) == old(self).route_step(is_monitor_line),
    {
        match *self {
            ConnectionMode::Disconnected => ReplyRoute::Dropped,
            ConnectionMode::Connected => ReplyRoute::Routed,
            ConnectionMode::EnteringMonitor => {
                *self = ConnectionMode::Monitor;
                ReplyRoute::ToCaller
            },
            ConnectionMode::Monitor => {
                if is_monitor_line {
                    ReplyRoute::MonitorSink
                } else {
                    ReplyRoute::ToCaller
                }
            },
            ConnectionMode::LeavingMonitor => {
                if is_monitor_line {
                    ReplyRoute::MonitorSink
                } else {
                    *self = ConnectionMode::Connected;
                    ReplyRoute::ToCaller
                }
            },
        }
    }

    /// Adopts what a remade connection carries. A stream is only resumed if
    /// its sink is still there to receive it.
    pub fn restore(&mut self, was_monitoring: bool, has_monitor_sink: bool)
        ensures
            *final(self) == (if was_monitoring && has_monitor_sink {
                ConnectionMode::Monitor
            } else {
                ConnectionMode::Connected
            }),
    {
        *self = if was_monitoring && has_monitor_sink {
            ConnectionMode::Monitor
        } else {
            ConnectionMode::Connected
        };
    }
}

/// While a MONITOR stream is established or draining, a stream line always
/// goes to the sink and anything else to its caller: a line never reaches a
/// caller and a command's reply never reaches the sink.
pub proof fn lemma_monitor_lines_never_reach_callers(mode: ConnectionMode, is_monitor_line: bool)
    requires
        mode == ConnectionMode::Monitor || mode == ConnectionMode::LeavingMonitor,
    ensures
        (mode.route_step(is_monitor_line).1 == ReplyRoute::MonitorSink) == is_monitor_line,
        (mode.route_step(is_monitor_line).1 == ReplyRoute::ToCaller) == !is_monitor_line,
{
}

/// Only the reply to `RESET` ends a draining stream; a stream line leaves it
/// draining.
pub proof fn lemma_only_the_reset_reply_ends_the_stream(is_monitor_line: bool)
    ensures
        (ConnectionMode::LeavingMonitor.route_step(is_monitor_line).0 == ConnectionMode::Connected)
            == !is_monitor_line,
        is_monitor_line ==> ConnectionMode::LeavingMonitor.route_step(is_monitor_line).0
            == ConnectionMode::LeavingMonitor,
{
}

/// A disconnected connection drops everything it still reads, and stays
/// disconnected.
pub proof fn lemma_a_dead_connection_drops(is_monitor_line: bool)
    ensures
        ConnectionMode::Disconnected.route_step(is_monitor_line) == (
            ConnectionMode::Disconnected,
            ReplyRoute::Dropped,
        ),
{
}

} // verus!
