use rustis::command::CommandKind;
use rustis::connection_mode::{ConnectionMode, ReplyRoute};

const LINE: bool = true;
const REPLY: bool = false;

#[test]
fn a_connected_reply_is_routed_normally() {
    let mut mode = ConnectionMode::Connected;
    assert_eq!(ReplyRoute::Routed, mode.route_reply(REPLY));
    assert_eq!(ConnectionMode::Connected, mode);
}

#[test]
fn a_dead_connection_drops_what_it_still_reads() {
    let mut mode = ConnectionMode::Connected;
    assert_eq!(ConnectionMode::Connected, mode.disconnect());
    assert_eq!(ReplyRoute::Dropped, mode.route_reply(LINE));
}

#[test]
fn the_reply_to_monitor_goes_to_its_caller_and_starts_the_stream() {
    let mut mode = ConnectionMode::Connected;
    mode.enter_monitor();

    assert_eq!(ReplyRoute::ToCaller, mode.route_reply(REPLY));
    assert_eq!(ConnectionMode::Monitor, mode);
    assert_eq!(ReplyRoute::MonitorSink, mode.route_reply(LINE));
}

#[test]
fn a_command_answered_while_monitoring_still_reaches_its_caller() {
    let mut mode = ConnectionMode::Monitor;
    assert_eq!(ReplyRoute::ToCaller, mode.route_reply(REPLY));
    assert_eq!(ConnectionMode::Monitor, mode);
}

#[test]
fn reset_ends_the_stream_only_behind_the_lines_already_in_flight() {
    let mut mode = ConnectionMode::Monitor;
    mode.observe_queued(CommandKind::Reset);
    assert_eq!(ConnectionMode::LeavingMonitor, mode);

    assert_eq!(ReplyRoute::MonitorSink, mode.route_reply(LINE));
    assert_eq!(ConnectionMode::LeavingMonitor, mode);

    assert_eq!(ReplyRoute::ToCaller, mode.route_reply(REPLY));
    assert_eq!(ConnectionMode::Connected, mode);
    assert_eq!(ReplyRoute::Routed, mode.route_reply(REPLY));
}

#[test]
fn reset_outside_the_stream_changes_nothing() {
    let mut mode = ConnectionMode::Connected;
    mode.observe_queued(CommandKind::Reset);
    assert_eq!(ConnectionMode::Connected, mode);

    let mut mode = ConnectionMode::EnteringMonitor;
    mode.observe_queued(CommandKind::Reset);
    assert_eq!(ConnectionMode::EnteringMonitor, mode);
}

#[test]
fn an_ordinary_command_never_moves_the_mode() {
    let mut mode = ConnectionMode::Monitor;
    mode.observe_queued(CommandKind::Other);
    assert_eq!(ConnectionMode::Monitor, mode);
}

#[test]
fn a_remade_connection_resumes_a_stream_that_still_has_a_sink() {
    let mut mode = ConnectionMode::Connected;
    let was = mode.disconnect();
    mode.restore(was.is_monitoring(), true);
    assert_eq!(ConnectionMode::Connected, mode);

    let mut mode = ConnectionMode::EnteringMonitor;
    let was = mode.disconnect();
    assert!(was.is_monitoring());
    mode.restore(was.is_monitoring(), true);
    assert_eq!(ConnectionMode::Monitor, mode);
}

#[test]
fn a_stream_whose_sink_is_gone_is_not_resumed() {
    let mut mode = ConnectionMode::Monitor;
    let was = mode.disconnect();
    mode.restore(was.is_monitoring(), false);
    assert_eq!(ConnectionMode::Connected, mode);
}

#[test]
fn a_disconnected_connection_is_reported_as_such() {
    let mut mode = ConnectionMode::Monitor;
    mode.disconnect();
    assert!(mode.is_disconnected());
    assert!(!mode.is_monitoring());
}
