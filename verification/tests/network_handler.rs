use rustis::error::{ClientError, Error, ErrorKind, RedisError, RedisErrorKind};
use rustis::pub_sub::{indicates_demoted_master, is_connection_level_error, is_empty_unsubscribe_confirmation, is_subscription_ack};
use rustis::command::cmd;
use rustis::connection_mode::ConnectionMode;
use rustis::message::Message;
use rustis::message_queue::MessageQueue;
use rustis::network_handler::{admission, name_answer, route_result, Admission, ResultRoute};
use rustis::reply::Reply;

fn error_reply(s: &str) -> Reply {
    Reply::Error(s.as_bytes().to_vec())
}

fn bulk(s: &str) -> Reply {
    Reply::BulkString(s.as_bytes().to_vec())
}

#[test]
fn per_message_errors_are_not_connection_level() {
    assert!(!is_connection_level_error(&Error::new(ErrorKind::Retry(Vec::new()))));
    assert!(!is_connection_level_error(&Error::new(ErrorKind::Redis(
        RedisError {
            kind: RedisErrorKind::NoPerm,
            description: b"no permission".to_vec(),
        }
    ))));
    assert!(!is_connection_level_error(&Error::client(ClientError::CrossSlot)));
}

#[test]
fn decode_and_transport_errors_are_connection_level() {
    assert!(is_connection_level_error(&Error::client(ClientError::CannotParseInteger)));
    assert!(is_connection_level_error(&Error::client(ClientError::UnknownRespTag('?'))));
    assert!(is_connection_level_error(&Error::client(ClientError::MaxNestingDepthExceeded)));
    assert!(is_connection_level_error(&Error::new(ErrorKind::EOF)));
}

#[test]
fn the_public_predicate_agrees_on_every_connection_level_error() {
    for error in [
        Error::client(ClientError::CannotParseInteger),
        Error::client(ClientError::UnknownRespTag('?')),
        Error::client(ClientError::MaxNestingDepthExceeded),
        Error::client(ClientError::VerbatimStringTooShort),
        Error::client(ClientError::BulkLengthTooLarge),
        Error::new(ErrorKind::EOF),
        Error::new(ErrorKind::IO("reset".to_string())),
    ] {
        assert!(is_connection_level_error(&error));
        assert!(
            error.is_connection_error(),
            "the handler reconnects on {error:?} but the user is told the connection is fine"
        );
    }
}

#[test]
fn readonly_is_the_only_demotion_signal() {
    assert!(indicates_demoted_master(&Ok(error_reply(
        "READONLY You can't write against a read only replica."
    ))));
    assert!(!indicates_demoted_master(&Ok(error_reply("NOPERM no permission"))));
    assert!(!indicates_demoted_master(&Ok(Reply::SimpleString(b"OK".to_vec()))));
    assert!(!indicates_demoted_master(&Ok(Reply::Integer(12))));

    assert!(indicates_demoted_master(&Err(Error::new(ErrorKind::Redis(
        RedisError {
            kind: RedisErrorKind::Readonly,
            description: b"You can't write against a read only replica.".to_vec(),
        }
    )))));
    assert!(!indicates_demoted_master(&Err(Error::new(ErrorKind::Retry(Vec::new())))));
    assert!(!indicates_demoted_master(&Err(Error::new(ErrorKind::EOF))));
}

#[test]
fn readonly_stays_a_per_message_error() {
    assert!(!is_connection_level_error(&Error::new(ErrorKind::Redis(
        RedisError {
            kind: RedisErrorKind::Readonly,
            description: b"You can't write against a read only replica.".to_vec(),
        }
    ))));
}

#[test]
fn a_nil_unsubscribe_confirmation_is_recognized() {
    assert!(is_empty_unsubscribe_confirmation(&Reply::Push(vec![
        bulk("unsubscribe"),
        Reply::Null,
        Reply::Integer(0),
    ])));
    assert!(!is_empty_unsubscribe_confirmation(&Reply::Push(vec![
        bulk("unsubscribe"),
        bulk("channel"),
        Reply::Integer(0),
    ])));
    assert!(!is_empty_unsubscribe_confirmation(&Reply::Push(vec![
        bulk("message"),
        Reply::Null,
    ])));
}

#[test]
fn only_acknowledgements_retire_a_subscription_request() {
    assert!(is_subscription_ack(&Reply::Push(vec![
        bulk("subscribe"),
        bulk("news"),
        Reply::Integer(1),
    ])));
    assert!(!is_subscription_ack(&Reply::Push(vec![
        bulk("message"),
        bulk("news"),
        bulk("hello"),
    ])));
    assert!(!is_subscription_ack(&error_reply("MOVED 1 127.0.0.1:7000")));
}

#[test]
fn a_new_message_is_shed_when_the_queue_is_full() {
    let mut queue = MessageQueue::new(10);
    queue.push_to_send(Message::new(cmd("PING")));
    assert_eq!(Admission::Shed, admission(ConnectionMode::Connected, false, 0, false, 100, &queue));
    assert_eq!(Admission::Accept, admission(ConnectionMode::Connected, false, 1, false, 100, &queue));
    assert_eq!(Admission::Accept, admission(ConnectionMode::Connected, false, 0, true, 100, &queue));
    assert_eq!(Admission::FailDisconnected, admission(ConnectionMode::Disconnected, false, 0, false, 100, &queue));
    assert_eq!(Admission::Shed, admission(ConnectionMode::Disconnected, true, 0, false, 100, &queue));
    assert_eq!(Admission::QueueWhileDisconnected, admission(ConnectionMode::Disconnected, true, 2, false, 100, &queue));
    assert_eq!(Admission::QueueWhileMonitoring, admission(ConnectionMode::Monitor, false, 0, false, 1, &MessageQueue::new(0)));
}

#[test]
fn replies_go_where_the_mode_says() {
    let mut mode = ConnectionMode::Connected;
    assert_eq!(ResultRoute::Caller, route_result(&mut mode, &Ok(Reply::Integer(1)), false));
    assert_eq!(ResultRoute::Push, route_result(&mut mode, &Ok(Reply::Push(vec![])), false));
    let mut mode = ConnectionMode::Monitor;
    assert_eq!(ResultRoute::MonitorSink, route_result(&mut mode, &Ok(Reply::SimpleString(b"line".to_vec())), true));
    let mut mode = ConnectionMode::Disconnected;
    assert_eq!(ResultRoute::Drop, route_result(&mut mode, &Ok(Reply::Integer(1)), false));
}

#[test]
fn an_answered_error_names_its_command() {
    let named = name_answer(Err(Error::new(ErrorKind::EOF)), Some(b"GET".to_vec())).unwrap_err();
    assert_eq!(Some("GET"), named.command());
    assert!(matches!(name_answer(Ok(Reply::Integer(1)), Some(b"GET".to_vec())), Ok(Reply::Integer(1))));
    assert_eq!(None, name_answer(Err(Error::new(ErrorKind::EOF)), None).unwrap_err().command());
}
