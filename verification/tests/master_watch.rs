use rustis::master_watch::{announces_switch, names_service, next_backoff, FIRST_BACKOFF_MS, MAX_BACKOFF_MS};
use rustis::reply::Reply;

fn bulk(s: &str) -> Reply {
    Reply::BulkString(s.as_bytes().to_vec())
}

#[test]
fn an_announcement_for_this_service_is_ours() {
    assert!(names_service(
        b"mymaster 127.0.0.1 6379 127.0.0.1 6380",
        "mymaster"
    ));
}

#[test]
fn an_announcement_for_another_service_is_not() {
    assert!(!names_service(
        b"othermaster 127.0.0.1 6379 127.0.0.1 6380",
        "mymaster"
    ));
}

#[test]
fn a_service_name_is_matched_whole() {
    assert!(!names_service(
        b"mymaster2 127.0.0.1 6379 127.0.0.1 6380",
        "mymaster"
    ));
    assert!(!names_service(
        b"mymaster 127.0.0.1 6379 127.0.0.1 6380",
        "mymaster2"
    ));
}

#[test]
fn an_empty_payload_announces_nothing() {
    assert!(!names_service(b"", "mymaster"));
}

#[test]
fn the_first_reattempt_waits_the_floor_rather_than_nothing() {
    assert_eq!(FIRST_BACKOFF_MS, next_backoff(0));
}

#[test]
fn a_repeated_failure_doubles_its_wait_up_to_the_cap() {
    assert_eq!(FIRST_BACKOFF_MS * 2, next_backoff(FIRST_BACKOFF_MS));
    assert_eq!(MAX_BACKOFF_MS, next_backoff(MAX_BACKOFF_MS));
    assert_eq!(MAX_BACKOFF_MS, next_backoff(3000));
}

#[test]
fn the_backoff_floor_and_cap_are_a_quarter_second_and_five_seconds() {
    assert_eq!(250, FIRST_BACKOFF_MS);
    assert_eq!(5000, MAX_BACKOFF_MS);
    assert_eq!(MAX_BACKOFF_MS, next_backoff(u64::MAX));
}

#[test]
fn a_switch_message_for_the_service_is_an_announcement() {
    let message = Reply::Push(vec![
        bulk("message"),
        bulk("+switch-master"),
        bulk("mymaster 127.0.0.1 6379 127.0.0.1 6380"),
    ]);
    assert!(announces_switch(&message, "mymaster"));
    assert!(!announces_switch(&message, "other"));

    let other_channel = Reply::Push(vec![
        bulk("message"),
        bulk("+sdown"),
        bulk("mymaster 127.0.0.1 6379 127.0.0.1 6380"),
    ]);
    assert!(!announces_switch(&other_channel, "mymaster"));

    let confirmation = Reply::Push(vec![bulk("subscribe"), bulk("+switch-master"), Reply::Integer(1)]);
    assert!(!announces_switch(&confirmation, "mymaster"));
}
