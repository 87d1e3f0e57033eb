use rustis::cluster_request::{
    collect_redirections, combine, transient_retry_reason, Aggregate, RequestInfo, SubRequest,
    CLUSTER_DOWN_DELAY_MS, TRY_AGAIN_DELAY_MS,
};
use rustis::cluster_topology::NodeId;
use rustis::command::ResponsePolicy;
use rustis::error::{ClientError, Error, ErrorKind, RedisErrorKind, RetryReason};
use rustis::reply::Reply;

fn bulk(s: &str) -> Reply {
    Reply::BulkString(s.as_bytes().to_vec())
}

fn error_reply(s: &str) -> Reply {
    Reply::Error(s.as_bytes().to_vec())
}

fn keys(keys: &[&str]) -> Vec<Vec<u8>> {
    keys.iter().map(|k| k.as_bytes().to_vec()).collect()
}

fn sub_request(k: &[&str], result: Option<Result<Reply, Error>>) -> SubRequest {
    SubRequest {
        node_id: NodeId::from_bytes(b"n"),
        keys: keys(k),
        result: Some(result),
    }
}

fn request_info(
    response_policy: Option<ResponsePolicy>,
    k: &[&str],
    sub_requests: Vec<SubRequest>,
) -> RequestInfo {
    RequestInfo {
        response_policy,
        keys: keys(k),
        sub_requests,
        command: None,
        is_pub_sub: false,
    }
}

fn as_integer(result: Option<Result<Reply, Error>>) -> i64 {
    match result.expect("an answer").expect("a success") {
        Reply::Integer(i) => i,
        other => panic!("expected an integer, got {other:?}"),
    }
}

#[test]
fn a_command_served_by_one_shard_answers_with_its_reply() {
    let request = request_info(
        None,
        &["k"],
        vec![sub_request(&["k"], Some(Ok(Reply::Integer(7))))],
    );
    assert_eq!(7, as_integer(request.into_reply()));
}

#[test]
fn a_moved_reply_becomes_a_retry_reason() {
    let request = request_info(
        None,
        &["k"],
        vec![sub_request(
            &["k"],
            Some(Ok(error_reply("MOVED 1234 127.0.0.1:7001"))),
        )],
    );

    let Some(Err(e)) = request.into_reply() else {
        panic!("a redirection must not answer the caller");
    };
    assert!(matches!(
        e.into_kind(),
        ErrorKind::Retry(reasons) if matches!(
            reasons.first(),
            Some(RetryReason::Moved { hash_slot: 1234, .. })
        )
    ));
}

#[test]
fn a_request_still_missing_a_shard_reply_answers_nothing() {
    let mut request = request_info(
        None,
        &[],
        vec![
            sub_request(&[], Some(Ok(Reply::Integer(1)))),
            sub_request(&[], Some(Ok(Reply::Integer(2)))),
        ],
    );
    if let Some(sub_request) = request.sub_requests.get_mut(1) {
        sub_request.result = None;
    }

    assert!(request.into_reply().is_none());
}

#[test]
fn a_sum_policy_totals_the_shard_counters() {
    let request = request_info(
        Some(ResponsePolicy::AggSum),
        &[],
        vec![
            sub_request(&[], Some(Ok(Reply::Integer(10)))),
            sub_request(&[], Some(Ok(Reply::Integer(32)))),
        ],
    );

    assert_eq!(42, as_integer(request.into_reply()));
}

#[test]
fn shards_answering_different_shapes_cannot_be_aggregated() {
    let request = request_info(
        Some(ResponsePolicy::AggSum),
        &[],
        vec![
            sub_request(&[], Some(Ok(Reply::Integer(10)))),
            sub_request(&[], Some(Ok(Reply::Array(vec![Reply::Integer(1)])))),
        ],
    );

    let Some(Err(e)) = request.into_reply() else {
        panic!("incompatible shapes must not answer a value");
    };
    assert!(matches!(
        e.into_kind(),
        ErrorKind::Client(ClientError::IncompatibleShardReplies)
    ));
}

#[test]
fn a_keyed_command_answers_in_the_order_of_its_keys() {
    let request = request_info(
        None,
        &["a", "b", "c"],
        vec![
            sub_request(&["b"], Some(Ok(Reply::Array(vec![bulk("vb")])))),
            sub_request(
                &["a", "c"],
                Some(Ok(Reply::Array(vec![bulk("va"), bulk("vc")]))),
            ),
        ],
    );

    let response = request.into_reply().expect("an answer").expect("a success");
    let Reply::Array(items) = response else {
        panic!("a keyed command answers an array");
    };
    let values = items
        .iter()
        .map(|item| match item {
            Reply::BulkString(s) => String::from_utf8_lossy(s).into_owned(),
            other => panic!("expected a bulk string, got {other:?}"),
        })
        .collect::<Vec<_>>();

    assert_eq!(vec!["va", "vb", "vc"], values);
}

#[test]
fn each_redirection_names_the_sub_request_that_earned_it() {
    let request = request_info(
        None,
        &["a", "b"],
        vec![
            sub_request(&["a"], Some(Ok(bulk("va")))),
            sub_request(&["b"], Some(Ok(error_reply("ASK 42 127.0.0.1:7002")))),
        ],
    );

    let redirections = collect_redirections(&request);
    assert_eq!(1, redirections.len());
    assert!(matches!(
        redirections.first(),
        Some((1, RetryReason::Ask { hash_slot: 42, .. }))
    ));
}

#[test]
fn cluster_down_is_replayed_against_a_reloaded_topology() {
    assert!(matches!(
        transient_retry_reason(&RedisErrorKind::ClusterDown),
        Some(RetryReason::TryAgain {
            delay_ms: CLUSTER_DOWN_DELAY_MS,
            refresh_topology: true
        })
    ));
}

#[test]
fn try_again_is_replayed_without_a_discovery() {
    assert!(matches!(
        transient_retry_reason(&RedisErrorKind::TryAgain),
        Some(RetryReason::TryAgain {
            delay_ms: TRY_AGAIN_DELAY_MS,
            refresh_topology: false
        })
    ));
}

#[test]
fn other_server_errors_are_not_retried() {
    for kind in [
        RedisErrorKind::WrongType,
        RedisErrorKind::NoPerm,
        RedisErrorKind::OutOfMemory,
        RedisErrorKind::CrossSlot,
        RedisErrorKind::GenericErr,
    ] {
        assert!(
            transient_retry_reason(&kind).is_none(),
            "{kind:?} must reach the caller"
        );
    }
}

#[test]
fn a_transient_error_from_one_shard_replays_the_command() {
    let request = request_info(
        Some(ResponsePolicy::AggSum),
        &[],
        vec![
            sub_request(&[], Some(Ok(Reply::Integer(1)))),
            sub_request(&[], Some(Ok(error_reply("TRYAGAIN slot in migration")))),
        ],
    );

    let Some(Err(e)) = request.into_reply() else {
        panic!("a transient error must not answer the caller");
    };
    assert!(matches!(e.into_kind(), ErrorKind::Retry(_)));
}

#[test]
fn a_shard_failure_fails_the_command_rather_than_the_connection() {
    let request = request_info(
        Some(ResponsePolicy::AllSucceeded),
        &[],
        vec![
            sub_request(&[], Some(Ok(Reply::SimpleString(b"OK".to_vec())))),
            sub_request(&[], Some(Err(Error::client(ClientError::ClusterConfig)))),
        ],
    );

    assert!(matches!(request.into_reply(), Some(Err(_))));
}

#[test]
fn the_delays_are_a_quarter_second_and_twenty_five_milliseconds() {
    assert_eq!(25, TRY_AGAIN_DELAY_MS);
    assert_eq!(250, CLUSTER_DOWN_DELAY_MS);
}

#[test]
fn a_closed_node_stream_answers_nothing() {
    let mut request = request_info(None, &[], vec![sub_request(&[], Some(Ok(Reply::Integer(1))))]);
    request.sub_requests[0].result = Some(None);
    assert!(request.into_reply().is_none());
}

#[test]
fn one_success_is_enough_for_one_succeeded() {
    let request = request_info(
        Some(ResponsePolicy::OneSucceeded),
        &[],
        vec![
            sub_request(&[], Some(Ok(error_reply("ERR no")))),
            sub_request(&[], Some(Ok(Reply::Integer(5)))),
            sub_request(&[], Some(Ok(Reply::Integer(6)))),
        ],
    );
    assert_eq!(5, as_integer(request.into_reply()));

    let request = request_info(
        Some(ResponsePolicy::OneSucceeded),
        &[],
        vec![
            sub_request(&[], Some(Ok(error_reply("ERR first")))),
            sub_request(&[], Some(Ok(error_reply("ERR last")))),
        ],
    );
    match request.into_reply() {
        Some(Ok(Reply::Error(e))) => assert_eq!(b"ERR last".to_vec(), e),
        other => panic!("the last failure answers, got {other:?}"),
    }
}

#[test]
fn all_succeeded_answers_the_last_success_or_the_first_failure() {
    let request = request_info(
        Some(ResponsePolicy::AllSucceeded),
        &[],
        vec![
            sub_request(&[], Some(Ok(Reply::Integer(1)))),
            sub_request(&[], Some(Ok(Reply::Integer(2)))),
        ],
    );
    assert_eq!(2, as_integer(request.into_reply()));

    let request = request_info(
        Some(ResponsePolicy::AllSucceeded),
        &[],
        vec![
            sub_request(&[], Some(Ok(error_reply("ERR first")))),
            sub_request(&[], Some(Ok(error_reply("ERR second")))),
        ],
    );
    match request.into_reply() {
        Some(Ok(Reply::Error(e))) => assert_eq!(b"ERR first".to_vec(), e),
        other => panic!("the first failure answers, got {other:?}"),
    }
}

#[test]
fn aggregates_fold_integers_and_arrays_element_wise() {
    let request = request_info(
        Some(ResponsePolicy::AggMin),
        &[],
        vec![
            sub_request(&[], Some(Ok(Reply::Array(vec![Reply::Integer(3), Reply::Integer(9)])))),
            sub_request(&[], Some(Ok(Reply::Array(vec![Reply::Integer(5), Reply::Integer(1)])))),
        ],
    );
    match request.into_reply() {
        Some(Ok(Reply::Array(items))) => {
            assert!(matches!(items.as_slice(), [Reply::Integer(3), Reply::Integer(1)]))
        }
        other => panic!("an array of minima, got {other:?}"),
    }

    let request = request_info(
        Some(ResponsePolicy::AggLogicalAnd),
        &[],
        vec![
            sub_request(&[], Some(Ok(Reply::Integer(1)))),
            sub_request(&[], Some(Ok(Reply::Integer(0)))),
        ],
    );
    assert_eq!(0, as_integer(request.into_reply()));

    let request = request_info(Some(ResponsePolicy::AggMax), &[], vec![]);
    assert!(matches!(request.into_reply(), Some(Ok(Reply::Null))));
}

#[test]
fn arrays_of_unequal_lengths_are_incompatible() {
    let request = request_info(
        Some(ResponsePolicy::AggSum),
        &[],
        vec![
            sub_request(&[], Some(Ok(Reply::Array(vec![Reply::Integer(3)])))),
            sub_request(&[], Some(Ok(Reply::Array(vec![Reply::Integer(5), Reply::Integer(1)])))),
        ],
    );
    assert!(matches!(
        request.into_reply().unwrap().unwrap_err().into_kind(),
        ErrorKind::Client(ClientError::IncompatibleShardReplies)
    ));
}

#[test]
fn the_folds_combine_as_documented() {
    assert_eq!(i64::MAX, combine(Aggregate::Sum, i64::MAX, 1));
    assert_eq!(i64::MIN, combine(Aggregate::Sum, i64::MIN, -1));
    assert_eq!(7, combine(Aggregate::Sum, 3, 4));
    assert_eq!(1, combine(Aggregate::LogicalOr, 0, 5));
    assert_eq!(0, combine(Aggregate::LogicalOr, 0, 0));
    assert_eq!(1, combine(Aggregate::LogicalAnd, 1, 1));
    assert_eq!(0, combine(Aggregate::LogicalAnd, 1, 2));
    assert_eq!(-2, combine(Aggregate::Min, -2, 4));
    assert_eq!(4, combine(Aggregate::Max, -2, 4));
}

#[test]
fn a_special_policy_is_not_supported_in_a_cluster() {
    let request = request_info(
        Some(ResponsePolicy::Special),
        &[],
        vec![sub_request(&[], Some(Ok(Reply::Integer(1))))],
    );
    assert!(matches!(
        request.into_reply().unwrap().unwrap_err().into_kind(),
        ErrorKind::Client(ClientError::CommandNotSupportedInCluster)
    ));
}

#[test]
fn a_keyless_command_packs_every_shard_reply_into_one_array() {
    let request = request_info(
        None,
        &[],
        vec![
            sub_request(&[], Some(Ok(Reply::Array(vec![bulk("a"), bulk("b")])))),
            sub_request(&[], Some(Ok(Reply::Array(vec![bulk("c")])))),
        ],
    );
    match request.into_reply() {
        Some(Ok(Reply::Array(items))) => assert_eq!(3, items.len()),
        other => panic!("an array of every item, got {other:?}"),
    }

    let request = request_info(
        None,
        &[],
        vec![
            sub_request(&[], Some(Ok(Reply::Array(vec![bulk("a")])))),
            sub_request(&[], Some(Ok(Reply::Integer(3)))),
        ],
    );
    assert!(matches!(
        request.into_reply().unwrap().unwrap_err().into_kind(),
        ErrorKind::Client(ClientError::NotACollection)
    ));
}
