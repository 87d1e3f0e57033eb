use rustis::cluster_connection::{
    ask_refresh_due, feed_step, group_channels, internal_read, moved_refresh_due, no_request_policy_node,
    plan_multi_shard, redirections_need_refresh, reload_after_wait_due, routing_of, sort_routed_keys,
    transient_wait_due, FeedStep, ReadOutcome, Routing,
};
use rustis::cluster_connection::{
    node_reply_step, orphan_answer, read_step, step_after_deferral, unfiled_reply_answer, NodeReplyStep, ReadDrive,
    ReadStep,
};
use rustis::cluster_request::{RequestInfo, SubRequest};
use rustis::cluster_send_batch::SendBatch;
use rustis::cluster_topology::{ClusterTopology, Node, NodeId, SlotRange};
use rustis::command::{cmd, RequestPolicy};
use rustis::error::{ClientError, ErrorKind, RetryReason};
use rustis::reply::Reply;

fn id(s: &str) -> NodeId {
    NodeId::from_bytes(s.as_bytes())
}

fn node(name: &str, is_master: bool, port: u16) -> Node {
    Node {
        id: id(name),
        is_master,
        address: (b"127.0.0.1".to_vec(), port),
        is_dirty: false,
    }
}

/// Two shards: `a` serves the lower half of the slots, `b` the upper half.
fn two_shards() -> ClusterTopology {
    let mut topology = ClusterTopology::new();
    topology.insert_node(node("a", true, 7000));
    topology.insert_node(node("b", true, 7001));
    topology.insert_slot_range(SlotRange { slot_range: (0, 8191), node_ids: vec![id("a")], next_replica: 0 });
    topology.insert_slot_range(SlotRange { slot_range: (8192, 16383), node_ids: vec![id("b")], next_replica: 0 });
    topology
}

#[test]
fn commands_take_the_routing_their_tips_say() {
    assert_eq!(Routing::PubSubByChannel, routing_of(&cmd("SUBSCRIBE").arg("news")));
    assert_eq!(Routing::AllShards, routing_of(&cmd("UNSUBSCRIBE")));
    assert_eq!(Routing::SingleNode, routing_of(&cmd("GET").key("k")));
    let mut mget = cmd("MGET").key("a").key("b");
    mget.request_policy = Some(RequestPolicy::MultiShard);
    assert_eq!(Routing::MultiShard, routing_of(&mget));
    let mut dbsize = cmd("DBSIZE");
    dbsize.request_policy = Some(RequestPolicy::AllShards);
    assert_eq!(Routing::AllShards, routing_of(&dbsize));
}

#[test]
fn a_transaction_is_held_then_sent_to_its_node() {
    assert_eq!(FeedStep::HoldMulti, feed_step(&cmd("MULTI"), None).unwrap());
    assert_eq!(FeedStep::ExecOn(3), feed_step(&cmd("EXEC"), Some(3)).unwrap());
    let e = feed_step(&cmd("EXEC"), None).unwrap_err();
    assert!(matches!(e.kind, ErrorKind::Client(ClientError::ExecCalledWithoutMulti)));
    assert_eq!(FeedStep::Route(Routing::SingleNode), feed_step(&cmd("GET").key("k"), None).unwrap());
}

#[test]
fn a_batch_pays_each_retry_cost_once() {
    let moved = vec![RetryReason::Moved { hash_slot: 1, address: (b"h".to_vec(), 1) }];
    let mut batch = SendBatch::new();
    assert!(moved_refresh_due(&moved, &mut batch));
    assert!(!moved_refresh_due(&moved, &mut batch));

    let transient = vec![
        RetryReason::TryAgain { delay_ms: 25, refresh_topology: false },
        RetryReason::TryAgain { delay_ms: 250, refresh_topology: true },
    ];
    let mut batch = SendBatch::new();
    assert_eq!(Some(250), transient_wait_due(&transient, &mut batch));
    assert_eq!(None, transient_wait_due(&transient, &mut batch));
    assert!(reload_after_wait_due(&transient, &mut batch));
    assert!(!reload_after_wait_due(&transient, &mut batch));

    let mut batch = SendBatch::new();
    assert!(!moved_refresh_due(&transient, &mut batch));
    assert!(reload_after_wait_due(&transient, &mut batch));
}

#[test]
fn an_ask_naming_an_unknown_node_earns_a_reload() {
    let topology = two_shards();
    let mut batch = SendBatch::new();
    assert!(!ask_refresh_due(&topology, &[(1, (b"127.0.0.1".to_vec(), 7000))], &mut batch));
    assert!(ask_refresh_due(&topology, &[(1, (b"10.0.0.1".to_vec(), 7000))], &mut batch));
    assert!(!ask_refresh_due(&topology, &[(1, (b"10.0.0.1".to_vec(), 7000))], &mut batch));
}

#[test]
fn keys_of_different_slots_are_refused_and_named() {
    let mut topology = two_shards();
    let e = no_request_policy_node(&mut topology, &cmd("MGET").key("foo").key("bar"), &[], false).unwrap_err();
    assert!(matches!(e.kind, ErrorKind::Client(ClientError::MismatchedKeySlots)));
    assert_eq!(Some("MGET"), e.command());

    // foo hashes to 12182, in the upper half.
    assert_eq!((1, false), no_request_policy_node(&mut topology, &cmd("GET").key("foo"), &[], false).unwrap());
    assert_eq!((0, false), no_request_policy_node(&mut topology, &cmd("GET").key("bar"), &[], false).unwrap());
    assert!(no_request_policy_node(&mut topology, &cmd("PING"), &[], false).unwrap().0 < 2);

    let mut empty = ClusterTopology::new();
    let e = no_request_policy_node(&mut empty, &cmd("PING"), &[], false).unwrap_err();
    assert!(matches!(e.kind, ErrorKind::Client(ClientError::ClusterConfig)));
}

#[test]
fn a_multi_key_command_is_cut_per_slot() {
    let mut topology = two_shards();
    let slices = plan_multi_shard(&mut topology, &cmd("MGET").key("foo").key("bar").key("{bar}x"), &[], false).unwrap();
    assert_eq!(2, slices.len());
    assert_eq!(0, slices[0].node_index);
    assert_eq!(2, slices[0].keys.len());
    assert_eq!(1, slices[1].node_index);
    assert_eq!(vec![b"foo".to_vec()], slices[1].keys);

    let mut empty = ClusterTopology::new();
    assert!(plan_multi_shard(&mut empty, &cmd("MGET").key("foo"), &[], false).is_err());
}

#[test]
fn routed_keys_sort_by_node_slot_and_key() {
    let sorted = sort_routed_keys(vec![
        (1, 5, b"b".to_vec(), false),
        (0, 9, b"z".to_vec(), true),
        (1, 5, b"a".to_vec(), false),
        (0, 2, b"y".to_vec(), false),
    ]);
    let order = sorted.iter().map(|k| (k.0, k.1, k.2.clone())).collect::<Vec<_>>();
    assert_eq!(
        vec![(0, 2, b"y".to_vec()), (0, 9, b"z".to_vec()), (1, 5, b"a".to_vec()), (1, 5, b"b".to_vec())],
        order
    );
}

#[test]
fn channels_are_grouped_by_the_node_that_serves_them() {
    let mut topology = two_shards();
    let groups = group_channels(&mut topology, &vec![b"foo".to_vec(), b"bar".to_vec(), b"{foo}2".to_vec()]).unwrap();
    assert_eq!(2, groups.len());
    assert_eq!(1, groups[0].0);
    assert_eq!(vec![b"foo".to_vec(), b"{foo}2".to_vec()], groups[0].1);
    assert_eq!(0, groups[1].0);
}

fn sub(node: &str, keys: &[&str], reply: Reply) -> SubRequest {
    SubRequest {
        node_id: id(node),
        keys: keys.iter().map(|k| k.as_bytes().to_vec()).collect(),
        result: Some(Some(Ok(reply))),
    }
}

#[test]
fn only_the_redirected_part_of_a_split_command_is_sent_again() {
    let topology = two_shards();
    let mut mget = cmd("MGET").key("a").key("b");
    mget.request_policy = Some(RequestPolicy::MultiShard);
    let request = RequestInfo {
        response_policy: None,
        keys: vec![b"a".to_vec(), b"b".to_vec()],
        sub_requests: vec![
            sub("a", &["a"], Reply::Array(vec![Reply::BulkString(b"va".to_vec())])),
            sub("a", &["b"], Reply::Error(b"ASK 3300 127.0.0.1:7001".to_vec())),
        ],
        command: Some(mget),
        is_pub_sub: false,
    };
    match internal_read(&topology, request) {
        ReadOutcome::Deferred(info, pending) => {
            assert_eq!(1, pending.len());
            assert!(pending[0].should_ask);
            assert_eq!(b"b".to_vec(), pending[0].node_id.0);
            assert!(!redirections_need_refresh(&pending));
            assert!(info.sub_requests[0].result.is_some());
            assert!(info.sub_requests[1].result.is_none());
            assert_eq!(b"b".to_vec(), info.sub_requests[1].node_id.0);
        }
        other => panic!("a partial redirection is deferred, got {other:?}"),
    }
}

#[test]
fn a_wholly_redirected_command_is_replayed_as_a_whole() {
    let topology = two_shards();
    let request = RequestInfo {
        response_policy: None,
        keys: vec![b"b".to_vec()],
        sub_requests: vec![sub("a", &["b"], Reply::Error(b"MOVED 3300 127.0.0.1:7001".to_vec()))],
        command: Some(cmd("GET").key("b")),
        is_pub_sub: false,
    };
    match internal_read(&topology, request) {
        ReadOutcome::Ready(Some(Err(e))) => assert!(matches!(e.kind, ErrorKind::Retry(_))),
        other => panic!("a full redirection is a retry, got {other:?}"),
    }
}

fn bulk_bytes(s: &str) -> Reply {
    Reply::BulkString(s.as_bytes().to_vec())
}

#[test]
fn the_read_loop_sends_redirections_first_and_drops_orphans_before_reading() {
    assert_eq!(read_step(ReadDrive::Await, true, true, true), ReadStep::FlushRedirections);
    assert_eq!(read_step(ReadDrive::Poll, true, true, true), ReadStep::Yield);
    assert_eq!(read_step(ReadDrive::Await, false, true, true), ReadStep::FailOrphan);
    assert_eq!(read_step(ReadDrive::Poll, false, true, false), ReadStep::FailOrphan);
    assert_eq!(read_step(ReadDrive::Poll, false, false, true), ReadStep::ReadFront);
    assert_eq!(read_step(ReadDrive::Await, false, false, false), ReadStep::ReadNode);
    assert_eq!(step_after_deferral(ReadDrive::Await), ReadStep::FlushRedirections);
    assert_eq!(step_after_deferral(ReadDrive::Poll), ReadStep::Yield);
    assert!(matches!(orphan_answer().kind, ErrorKind::DisconnectedByPeer));
    assert!(matches!(unfiled_reply_answer().kind, ErrorKind::Client(ClientError::UnexpectedMessageReceived)));
}

#[test]
fn a_push_is_handed_on_and_only_an_acknowledgement_retires_a_request() {
    let ack = Reply::Push(vec![bulk_bytes("subscribe"), bulk_bytes("news"), Reply::Integer(1)]);
    assert_eq!(node_reply_step(ReadDrive::Await, &Some(Ok(ack))), NodeReplyStep::PassPush { retire: true });
    let message = Reply::Push(vec![bulk_bytes("message"), bulk_bytes("news"), bulk_bytes("hello")]);
    assert_eq!(node_reply_step(ReadDrive::Poll, &Some(Ok(message))), NodeReplyStep::PassPush { retire: false });
    let moved = Reply::Error(b"MOVED 1 127.0.0.1:7000".to_vec());
    assert_eq!(node_reply_step(ReadDrive::Await, &Some(Ok(moved))), NodeReplyStep::File);
    assert_eq!(node_reply_step(ReadDrive::Await, &None), NodeReplyStep::Close);
    assert_eq!(node_reply_step(ReadDrive::Poll, &None), NodeReplyStep::File);
}

#[test]
fn only_a_plain_read_outside_a_transaction_goes_to_a_replica() {
    let mut get = cmd("GET").key("k");
    get.readonly = true;
    let set = cmd("SET").key("k").arg("v");
    assert!(rustis::cluster_connection::may_read_from_replica(true, &get, false, false));
    assert!(!rustis::cluster_connection::may_read_from_replica(false, &get, false, false));
    assert!(!rustis::cluster_connection::may_read_from_replica(true, &set, false, false));
    assert!(!rustis::cluster_connection::may_read_from_replica(true, &get, true, false));
    assert!(!rustis::cluster_connection::may_read_from_replica(true, &get, false, true));
}

#[test]
fn routing_fails_only_where_a_slot_has_no_master() {
    // Only the lower half of the slots is served; "foo" hashes to 12182, "bar" to 5061.
    let mut topology = ClusterTopology::new();
    topology.insert_node(node("a", true, 7000));
    topology.insert_slot_range(SlotRange { slot_range: (0, 8191), node_ids: vec![id("a")], next_replica: 0 });
    assert!(plan_multi_shard(&mut topology, &cmd("MGET").key("bar").key("{bar}x"), &[], false).is_ok());
    assert!(plan_multi_shard(&mut topology, &cmd("MGET").key("bar").key("foo"), &[], false).is_err());
    assert!(group_channels(&mut topology, &vec![b"bar".to_vec()]).is_ok());
    assert!(group_channels(&mut topology, &vec![b"bar".to_vec(), b"foo".to_vec()]).is_err());
}

#[test]
fn each_channel_is_sent_once_in_command_order() {
    let mut topology = two_shards();
    let groups = group_channels(&mut topology, &vec![b"bar".to_vec(), b"foo".to_vec(), b"bar".to_vec()]).unwrap();
    assert_eq!(2, groups.len());
    assert_eq!((0, vec![b"bar".to_vec(), b"bar".to_vec()]), (groups[0].0, groups[0].1.clone()));
    assert_eq!((1, vec![b"foo".to_vec()]), (groups[1].0, groups[1].1.clone()));
}
