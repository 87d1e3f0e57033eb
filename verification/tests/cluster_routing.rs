use rustis::cluster_routing::{ask_reasons, is_broadcast_pub_sub_command, prepare_command_for_shard, shard_slices};
use rustis::command::cmd;
use rustis::error::RetryReason;

fn key(name: &str) -> Vec<u8> {
    name.as_bytes().to_vec()
}

fn slices(mut routed: Vec<(usize, u16, Vec<u8>, bool)>) -> Vec<(usize, Vec<String>, bool)> {
    routed.sort();
    shard_slices(routed)
        .into_iter()
        .map(|slice| {
            (
                slice.node_index,
                slice
                    .keys
                    .iter()
                    .map(|k| String::from_utf8_lossy(k).into_owned())
                    .collect(),
                slice.should_ask,
            )
        })
        .collect()
}

#[test]
fn a_node_serving_two_slots_is_cut_into_two_slices() {
    let cut = slices(vec![
        (0, 10, key("a"), false),
        (0, 20, key("b"), false),
        (0, 10, key("c"), false),
    ]);

    assert_eq!(
        vec![
            (0, vec!["a".to_owned(), "c".to_owned()], false),
            (0, vec!["b".to_owned()], false),
        ],
        cut
    );
}

#[test]
fn keys_of_different_shards_are_cut_apart() {
    let cut = slices(vec![
        (1, 500, key("x"), false),
        (0, 10, key("a"), false),
        (1, 500, key("y"), false),
    ]);

    assert_eq!(
        vec![
            (0, vec!["a".to_owned()], false),
            (1, vec!["x".to_owned(), "y".to_owned()], false),
        ],
        cut
    );
}

#[test]
fn a_redirected_slot_carries_its_ask_for_the_whole_slice() {
    let cut = slices(vec![
        (0, 10, key("a"), true),
        (0, 10, key("b"), true),
        (1, 20, key("c"), false),
    ]);

    assert_eq!(
        vec![
            (0, vec!["a".to_owned(), "b".to_owned()], true),
            (1, vec!["c".to_owned()], false),
        ],
        cut
    );
}

#[test]
fn a_slot_resolved_to_two_replicas_stays_one_slice() {
    let cut = slices(vec![(0, 10, key("a"), false), (1, 10, key("b"), false)]);

    assert_eq!(1, cut.len());
    let (node_index, keys, _) = cut.first().unwrap();
    assert_eq!(1, *node_index, "the last resolution takes the slot");
    assert_eq!(&vec!["a".to_owned(), "b".to_owned()], keys);
}

#[test]
fn a_shard_is_sent_its_keys_with_their_values() {
    let mut mset = cmd("MSET").key("a").arg("1").key("b").arg("2").key("c").arg("3");
    mset.key_step = 2;
    let shard = prepare_command_for_shard(&mset, &[key("a"), key("c")]);
    let args = shard.args.iter().map(|a| String::from_utf8_lossy(&a.value).into_owned()).collect::<Vec<_>>();
    assert_eq!(b"MSET".to_vec(), shard.name);
    assert_eq!(vec!["a", "1", "c", "3"], args);

    let mget = cmd("MGET").key("a").key("b");
    let shard = prepare_command_for_shard(&mget, &[key("b")]);
    assert_eq!(1, shard.args.len());
    assert_eq!(b"b".to_vec(), shard.args[0].value);
}

#[test]
fn only_ask_redirections_steer_the_replay() {
    let reasons = vec![
        RetryReason::Moved { hash_slot: 1, address: (key("h1"), 7000) },
        RetryReason::Ask { hash_slot: 2, address: (key("h2"), 7001) },
        RetryReason::TryAgain { delay_ms: 25, refresh_topology: false },
    ];
    let asks = ask_reasons(&reasons);
    assert_eq!(vec![(2u16, (key("h2"), 7001u16))], asks);
}

#[test]
fn channel_subscriptions_are_broadcast_but_shard_ones_are_not() {
    assert!(is_broadcast_pub_sub_command(&cmd("SUBSCRIBE").arg("news")));
    assert!(is_broadcast_pub_sub_command(&cmd("PUNSUBSCRIBE")));
    assert!(!is_broadcast_pub_sub_command(&cmd("SSUBSCRIBE").key("news")));
    assert!(!is_broadcast_pub_sub_command(&cmd("GET").key("k")));
}

#[test]
fn a_slot_split_by_another_in_sort_order_is_still_one_slice() {
    let cut = slices(vec![
        (0, 10, key("a"), true),
        (0, 20, key("b"), false),
        (1, 10, key("c"), false),
    ]);

    assert_eq!(
        vec![
            (1, vec!["a".to_owned(), "c".to_owned()], true),
            (0, vec!["b".to_owned()], false),
        ],
        cut
    );
}
