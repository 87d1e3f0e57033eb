use rustis::cluster_topology::{select_replica, ClusterTopology, Node, NodeId, NodeReach, SlotRange};

fn id(s: &str) -> NodeId {
    NodeId::from_bytes(s.as_bytes())
}

fn slot_range(from: u16, to: u16) -> SlotRange {
    SlotRange {
        slot_range: (from, to),
        node_ids: vec![id("m")],
        next_replica: 0,
    }
}

fn node(name: &str, is_master: bool, port: u16) -> Node {
    Node {
        id: id(name),
        is_master,
        address: (b"127.0.0.1".to_vec(), port),
        is_dirty: false,
    }
}

#[test]
fn a_slot_range_is_placed_where_the_search_will_find_it() {
    let mut topology = ClusterTopology::default();
    for (from, to) in [(10923, 16383), (0, 5460), (5461, 10922)] {
        topology.insert_slot_range(slot_range(from, to));
    }

    let starts = topology
        .slot_ranges()
        .iter()
        .map(|s| s.slot_range.0)
        .collect::<Vec<_>>();
    assert_eq!(vec![0, 5461, 10923], starts);

    for (slot, expected) in [
        (0, 0),
        (5460, 0),
        (5461, 5461),
        (10922, 5461),
        (16383, 10923),
    ] {
        assert_eq!(
            Some(expected),
            topology.slot_range_by_slot(slot).map(|s| s.slot_range.0),
            "slot {slot} must be served by the range starting at {expected}"
        );
    }
}

#[test]
fn a_slot_no_shard_owns_is_served_by_nothing() {
    let mut topology = ClusterTopology::default();
    topology.insert_slot_range(slot_range(0, 100));
    topology.insert_slot_range(slot_range(200, 300));

    assert!(topology.slot_range_by_slot(150).is_none());
    assert!(topology.slot_range_by_slot(301).is_none());
    assert!(topology.slot_range_by_slot(100).is_some());
    assert!(topology.slot_range_by_slot(200).is_some());
}

#[test]
fn replicas_are_picked_in_round_robin() {
    let replicas: Vec<NodeId> = vec![id("r1"), id("r2"), id("r3")];
    let mut cursor = 0;

    let picks = (0..6)
        .map(|_| {
            select_replica(&replicas, &mut cursor, |id: &NodeId| match id.as_bytes() {
                b"r1" => Some(10),
                b"r2" => Some(20),
                b"r3" => Some(30),
                _ => None,
            })
        })
        .collect::<Vec<_>>();

    assert_eq!(
        vec![Some(10), Some(20), Some(30), Some(10), Some(20), Some(30)],
        picks
    );
}

#[test]
fn an_unconnected_replica_is_skipped() {
    let replicas: Vec<NodeId> = vec![id("r1"), id("r2")];
    let mut cursor = 0;

    let picks = (0..3)
        .map(|_| {
            select_replica(&replicas, &mut cursor, |id: &NodeId| {
                if id.as_bytes() == b"r2" {
                    Some(20)
                } else {
                    None
                }
            })
        })
        .collect::<Vec<_>>();

    assert_eq!(vec![Some(20), Some(20), Some(20)], picks);
}

#[test]
fn a_shard_without_a_reachable_replica_selects_nothing() {
    let mut cursor = 0;
    assert_eq!(None, select_replica(&[], &mut cursor, |_: &NodeId| Some(0)));

    let replicas: Vec<NodeId> = vec![id("r1")];
    assert_eq!(None, select_replica(&replicas, &mut cursor, |_: &NodeId| None));
    assert_eq!(0, cursor);
}

#[test]
fn an_empty_topology_names_no_node() {
    let mut topology = ClusterTopology::default();
    assert!(topology.is_empty());
    assert_eq!(None, topology.random_node_index());
    assert_eq!(None, topology.node_index_by_slot(0, &[], false));
    assert_eq!(None, topology.node_index_by_id(&id("m")));
}

#[test]
fn nodes_are_kept_ordered_by_id_and_found_again() {
    let mut topology = ClusterTopology::new();
    for name in ["c", "a", "b"] {
        topology.insert_node(node(name, true, 7000));
    }
    let ids = (0..topology.node_count())
        .map(|i| topology.node(i).unwrap().id.as_bytes().to_vec())
        .collect::<Vec<_>>();
    assert_eq!(vec![b"a".to_vec(), b"b".to_vec(), b"c".to_vec()], ids);
    for (name, index) in [("a", 0), ("b", 1), ("c", 2)] {
        assert_eq!(Some(index), topology.node_index_by_id(&id(name)));
    }
    assert_eq!(None, topology.node_index_by_id(&id("d")));
}

#[test]
fn a_slot_routes_to_its_master_unless_a_read_prefers_a_replica() {
    let mut topology = ClusterTopology::new();
    topology.insert_node(node("m", true, 7000));
    topology.insert_node(node("r1", false, 7001));
    topology.insert_node(node("r2", false, 7002));
    topology.insert_slot_range(SlotRange {
        slot_range: (0, 16383),
        node_ids: vec![id("m"), id("r1"), id("r2")],
        next_replica: 0,
    });

    assert_eq!(Some((0, false)), topology.node_index_by_slot(42, &[], false));
    assert_eq!(Some((1, false)), topology.node_index_by_slot(42, &[], true));
    assert_eq!(Some((2, false)), topology.node_index_by_slot(42, &[], true));
    assert_eq!(Some((1, false)), topology.node_index_by_slot(42, &[], true));
}

#[test]
fn an_ask_redirection_names_the_node_itself() {
    let mut topology = ClusterTopology::new();
    topology.insert_node(node("m", true, 7000));
    topology.insert_node(node("n", true, 7001));
    topology.insert_slot_range(SlotRange {
        slot_range: (0, 16383),
        node_ids: vec![id("m")],
        next_replica: 0,
    });
    let ask = vec![(42u16, (b"127.0.0.1".to_vec(), 7001u16))];
    assert_eq!(Some((1, true)), topology.node_index_by_slot(42, &ask, true));
    assert_eq!(Some((0, false)), topology.node_index_by_slot(43, &ask, false));
    let unknown = vec![(42u16, (b"10.0.0.9".to_vec(), 7001u16))];
    assert_eq!(None, topology.node_index_by_slot(42, &unknown, false));
}

#[test]
fn keyless_commands_reach_the_masters_or_every_node() {
    let mut topology = ClusterTopology::new();
    topology.insert_node(node("a", true, 7000));
    topology.insert_node(node("b", false, 7001));
    topology.insert_node(node("c", true, 7002));
    assert_eq!(vec![0, 2], topology.nodes_reached(NodeReach::Masters));
    assert_eq!(vec![0, 1, 2], topology.nodes_reached(NodeReach::All));
    assert!(!topology.holds_no_replica());
}

#[test]
fn fed_nodes_are_flushed_once() {
    let mut topology = ClusterTopology::new();
    topology.insert_node(node("a", true, 7000));
    topology.insert_node(node("b", true, 7001));
    topology.mark_fed(1);
    assert_eq!(vec![1], topology.take_dirty());
    assert!(topology.take_dirty().is_empty());
}

#[test]
fn a_random_node_is_one_of_the_topology() {
    let mut topology = ClusterTopology::new();
    topology.insert_node(node("a", true, 7000));
    topology.insert_node(node("b", true, 7001));
    for _ in 0..20 {
        assert!(topology.random_node_index().unwrap() < 2);
    }
    assert!(topology.holds_address(&(b"127.0.0.1".to_vec(), 7001)));
    assert!(!topology.holds_address(&(b"127.0.0.1".to_vec(), 7009)));
}

#[test]
fn reads_of_a_slot_rotate_over_its_reachable_replicas() {
    let mut topology = ClusterTopology::default();
    topology.insert_node(node("m", true, 7000));
    topology.insert_node(node("r1", false, 7001));
    topology.insert_node(node("r3", false, 7003));
    topology.insert_slot_range(SlotRange {
        slot_range: (0, 16383),
        node_ids: vec![id("m"), id("r1"), id("r2"), id("r3")],
        next_replica: 0,
    });
    let r1 = topology.node_index_by_id(&id("r1")).unwrap();
    let r3 = topology.node_index_by_id(&id("r3")).unwrap();
    // r2 is not a node: its turn passes to r3, and the cursor moves past it.
    assert_eq!(Some(r1), topology.replica_node_index_by_slot(5));
    assert_eq!(1, topology.slot_ranges()[0].next_replica);
    assert_eq!(Some(r3), topology.replica_node_index_by_slot(5));
    assert_eq!(3, topology.slot_ranges()[0].next_replica);
    assert_eq!(Some(r1), topology.replica_node_index_by_slot(5));
    assert_eq!(Some((r3, false)), topology.node_index_by_slot(5, &[], true));
}
