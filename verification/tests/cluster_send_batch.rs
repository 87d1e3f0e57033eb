use rustis::cluster_send_batch::SendBatch;

#[test]
fn a_turn_is_granted_once_per_batch() {
    let mut batch = SendBatch::default();

    assert!(batch.claim_topology_refresh());
    assert!(!batch.claim_topology_refresh());
    assert!(!batch.claim_topology_refresh());

    assert!(batch.claim_transient_delay());
    assert!(!batch.claim_transient_delay());
}

#[test]
fn the_two_turns_do_not_consume_each_other() {
    let mut batch = SendBatch::default();

    assert!(batch.claim_topology_refresh());
    assert!(
        batch.claim_transient_delay(),
        "a reload must not spend the delay"
    );

    let mut batch = SendBatch::default();
    assert!(batch.claim_transient_delay());
    assert!(
        batch.claim_topology_refresh(),
        "a delay must not spend the reload"
    );
}

#[test]
fn ending_the_batch_hands_both_turns_back() {
    let mut batch = SendBatch::default();
    assert!(batch.claim_topology_refresh());
    assert!(batch.claim_transient_delay());

    batch.end();

    assert!(batch.claim_topology_refresh());
    assert!(batch.claim_transient_delay());
}

#[test]
fn a_new_batch_owes_both_turns() {
    let mut batch = SendBatch::new();
    assert!(batch.claim_transient_delay());
    assert!(batch.claim_topology_refresh());
}
