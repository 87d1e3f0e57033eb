use rustis::command::cmd;
use rustis::message::Message;
use rustis::message_queue::MessageQueue;
use rustis::reply::Reply;

fn message() -> Message {
    Message::new(cmd("PING"))
}

fn queue() -> MessageQueue {
    MessageQueue::new(0)
}

#[test]
fn a_written_message_stops_counting_as_queued_to_send() {
    let mut queue = queue();
    queue.push_to_send(message());
    queue.push_to_send(message());
    assert_eq!(2, queue.queued_commands());

    let (msg, cost) = queue.pop_to_send().unwrap();
    queue.await_reply(msg, 1, cost);
    assert_eq!(1, queue.queued_commands());
    assert!(queue.queued_bytes() > 0);
}

#[test]
fn an_idle_queue_holds_no_commands_and_no_bytes() {
    let mut queue = queue();
    queue.push_to_send(message());
    let (msg, cost) = queue.pop_to_send().unwrap();
    queue.await_reply(msg, 1, cost);
    queue.pop_to_receive().unwrap();

    assert_eq!(0, queue.queued_commands());
    assert_eq!(0, queue.queued_bytes());
}

#[test]
fn a_reconnection_replay_charges_each_message_once() {
    let mut queue = queue();
    queue.push_to_send(message());
    queue.push_to_send(message());
    assert_eq!(2, queue.queued_commands());

    let (to_receive, to_send) = queue.take_queues();
    queue.restore(to_receive, to_send);
    assert_eq!(2, queue.queued_commands());
    let after_purge = queue.queued_bytes();

    let to_replay = queue.take_all();
    assert_eq!(2, to_replay.len());
    assert_eq!(0, queue.queued_commands(), "taking must zero both totals");
    assert_eq!(0, queue.queued_bytes(), "taking must zero both totals");
    for msg in to_replay {
        queue.push_to_send(msg);
    }

    assert_eq!(
        2,
        queue.queued_commands(),
        "a replayed message must be charged once, not once per pass"
    );
    assert_eq!(after_purge, queue.queued_bytes());

    while let Some((msg, charge)) = queue.pop_to_send() {
        queue.await_reply(msg, 1, charge);
    }
    assert_eq!(0, queue.queued_commands());
}

#[test]
fn a_purge_that_drops_a_message_drops_its_charge_with_it() {
    let mut queue = queue();
    queue.push_to_send(message());
    queue.push_to_send(message());

    let (to_receive, mut to_send) = queue.take_queues();
    to_send.pop_front();
    queue.restore(to_receive, to_send);

    assert_eq!(1, queue.queued_commands());
    assert_eq!(1, queue.to_send_len());
}

#[test]
fn nothing_outstanding_admits_a_message_larger_than_the_budget() {
    let mut queue = MessageQueue::new(10);
    assert!(!queue.would_exceed_budget(1_000));

    queue.push_to_send(message());
    assert!(queue.would_exceed_budget(1_000));
}

#[test]
fn a_zero_budget_admits_everything() {
    let queue = queue();
    assert!(!queue.would_exceed_budget(usize::MAX));
}

#[test]
fn a_failed_flush_gives_back_only_what_the_wave_added() {
    let mut queue = queue();
    queue.push_to_send(message());
    let (already_awaited, earlier_charge) = queue.pop_to_send().unwrap();
    queue.await_reply(already_awaited, 1, earlier_charge);

    let start_len = queue.to_receive_len();
    queue.push_to_send(message());
    let (in_this_wave, wave_charge) = queue.pop_to_send().unwrap();
    queue.await_reply(in_this_wave, 1, wave_charge);
    assert_eq!(earlier_charge + wave_charge, queue.queued_bytes());

    let rolled_back = queue.rollback_awaiting(start_len);
    assert_eq!(1, rolled_back.len());
    assert_eq!(1, queue.to_receive_len(), "the earlier message must stay");
    assert_eq!(
        earlier_charge,
        queue.queued_bytes(),
        "only the wave's charge is released"
    );
}

#[test]
fn a_discard_is_consumed_once_per_reply() {
    let mut queue = queue();
    assert!(!queue.take_discard());

    queue.discard_further(2);
    assert!(queue.take_discard());
    assert!(queue.take_discard());
    assert!(!queue.take_discard());
}

#[test]
fn a_ping_is_charged_its_size_on_the_wire() {
    // *1\r\n$4\r\nPING\r\n
    assert_eq!(14, message().queued_bytes());
    let mut queue = queue();
    queue.push_to_send(message());
    assert_eq!(14, queue.queued_bytes());
}

#[test]
fn a_reply_is_filed_with_the_message_at_the_front() {
    let mut queue = queue();
    queue.push_to_send(message());
    let (msg, cost) = queue.pop_to_send().unwrap();
    queue.await_reply(msg, 1, cost);
    assert!(queue.push_response_to_front(Reply::Integer(1)));
    let received = queue.pop_to_receive().unwrap();
    assert_eq!(1, received.pending_responses.len());
}

#[test]
fn an_admitted_message_fits_the_budget_or_is_alone() {
    let mut queue = MessageQueue::new(40);
    let first = message();
    let cost = first.queued_bytes();
    assert!(!queue.would_exceed_budget(cost));
    queue.push_to_send(first);
    let mut pushed = 1;
    while !queue.would_exceed_budget(cost) {
        queue.push_to_send(message());
        pushed += 1;
        assert!(queue.queued_bytes() <= 40);
    }
    assert_eq!(queue.queued_bytes(), pushed * cost);
    assert!(queue.queued_bytes() + cost > 40);
}

#[test]
fn a_sum_past_the_largest_size_exceeds_even_the_largest_budget() {
    let mut queue = MessageQueue::new(usize::MAX);
    queue.push_to_send(message());
    assert!(queue.would_exceed_budget(usize::MAX));
    assert!(!queue.would_exceed_budget(0));
}
