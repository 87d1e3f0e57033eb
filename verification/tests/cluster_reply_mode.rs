use rustis::cluster_reply_mode::ClusterReplyMode;
use rustis::command::{cmd, Command};

fn ping() -> Command {
    cmd("PING")
}

fn client_reply(mode: &'static str) -> Command {
    cmd("CLIENT").arg("REPLY").arg(mode)
}

fn skip() -> Command {
    client_reply("SKIP")
}

#[test]
fn an_ordinary_command_is_routed_and_draws_a_reply() {
    let mut mode = ClusterReplyMode::new();

    assert!(mode.accept(&ping()));
    assert!(mode.awaits_a_reply());
}

#[test]
fn a_skip_is_held_back_instead_of_being_routed() {
    let mut mode = ClusterReplyMode::new();

    assert!(!mode.accept(&skip()));
    assert!(mode.held_skip().is_some());
}

#[test]
fn the_command_a_skip_silences_is_routed_but_not_awaited() {
    let mut mode = ClusterReplyMode::new();
    mode.accept(&skip());

    assert!(mode.accept(&ping()));
    assert!(!mode.awaits_a_reply());
    assert!(mode.held_skip().is_some(), "it travels with that command");

    mode.forget_held_skip();
    assert!(mode.awaits_a_reply(), "it applies to nothing further");
}

#[test]
fn a_silenced_connection_awaits_nothing_including_the_command_that_silenced_it() {
    let mut mode = ClusterReplyMode::new();

    assert!(mode.accept(&client_reply("OFF")));
    assert!(!mode.awaits_a_reply());

    assert!(mode.accept(&ping()));
    assert!(!mode.awaits_a_reply());
}

#[test]
fn the_command_that_ends_the_silence_is_itself_answered() {
    let mut mode = ClusterReplyMode::new();
    mode.accept(&client_reply("OFF"));

    assert!(mode.accept(&client_reply("ON")));
    assert!(mode.awaits_a_reply());
}

#[test]
fn a_skip_lifted_for_an_injected_command_comes_back() {
    let mut mode = ClusterReplyMode::new();
    mode.accept(&skip());

    let lifted = mode.lift_held_skip();
    assert!(lifted.is_some());
    assert!(
        mode.held_skip().is_none(),
        "the injected command is not silenced"
    );
    assert!(mode.awaits_a_reply());

    mode.restore_held_skip(lifted);
    assert!(mode.held_skip().is_some());
}

#[test]
fn forgetting_a_skip_leaves_the_silence_alone() {
    let mut mode = ClusterReplyMode::new();
    mode.accept(&client_reply("OFF"));
    mode.accept(&skip());

    mode.forget_held_skip();

    assert!(mode.held_skip().is_none());
    assert!(!mode.awaits_a_reply(), "the connection is still silent");
}

#[test]
fn answering_follows_the_last_switch_whatever_skips_come_and_go() {
    let mut mode = ClusterReplyMode::new();
    mode.accept(&skip());
    mode.accept(&ping());
    assert!(!mode.awaits_a_reply());
    mode.forget_held_skip();
    assert!(mode.awaits_a_reply());
    mode.accept(&client_reply("OFF"));
    assert!(!mode.awaits_a_reply());
    mode.forget_held_skip();
    assert!(!mode.awaits_a_reply());
    let lifted = mode.lift_held_skip();
    mode.restore_held_skip(lifted);
    assert!(!mode.awaits_a_reply());
    mode.accept(&client_reply("ON"));
    assert!(mode.awaits_a_reply());
}
