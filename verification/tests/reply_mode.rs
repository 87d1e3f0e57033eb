use rustis::command::{ClientReplyMode, CommandKind, StateSlot};
use rustis::reply_mode::ReplyMode;

fn plain() -> CommandKind {
    CommandKind::Other
}

fn on() -> CommandKind {
    CommandKind::ClientReply(ClientReplyMode::On)
}

fn off() -> CommandKind {
    CommandKind::ClientReply(ClientReplyMode::Off)
}

fn skip() -> CommandKind {
    CommandKind::ClientReply(ClientReplyMode::Skip)
}

#[test]
fn a_new_connection_answers() {
    let mut mode = ReplyMode::new();
    assert!(mode.accept(plain()));
    assert!(mode.accept(plain()));
}

#[test]
fn off_silences_itself_and_everything_after_it() {
    let mut mode = ReplyMode::new();
    assert!(!mode.accept(off()));
    assert!(!mode.accept(plain()));
    assert!(!mode.accept(plain()));
}

#[test]
fn on_is_answered_and_reopens_the_connection() {
    let mut mode = ReplyMode::new();
    mode.accept(off());
    assert!(mode.accept(on()));
    assert!(mode.accept(plain()));
}

#[test]
fn skip_silences_itself_and_the_next_command_only() {
    let mut mode = ReplyMode::new();
    assert!(!mode.accept(skip()));
    assert!(!mode.accept(plain()));
    assert!(mode.accept(plain()));
}

#[test]
fn two_skips_in_a_row_silence_one_command_each() {
    let mut mode = ReplyMode::new();
    assert!(!mode.accept(skip()));
    assert!(!mode.accept(plain()));
    assert!(!mode.accept(skip()));
    assert!(!mode.accept(plain()));
    assert!(mode.accept(plain()));
}

#[test]
fn a_pending_skip_does_not_outlive_off_and_on() {
    let mut mode = ReplyMode::new();
    mode.accept(skip());
    mode.accept(off());
    assert!(mode.accept(on()));
    assert!(mode.accept(plain()));
}

#[test]
fn reset_answers_and_restores_the_default_mode() {
    let mut mode = ReplyMode::new();
    mode.accept(off());
    mode.accept(skip());
    assert!(mode.accept(CommandKind::Reset));
    assert!(mode.accept(plain()));
}

#[test]
fn connection_state_commands_are_answered_like_any_other() {
    let mut mode = ReplyMode::new();
    assert!(mode.accept(CommandKind::ConnectionState(StateSlot::Select)));
}

#[test]
fn a_remade_connection_adopts_its_restored_mode() {
    let mut mode = ReplyMode::new();
    mode.accept(skip());
    mode.restore(false);
    assert!(!mode.accept(plain()));

    mode.restore(true);
    assert!(mode.accept(plain()));
}

#[test]
fn forgetting_a_pending_skip_leaves_off_alone() {
    let mut mode = ReplyMode::new();
    mode.accept(off());
    mode.accept(skip());
    mode.forget_pending_skip();
    assert!(!mode.accept(plain()));
}
