use rustis::bytes_util::{bytes_eq_ignore_case, i64_to_decimal, lex_compare, u64_to_decimal, LexOrder};
use rustis::command::{cmd, ClientReplyMode, CommandKind, StateSlot};
use rustis::command_args::{CommandArgs, XAddOptions, XPendingOptions, XTrimOperator, XTrimOptions, TDigestMergeOptions};
use rustis::command_options::{TsTimestamp, ZRangeOptions, ZRangeSortBy, SScanOptions, VAddOptions};
use rustis::connection_state::ConnectionState;
use rustis::error::{ClientError, Error, ErrorKind, RedisError, RedisErrorKind, TimeoutKind};
use rustis::hash_slot::{hash_slot, hash_slots, hash_tag_of};
use rustis::message::encode;
use rustis::pub_sub::{PubSubMessage, PubSubPush};
use rustis::reply::Reply;

fn bulk(s: &str) -> Reply {
    Reply::BulkString(s.as_bytes().to_vec())
}

fn args_of(args: &CommandArgs) -> Vec<String> {
    args.args.iter().map(|a| String::from_utf8_lossy(a).into_owned()).collect()
}

#[test]
fn keys_hash_to_the_slots_redis_assigns() {
    assert_eq!(12739, hash_slot(b"123456789"));
    assert_eq!(12182, hash_slot(b"foo"));
    assert_eq!(5061, hash_slot(b"bar"));
    assert_eq!(hash_slot(b"{user1000}.following"), hash_slot(b"{user1000}.followers"));
    assert_eq!(hash_slot(b"user1000"), hash_slot(b"{user1000}.following"));
    assert_eq!(vec![12182, 5061], hash_slots(&vec![b"foo".to_vec(), b"bar".to_vec()]));
}

#[test]
fn an_empty_hash_tag_hashes_the_whole_key() {
    assert_eq!(b"foo{}{bar}".to_vec(), hash_tag_of(b"foo{}{bar}"));
    assert_eq!(b"bar".to_vec(), hash_tag_of(b"foo{bar}{zap}"));
    assert_eq!(b"{bar".to_vec(), hash_tag_of(b"foo{{bar}}zap"));
    assert_eq!(b"foo{bar".to_vec(), hash_tag_of(b"foo{bar"));
}

#[test]
fn error_replies_are_read_as_their_kind() {
    let e = RedisError::parse(b"MOVED 3999 127.0.0.1:6381").unwrap();
    match e.kind {
        RedisErrorKind::Moved { hash_slot, address } => {
            assert_eq!(3999, hash_slot);
            assert_eq!(b"127.0.0.1".to_vec(), address.0);
            assert_eq!(6381, address.1);
        }
        other => panic!("a redirection, got {other:?}"),
    }
    let e = RedisError::parse(b"ASK 42 [::1]:7002").unwrap();
    assert!(matches!(e.kind, RedisErrorKind::Ask { hash_slot: 42, .. }));

    let e = RedisError::parse(b"WRONGTYPE Operation against a key").unwrap();
    assert!(matches!(e.kind, RedisErrorKind::WrongType));
    assert_eq!(b"Operation against a key".to_vec(), e.description);

    let e = RedisError::parse(b"FOO bar").unwrap();
    assert!(matches!(e.kind, RedisErrorKind::Other));
    assert_eq!(b"FOO bar".to_vec(), e.description);

    let e = RedisError::parse(b"ERR unknown command").unwrap();
    assert!(matches!(e.kind, RedisErrorKind::GenericErr));
}

#[test]
fn an_unreadable_redirection_is_a_client_error() {
    let e = RedisError::parse(b"MOVED x 127.0.0.1:6381").unwrap_err();
    assert!(matches!(e.kind, ErrorKind::Client(ClientError::CannotParseHashSlot)));
    let e = RedisError::parse(b"MOVED 1 127.0.0.1:99999").unwrap_err();
    assert!(matches!(e.kind, ErrorKind::Client(ClientError::CannotParsePort)));
    let e = RedisError::parse(b"MOVED 1 nowhere").unwrap_err();
    assert!(matches!(e.kind, ErrorKind::Client(ClientError::CannotParseAddress)));
}

#[test]
fn retryable_errors_are_the_transient_ones() {
    assert!(Error::new(ErrorKind::EOF).is_retryable());
    assert!(Error::new(ErrorKind::Timeout(TimeoutKind::Command)).is_retryable());
    assert!(Error::new(ErrorKind::Redis(RedisError { kind: RedisErrorKind::TryAgain, description: Vec::new() })).is_retryable());
    assert!(!Error::new(ErrorKind::Redis(RedisError { kind: RedisErrorKind::WrongType, description: Vec::new() })).is_retryable());
    assert!(!Error::client(ClientError::CrossSlot).is_retryable());
    assert!(Error::new(ErrorKind::Timeout(TimeoutKind::Connect)).is_timeout());
    assert!(Error::new(ErrorKind::Redis(RedisError { kind: RedisErrorKind::NoPerm, description: Vec::new() })).is_server_error());
}

#[test]
fn an_error_names_the_first_command_it_is_given() {
    let e = Error::new(ErrorKind::EOF).with_command(b"GET".to_vec());
    assert_eq!(Some("GET"), e.command());
    let e = e.with_command(b"SET".to_vec());
    assert_eq!(Some("GET"), e.command());
    assert_eq!(None, Error::new(ErrorKind::EOF).command());
}

#[test]
fn commands_are_classified_ignoring_case() {
    assert_eq!(CommandKind::ClientReply(ClientReplyMode::Skip), cmd("client").arg("reply").arg("skip").kind());
    assert_eq!(CommandKind::ClientReply(ClientReplyMode::Off), cmd("CLIENT").arg("REPLY").arg("OFF").kind());
    assert_eq!(CommandKind::Reset, cmd("reset").kind());
    assert_eq!(CommandKind::ConnectionState(StateSlot::Select), cmd("SELECT").arg("1").kind());
    assert_eq!(CommandKind::ConnectionState(StateSlot::ClientName), cmd("CLIENT").arg("SETNAME").arg("x").kind());
    assert_eq!(CommandKind::Other, cmd("CLIENT").arg("REPLY").arg("MAYBE").kind());
    assert_eq!(CommandKind::Other, cmd("GET").key("k").kind());
}

#[test]
fn a_command_is_framed_as_resp_bulk_strings() {
    assert_eq!(b"*2\r\n$3\r\nGET\r\n$1\r\nk\r\n".to_vec(), encode(&cmd("GET").key("k")));
}

#[test]
fn a_recorded_state_command_is_replayed_in_slot_order() {
    let mut state = ConnectionState::new();
    assert!(state.is_reply_on());
    state.record(StateSlot::ClientName, &cmd("CLIENT").arg("SETNAME").arg("x"));
    state.record(StateSlot::Select, &cmd("SELECT").arg("2"));
    state.record(StateSlot::Select, &cmd("SELECT").arg("3"));
    let replay = state.commands();
    assert_eq!(2, replay.len());
    assert_eq!(StateSlot::Select, replay[0].0);
    assert_eq!(Some(&b"3"[..]), replay[0].1.get_arg(0));
    assert_eq!(StateSlot::ClientName, replay[1].0);
    state.record(StateSlot::ReplyMode, &cmd("CLIENT").arg("REPLY").arg("OFF"));
    assert!(!state.is_reply_on());
    state.forget(StateSlot::Select);
    assert!(!state.holds(StateSlot::Select));
    state.clear();
    assert!(state.commands().is_empty());
}

#[test]
fn a_push_frame_is_read_as_its_event() {
    let push = Reply::Push(vec![bulk("message"), bulk("news"), bulk("hello")]);
    match PubSubPush::from_reply(&push) {
        Ok(PubSubPush::Message(channel, payload)) => {
            assert_eq!(b"news", channel);
            assert_eq!(b"hello", payload);
        }
        _ => panic!("a message"),
    }
    let pmessage = Reply::Push(vec![bulk("pmessage"), bulk("n*"), bulk("news"), bulk("hi")]);
    assert!(matches!(PubSubPush::from_reply(&pmessage), Ok(PubSubPush::PMessage(b"n*", b"news", b"hi"))));
    assert!(PubSubPush::from_reply(&Reply::Integer(1)).is_err());
    assert!(PubSubPush::from_reply(&Reply::Push(vec![bulk("message"), bulk("news")])).is_err());
    let older = Reply::Push(vec![bulk("message"), bulk("n*"), bulk("news"), bulk("hello")]);
    assert!(matches!(PubSubMessage::from_reply(&older), Ok(PubSubMessage::Message(b"news", b"hello"))));
    let smessage = Reply::Push(vec![bulk("smessage"), bulk("news"), bulk("hello")]);
    assert!(matches!(PubSubMessage::from_reply(&smessage), Ok(PubSubMessage::SMessage(b"news", b"hello"))));
}

#[test]
fn integers_are_written_in_decimal() {
    assert_eq!(b"0".to_vec(), u64_to_decimal(0));
    assert_eq!(b"18446744073709551615".to_vec(), u64_to_decimal(u64::MAX));
    assert_eq!(b"-9223372036854775808".to_vec(), i64_to_decimal(i64::MIN));
    assert_eq!(b"-42".to_vec(), i64_to_decimal(-42));
}

#[test]
fn byte_strings_compare_lexicographically() {
    assert_eq!(LexOrder::Before, lex_compare(b"a", b"b"));
    assert_eq!(LexOrder::Before, lex_compare(b"ab", b"abc"));
    assert_eq!(LexOrder::Same, lex_compare(b"abc", b"abc"));
    assert_eq!(LexOrder::After, lex_compare(b"b", b"abc"));
    assert!(bytes_eq_ignore_case(b"SkIp", b"skip"));
    assert!(!bytes_eq_ignore_case(b"skips", b"skip"));
}

#[test]
fn stream_options_are_sent_in_the_order_they_are_given() {
    let trim = XTrimOptions::max_len(XTrimOperator::Approximately, 1000).limit(10);
    let add = XAddOptions::default().no_mk_stream().trim_options(trim);
    assert_eq!(vec!["NOMKSTREAM", "MAXLEN", "~", "1000", "LIMIT", "10"], args_of(&add.command_args));

    let trim = XTrimOptions::min_id(XTrimOperator::Unspecified, "0-1");
    assert_eq!(vec!["MINID", "0-1"], args_of(&trim.command_args));

    let pending = XPendingOptions::default().idle(5).start("-").end("+").count(10).consumer("c");
    assert_eq!(vec!["IDLE", "5", "-", "+", "10", "c"], args_of(&pending.command_args));

    let merge = TDigestMergeOptions::default().compression(100)._override();
    assert_eq!(vec!["COMPRESSION", "100", "OVERRIDE"], args_of(&merge.command_args));
}

#[test]
fn option_builders_set_one_field_each() {
    let options = ZRangeOptions::default().sort_by(ZRangeSortBy::ByScore).reverse().limit(2, 5);
    assert_eq!(Some(ZRangeSortBy::ByScore), options.sort_by);
    assert!(options.reverse);
    assert_eq!(Some((2, 5)), options.limit);

    let scan = SScanOptions::default().match_pattern("a*").count(10);
    assert_eq!(Some("a*"), scan.match_pattern);
    assert_eq!(Some(10), scan.count);

    let vadd = VAddOptions::default().cas().ef(200).m(16).set_attr("{}");
    assert!(vadd.cas);
    assert_eq!(Some(200), vadd.ef);
    assert_eq!(Some(16), vadd.m);
    assert_eq!(Some("{}"), vadd.setattr);
    assert!(vadd.quantization.is_none());
}

#[test]
fn a_timestamp_is_sent_as_a_number_or_the_server_clock() {
    assert_eq!(b"1700000000".to_vec(), TsTimestamp::Value(1700000000).to_arg());
    assert_eq!(b"*".to_vec(), TsTimestamp::ServerClock.to_arg());
}

#[test]
fn the_text_of_a_known_error_reads_back_as_itself() {
    let kinds = || {
        vec![
            RedisErrorKind::BusyGroup,
            RedisErrorKind::ClusterDown,
            RedisErrorKind::CrossSlot,
            RedisErrorKind::GenericErr,
            RedisErrorKind::NoScript,
            RedisErrorKind::OutOfMemory,
            RedisErrorKind::WrongType,
        ]
    };
    for (kind, expected) in kinds().into_iter().zip(kinds()) {
        let code = kind.text();
        assert_eq!(RedisErrorKind::parse(&code).unwrap(), expected);
        let error = RedisError { kind, description: b"some words here".to_vec() };
        let back = RedisError::parse(&error.text()).unwrap();
        assert_eq!(back.kind, expected);
        assert_eq!(back.description, b"some words here".to_vec());
    }
    assert_eq!(RedisErrorKind::parse(&RedisErrorKind::Other.text()).unwrap(), RedisErrorKind::Other);
}

#[test]
fn the_text_of_a_redirection_reads_back_as_itself() {
    let moved = RedisErrorKind::Moved { hash_slot: 3999, address: (b"127.0.0.1".to_vec(), 6381) };
    assert_eq!(moved.text(), b"MOVED 3999 127.0.0.1:6381".to_vec());
    assert_eq!(RedisErrorKind::parse(&moved.text()).unwrap(), moved);
    let ask = RedisErrorKind::Ask { hash_slot: 0, address: (b"::1".to_vec(), 65535) };
    assert_eq!(RedisErrorKind::parse(&ask.text()).unwrap(), ask);
    let spaced = RedisErrorKind::Ask { hash_slot: 7, address: (b"a b".to_vec(), 1) };
    assert_eq!(RedisErrorKind::parse(&spaced.text()).unwrap(), RedisErrorKind::Other);
}

#[test]
fn a_command_name_that_is_not_utf8_reads_as_empty() {
    let e = Error::new(ErrorKind::EOF).with_command(vec![0xff, 0xfe]);
    assert_eq!(Some(""), e.command());
    let e = Error::new(ErrorKind::EOF).with_command("CAFÉ".as_bytes().to_vec());
    assert_eq!(Some("CAFÉ"), e.command());
}

#[test]
fn bytes_that_are_not_utf8_are_read_with_the_replacement_character() {
    let e = RedisError::parse(b"ERR bad \xff byte").unwrap();
    assert!(matches!(e.kind, RedisErrorKind::GenericErr));
    assert_eq!("bad \u{fffd} byte".as_bytes().to_vec(), e.description);
    let e = RedisError::parse(b"MOVED 7 h\xffst:6379").unwrap();
    match e.kind {
        RedisErrorKind::Moved { hash_slot, address } => {
            assert_eq!(7, hash_slot);
            assert_eq!("h\u{fffd}st".as_bytes().to_vec(), address.0);
            assert_eq!(6379, address.1);
        }
        _ => panic!("not a redirection"),
    }
}
