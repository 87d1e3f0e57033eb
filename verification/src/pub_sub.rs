//! Push frames read as pub/sub events, and the predicates the network layer
//! asks of a reply.
use crate::error::{ClientError, Error, ErrorKind, RedisError, RedisErrorKind};
use crate::redis_error::{spec_redis_error, ErrorCodeReading};
use crate::reply::{push_kind, spec_push_kind, PushKind, Reply};
use vstd::prelude::*;

verus! {

/// A pub/sub push frame, borrowing its fields from the reply.
#[derive(Debug)]
pub enum PubSubPush<'a> {
    Subscribe(&'a [u8]),
    PSubscribe(&'a [u8]),
    SSubscribe(&'a [u8]),
    Unsubscribe(&'a [u8]),
    PUnsubscribe(&'a [u8]),
    SUnsubscribe(&'a [u8]),
    /// Channel and payload.
    Message(&'a [u8], &'a [u8]),
    /// Pattern, channel and payload.
    PMessage(&'a [u8], &'a [u8], &'a [u8]),
    /// Shard channel and payload.
    SMessage(&'a [u8], &'a [u8]),
}

/// The items of a push frame.
pub open spec fn push_items(r: Reply) -> Option<Seq<Reply>> {
    match r {
        Reply::Push(items) => Some(items@),
        _ => None,
    }
}

/// The event a push frame carries: its kind and its fields, or `None` when
/// the frame is not a well-formed pub/sub push. The first two items are the
/// kind and the channel (or pattern); a message carries its payload next, a
/// pattern message its channel and then its payload.
pub open spec fn spec_push_event(r: Reply) -> Option<(PushKind, Seq<Seq<u8>>)> {
    match push_items(r) {
        Some(items) => if items.len() >= 2 && items[0].bulk() is Some && items[1].bulk() is Some
            && spec_push_kind(items[0].bulk()->0) is Some {
            let kind = spec_push_kind(items[0].bulk()->0)->0;
            let first = items[1].bulk()->0;
            match kind {
                PushKind::Message | PushKind::SMessage => if items.len() >= 3
                    && items[2].bulk() is Some {
                    Some((kind, seq![first, items[2].bulk()->0]))
                } else {
                    None
                },
                PushKind::PMessage => if items.len() >= 4 && items[2].bulk() is Some
                    && items[3].bulk() is Some {
                    Some((kind, seq![first, items[2].bulk()->0, items[3].bulk()->0]))
                } else {
                    None
                },
                _ => Some((kind, seq![first])),
            }
        } else {
            None
        },
        None => None,
    }
}

impl<'a> PubSubPush<'a> {
    /// The kind and fields of the event.
    pub open spec fn event(self) -> (PushKind, Seq<Seq<u8>>) {
        match self {
            PubSubPush::Subscribe(c) => (PushKind::Subscribe, seq![c@]),
            PubSubPush::PSubscribe(c) => (PushKind::PSubscribe, seq![c@]),
            PubSubPush::SSubscribe(c) => (PushKind::SSubscribe, seq![c@]),
            PubSubPush::Unsubscribe(c) => (PushKind::Unsubscribe, seq![c@]),
            PubSubPush::PUnsubscribe(c) => (PushKind::PUnsubscribe, seq![c@]),
            PubSubPush::SUnsubscribe(c) => (PushKind::SUnsubscribe, seq![c@]),
            PubSubPush::Message(c, p) => (PushKind::Message, seq![c@, p@]),
            PubSubPush::PMessage(pat, c, p) => (PushKind::PMessage, seq![pat@, c@, p@]),
            PubSubPush::SMessage(c, p) => (PushKind::SMessage, seq![c@, p@]),
        }
    }

    /// Reads a push frame as a pub/sub event.
    pub fn from_reply(response: &'a Reply) -> (r: Result<PubSubPush<'a>, ()>)
        ensures
            match spec_push_event(*response) {
                Some(ev) => r matches Ok(p) && p.event() == ev,
                None => r is Err,
            },
    {
        let items = match response {
            Reply::Push(items) => items,
            _ => return Err(()),
        };
        if items.len() < 2 {
            return Err(());
        }
        let kind = match &items[0] {
            Reply::BulkString(k) => k.as_slice(),
            _ => return Err(()),
        };
        let first = match &items[1] {
            Reply::BulkString(c) => c.as_slice(),
            _ => return Err(()),
        };
        match push_kind(kind) {
            Some(PushKind::Subscribe) => Ok(PubSubPush::Subscribe(first)),
            Some(PushKind::PSubscribe) => Ok(PubSubPush::PSubscribe(first)),
            Some(PushKind::SSubscribe) => Ok(PubSubPush::SSubscribe(first)),
            Some(PushKind::Unsubscribe) => Ok(PubSubPush::Unsubscribe(first)),
            Some(PushKind::PUnsubscribe) => Ok(PubSubPush::PUnsubscribe(first)),
            Some(PushKind::SUnsubscribe) => Ok(PubSubPush::SUnsubscribe(first)),
            Some(PushKind::Message) => {
                if items.len() < 3 {
                    return Err(());
                }
                match &items[2] {
                    Reply::BulkString(p) => Ok(PubSubPush::Message(first, p.as_slice())),
                    _ => Err(()),
                }
            },
            Some(PushKind::SMessage) => {
                if items.len() < 3 {
                    return Err(());
                }
                match &items[2] {
                    Reply::BulkString(p) => Ok(PubSubPush::SMessage(first, p.as_slice())),
                    _ => Err(()),
                }
            },
            Some(PushKind::PMessage) => {
                if items.len() < 4 {
                    return Err(());
                }
                let channel = match &items[2] {
                    Reply::BulkString(c) => c.as_slice(),
                    _ => return Err(()),
                };
                match &items[3] {
                    Reply::BulkString(p) => Ok(PubSubPush::PMessage(first, channel, p.as_slice())),
                    _ => Err(()),
                }
            },
            None => Err(()),
        }
    }
}

/// A pub/sub message as an older subscription layout carries it: after the
/// kind and the channel or pattern, a message names its channel and payload.
#[derive(Debug)]
pub enum PubSubMessage<'a> {
    Subscribe(&'a [u8]),
    PSubscribe(&'a [u8]),
    SSubscribe(&'a [u8]),
    Unsubscribe(&'a [u8]),
    PUnsubscribe(&'a [u8]),
    SUnsubscribe(&'a [u8]),
    Message(&'a [u8], &'a [u8]),
    PMessage(&'a [u8], &'a [u8], &'a [u8]),
    SMessage(&'a [u8], &'a [u8]),
}

/// The event a push frame carries in the older layout, where a plain message
/// skips the field after the kind and reads its channel and payload from the
/// next two.
pub open spec fn spec_message_event(r: Reply) -> Option<(PushKind, Seq<Seq<u8>>)> {
    match push_items(r) {
        Some(items) => if items.len() >= 2 && items[0].bulk() is Some && items[1].bulk() is Some
            && spec_push_kind(items[0].bulk()->0) is Some {
            let kind = spec_push_kind(items[0].bulk()->0)->0;
            let first = items[1].bulk()->0;
            match kind {
                PushKind::Message | PushKind::PMessage => if items.len() >= 4
                    && items[2].bulk() is Some && items[3].bulk() is Some {
                    if kind == PushKind::Message {
                        Some((kind, seq![items[2].bulk()->0, items[3].bulk()->0]))
                    } else {
                        Some((kind, seq![first, items[2].bulk()->0, items[3].bulk()->0]))
                    }
                } else {
                    None
                },
                PushKind::SMessage => if items.len() >= 3 && items[2].bulk() is Some {
                    Some((kind, seq![first, items[2].bulk()->0]))
                } else {
                    None
                },
                _ => Some((kind, seq![first])),
            }
        } else {
            None
        },
        None => None,
    }
}

impl<'a> PubSubMessage<'a> {
    pub open spec fn event(self) -> (PushKind, Seq<Seq<u8>>) {
        match self {
            PubSubMessage::Subscribe(c) => (PushKind::Subscribe, seq![c@]),
            PubSubMessage::PSubscribe(c) => (PushKind::PSubscribe, seq![c@]),
            PubSubMessage::SSubscribe(c) => (PushKind::SSubscribe, seq![c@]),
            PubSubMessage::Unsubscribe(c) => (PushKind::Unsubscribe, seq![c@]),
            PubSubMessage::PUnsubscribe(c) => (PushKind::PUnsubscribe, seq![c@]),
            PubSubMessage::SUnsubscribe(c) => (PushKind::SUnsubscribe, seq![c@]),
            PubSubMessage::Message(c, p) => (PushKind::Message, seq![c@, p@]),
            PubSubMessage::PMessage(pat, c, p) => (PushKind::PMessage, seq![pat@, c@, p@]),
            PubSubMessage::SMessage(c, p) => (PushKind::SMessage, seq![c@, p@]),
        }
    }

    /// Reads a push frame as a pub/sub message.
    pub fn from_reply(response: &'a Reply) -> (r: Result<PubSubMessage<'a>, ()>)
        ensures
            match spec_message_event(*response) {
                Some(ev) => r matches Ok(p) && p.event() == ev,
                None => r is Err,
            },
    {
        let items = match response {
            Reply::Push(items) => items,
            _ => return Err(()),
        };
        if items.len() < 2 {
            return Err(());
        }
        let kind = match &items[0] {
            Reply::BulkString(k) => k.as_slice(),
            _ => return Err(()),
        };
        let first = match &items[1] {
            Reply::BulkString(c) => c.as_slice(),
            _ => return Err(()),
        };
        match push_kind(kind) {
            Some(PushKind::Subscribe) => Ok(PubSubMessage::Subscribe(first)),
            Some(PushKind::PSubscribe) => Ok(PubSubMessage::PSubscribe(first)),
            Some(PushKind::SSubscribe) => Ok(PubSubMessage::SSubscribe(first)),
            Some(PushKind::Unsubscribe) => Ok(PubSubMessage::Unsubscribe(first)),
            Some(PushKind::PUnsubscribe) => Ok(PubSubMessage::PUnsubscribe(first)),
            Some(PushKind::SUnsubscribe) => Ok(PubSubMessage::SUnsubscribe(first)),
            Some(PushKind::Message) | Some(PushKind::PMessage) => {
                if items.len() < 4 {
                    return Err(());
                }
                let channel = match &items[2] {
                    Reply::BulkString(c) => c.as_slice(),
                    _ => return Err(()),
                };
                let payload = match &items[3] {
                    Reply::BulkString(p) => p.as_slice(),
                    _ => return Err(()),
                };
                match push_kind(kind) {
                    Some(PushKind::Message) => Ok(PubSubMessage::Message(channel, payload)),
                    _ => Ok(PubSubMessage::PMessage(first, channel, payload)),
                }
            },
            Some(PushKind::SMessage) => {
                if items.len() < 3 {
                    return Err(());
                }
                match &items[2] {
                    Reply::BulkString(p) => Ok(PubSubMessage::SMessage(first, p.as_slice())),
                    _ => Err(()),
                }
            },
            None => Err(()),
        }
    }
}

/// Whether a kind acknowledges a subscription change.
pub open spec fn is_ack_kind(kind: PushKind) -> bool {
    !(kind == PushKind::Message || kind == PushKind::PMessage || kind == PushKind::SMessage)
}

/// Whether a push frame is a subscription command's acknowledgement, as
/// opposed to a published message.
pub fn is_subscription_ack(response: &Reply) -> (r: bool)
    ensures
        r == (spec_push_event(*response) matches Some((kind, _)) && is_ack_kind(kind)),
{
    match PubSubPush::from_reply(response) {
        Ok(PubSubPush::Subscribe(_))
        | Ok(PubSubPush::PSubscribe(_))
        | Ok(PubSubPush::SSubscribe(_))
        | Ok(PubSubPush::Unsubscribe(_))
        | Ok(PubSubPush::PUnsubscribe(_))
        | Ok(PubSubPush::SUnsubscribe(_)) => true,
        _ => false,
    }
}

/// Whether a push is a `nil` unsubscription confirmation: what a server
/// answers a channel-less UNSUBSCRIBE when it holds no such subscription.
pub fn is_empty_unsubscribe_confirmation(response: &Reply) -> (r: bool)
    ensures
        r == (push_items(*response) matches Some(items) && items.len() >= 2 && items[0].bulk() is Some
            && (spec_push_kind(items[0].bulk()->0) == Some(PushKind::Unsubscribe) || spec_push_kind(
            items[0].bulk()->0,
        ) == Some(PushKind::PUnsubscribe) || spec_push_kind(items[0].bulk()->0) == Some(
            PushKind::SUnsubscribe,
        )) && items[1] is Null),
{
    let items = match response {
        Reply::Push(items) => items,
        _ => return false,
    };
    if items.len() < 2 {
        return false;
    }
    let kind = match &items[0] {
        Reply::BulkString(k) => k.as_slice(),
        _ => return false,
    };
    let unsubscribes = match push_kind(kind) {
        Some(PushKind::Unsubscribe) | Some(PushKind::PUnsubscribe) | Some(PushKind::SUnsubscribe) => true,
        _ => false,
    };
    if !unsubscribes {
        return false;
    }
    match &items[1] {
        Reply::Null => true,
        _ => false,
    }
}

/// Whether an error read off the connection is a connection-level one —
/// transport and framing failures — which the read path answers by
/// reconnecting. Everything else is the caller's.
pub fn is_connection_level_error(error: &Error) -> (r: bool)
    ensures
        r == (error.kind is IO || error.kind is EOF || (error.kind matches ErrorKind::Client(c)
            && c.spec_is_framing_error())),
{
    match &error.kind {
        ErrorKind::IO(_) | ErrorKind::EOF => true,
        ErrorKind::Client(client_error) => client_error.is_framing_error(),
        _ => false,
    }
}

/// Whether a reply says the node talked to is no longer the master: the
/// `READONLY` error a demoted master answers to a write, either as an error
/// frame or already turned into an error.
pub fn indicates_demoted_master(result: &Result<Reply, Error>) -> (r: bool)
    ensures
        r == match result {
            Ok(Reply::Error(message)) => spec_redis_error(message@).0 == ErrorCodeReading::Plain(
                RedisErrorKind::Readonly,
            ),
            Ok(_) => false,
            Err(e) => e.kind matches ErrorKind::Redis(re) && re.kind == RedisErrorKind::Readonly,
        },
{
    match result {
        Ok(response) => match response {
            Reply::Error(message) => match RedisError::parse(message.as_slice()) {
                Ok(error) => match error.kind {
                    RedisErrorKind::Readonly => true,
                    _ => false,
                },
                Err(_) => false,
            },
            _ => false,
        },
        Err(e) => match &e.kind {
            ErrorKind::Redis(error) => match error.kind {
                RedisErrorKind::Readonly => true,
                _ => false,
            },
            _ => false,
        },
    }
}

/// Whatever the read path reconnects over, the caller is told is a
/// connection error too.
pub proof fn lemma_connection_level_errors_are_connection_errors(error: Error)
    requires
        error.kind is IO || error.kind is EOF || (error.kind matches ErrorKind::Client(c)
            && c.spec_is_framing_error()),
    ensures
        error.kind.spec_is_connection_error(),
{
}

/// The fields of a pub/sub event are the frame's items after its kind, in
/// the order the frame holds them: a message's channel then its payload, a
/// pattern message's pattern, channel and payload, an acknowledgement's
/// channel. So a frame `[kind, x, y]` of a (shard) message reads as channel
/// `x` and payload `y`.
pub proof fn lemma_event_fields_follow_the_frame(r: Reply)
    ensures
        spec_push_event(r) matches Some(ev) ==> {
            let items = push_items(r)->0;
            &&& spec_push_kind(items[0].bulk()->0) == Some(ev.0)
            &&& ev.1.len() == (match ev.0 {
                PushKind::Message | PushKind::SMessage => 2int,
                PushKind::PMessage => 3int,
                _ => 1int,
            })
            &&& ev.1.len() < items.len()
            &&& forall|j: int| 0 <= j < ev.1.len() ==> items[j + 1].bulk() == Some(#[trigger] ev.1[j])
        },
{
}

/// A well-formed message frame `[kind, channel, payload, ..]` whose kind is
/// `message` or `smessage` reads as that channel and that payload.
pub proof fn lemma_a_message_reads_as_channel_then_payload(r: Reply)
    requires
        push_items(r) matches Some(items) && items.len() >= 3 && items[0].bulk() is Some && items[1].bulk() is Some
            && items[2].bulk() is Some && (spec_push_kind(items[0].bulk()->0) == Some(PushKind::Message)
            || spec_push_kind(items[0].bulk()->0) == Some(PushKind::SMessage)),
    ensures
        spec_push_event(r) == Some(
            (
                spec_push_kind(push_items(r)->0[0].bulk()->0)->0,
                seq![push_items(r)->0[1].bulk()->0, push_items(r)->0[2].bulk()->0],
            ),
        ),
{
}

} // verus!
