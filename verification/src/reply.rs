//! Replies as the server frames them (RESP3), and how a push frame is read as
//! a pub/sub event.
use crate::bytes_util::bytes_eq;
use vstd::prelude::*;

verus! {

/// One RESP3 frame.
#[derive(Debug)]
pub enum Reply {
    Null,
    SimpleString(Vec<u8>),
    /// A simple or bulk error; the bytes are the message without its tag.
    Error(Vec<u8>),
    Integer(i64),
    /// A double, kept as the text the server sent.
    Double(Vec<u8>),
    Boolean(bool),
    BulkString(Vec<u8>),
    Array(Vec<Reply>),
    SetOf(Vec<Reply>),
    Push(Vec<Reply>),
    /// A map, as its keys and values in turn.
    MapOf(Vec<Reply>),
}

impl Reply {
    pub open spec fn spec_is_error(self) -> bool {
        self is Error
    }

    pub open spec fn spec_is_push(self) -> bool {
        self is Push
    }

    /// Whether the frame is an error reply.
    pub fn is_error(&self) -> (r: bool)
        ensures
            r == self.spec_is_error(),
    {
        match self {
            Reply::Error(_) => true,
            _ => false,
        }
    }

    /// Whether the frame is a push.
    pub fn is_push(&self) -> (r: bool)
        ensures
            r == self.spec_is_push(),
    {
        match self {
            Reply::Push(_) => true,
            _ => false,
        }
    }

    /// The bytes of a bulk string frame.
    pub open spec fn bulk(self) -> Option<Seq<u8>> {
        match self {
            Reply::BulkString(b) => Some(b@),
            _ => None,
        }
    }
}

pub open spec fn kw_subscribe() -> Seq<u8> {
    seq!['s' as u8, 'u' as u8, 'b' as u8, 's' as u8, 'c' as u8, 'r' as u8, 'i' as u8, 'b' as u8, 'e' as u8]
}

pub open spec fn kw_psubscribe() -> Seq<u8> {
    seq!['p' as u8] + kw_subscribe()
}

pub open spec fn kw_ssubscribe() -> Seq<u8> {
    seq!['s' as u8] + kw_subscribe()
}

pub open spec fn kw_unsubscribe() -> Seq<u8> {
    seq!['u' as u8, 'n' as u8] + kw_subscribe()
}

pub open spec fn kw_punsubscribe() -> Seq<u8> {
    seq!['p' as u8] + kw_unsubscribe()
}

pub open spec fn kw_sunsubscribe() -> Seq<u8> {
    seq!['s' as u8] + kw_unsubscribe()
}

pub open spec fn kw_message() -> Seq<u8> {
    seq!['m' as u8, 'e' as u8, 's' as u8, 's' as u8, 'a' as u8, 'g' as u8, 'e' as u8]
}

pub open spec fn kw_pmessage() -> Seq<u8> {
    seq!['p' as u8] + kw_message()
}

pub open spec fn kw_smessage() -> Seq<u8> {
    seq!['s' as u8] + kw_message()
}

/// The kind field of a pub/sub push frame.
#[derive(Debug, Clone, Copy, PartialEq, Eq, Structural)]
pub enum PushKind {
    Subscribe,
    PSubscribe,
    SSubscribe,
    Unsubscribe,
    PUnsubscribe,
    SUnsubscribe,
    Message,
    PMessage,
    SMessage,
}

/// The kind a push frame's first field names, if any.
pub open spec fn spec_push_kind(kind: Seq<u8>) -> Option<PushKind> {
    if kind == kw_subscribe() {
        Some(PushKind::Subscribe)
    } else if kind == kw_psubscribe() {
        Some(PushKind::PSubscribe)
    } else if kind == kw_ssubscribe() {
        Some(PushKind::SSubscribe)
    } else if kind == kw_unsubscribe() {
        Some(PushKind::Unsubscribe)
    } else if kind == kw_punsubscribe() {
        Some(PushKind::PUnsubscribe)
    } else if kind == kw_sunsubscribe() {
        Some(PushKind::SUnsubscribe)
    } else if kind == kw_message() {
        Some(PushKind::Message)
    } else if kind == kw_pmessage() {
        Some(PushKind::PMessage)
    } else if kind == kw_smessage() {
        Some(PushKind::SMessage)
    } else {
        None
    }
}

fn literal(bytes: &[u8]) -> (r: Vec<u8>)
    ensures
        r@ == bytes@,
{
    crate::bytes_util::slice_to_vec(bytes)
}

/// Reads the kind a push frame's first field names.
pub fn push_kind(kind: &[u8]) -> (r: Option<PushKind>)
    ensures
        r == spec_push_kind(kind@),
{
    let subscribe: [u8; 9] = [
        's' as u8,
        'u' as u8,
        'b' as u8,
        's' as u8,
        'c' as u8,
        'r' as u8,
        'i' as u8,
        'b' as u8,
        'e' as u8,
    ];
    let message: [u8; 7] = [
        'm' as u8,
        'e' as u8,
        's' as u8,
        's' as u8,
        'a' as u8,
        'g' as u8,
        'e' as u8,
    ];
    assert(subscribe@ == kw_subscribe());
    assert(message@ == kw_message());
    let sub = literal(&subscribe);
    let mut psub: Vec<u8> = Vec::new();
    psub.push('p' as u8);
    crate::bytes_util::extend_bytes(&mut psub, &subscribe);
    let mut ssub: Vec<u8> = Vec::new();
    ssub.push('s' as u8);
    crate::bytes_util::extend_bytes(&mut ssub, &subscribe);
    let mut unsub: Vec<u8> = Vec::new();
    unsub.push('u' as u8);
    unsub.push('n' as u8);
    crate::bytes_util::extend_bytes(&mut unsub, &subscribe);
    let mut punsub: Vec<u8> = Vec::new();
    punsub.push('p' as u8);
    crate::bytes_util::extend_bytes(&mut punsub, unsub.as_slice());
    let mut sunsub: Vec<u8> = Vec::new();
    sunsub.push('s' as u8);
    crate::bytes_util::extend_bytes(&mut sunsub, unsub.as_slice());
    let msg = literal(&message);
    let mut pmsg: Vec<u8> = Vec::new();
    pmsg.push('p' as u8);
    crate::bytes_util::extend_bytes(&mut pmsg, &message);
    let mut smsg: Vec<u8> = Vec::new();
    smsg.push('s' as u8);
    crate::bytes_util::extend_bytes(&mut smsg, &message);
    assert(psub@ =~= kw_psubscribe());
    assert(ssub@ =~= kw_ssubscribe());
    assert(unsub@ =~= kw_unsubscribe());
    assert(punsub@ =~= kw_punsubscribe());
    assert(sunsub@ =~= kw_sunsubscribe());
    assert(pmsg@ =~= kw_pmessage());
    assert(smsg@ =~= kw_smessage());
    if bytes_eq(kind, sub.as_slice()) {
        Some(PushKind::Subscribe)
    } else if bytes_eq(kind, psub.as_slice()) {
        Some(PushKind::PSubscribe)
    } else if bytes_eq(kind, ssub.as_slice()) {
        Some(PushKind::SSubscribe)
    } else if bytes_eq(kind, unsub.as_slice()) {
        Some(PushKind::Unsubscribe)
    } else if bytes_eq(kind, punsub.as_slice()) {
        Some(PushKind::PUnsubscribe)
    } else if bytes_eq(kind, sunsub.as_slice()) {
        Some(PushKind::SUnsubscribe)
    } else if bytes_eq(kind, msg.as_slice()) {
        Some(PushKind::Message)
    } else if bytes_eq(kind, pmsg.as_slice()) {
        Some(PushKind::PMessage)
    } else if bytes_eq(kind, smsg.as_slice()) {
        Some(PushKind::SMessage)
    } else {
        None
    }
}

} // verus!
