//! The decisions of a `+switch-master` watch: which announcements are about
//! the watched service, and how long to wait before dialling the Sentinel
//! fleet again.
use crate::bytes_util::bytes_eq;
use crate::pub_sub::{spec_push_event, PubSubPush};
use crate::reply::{PushKind, Reply};
use crate::redis_error::first_index_of;

use vstd::prelude::*;
use vstd::string::StringSliceAdditionalSpecFns;

verus! {

/// Milliseconds the first reattempt waits: a fleet that is entirely down is
/// not dialled in a tight loop.
pub const FIRST_BACKOFF_MS: u64 = 250;

/// Milliseconds the doubling stops at: the watch does not go quiet for
/// minutes after a long outage.
pub const MAX_BACKOFF_MS: u64 = 5000;

/// The Sentinel channel that names the new master of a service.
pub open spec fn switch_master_channel() -> Seq<u8> {
    "+switch-master".spec_bytes()
}

/// The first space-separated field of a payload.
pub open spec fn first_field(payload: Seq<u8>) -> Seq<u8> {
    match first_index_of(payload, 32) {
        Some(i) => payload.subrange(0, i),
        None => payload,
    }
}

/// Whether a `+switch-master` payload (`<name> <old-ip> <old-port> <new-ip>
/// <new-port>`) is about `service`. Only the name is read: the addresses are
/// not trusted to say where to reconnect.
pub fn names_service(payload: &[u8], service: &str) -> (r: bool)
    ensures
        r == (first_field(payload@) == service.spec_bytes()),
{
    let mut i: usize = 0;
    while i < payload.len() && payload[i] != 32
        invariant
            0 <= i <= payload@.len(),
            forall|j: int| 0 <= j < i ==> payload@[j] != 32,
        decreases payload@.len() - i,
    {
        i = i + 1;
    }
    proof {
        lemma_first_field(payload@, i as int);
    }
    let field = crate::redis_error::copy_range(payload, 0, i);
    let service_bytes = service.as_bytes();
    bytes_eq(field.as_slice(), service_bytes)
}

proof fn lemma_first_field(payload: Seq<u8>, i: int)
    requires
        0 <= i <= payload.len(),
        forall|j: int| 0 <= j < i ==> payload[j] != 32,
        i == payload.len() || payload[i] == 32,
    ensures
        first_field(payload) == payload.subrange(0, i),
    decreases payload.len(),
{
    crate::redis_error::lemma_first_index_in_bounds(payload, 32);
    if payload.len() == 0 {
        assert(payload.subrange(0, 0) =~= payload);
    } else if payload[0] == 32 {
    } else {
        let rest = payload.drop_first();
        lemma_first_field(rest, i - 1);
        assert(payload.subrange(1, i) =~= rest.subrange(0, i - 1));
        if i == payload.len() {
            assert(payload.subrange(0, i) =~= payload);
            assert(first_index_of(rest, 32) is None ==> first_index_of(payload, 32) is None);
            lemma_no_space(payload);
        } else {
            lemma_first_space_at(payload, i);
        }
    }
}

proof fn lemma_no_space(payload: Seq<u8>)
    requires
        forall|j: int| 0 <= j < payload.len() ==> payload[j] != 32,
    ensures
        first_index_of(payload, 32) is None,
    decreases payload.len(),
{
    if payload.len() > 0 {
        lemma_no_space(payload.drop_first());
    }
}

proof fn lemma_first_space_at(payload: Seq<u8>, i: int)
    requires
        0 <= i < payload.len(),
        payload[i] == 32,
        forall|j: int| 0 <= j < i ==> payload[j] != 32,
    ensures
        first_index_of(payload, 32) == Some(i),
    decreases i,
{
    if i > 0 {
        lemma_first_space_at(payload.drop_first(), i - 1);
    }
}

/// Whether a reply is a `+switch-master` announcement for `service`: a
/// message on that channel whose payload names the service.
pub fn announces_switch(response: &Reply, service: &str) -> (r: bool)
    ensures
        r == (spec_push_event(*response) matches Some(ev) && ev.0 == PushKind::Message && ev.1[0]
            == switch_master_channel() && first_field(ev.1[1]) == service.spec_bytes()),
{
    match PubSubPush::from_reply(response) {
        Ok(PubSubPush::Message(channel, payload)) => {
            bytes_eq(channel, "+switch-master".as_bytes()) && names_service(payload, service)
        },
        _ => false,
    }
}

/// The delay after a failed attempt, in milliseconds: the floor first, then
/// doubling up to the cap.
pub open spec fn spec_next_backoff(current: u64) -> u64 {
    if current == 0 {
        FIRST_BACKOFF_MS
    } else if current * 2 >= MAX_BACKOFF_MS {
        MAX_BACKOFF_MS
    } else {
        (current * 2) as u64
    }
}

pub fn next_backoff(current: u64) -> (r: u64)
    ensures
        r == spec_next_backoff(current),
{
    if current == 0 {
        FIRST_BACKOFF_MS
    } else {
        match current.checked_mul(2) {
            Some(doubled) => if doubled >= MAX_BACKOFF_MS {
                MAX_BACKOFF_MS
            } else {
                doubled
            },
            None => MAX_BACKOFF_MS,
        }
    }
}

/// From no wait, or from any wait the watch itself armed, the next wait is
/// between the floor and the cap, never shorter than the last, and stays at
/// the cap once there.
pub proof fn lemma_backoff_grows_to_the_cap(current: u64)
    requires
        current == 0 || FIRST_BACKOFF_MS <= current <= MAX_BACKOFF_MS,
    ensures
        FIRST_BACKOFF_MS <= spec_next_backoff(current) <= MAX_BACKOFF_MS,
        current <= spec_next_backoff(current),
        current == MAX_BACKOFF_MS ==> spec_next_backoff(current) == MAX_BACKOFF_MS,
{
}

} // verus!
