//! A command in flight across the shards, and how the replies it draws become
//! one answer.
//!
//! Routing may split a cluster command over several nodes, each answering on
//! its own connection, while the caller is owed a single response that looks
//! like the one a standalone server would have sent. Everything that reads the
//! sub-replies lives here: the redirections they carry, the transient errors
//! that ask for a replay, and the aggregation rule Redis publishes per command
//! as a response policy. Nothing here touches a connection or the topology.
use crate::cluster_topology::NodeId;
use crate::command::{Command, ResponsePolicy};
use crate::error::{ClientError, Error, ErrorKind, RedisError, RedisErrorKind, RetryReason, RetryReasonView};
use crate::redis_error::{spec_redis_error, ErrorCodeReading};
use crate::reply::Reply;
use vstd::prelude::*;

verus! {

/// The part of a command routed to one node, and what that node answered.
#[derive(Debug)]
pub struct SubRequest {
    pub node_id: NodeId,
    /// The keys of the command this node serves, in the order they were sent.
    pub keys: Vec<Vec<u8>>,
    /// `None` while the node has not answered; `Some(None)` when its stream
    /// ended before it did.
    pub result: Option<Option<Result<Reply, Error>>>,
}

/// A command split over the shards.
#[derive(Debug)]
pub struct RequestInfo {
    pub response_policy: Option<ResponsePolicy>,
    /// The keys of the whole command, in the order the caller gave them.
    pub keys: Vec<Vec<u8>>,
    pub sub_requests: Vec<SubRequest>,
    /// The command the sub-requests came from, kept only when one sub-request
    /// can be re-sent on its own.
    pub command: Option<Command>,
    /// Whether the command is a subscription one, answered by push frames.
    pub is_pub_sub: bool,
}

/// Milliseconds to wait before replaying a command the cluster answered
/// `TRYAGAIN` to: a key hand-over is short.
pub const TRY_AGAIN_DELAY_MS: u64 = 25;

/// Milliseconds to wait before replaying a command the cluster answered
/// `CLUSTERDOWN` to: a failover is decided in seconds, not milliseconds.
pub const CLUSTER_DOWN_DELAY_MS: u64 = 250;

/// The replay a transient cluster error calls for.
pub open spec fn transient_view(kind: RedisErrorKind) -> Option<RetryReasonView> {
    match kind {
        RedisErrorKind::TryAgain => Some(
            RetryReasonView::TryAgain { delay_ms: TRY_AGAIN_DELAY_MS, refresh_topology: false },
        ),
        RedisErrorKind::ClusterDown => Some(
            RetryReasonView::TryAgain { delay_ms: CLUSTER_DOWN_DELAY_MS, refresh_topology: true },
        ),
        _ => None,
    }
}

/// The retry a transient cluster error calls for, or `None` for a server
/// error that belongs to the caller. `TRYAGAIN` keeps the topology, since
/// only a migration is under way; `CLUSTERDOWN` follows a failover, so the
/// replay goes against a reloaded one.
pub fn transient_retry_reason(kind: &RedisErrorKind) -> (r: Option<RetryReason>)
    ensures
        match transient_view(*kind) {
            Some(v) => r matches Some(x) && x@ == v,
            None => r is None,
        },
{
    match kind {
        RedisErrorKind::TryAgain => Some(
            RetryReason::TryAgain { delay_ms: TRY_AGAIN_DELAY_MS, refresh_topology: false },
        ),
        RedisErrorKind::ClusterDown => Some(
            RetryReason::TryAgain { delay_ms: CLUSTER_DOWN_DELAY_MS, refresh_topology: true },
        ),
        _ => None,
    }
}

/// The redirection a sub-result carries: an `ASK` or `MOVED` error reply.
#[verifier::opaque]
pub open spec fn redirection_view(result: Result<Reply, Error>) -> Option<RetryReasonView> {
    match result {
        Ok(Reply::Error(message)) => match spec_redis_error(message@).0 {
            ErrorCodeReading::Ask(hash_slot, host, port) => Some(
                RetryReasonView::Ask { hash_slot, host, port },
            ),
            ErrorCodeReading::Moved(hash_slot, host, port) => Some(
                RetryReasonView::Moved { hash_slot, host, port },
            ),
            _ => None,
        },
        _ => None,
    }
}

/// Why a sub-result says its command never ran: a redirection, or a
/// transient cluster error.
#[verifier::opaque]
pub open spec fn retry_view(result: Result<Reply, Error>) -> Option<RetryReasonView> {
    match redirection_view(result) {
        Some(v) => Some(v),
        None => match result {
            Ok(Reply::Error(message)) => match spec_redis_error(message@).0 {
                ErrorCodeReading::Plain(kind) => transient_view(kind),
                _ => None,
            },
            _ => None,
        },
    }
}

/// The retry reasons of a run of sub-results, in order.
pub open spec fn retry_views(results: Seq<Result<Reply, Error>>) -> Seq<RetryReasonView>
    decreases results.len(),
{
    if results.len() == 0 {
        seq![]
    } else {
        let before = retry_views(results.drop_last());
        match retry_view(results.last()) {
            Some(v) => before.push(v),
            None => before,
        }
    }
}

/// The redirections of the answered sub-requests, each with its index.
pub open spec fn redirections(subs: Seq<SubRequest>) -> Seq<(int, RetryReasonView)>
    decreases subs.len(),
{
    if subs.len() == 0 {
        seq![]
    } else {
        let before = redirections(subs.drop_last());
        match subs.last().result {
            Some(Some(result)) => match redirection_view(result) {
                Some(v) => before.push((subs.len() - 1, v)),
                None => before,
            },
            _ => before,
        }
    }
}

/// Reads the redirection a sub-result carries.
fn redirection_of(result: &Result<Reply, Error>) -> (r: Option<RetryReason>)
    ensures
        match redirection_view(*result) {
            Some(v) => r matches Some(x) && x@ == v,
            None => r is None,
        },
{
    reveal(redirection_view);
    match result {
        Ok(Reply::Error(message)) => match crate::error::RedisError::parse(message.as_slice()) {
            Ok(error) => match error.kind {
                RedisErrorKind::Ask { hash_slot, address } => Some(
                    RetryReason::Ask { hash_slot, address },
                ),
                RedisErrorKind::Moved { hash_slot, address } => Some(
                    RetryReason::Moved { hash_slot, address },
                ),
                _ => None,
            },
            Err(_) => None,
        },
        _ => None,
    }
}

/// Reads why a sub-result says its command never ran.
fn retry_reason_of(result: &Result<Reply, Error>) -> (r: Option<RetryReason>)
    ensures
        match retry_view(*result) {
            Some(v) => r matches Some(x) && x@ == v,
            None => r is None,
        },
{
    reveal(retry_view);
    reveal(redirection_view);
    match redirection_of(result) {
        Some(reason) => Some(reason),
        None => match result {
            Ok(Reply::Error(message)) => match crate::error::RedisError::parse(message.as_slice()) {
                Ok(error) => transient_retry_reason(&error.kind),
                Err(_) => None,
            },
            _ => None,
        },
    }
}

/// Collects the `ASK` / `MOVED` redirections the answered sub-requests
/// carry, each paired with the index of the sub-request that received it, so
/// that only those are re-sent.
pub fn collect_redirections(request_info: &RequestInfo) -> (r: Vec<(usize, RetryReason)>)
    ensures
        r@.len() == redirections(request_info.sub_requests@).len(),
        forall|k: int|
            0 <= k < r@.len() ==> (#[trigger] r@[k]).0 == redirections(request_info.sub_requests@)[k].0
                && r@[k].1@ == redirections(request_info.sub_requests@)[k].1,
{
    let mut r: Vec<(usize, RetryReason)> = Vec::new();
    let mut i: usize = 0;
    while i < request_info.sub_requests.len()
        invariant
            0 <= i <= request_info.sub_requests@.len(),
            r@.len() == redirections(request_info.sub_requests@.subrange(0, i as int)).len(),
            forall|k: int|
                0 <= k < r@.len() ==> (#[trigger] r@[k]).0 == redirections(
                    request_info.sub_requests@.subrange(0, i as int),
                )[k].0 && r@[k].1@ == redirections(request_info.sub_requests@.subrange(0, i as int))[k].1,
        decreases request_info.sub_requests@.len() - i,
    {
        let ghost subs = request_info.sub_requests@.subrange(0, i + 1);
        assert(subs.drop_last() =~= request_info.sub_requests@.subrange(0, i as int));
        let ghost prev = r@;
        match &request_info.sub_requests[i].result {
            Some(Some(result)) => match redirection_of(result) {
                Some(reason) => {
                    r.push((i, reason));
                    assert forall|k: int| 0 <= k < r@.len() implies (#[trigger] r@[k]).0
                        == redirections(subs)[k].0 && r@[k].1@ == redirections(subs)[k].1 by {
                        if k < prev.len() {
                            assert(r@[k] == prev[k]);
                        }
                    }
                },
                None => {},
            },
            _ => {},
        }
        i = i + 1;
    }
    assert(request_info.sub_requests@.subrange(0, i as int) =~= request_info.sub_requests@);
    r
}

/// Whether a sub-result is a success: an answer that is not an error reply.
pub open spec fn succeeded(result: Result<Reply, Error>) -> bool {
    result matches Ok(reply) && !(reply is Error)
}

/// `OneSucceeded`, continued from `current` over `rest`: the first success
/// answers; without one, the last failure does.
pub open spec fn one_succeeded_from(current: Result<Reply, Error>, rest: Seq<Result<Reply, Error>>) -> Result<Reply, Error>
    decreases rest.len(),
{
    if rest.len() == 0 {
        current
    } else if succeeded(rest[0]) {
        rest[0]
    } else {
        one_succeeded_from(rest[0], rest.drop_first())
    }
}

/// `AllSucceeded`, continued from `current` over `rest`: the first failure
/// answers; without one, the last success does.
pub open spec fn all_succeeded_from(current: Result<Reply, Error>, rest: Seq<Result<Reply, Error>>) -> Result<Reply, Error>
    decreases rest.len(),
{
    if rest.len() == 0 {
        current
    } else if !succeeded(rest[0]) {
        rest[0]
    } else {
        all_succeeded_from(rest[0], rest.drop_first())
    }
}

/// The answer of the `OneSucceeded` policy; a null reply when there is no
/// sub-result at all.
pub open spec fn one_succeeded(results: Seq<Result<Reply, Error>>) -> Result<Reply, Error> {
    one_succeeded_from(Ok(Reply::Null), results)
}

/// The answer of the `AllSucceeded` policy; a null reply when there is no
/// sub-result at all.
pub open spec fn all_succeeded(results: Seq<Result<Reply, Error>>) -> Result<Reply, Error> {
    all_succeeded_from(Ok(Reply::Null), results)
}

fn response_policy_one_succeeded(sub_results: Vec<Result<Reply, Error>>) -> (r: Result<Reply, Error>)
    ensures
        r == one_succeeded(sub_results@),
{
    let ghost all = sub_results@;
    let mut rest = sub_results;
    let mut result: Result<Reply, Error> = Ok(Reply::Null);
    while rest.len() > 0
        invariant
            one_succeeded_from(result, rest@) == one_succeeded(all),
            all == sub_results@,
        decreases rest@.len(),
    {
        let ghost before = rest@;
        let sub_result = rest.remove(0);
        assert(before.drop_first() == rest@);
        assert(before[0] == sub_result);
        let success = match &sub_result {
            Ok(reply) => !reply.is_error(),
            Err(_) => false,
        };
        assert(success == succeeded(sub_result));
        if success {
            assert(one_succeeded_from(result, before) == sub_result);
            return sub_result;
        }
        result = sub_result;
    }
    result
}

fn response_policy_all_succeeded(sub_results: Vec<Result<Reply, Error>>) -> (r: Result<Reply, Error>)
    ensures
        r == all_succeeded(sub_results@),
{
    let ghost all = sub_results@;
    let mut rest = sub_results;
    let mut result: Result<Reply, Error> = Ok(Reply::Null);
    while rest.len() > 0
        invariant
            all_succeeded_from(result, rest@) == all_succeeded(all),
            all == sub_results@,
        decreases rest@.len(),
    {
        let ghost before = rest@;
        let sub_result = rest.remove(0);
        assert(before.drop_first() == rest@);
        assert(before[0] == sub_result);
        let success = match &sub_result {
            Ok(reply) => !reply.is_error(),
            Err(_) => false,
        };
        if !success {
            return sub_result;
        }
        result = sub_result;
    }
    result
}

/// How the integers of several shards are folded into one.
#[derive(Clone, Copy, PartialEq, Eq, Debug, Structural)]
pub enum Aggregate {
    LogicalAnd,
    LogicalOr,
    Min,
    Max,
    /// Saturating: the operands are server data, and an implausible total
    /// stays implausible instead of wrapping into a small one.
    Sum,
}

/// One step of a fold.
pub open spec fn combine_spec(aggregate: Aggregate, a: i64, b: i64) -> i64 {
    match aggregate {
        Aggregate::LogicalAnd => if a == 1 && b == 1 { 1 } else { 0 },
        Aggregate::LogicalOr => if a == 0 && b == 0 { 0 } else { 1 },
        Aggregate::Min => if a <= b { a } else { b },
        Aggregate::Max => if a >= b { a } else { b },
        Aggregate::Sum => if a + b > i64::MAX {
            i64::MAX
        } else if a + b < i64::MIN {
            i64::MIN
        } else {
            (a + b) as i64
        },
    }
}

pub fn combine(aggregate: Aggregate, a: i64, b: i64) -> (r: i64)
    ensures
        r == combine_spec(aggregate, a, b),
{
    match aggregate {
        Aggregate::LogicalAnd => if a == 1 && b == 1 { 1 } else { 0 },
        Aggregate::LogicalOr => if a == 0 && b == 0 { 0 } else { 1 },
        Aggregate::Min => if a <= b { a } else { b },
        Aggregate::Max => if a >= b { a } else { b },
        Aggregate::Sum => match a.checked_add(b) {
            Some(sum) => sum,
            None => if b > 0 { i64::MAX } else { i64::MIN },
        },
    }
}

/// What a fold has gathered so far.
pub enum FoldState {
    Nothing,
    Single(i64),
    Array(Seq<i64>),
}

/// How a reply is answered when it is not passed through unchanged.
pub enum Answer {
    /// A sub-result, as it came.
    Pass(Result<Reply, Error>),
    /// An integer reply.
    Integer(i64),
    /// An array of integer replies.
    Integers(Seq<i64>),
    /// An array of the replies.
    Items(Seq<Reply>),
    /// A null reply.
    Null,
    /// A client error.
    Fail(ClientError),
}

/// Whether a result is what an answer describes.
pub open spec fn answered_as(r: Result<Reply, Error>, answer: Answer) -> bool {
    match answer {
        Answer::Pass(x) => r == x,
        Answer::Integer(i) => r == Ok::<Reply, Error>(Reply::Integer(i)),
        Answer::Integers(s) => r matches Ok(Reply::Array(v)) && v@.len() == s.len() && forall|j: int|
            0 <= j < s.len() ==> #[trigger] v@[j] == Reply::Integer(s[j]),
        Answer::Items(s) => r matches Ok(Reply::Array(v)) && v@ == s,
        Answer::Null => r == Ok::<Reply, Error>(Reply::Null),
        Answer::Fail(c) => r matches Err(e) && e.kind == ErrorKind::Client(c) && e.context is None,
    }
}

/// The elements of a collection reply; `None` for a scalar.
pub open spec fn collection_items(reply: Reply) -> Option<Seq<Reply>> {
    match reply {
        Reply::Array(v) => Some(v@),
        Reply::SetOf(v) => Some(v@),
        Reply::Push(v) => Some(v@),
        Reply::MapOf(v) => Some(v@),
        _ => None,
    }
}

pub open spec fn all_integers(items: Seq<Reply>) -> bool {
    forall|j: int| 0 <= j < items.len() ==> (#[trigger] items[j]) is Integer
}

pub open spec fn integer_of(reply: Reply) -> i64 {
    match reply {
        Reply::Integer(i) => i,
        _ => 0,
    }
}

/// One step of an aggregation: the next state, or the answer it stops at.
pub open spec fn fold_step(state: FoldState, result: Result<Reply, Error>, aggregate: Aggregate) -> Result<FoldState, Answer> {
    match result {
        Err(_) => Err(Answer::Pass(result)),
        Ok(Reply::Integer(i)) => match state {
            FoldState::Single(current) => Ok(FoldState::Single(combine_spec(aggregate, current, i))),
            FoldState::Nothing => Ok(FoldState::Single(i)),
            FoldState::Array(_) => Err(Answer::Fail(ClientError::IncompatibleShardReplies)),
        },
        Ok(reply) => match reply {
            Reply::Array(v) => fold_array_step(state, v@, aggregate),
            Reply::SetOf(v) => fold_array_step(state, v@, aggregate),
            Reply::Push(v) => fold_array_step(state, v@, aggregate),
            _ => Err(Answer::Fail(ClientError::IncompatibleShardReplies)),
        },
    }
}

/// One step of an aggregation over an array reply: arrays of integers of
/// one length combine element by element, anything else is incompatible.
pub open spec fn fold_array_step(state: FoldState, items: Seq<Reply>, aggregate: Aggregate) -> Result<FoldState, Answer> {
    match state {
        FoldState::Single(_) => Err(Answer::Fail(ClientError::IncompatibleShardReplies)),
        FoldState::Array(current) => if current.len() != items.len() || !all_integers(items) {
            Err(Answer::Fail(ClientError::IncompatibleShardReplies))
        } else {
            Ok(FoldState::Array(Seq::new(current.len(), |j: int| combine_spec(aggregate, current[j], integer_of(items[j])))))
        },
        FoldState::Nothing => if all_integers(items) {
            Ok(FoldState::Array(Seq::new(items.len(), |j: int| integer_of(items[j]))))
        } else {
            Err(Answer::Fail(ClientError::IncompatibleShardReplies))
        },
    }
}

/// The aggregation of `rest`, continued from `state`.
pub open spec fn fold_from(state: FoldState, rest: Seq<Result<Reply, Error>>, aggregate: Aggregate) -> Answer
    decreases rest.len(),
{
    if rest.len() == 0 {
        match state {
            FoldState::Single(i) => Answer::Integer(i),
            FoldState::Array(s) => Answer::Integers(s),
            FoldState::Nothing => Answer::Null,
        }
    } else {
        match fold_step(state, rest[0], aggregate) {
            Ok(next) => fold_from(next, rest.drop_first(), aggregate),
            Err(answer) => answer,
        }
    }
}

/// The answer of an aggregating policy: the shards' integers, or arrays of
/// integers, folded into one.
pub open spec fn aggregated(results: Seq<Result<Reply, Error>>, aggregate: Aggregate) -> Answer {
    fold_from(FoldState::Nothing, results, aggregate)
}

/// The integers gathered so far by an aggregation.
enum Gathered {
    Nothing,
    Single(i64),
    Array(Vec<i64>),
}

impl Gathered {
    spec fn state(&self) -> FoldState {
        match self {
            Gathered::Nothing => FoldState::Nothing,
            Gathered::Single(i) => FoldState::Single(*i),
            Gathered::Array(v) => FoldState::Array(v@),
        }
    }
}

fn incompatible() -> (r: Result<Reply, Error>)
    ensures
        answered_as(r, Answer::Fail(ClientError::IncompatibleShardReplies)),
{
    Err(Error::client(ClientError::IncompatibleShardReplies))
}

/// Folds an array reply into what was gathered, or says why it cannot be.
fn fold_array(gathered: Gathered, items: &Vec<Reply>, aggregate: Aggregate) -> (r: Result<Gathered, Result<Reply, Error>>)
    ensures
        match fold_array_step(gathered.state(), items@, aggregate) {
            Ok(next) => r matches Ok(g) && g.state() == next,
            Err(answer) => r matches Err(x) && answered_as(x, answer),
        },
{
    match gathered {
        Gathered::Single(_) => Err(incompatible()),
        Gathered::Array(current) => {
            if current.len() != items.len() {
                return Err(incompatible());
            }
            let mut next: Vec<i64> = Vec::new();
            let mut j: usize = 0;
            while j < items.len()
                invariant
                    0 <= j <= items@.len(),
                    current@.len() == items@.len(),
                    next@.len() == j,
                    forall|k: int| 0 <= k < j ==> (#[trigger] items@[k]) is Integer,
                    forall|k: int| 0 <= k < j ==> #[trigger] next@[k] == combine_spec(aggregate, current@[k], integer_of(items@[k])),
                decreases items@.len() - j,
            {
                match &items[j] {
                    Reply::Integer(i) => next.push(combine(aggregate, current[j], *i)),
                    _ => return Err(incompatible()),
                }
                j = j + 1;
            }
            assert(next@ =~= Seq::new(current@.len(), |k: int| combine_spec(aggregate, current@[k], integer_of(items@[k]))));
            Ok(Gathered::Array(next))
        },
        Gathered::Nothing => {
            let mut next: Vec<i64> = Vec::new();
            let mut j: usize = 0;
            while j < items.len()
                invariant
                    0 <= j <= items@.len(),
                    next@.len() == j,
                    forall|k: int| 0 <= k < j ==> (#[trigger] items@[k]) is Integer,
                    forall|k: int| 0 <= k < j ==> #[trigger] next@[k] == integer_of(items@[k]),
                decreases items@.len() - j,
            {
                match &items[j] {
                    Reply::Integer(i) => next.push(*i),
                    _ => return Err(incompatible()),
                }
                j = j + 1;
            }
            assert(next@ =~= Seq::new(items@.len(), |k: int| integer_of(items@[k])));
            Ok(Gathered::Array(next))
        },
    }
}

fn response_policy_agg(sub_results: Vec<Result<Reply, Error>>, aggregate: Aggregate) -> (r: Result<Reply, Error>)
    ensures
        answered_as(r, aggregated(sub_results@, aggregate)),
{
    let ghost all = sub_results@;
    let mut rest = sub_results;
    let mut gathered = Gathered::Nothing;
    while rest.len() > 0
        invariant
            fold_from(gathered.state(), rest@, aggregate) == aggregated(all, aggregate),
            all == sub_results@,
        decreases rest@.len(),
    {
        let ghost before = rest@;
        let sub_result = rest.remove(0);
        assert(before.drop_first() == rest@);
        let step = match &sub_result {
            Err(_) => Err(()),
            Ok(Reply::Integer(i)) => match gathered {
                Gathered::Single(current) => Ok(Gathered::Single(combine(aggregate, current, *i))),
                Gathered::Nothing => Ok(Gathered::Single(*i)),
                Gathered::Array(_) => return incompatible(),
            },
            Ok(Reply::Array(items)) | Ok(Reply::SetOf(items)) | Ok(Reply::Push(items)) => match fold_array(gathered, items, aggregate) {
                Ok(next) => Ok(next),
                Err(answer) => return answer,
            },
            Ok(_) => return incompatible(),
        };
        match step {
            Ok(next) => gathered = next,
            Err(()) => return sub_result,
        }
    }
    match gathered {
        Gathered::Single(i) => Ok(Reply::Integer(i)),
        Gathered::Array(v) => {
            let mut items: Vec<Reply> = Vec::new();
            let mut j: usize = 0;
            while j < v.len()
                invariant
                    0 <= j <= v@.len(),
                    items@.len() == j,
                    forall|k: int| 0 <= k < j ==> #[trigger] items@[k] == Reply::Integer(v@[k]),
                decreases v@.len() - j,
            {
                items.push(Reply::Integer(v[j]));
                j = j + 1;
            }
            Ok(Reply::Array(items))
        },
        Gathered::Nothing => Ok(Reply::Null),
    }
}

/// The `Special` policy: the client has no rule for it in a cluster.
fn response_policy_special(_sub_results: Vec<Result<Reply, Error>>) -> (r: Result<Reply, Error>)
    ensures
        answered_as(r, Answer::Fail(ClientError::CommandNotSupportedInCluster)),
{
    Err(Error::client(ClientError::CommandNotSupportedInCluster))
}

/// The replies of the shards packed into one array, in shard order: for a
/// keyless command, whose replies need no particular order.
pub open spec fn flat_from(acc: Seq<Reply>, rest: Seq<Result<Reply, Error>>) -> Answer
    decreases rest.len(),
{
    if rest.len() == 0 {
        Answer::Items(acc)
    } else {
        match rest[0] {
            Err(_) => Answer::Pass(rest[0]),
            Ok(reply) => match collection_items(reply) {
                Some(items) => flat_from(acc + items, rest.drop_first()),
                None => Answer::Fail(ClientError::NotACollection),
            },
        }
    }
}

/// The byte strings held by a list of buffers.
pub open spec fn views(v: Seq<Vec<u8>>) -> Seq<Seq<u8>> {
    Seq::new(v.len(), |i: int| v[i]@)
}

/// The first position of `key` among `keys`.
pub open spec fn first_key_index(keys: Seq<Seq<u8>>, key: Seq<u8>) -> Option<int>
    decreases keys.len(),
{
    if keys.len() == 0 {
        None
    } else if keys[0] == key {
        Some(0)
    } else {
        match first_key_index(keys.drop_first(), key) {
            Some(i) => Some(i + 1),
            None => None,
        }
    }
}

/// Where a key stands in the caller's key list: its first position, and
/// after every listed key when it is not listed.
pub open spec fn key_rank(keys: Seq<Seq<u8>>, key: Seq<u8>) -> usize {
    match first_key_index(keys, key) {
        Some(i) => i as usize,
        None => usize::MAX,
    }
}

/// A shard's reply items, each with the rank of the key it answers; as many
/// as there are both keys and items.
pub open spec fn zip_ranked(shard_keys: Seq<Seq<u8>>, items: Seq<Reply>, keys: Seq<Seq<u8>>) -> Seq<(usize, Reply)> {
    let n = if shard_keys.len() <= items.len() { shard_keys.len() } else { items.len() };
    Seq::new(n, |j: int| (key_rank(keys, shard_keys[j]), items[j]))
}

/// The ranked reply items of the shards, in shard order, or the answer the
/// first unreadable shard reply stops at.
pub open spec fn keyed_from(
    acc: Seq<(usize, Reply)>,
    rest: Seq<Result<Reply, Error>>,
    rest_keys: Seq<Seq<Seq<u8>>>,
    keys: Seq<Seq<u8>>,
) -> Result<Seq<(usize, Reply)>, Answer>
    decreases rest.len(),
{
    if rest.len() == 0 || rest_keys.len() == 0 {
        Ok(acc)
    } else {
        match rest[0] {
            Err(_) => Err(Answer::Pass(rest[0])),
            Ok(reply) => match collection_items(reply) {
                Some(items) => keyed_from(
                    acc + zip_ranked(rest_keys[0], items, keys),
                    rest.drop_first(),
                    rest_keys.drop_first(),
                    keys,
                ),
                None => Err(Answer::Fail(ClientError::NotACollection)),
            },
        }
    }
}

/// `x` placed after every element of `sorted` whose rank is not above its own.
pub open spec fn insert_by_rank(sorted: Seq<(usize, Reply)>, x: (usize, Reply)) -> Seq<(usize, Reply)>
    decreases sorted.len(),
{
    if sorted.len() == 0 {
        seq![x]
    } else if sorted.last().0 <= x.0 {
        sorted.push(x)
    } else {
        insert_by_rank(sorted.drop_last(), x).push(sorted.last())
    }
}

/// The elements ordered by rank; elements of one rank keep their order.
pub open spec fn stable_sort(s: Seq<(usize, Reply)>) -> Seq<(usize, Reply)>
    decreases s.len(),
{
    if s.len() == 0 {
        s
    } else {
        insert_by_rank(stable_sort(s.drop_last()), s.last())
    }
}

/// The answer of a keyed command: its reply items, ordered as the keys the
/// caller gave.
pub open spec fn keyed(results: Seq<Result<Reply, Error>>, sub_keys: Seq<Seq<Seq<u8>>>, keys: Seq<Seq<u8>>) -> Answer {
    match keyed_from(seq![], results, sub_keys, keys) {
        Ok(pairs) => Answer::Items(stable_sort(pairs).map_values(|p: (usize, Reply)| p.1)),
        Err(answer) => answer,
    }
}

/// The answer of a command that publishes no response policy.
pub open spec fn no_policy(results: Seq<Result<Reply, Error>>, sub_keys: Seq<Seq<Seq<u8>>>, keys: Seq<Seq<u8>>) -> Answer {
    if results.len() == 1 {
        Answer::Pass(results[0])
    } else if keys.len() == 0 {
        flat_from(seq![], results)
    } else {
        keyed(results, sub_keys, keys)
    }
}

/// The elements of a collection reply.
fn into_items(reply: Reply) -> (r: Option<Vec<Reply>>)
    ensures
        match collection_items(reply) {
            Some(items) => r matches Some(v) && v@ == items,
            None => r is None,
        },
{
    match reply {
        Reply::Array(v) => Some(v),
        Reply::SetOf(v) => Some(v),
        Reply::Push(v) => Some(v),
        Reply::MapOf(v) => Some(v),
        _ => None,
    }
}

fn not_a_collection() -> (r: Result<Reply, Error>)
    ensures
        answered_as(r, Answer::Fail(ClientError::NotACollection)),
{
    Err(Error::client(ClientError::NotACollection))
}

fn no_policy_flat(sub_results: Vec<Result<Reply, Error>>) -> (r: Result<Reply, Error>)
    ensures
        answered_as(r, flat_from(seq![], sub_results@)),
{
    let ghost all = sub_results@;
    let mut rest = sub_results;
    let mut acc: Vec<Reply> = Vec::new();
    while rest.len() > 0
        invariant
            flat_from(acc@, rest@) == flat_from(seq![], all),
            all == sub_results@,
        decreases rest@.len(),
    {
        let ghost before = rest@;
        let sub_result = rest.remove(0);
        assert(before.drop_first() == rest@);
        match sub_result {
            Err(e) => return Err(e),
            Ok(reply) => match into_items(reply) {
                Some(mut items) => acc.append(&mut items),
                None => return not_a_collection(),
            },
        }
    }
    Ok(Reply::Array(acc))
}

/// The rank of `key` in `keys`.
fn rank_of(keys: &Vec<Vec<u8>>, key: &[u8]) -> (r: usize)
    ensures
        r == key_rank(views(keys@), key@),
{
    let mut i: usize = 0;
    assert(views(keys@).subrange(0, keys@.len() as int) =~= views(keys@));
    while i < keys.len()
        invariant
            0 <= i <= keys@.len(),
            first_key_index(views(keys@), key@) == (match first_key_index(
                views(keys@).subrange(i as int, keys@.len() as int),
                key@,
            ) {
                Some(k) => Some(k + i),
                None => None,
            }),
        decreases keys@.len() - i,
    {
        let ghost rest = views(keys@).subrange(i as int, keys@.len() as int);
        assert(rest.drop_first() =~= views(keys@).subrange(i + 1, keys@.len() as int));
        if crate::bytes_util::bytes_eq(keys[i].as_slice(), key) {
            return i;
        }
        i = i + 1;
    }
    usize::MAX
}

proof fn lemma_insert_by_rank(s: Seq<(usize, Reply)>, x: (usize, Reply), p: int)
    requires
        0 <= p <= s.len(),
        p == 0 || s[p - 1].0 <= x.0,
        forall|q: int| p <= q < s.len() ==> (#[trigger] s[q]).0 > x.0,
    ensures
        insert_by_rank(s, x) == s.insert(p, x),
    decreases s.len(),
{
    if s.len() == 0 {
        assert(s.insert(p, x) =~= seq![x]);
    } else if s.last().0 <= x.0 {
        assert(p == s.len());
        assert(s.insert(p, x) =~= s.push(x));
    } else {
        assert(p < s.len());
        lemma_insert_by_rank(s.drop_last(), x, p);
        assert(s.drop_last().insert(p, x).push(s.last()) =~= s.insert(p, x));
    }
}

/// Places a ranked item after every item whose rank is not above its own.
fn insert_ranked(sorted: &mut Vec<(usize, Reply)>, x: (usize, Reply))
    ensures
        final(sorted)@ == insert_by_rank(old(sorted)@, x),
{
    let mut p: usize = sorted.len();
    while p > 0 && sorted[p - 1].0 > x.0
        invariant
            0 <= p <= sorted@.len(),
            sorted@ == old(sorted)@,
            forall|q: int| p <= q < sorted@.len() ==> (#[trigger] sorted@[q]).0 > x.0,
        decreases p,
    {
        p = p - 1;
    }
    proof {
        lemma_insert_by_rank(sorted@, x, p as int);
    }
    sorted.insert(p, x);
}

fn no_policy_keyed(
    sub_results: Vec<Result<Reply, Error>>,
    sub_keys: Vec<Vec<Vec<u8>>>,
    keys: &Vec<Vec<u8>>,
) -> (r: Result<Reply, Error>)
    ensures
        answered_as(
            r,
            keyed(sub_results@, Seq::new(sub_keys@.len(), |k: int| views(sub_keys@[k]@)), views(keys@)),
        ),
{
    let ghost all = sub_results@;
    let ghost all_keys = Seq::new(sub_keys@.len(), |k: int| views(sub_keys@[k]@));
    let ghost kv = views(keys@);
    let mut rest = sub_results;
    let mut rest_keys = sub_keys;
    let mut pairs: Vec<(usize, Reply)> = Vec::new();
    while rest.len() > 0 && rest_keys.len() > 0
        invariant
            keyed_from(seq![], all, all_keys, kv) == keyed_from(
                pairs@,
                rest@,
                Seq::new(rest_keys@.len(), |k: int| views(rest_keys@[k]@)),
                kv,
            ),
            all == sub_results@,
            all_keys == Seq::new(sub_keys@.len(), |k: int| views(sub_keys@[k]@)),
            kv == views(keys@),
        decreases rest@.len(),
    {
        let ghost before = rest@;
        let ghost before_keys = Seq::new(rest_keys@.len(), |k: int| views(rest_keys@[k]@));
        let sub_result = rest.remove(0);
        let shard_keys = rest_keys.remove(0);
        assert(before.drop_first() == rest@);
        assert(before_keys.drop_first() =~= Seq::new(rest_keys@.len(), |k: int| views(rest_keys@[k]@)));
        assert(before_keys[0] == views(shard_keys@));
        match sub_result {
            Err(e) => return Err(e),
            Ok(reply) => match into_items(reply) {
                Some(items) => {
                    let ghost start = pairs@;
                    let ghost all_items = items@;
                    let ghost zipped = zip_ranked(views(shard_keys@), all_items, kv);
                    let mut items = items;
                    let mut j: usize = 0;
                    while j < shard_keys.len() && items.len() > 0
                        invariant
                            0 <= j <= shard_keys@.len(),
                            j <= all_items.len(),
                            items@ == all_items.subrange(j as int, all_items.len() as int),
                            pairs@ == start + zipped.subrange(0, j as int),
                            zipped == zip_ranked(views(shard_keys@), all_items, kv),
                            kv == views(keys@),
                        decreases shard_keys@.len() - j,
                    {
                        let ghost before_items = items@;
                        let item = items.remove(0);
                        assert(item == all_items[j as int]);
                        let rank = rank_of(keys, shard_keys[j].as_slice());
                        pairs.push((rank, item));
                        assert(pairs@ =~= start + zipped.subrange(0, j + 1));
                        assert(items@ =~= all_items.subrange(j + 1, all_items.len() as int));
                        j = j + 1;
                    }
                    assert(zipped.subrange(0, j as int) =~= zipped);
                },
                None => return not_a_collection(),
            },
        }
    }
    let ghost pairs_all = pairs@;
    assert(keyed_from(pairs@, rest@, Seq::new(rest_keys@.len(), |k: int| views(rest_keys@[k]@)), kv) == Ok::<Seq<(usize, Reply)>, Answer>(pairs@));
    let mut sorted: Vec<(usize, Reply)> = Vec::new();
    let mut i: usize = 0;
    let total = pairs.len();
    assert(pairs_all.len() <= usize::MAX);
    while pairs.len() > 0
        invariant
            i + pairs@.len() == pairs_all.len(),
            pairs_all.len() <= usize::MAX,
            pairs@ == pairs_all.subrange(i as int, pairs_all.len() as int),
            sorted@ == stable_sort(pairs_all.subrange(0, i as int)),
        decreases pairs@.len(),
    {
        let x = pairs.remove(0);
        assert(pairs_all.subrange(0, i + 1).drop_last() =~= pairs_all.subrange(0, i as int));
        insert_ranked(&mut sorted, x);
        assert(pairs@ =~= pairs_all.subrange(i + 1, pairs_all.len() as int));
        i = i + 1;
    }
    assert(pairs_all.subrange(0, i as int) =~= pairs_all);
    let ghost sorted_all = sorted@;
    let mut values: Vec<Reply> = Vec::new();
    let mut k: usize = 0;
    let total = sorted.len();
    assert(sorted_all.len() <= usize::MAX);
    while sorted.len() > 0
        invariant
            k + sorted@.len() == sorted_all.len(),
            sorted_all.len() <= usize::MAX,
            sorted@ == sorted_all.subrange(k as int, sorted_all.len() as int),
            values@ == sorted_all.subrange(0, k as int).map_values(|p: (usize, Reply)| p.1),
        decreases sorted@.len(),
    {
        let (_, value) = sorted.remove(0);
        values.push(value);
        assert(values@ =~= sorted_all.subrange(0, k + 1).map_values(|p: (usize, Reply)| p.1));
        assert(sorted@ =~= sorted_all.subrange(k + 1, sorted_all.len() as int));
        k = k + 1;
    }
    assert(sorted_all.subrange(0, k as int) =~= sorted_all);
    Ok(Reply::Array(values))
}

/// Whether every sub-request holds its node's answer.
pub open spec fn all_answered(subs: Seq<SubRequest>) -> bool {
    forall|k: int| 0 <= k < subs.len() ==> (#[trigger] subs[k]).result matches Some(Some(_))
}

/// The answer a sub-request holds.
pub open spec fn answer_of(sub: SubRequest) -> Result<Reply, Error> {
    match sub.result {
        Some(Some(result)) => result,
        _ => Ok(Reply::Null),
    }
}

/// The answers of the sub-requests, in order.
pub open spec fn answers(subs: Seq<SubRequest>) -> Seq<Result<Reply, Error>> {
    Seq::new(subs.len(), |k: int| answer_of(subs[k]))
}

/// The key lists of the sub-requests, in order.
pub open spec fn sub_keys(subs: Seq<SubRequest>) -> Seq<Seq<Seq<u8>>> {
    Seq::new(subs.len(), |k: int| views(subs[k].keys@))
}

/// The answer a response policy makes of the shards' replies.
pub open spec fn policy_answer(
    policy: Option<ResponsePolicy>,
    results: Seq<Result<Reply, Error>>,
    subs_keys: Seq<Seq<Seq<u8>>>,
    keys: Seq<Seq<u8>>,
) -> Answer {
    match policy {
        None => no_policy(results, subs_keys, keys),
        Some(ResponsePolicy::OneSucceeded) => Answer::Pass(one_succeeded(results)),
        Some(ResponsePolicy::AllSucceeded) => Answer::Pass(all_succeeded(results)),
        Some(ResponsePolicy::AggLogicalAnd) => aggregated(results, Aggregate::LogicalAnd),
        Some(ResponsePolicy::AggLogicalOr) => aggregated(results, Aggregate::LogicalOr),
        Some(ResponsePolicy::AggMin) => aggregated(results, Aggregate::Min),
        Some(ResponsePolicy::AggMax) => aggregated(results, Aggregate::Max),
        Some(ResponsePolicy::AggSum) => aggregated(results, Aggregate::Sum),
        Some(ResponsePolicy::Special) => Answer::Fail(ClientError::CommandNotSupportedInCluster),
    }
}

/// Whether an error asks for a replay, for exactly these reasons.
pub open spec fn is_retry_for(e: Error, reasons: Seq<RetryReasonView>) -> bool {
    &&& e.context is None
    &&& e.kind matches ErrorKind::Retry(v)
    &&& v@.len() == reasons.len()
    &&& forall|k: int| 0 <= k < reasons.len() ==> (#[trigger] v@[k])@ == reasons[k]
}

proof fn lemma_answers_step(subs: Seq<SubRequest>, i: int)
    requires
        0 <= i < subs.len(),
        all_answered(subs.subrange(0, i)),
        subs[i].result matches Some(Some(_)),
    ensures
        all_answered(subs.subrange(0, i + 1)),
        answers(subs.subrange(0, i + 1)) == answers(subs.subrange(0, i)).push(answer_of(subs[i])),
        sub_keys(subs.subrange(0, i + 1)) == sub_keys(subs.subrange(0, i)).push(views(subs[i].keys@)),
{
    let next = subs.subrange(0, i + 1);
    assert forall|k: int| 0 <= k < next.len() implies (#[trigger] next[k]).result matches Some(Some(_)) by {
        if k < i {
            assert(next[k] == subs.subrange(0, i)[k]);
        }
    }
    assert(answers(next) =~= answers(subs.subrange(0, i)).push(answer_of(subs[i])));
    assert(sub_keys(next) =~= sub_keys(subs.subrange(0, i)).push(views(subs[i].keys@)));
}

/// Takes the answers out of the sub-requests, with their key lists and the
/// retry reasons the answers carry; `None` when one is missing.
fn gather(sub_requests: Vec<SubRequest>) -> (r: Option<(Vec<Result<Reply, Error>>, Vec<Vec<Vec<u8>>>, Vec<RetryReason>)>)
    ensures
        r is None <==> !all_answered(sub_requests@),
        r matches Some(g) ==> {
            &&& g.0@ == answers(sub_requests@)
            &&& g.1@.len() == sub_requests@.len()
            &&& forall|k: int| 0 <= k < g.1@.len() ==> views((#[trigger] g.1@[k])@) == views(sub_requests@[k].keys@)
            &&& g.2@.len() == retry_views(g.0@).len()
            &&& forall|k: int| 0 <= k < g.2@.len() ==> (#[trigger] g.2@[k])@ == retry_views(g.0@)[k]
        },
{
    let ghost subs = sub_requests@;
    let mut rest = sub_requests;
    let mut results: Vec<Result<Reply, Error>> = Vec::new();
    let mut shard_keys: Vec<Vec<Vec<u8>>> = Vec::new();
    let mut reasons: Vec<RetryReason> = Vec::new();
    let mut i: usize = 0;
    let total = rest.len();
    while rest.len() > 0
        invariant
            i + rest@.len() == subs.len(),
            subs.len() == total,
            subs == sub_requests@,
            rest@ == subs.subrange(i as int, subs.len() as int),
            all_answered(subs.subrange(0, i as int)),
            results@ == answers(subs.subrange(0, i as int)),
            shard_keys@.len() == i,
            forall|k: int| 0 <= k < i ==> views((#[trigger] shard_keys@[k])@) == views(subs[k].keys@),
            reasons@.len() == retry_views(results@).len(),
            forall|k: int| 0 <= k < reasons@.len() ==> (#[trigger] reasons@[k])@ == retry_views(results@)[k],
        decreases rest@.len(),
    {
        let sub = rest.remove(0);
        assert(sub == subs[i as int]);
        assert(rest@ =~= subs.subrange(i + 1, subs.len() as int));
        let SubRequest { node_id: _, keys: ks, result } = sub;
        let result = match result {
            Some(Some(x)) => x,
            _ => {
                proof {
                    assert(!(subs[i as int].result matches Some(Some(_))));
                }
                return None;
            },
        };
        let ghost prev_results = results@;
        let ghost prev_reasons = reasons@;
        match retry_reason_of(&result) {
            Some(reason) => reasons.push(reason),
            None => {},
        }
        results.push(result);
        shard_keys.push(ks);
        proof {
            lemma_answers_step(subs, i as int);
            assert(results@.drop_last() =~= prev_results);
            assert forall|k: int| 0 <= k < reasons@.len() implies (#[trigger] reasons@[k])@ == retry_views(results@)[k] by {
                if k < prev_reasons.len() {
                    assert(reasons@[k] == prev_reasons[k]);
                }
            }
        }
        i = i + 1;
    }
    assert(subs.subrange(0, i as int) =~= subs);
    Some((results, shard_keys, reasons))
}

/// Whether `r` is the answer a request's sub-replies make: nothing while
/// one is missing, the retry reasons when some sub-reply says the command
/// never ran, and otherwise what the response policy makes of them.
pub open spec fn is_reply_of(info: RequestInfo, r: Option<Result<Reply, Error>>) -> bool {
    &&& !all_answered(info.sub_requests@) ==> r is None
    &&& all_answered(info.sub_requests@) ==> r is Some
    &&& all_answered(info.sub_requests@) && retry_views(answers(info.sub_requests@)).len() > 0
        ==> (r matches Some(Err(e)) && is_retry_for(e, retry_views(answers(info.sub_requests@))))
    &&& all_answered(info.sub_requests@) && retry_views(answers(info.sub_requests@)).len() == 0
        ==> (r matches Some(x) && answered_as(
        x,
        policy_answer(info.response_policy, answers(info.sub_requests@), sub_keys(info.sub_requests@), views(info.keys@)),
    ))
}

impl RequestInfo {
    /// Turns the collected sub-replies into the single answer the caller is
    /// owed, or into the retry reasons that say the command never ran.
    ///
    /// `None` means the request is not answerable: a sub-request still
    /// waiting, or a node stream that ended. The caller reads that as a
    /// disconnection.
    pub fn into_reply(self) -> (r: Option<Result<Reply, Error>>)
        ensures
            is_reply_of(self, r),
    {
        let RequestInfo { response_policy, keys, sub_requests, command: _, is_pub_sub: _ } = self;
        let ghost subs = sub_requests@;
        let (mut results, shard_keys, reasons) = match gather(sub_requests) {
            Some(gathered) => gathered,
            None => return None,
        };
        assert(Seq::new(shard_keys@.len(), |k: int| views(shard_keys@[k]@)) =~= sub_keys(subs));
        if reasons.len() > 0 {
            return Some(Err(Error::new(ErrorKind::Retry(reasons))));
        }
        let answer = match response_policy {
            None => {
                if results.len() == 1 {
                    let only = results.remove(0);
                    only
                } else if keys.len() == 0 {
                    no_policy_flat(results)
                } else {
                    no_policy_keyed(results, shard_keys, &keys)
                }
            },
            Some(ResponsePolicy::OneSucceeded) => response_policy_one_succeeded(results),
            Some(ResponsePolicy::AllSucceeded) => response_policy_all_succeeded(results),
            Some(ResponsePolicy::AggLogicalAnd) => response_policy_agg(results, Aggregate::LogicalAnd),
            Some(ResponsePolicy::AggLogicalOr) => response_policy_agg(results, Aggregate::LogicalOr),
            Some(ResponsePolicy::AggMin) => response_policy_agg(results, Aggregate::Min),
            Some(ResponsePolicy::AggMax) => response_policy_agg(results, Aggregate::Max),
            Some(ResponsePolicy::AggSum) => response_policy_agg(results, Aggregate::Sum),
            Some(ResponsePolicy::Special) => response_policy_special(results),
        };
        Some(answer)
    }
}

/// Whether the elements are ordered by rank.
pub open spec fn ranked_in_order(s: Seq<(usize, Reply)>) -> bool {
    forall|i: int, j: int| 0 <= i < j < s.len() ==> (#[trigger] s[i]).0 <= (#[trigger] s[j]).0
}

proof fn lemma_insert_by_rank_keeps(sorted: Seq<(usize, Reply)>, x: (usize, Reply))
    requires
        ranked_in_order(sorted),
    ensures
        ranked_in_order(insert_by_rank(sorted, x)),
        insert_by_rank(sorted, x).to_multiset() == sorted.to_multiset().insert(x),
        insert_by_rank(sorted, x).len() == sorted.len() + 1,
    decreases sorted.len(),
{
    broadcast use vstd::seq_lib::group_to_multiset_ensures;
    if sorted.len() == 0 {
        assert(seq![x] =~= Seq::<(usize, Reply)>::empty().push(x));
    } else if sorted.last().0 <= x.0 {
    } else {
        let init = sorted.drop_last();
        assert(ranked_in_order(init));
        lemma_insert_by_rank_keeps(init, x);
        let inner = insert_by_rank(init, x);
        assert(init.push(sorted.last()) =~= sorted);
        assert forall|k: int| 0 <= k < inner.len() implies (#[trigger] inner[k]).0 <= sorted.last().0 by {
            assert(inner.to_multiset().count(inner[k]) > 0);
            assert(init.to_multiset().insert(x).count(inner[k]) > 0);
            if inner[k] != x {
                assert(init.to_multiset().count(inner[k]) > 0);
                assert(init.contains(inner[k]));
                let m = choose|m: int| 0 <= m < init.len() && init[m] == inner[k];
                assert(sorted[m] == init[m]);
            }
        }
    }
}

/// Replies gathered for a keyed command come out ordered by the position of
/// their keys in the caller's key list, and none is lost or added: the
/// answer is a reordering of what the shards sent.
pub proof fn lemma_keyed_answer_follows_key_order(pairs: Seq<(usize, Reply)>)
    ensures
        ranked_in_order(stable_sort(pairs)),
        stable_sort(pairs).to_multiset() == pairs.to_multiset(),
    decreases pairs.len(),
{
    broadcast use vstd::seq_lib::group_to_multiset_ensures;
    if pairs.len() > 0 {
        lemma_keyed_answer_follows_key_order(pairs.drop_last());
        lemma_insert_by_rank_keeps(stable_sort(pairs.drop_last()), pairs.last());
        assert(pairs.drop_last().push(pairs.last()) =~= pairs);
    }
}

/// Each redirection reported names a sub-request that was answered with
/// exactly that redirection, so only the redirected sub-requests are re-sent.
pub proof fn lemma_redirections_name_their_sub_request(subs: Seq<SubRequest>)
    ensures
        forall|k: int|
            0 <= k < redirections(subs).len() ==> {
                let (index, reason) = #[trigger] redirections(subs)[k];
                &&& 0 <= index < subs.len()
                &&& subs[index].result matches Some(Some(result))
                &&& redirection_view(result) == Some(reason)
            },
    decreases subs.len(),
{
    if subs.len() > 0 {
        let init = subs.drop_last();
        lemma_redirections_name_their_sub_request(init);
        assert forall|k: int| 0 <= k < redirections(subs).len() implies {
            let (index, reason) = #[trigger] redirections(subs)[k];
            &&& 0 <= index < subs.len()
            &&& subs[index].result matches Some(Some(result))
            &&& redirection_view(result) == Some(reason)
        } by {
            if k < redirections(init).len() {
                let (index, reason) = redirections(init)[k];
                assert(redirections(subs)[k] == redirections(init)[k]);
                assert(subs[index] == init[index]);
            }
        }
    }
}

/// Folding shard answers with a logical and: the answer is 1 exactly when
/// both are 1, so one shard answering 0 makes it 0, whatever the order.
pub proof fn lemma_logical_and_needs_every_shard(a: i64, b: i64)
    ensures
        (combine_spec(Aggregate::LogicalAnd, a, b) == 1) <==> (a == 1 && b == 1),
        combine_spec(Aggregate::LogicalAnd, a, b) == 0 || combine_spec(Aggregate::LogicalAnd, a, b) == 1,
        combine_spec(Aggregate::LogicalAnd, a, b) == combine_spec(Aggregate::LogicalAnd, b, a),
        a == 0 || b == 0 ==> combine_spec(Aggregate::LogicalAnd, a, b) == 0,
{
}

/// Folding shard answers with a logical or: the answer is 0 exactly when
/// both are 0, so one shard answering otherwise makes it 1, whatever the order.
pub proof fn lemma_logical_or_needs_one_shard(a: i64, b: i64)
    ensures
        (combine_spec(Aggregate::LogicalOr, a, b) == 0) <==> (a == 0 && b == 0),
        combine_spec(Aggregate::LogicalOr, a, b) == 0 || combine_spec(Aggregate::LogicalOr, a, b) == 1,
        combine_spec(Aggregate::LogicalOr, a, b) == combine_spec(Aggregate::LogicalOr, b, a),
{
}

/// The least and the greatest of two shard answers are one of them, bound
/// the other, and do not depend on the order.
pub proof fn lemma_min_and_max_pick_an_answer(a: i64, b: i64)
    ensures
        combine_spec(Aggregate::Min, a, b) == a || combine_spec(Aggregate::Min, a, b) == b,
        combine_spec(Aggregate::Min, a, b) <= a && combine_spec(Aggregate::Min, a, b) <= b,
        combine_spec(Aggregate::Max, a, b) == a || combine_spec(Aggregate::Max, a, b) == b,
        combine_spec(Aggregate::Max, a, b) >= a && combine_spec(Aggregate::Max, a, b) >= b,
        combine_spec(Aggregate::Min, a, b) == combine_spec(Aggregate::Min, b, a),
        combine_spec(Aggregate::Max, a, b) == combine_spec(Aggregate::Max, b, a),
{
}

/// The sum of two shard answers is their sum whenever it fits, and is held
/// at the bound it crosses otherwise; it does not depend on the order.
pub proof fn lemma_sum_adds_and_saturates(a: i64, b: i64)
    ensures
        i64::MIN <= a + b <= i64::MAX ==> combine_spec(Aggregate::Sum, a, b) == a + b,
        a + b > i64::MAX ==> combine_spec(Aggregate::Sum, a, b) == i64::MAX,
        a + b < i64::MIN ==> combine_spec(Aggregate::Sum, a, b) == i64::MIN,
        combine_spec(Aggregate::Sum, a, b) == combine_spec(Aggregate::Sum, b, a),
{
}

/// A server error the client replays on its own is one it reports
/// retryable.
pub proof fn lemma_replayed_errors_are_retryable(e: RedisError)
    ensures
        transient_view(e.kind) is Some ==> ErrorKind::Redis(e).spec_is_retryable(),
{
}

} // verus!
