//! The decisions a cluster connection makes around each send and read: which
//! routing a command takes, what a batch of retry reasons owes before the
//! replay, which node serves a command, and which parts of a partly
//! redirected request are sent again. The sends and reads themselves are the
//! connection's I/O; each decision here is taken on values.
use crate::bytes_util::{bytes_eq, lemma_lex_irreflexive, lemma_lex_total, lemma_lex_transitive, lex_compare, lex_lt, LexOrder};
use crate::cluster_request::{collect_redirections, redirections, views, RequestInfo, SubRequest};
use crate::cluster_routing::{is_broadcast_pub_sub_command, is_shard_command, prepare_command_for_shard, RoutedKey};
use crate::cluster_send_batch::SendBatch;
use crate::cluster_topology::{
    covers, first_at_address, is_master_of, lemma_alike_serve_alike, lemma_alike_served_alike, lemma_choice_serves_slot,
    lemma_served_slot_is_chosen, lemma_written_slot_is_served, routes_alike, serves_slot, slot_choice, slot_pick, slot_served,
    ClusterTopology, NodeId,
};
use crate::command::{Command, RequestPolicy};
use crate::error::{ClientError, Error, ErrorKind, NodeAddress, RetryReason, RetryReasonView};
use crate::hash_slot::{hash_slot, spec_hash_slot};
use crate::pub_sub::{is_ack_kind, is_subscription_ack, spec_push_event};
use crate::reply::Reply;
use vstd::prelude::*;
use vstd::string::StringSliceAdditionalSpecFns;

verus! {

/// How a command reaches the cluster.
#[derive(Clone, Copy, Debug, PartialEq, Eq, Structural)]
pub enum Routing {
    /// A channel subscription: each channel is hashed like a key, so the
    /// matching unsubscription lands on the same node.
    PubSubByChannel,
    /// One node per shard.
    AllShards,
    /// Every node, replicas included.
    AllNodes,
    /// Cut by the slots of its keys.
    MultiShard,
    /// Refused: the client has no cluster rule for it.
    Special,
    /// One node, picked by the slot of its keys.
    SingleNode,
}

/// The routing a command takes. A channel-less `UNSUBSCRIBE` names nothing to
/// hash and cancels every subscription the connection holds, which in a
/// cluster are spread over the masters, so every master hears it.
pub open spec fn spec_routing_of(command: crate::command::CommandView) -> Routing {
    if command.name == "SUBSCRIBE".spec_bytes() || command.name == "PSUBSCRIBE".spec_bytes()
        || command.name == "UNSUBSCRIBE".spec_bytes() || command.name == "PUNSUBSCRIBE".spec_bytes() {
        if command.args.len() > 0 {
            Routing::PubSubByChannel
        } else {
            Routing::AllShards
        }
    } else {
        match command.request_policy {
            Some(RequestPolicy::AllNodes) => Routing::AllNodes,
            Some(RequestPolicy::AllShards) => Routing::AllShards,
            Some(RequestPolicy::MultiShard) => Routing::MultiShard,
            Some(RequestPolicy::Special) => Routing::Special,
            None => Routing::SingleNode,
        }
    }
}

pub fn routing_of(command: &Command) -> (r: Routing)
    ensures
        r == spec_routing_of(command@),
{
    if is_broadcast_pub_sub_command(command) {
        if command.num_args() > 0 {
            Routing::PubSubByChannel
        } else {
            Routing::AllShards
        }
    } else {
        match command.request_policy {
            Some(RequestPolicy::AllNodes) => Routing::AllNodes,
            Some(RequestPolicy::AllShards) => Routing::AllShards,
            Some(RequestPolicy::MultiShard) => Routing::MultiShard,
            Some(RequestPolicy::Special) => Routing::Special,
            None => Routing::SingleNode,
        }
    }
}

/// What a cluster connection does with a command it is fed.
#[derive(Clone, Copy, Debug, PartialEq, Eq, Structural)]
pub enum FeedStep {
    /// `MULTI` is held until a command names the shard owning the block.
    HoldMulti,
    /// `EXEC` goes to the node the block is locked on.
    ExecOn(usize),
    /// Any other command is routed.
    Route(Routing),
}

/// The step a command takes, given the node a transaction is locked on. An
/// `EXEC` with no transaction under way is refused.
pub fn feed_step(command: &Command, locked_node: Option<usize>) -> (r: Result<FeedStep, Error>)
    ensures
        command@.name == "MULTI".spec_bytes() ==> r == Ok::<FeedStep, Error>(FeedStep::HoldMulti),
        command@.name != "MULTI".spec_bytes() && command@.name == "EXEC".spec_bytes() ==> match locked_node {
            Some(n) => r == Ok::<FeedStep, Error>(FeedStep::ExecOn(n)),
            None => r matches Err(e) && e.kind == ErrorKind::Client(ClientError::ExecCalledWithoutMulti)
                && e.context is None,
        },
        command@.name != "MULTI".spec_bytes() && command@.name != "EXEC".spec_bytes() ==> r
            == Ok::<FeedStep, Error>(FeedStep::Route(spec_routing_of(command@))),
{
    if bytes_eq(command.name(), "MULTI".as_bytes()) {
        Ok(FeedStep::HoldMulti)
    } else if bytes_eq(command.name(), "EXEC".as_bytes()) {
        match locked_node {
            Some(n) => Ok(FeedStep::ExecOn(n)),
            None => Err(Error::client(ClientError::ExecCalledWithoutMulti)),
        }
    } else {
        Ok(FeedStep::Route(routing_of(command)))
    }
}

/// Whether some reason is a `MOVED`.
pub open spec fn any_moved(reasons: Seq<RetryReasonView>) -> bool {
    exists|k: int| 0 <= k < reasons.len() && (#[trigger] reasons[k]) is Moved
}

/// Whether a reason is a transient error that asks for a reload.
pub open spec fn asks_reload(reason: RetryReasonView) -> bool {
    match reason {
        RetryReasonView::TryAgain { refresh_topology, .. } => refresh_topology,
        _ => false,
    }
}

/// Whether some reason is a transient error that asks for a reload.
pub open spec fn any_reload(reasons: Seq<RetryReasonView>) -> bool {
    exists|k: int| 0 <= k < reasons.len() && asks_reload(#[trigger] reasons[k])
}

/// The longest delay the transient errors among the reasons ask for.
pub open spec fn longest_delay(reasons: Seq<RetryReasonView>) -> Option<u64>
    decreases reasons.len(),
{
    if reasons.len() == 0 {
        None
    } else {
        let before = longest_delay(reasons.drop_last());
        match reasons.last() {
            RetryReasonView::TryAgain { delay_ms, .. } => match before {
                Some(d) => Some(if d >= delay_ms { d } else { delay_ms }),
                None => Some(delay_ms),
            },
            _ => before,
        }
    }
}

pub open spec fn reason_views(reasons: Seq<RetryReason>) -> Seq<RetryReasonView> {
    reasons.map_values(|r: RetryReason| r@)
}

/// Whether a `MOVED` among the reasons earns the batch its topology reload:
/// the slot map is stale, and every later command on the slot would earn its
/// own redirection. The reload is owed once per batch.
pub fn moved_refresh_due(retry_reasons: &[RetryReason], batch: &mut SendBatch) -> (r: bool)
    ensures
        r == (any_moved(reason_views(retry_reasons@)) && !old(batch).topology_refresh.taken),
        final(batch).topology_refresh.taken == (old(batch).topology_refresh.taken || any_moved(
            reason_views(retry_reasons@),
        )),
        final(batch).transient_delay == old(batch).transient_delay,
{
    let mut i: usize = 0;
    let mut moved = false;
    while i < retry_reasons.len()
        invariant
            0 <= i <= retry_reasons@.len(),
            moved == exists|k: int| 0 <= k < i && (#[trigger] reason_views(retry_reasons@)[k]) is Moved,
        decreases retry_reasons@.len() - i,
    {
        let is_moved = match &retry_reasons[i] {
            RetryReason::Moved { .. } => true,
            _ => false,
        };
        assert(reason_views(retry_reasons@)[i as int] == retry_reasons@[i as int]@);
        moved = moved || is_moved;
        i = i + 1;
    }
    if moved {
        batch.claim_topology_refresh()
    } else {
        false
    }
}

/// How long the batch waits before replaying a transient error: the longest
/// delay its reasons ask for, once per batch.
pub fn transient_wait_due(retry_reasons: &[RetryReason], batch: &mut SendBatch) -> (r: Option<u64>)
    ensures
        r == (if old(batch).transient_delay.taken { None } else { longest_delay(reason_views(retry_reasons@)) }),
        final(batch).transient_delay.taken == (old(batch).transient_delay.taken || longest_delay(
            reason_views(retry_reasons@),
        ) is Some),
        final(batch).topology_refresh == old(batch).topology_refresh,
{
    let mut i: usize = 0;
    let mut longest: Option<u64> = None;
    while i < retry_reasons.len()
        invariant
            0 <= i <= retry_reasons@.len(),
            longest == longest_delay(reason_views(retry_reasons@).subrange(0, i as int)),
        decreases retry_reasons@.len() - i,
    {
        let ghost views = reason_views(retry_reasons@);
        assert(views.subrange(0, i + 1).drop_last() =~= views.subrange(0, i as int));
        assert(views.subrange(0, i + 1).last() == retry_reasons@[i as int]@);
        match &retry_reasons[i] {
            RetryReason::TryAgain { delay_ms, .. } => {
                longest = match longest {
                    Some(d) => Some(if d >= *delay_ms { d } else { *delay_ms }),
                    None => Some(*delay_ms),
                };
            },
            _ => {},
        }
        i = i + 1;
    }
    assert(reason_views(retry_reasons@).subrange(0, i as int) =~= reason_views(retry_reasons@));
    match longest {
        Some(delay) => if batch.claim_transient_delay() {
            Some(delay)
        } else {
            None
        },
        None => None,
    }
}

/// Whether the batch reloads its topology after waiting out a `CLUSTERDOWN`,
/// which follows a failover; still once per batch.
pub fn reload_after_wait_due(retry_reasons: &[RetryReason], batch: &mut SendBatch) -> (r: bool)
    ensures
        r == (any_reload(reason_views(retry_reasons@)) && !old(batch).topology_refresh.taken),
        final(batch).topology_refresh.taken == (old(batch).topology_refresh.taken || any_reload(
            reason_views(retry_reasons@),
        )),
        final(batch).transient_delay == old(batch).transient_delay,
{
    let mut i: usize = 0;
    let mut reload = false;
    while i < retry_reasons.len()
        invariant
            0 <= i <= retry_reasons@.len(),
            reload == exists|k: int| 0 <= k < i && asks_reload(#[trigger] reason_views(retry_reasons@)[k]),
        decreases retry_reasons@.len() - i,
    {
        let asks = match &retry_reasons[i] {
            RetryReason::TryAgain { refresh_topology, .. } => *refresh_topology,
            _ => false,
        };
        assert(reason_views(retry_reasons@)[i as int] == retry_reasons@[i as int]@);
        reload = reload || asks;
        i = i + 1;
    }
    if reload {
        batch.claim_topology_refresh()
    } else {
        false
    }
}

/// Whether an `ASK` names a node the topology does not hold.
pub open spec fn names_unknown_node(topology: ClusterTopology, ask_reasons: Seq<(u16, NodeAddress)>) -> bool {
    exists|k: int| 0 <= k < ask_reasons.len() && first_at_address(topology.nodes@, (#[trigger] ask_reasons[k]).1.0@, ask_reasons[k].1.1) is None
}

/// Whether an `ASK` naming an unknown node earns the batch its reload: the
/// importing node may have joined after the last discovery, and nothing else
/// would bring it in.
pub fn ask_refresh_due(topology: &ClusterTopology, ask_reasons: &[(u16, NodeAddress)], batch: &mut SendBatch) -> (r: bool)
    ensures
        r == (names_unknown_node(*topology, ask_reasons@) && !old(batch).topology_refresh.taken),
        final(batch).topology_refresh.taken == (old(batch).topology_refresh.taken || names_unknown_node(*topology, ask_reasons@)),
        final(batch).transient_delay == old(batch).transient_delay,
{
    let mut i: usize = 0;
    let mut unknown = false;
    while i < ask_reasons.len()
        invariant
            0 <= i <= ask_reasons@.len(),
            unknown == exists|k: int| 0 <= k < i && first_at_address(topology.nodes@, (#[trigger] ask_reasons@[k]).1.0@, ask_reasons@[k].1.1) is None,
        decreases ask_reasons@.len() - i,
    {
        let held = topology.holds_address(&ask_reasons[i].1);
        unknown = unknown || !held;
        i = i + 1;
    }
    if unknown {
        batch.claim_topology_refresh()
    } else {
        false
    }
}

/// The arguments flagged as keys among the first `n`, in order.
pub open spec fn key_args(args: Seq<Seq<u8>>, flags: Seq<bool>, n: int) -> Seq<Seq<u8>>
    decreases n,
{
    if n <= 0 {
        seq![]
    } else if flags[n - 1] {
        key_args(args, flags, n - 1).push(args[n - 1])
    } else {
        key_args(args, flags, n - 1)
    }
}

/// The keys of a command, in argument order.
pub open spec fn command_keys(command: crate::command::CommandView) -> Seq<Seq<u8>> {
    key_args(command.args, command.key_flags, command.args.len() as int)
}

/// The keys among the first arguments lead the keys among more of them.
proof fn lemma_key_args_prefix(args: Seq<Seq<u8>>, flags: Seq<bool>, m: int, n: int)
    requires
        0 <= m <= n,
    ensures
        key_args(args, flags, m).len() <= key_args(args, flags, n).len(),
        forall|k: int| 0 <= k < key_args(args, flags, m).len() ==> #[trigger] key_args(args, flags, n)[k] == key_args(args, flags, m)[k],
    decreases n - m,
{
    if m < n {
        lemma_key_args_prefix(args, flags, m, n - 1);
    }
}

/// The keys of a command, in argument order.
pub fn keys_of(command: &Command) -> (r: Vec<Vec<u8>>)
    ensures
        r@.len() == command_keys(command@).len(),
        forall|k: int| 0 <= k < r@.len() ==> (#[trigger] r@[k])@ == command_keys(command@)[k],
{
    let mut r: Vec<Vec<u8>> = Vec::new();
    let mut i: usize = 0;
    while i < command.args.len()
        invariant
            0 <= i <= command.args@.len(),
            r@.len() == key_args(command@.args, command@.key_flags, i as int).len(),
            forall|k: int| 0 <= k < r@.len() ==> (#[trigger] r@[k])@ == key_args(command@.args, command@.key_flags, i as int)[k],
        decreases command.args@.len() - i,
    {
        let ghost before = r@;
        if command.args[i].is_key {
            r.push(crate::bytes_util::slice_to_vec(command.args[i].value.as_slice()));
            assert forall|k: int| 0 <= k < r@.len() implies (#[trigger] r@[k])@ == key_args(command@.args, command@.key_flags, i + 1)[k] by {
                if k < before.len() {
                    assert(r@[k] == before[k]);
                }
            }
        }
        i = i + 1;
    }
    r
}

/// Whether every key hashes to the slot of the first.
pub open spec fn one_slot(keys: Seq<Seq<u8>>) -> bool {
    forall|k: int| 0 <= k < keys.len() ==> spec_hash_slot(#[trigger] keys[k]) == spec_hash_slot(keys[0])
}

/// Whether a command may be served by a replica: the configuration prefers
/// replicas for reads, the command only reads, it is no pub/sub command, and
/// no transaction is under way (a `MULTI` holds one node for its whole block,
/// and a read of that block sent elsewhere would leave the queue behind).
pub fn may_read_from_replica(prefers_replica: bool, command: &Command, is_pub_sub: bool, transaction_under_way: bool) -> (r: bool)
    ensures
        r == (prefers_replica && command@.readonly && !is_pub_sub && !transaction_under_way),
{
    prefers_replica && command.readonly && !is_pub_sub && !transaction_under_way
}

/// The node a command with no request policy is sent to, and whether it needs
/// an `ASKING`: a random node for a keyless command, the node serving the
/// slot of its keys otherwise. Keys of different slots are refused, naming
/// the command; a topology that routes nothing is a configuration error.
pub fn no_request_policy_node(
    topology: &mut ClusterTopology,
    command: &Command,
    ask_reasons: &[(u16, NodeAddress)],
    for_read: bool,
) -> (r: Result<(usize, bool), Error>)
    requires
        old(topology).wf(),
    ensures
        final(topology).wf(),
        final(topology).nodes == old(topology).nodes,
        r matches Ok(p) ==> p.0 < old(topology).nodes@.len(),
        command_keys(command@).len() == 0 ==> final(topology).slot_ranges == old(topology).slot_ranges
            && (r is Ok <==> old(topology).nodes@.len() > 0) && (r matches Ok(p) ==> !p.1),
        command_keys(command@).len() > 0 && !one_slot(command_keys(command@)) ==> (r matches Err(e)
            && e.kind == ErrorKind::Client(ClientError::MismatchedKeySlots) && (e.context matches Some(c)
            && c.command@ == command@.name)),
        command_keys(command@).len() == 0 || one_slot(command_keys(command@)) ==> (r matches Err(e)
            ==> e.kind == ErrorKind::Client(ClientError::ClusterConfig) && e.context is None),
        command_keys(command@).len() > 0 && one_slot(command_keys(command@)) ==> slot_choice(
            *old(topology),
            ask_reasons@,
            spec_hash_slot(command_keys(command@)[0]),
            for_read,
            match r {
                Ok(p) => Some(p),
                Err(_) => None,
            },
        ),
{
    let keys = keys_of(command);
    if keys.len() == 0 {
        return match topology.random_node_index() {
            Some(n) => Ok((n, false)),
            None => Err(Error::client(ClientError::ClusterConfig)),
        };
    }
    let first = hash_slot(keys[0].as_slice());
    let mut i: usize = 1;
    while i < keys.len()
        invariant
            1 <= i <= keys@.len(),
            topology.wf(),
            topology.nodes == old(topology).nodes,
            topology.slot_ranges == old(topology).slot_ranges,
            keys@.len() == command_keys(command@).len(),
            forall|k: int| 0 <= k < keys@.len() ==> (#[trigger] keys@[k])@ == command_keys(command@)[k],
            first == spec_hash_slot(command_keys(command@)[0]),
            forall|k: int| 0 <= k < i ==> spec_hash_slot(#[trigger] command_keys(command@)[k]) == first,
        decreases keys@.len() - i,
    {
        if hash_slot(keys[i].as_slice()) != first {
            let name = crate::bytes_util::slice_to_vec(command.name());
            return Err(Error::client(ClientError::MismatchedKeySlots).with_command(name));
        }
        i = i + 1;
    }
    match topology.node_index_by_slot(first, ask_reasons, for_read) {
        Some(p) => Ok(p),
        None => Err(Error::client(ClientError::ClusterConfig)),
    }
}

/// The order routed keys are sorted in: by node, then slot, then key bytes,
/// then `ASK` flag, `false` first.
pub open spec fn routed_lt(a: RoutedKey, b: RoutedKey) -> bool {
    ||| a.0 < b.0
    ||| (a.0 == b.0 && a.1 < b.1)
    ||| (a.0 == b.0 && a.1 == b.1 && lex_lt(a.2@, b.2@))
    ||| (a.0 == b.0 && a.1 == b.1 && a.2@ == b.2@ && !a.3 && b.3)
}

pub open spec fn routed_le(a: RoutedKey, b: RoutedKey) -> bool {
    !routed_lt(b, a)
}

/// Whether a run of routed keys is in order.
pub open spec fn routed_sorted(s: Seq<RoutedKey>) -> bool {
    forall|i: int, j: int| 0 <= i < j < s.len() ==> routed_le(#[trigger] s[i], #[trigger] s[j])
}

proof fn lemma_routed_lt_transitive(a: RoutedKey, b: RoutedKey, c: RoutedKey)
    requires
        routed_lt(a, b),
        routed_lt(b, c),
    ensures
        routed_lt(a, c),
{
    if a.0 == b.0 && b.0 == c.0 && a.1 == b.1 && b.1 == c.1 {
        if lex_lt(a.2@, b.2@) && lex_lt(b.2@, c.2@) {
            lemma_lex_transitive(a.2@, b.2@, c.2@);
        }
    }
}

proof fn lemma_routed_total(a: RoutedKey, b: RoutedKey)
    ensures
        routed_lt(a, b) || routed_lt(b, a) || (a.0 == b.0 && a.1 == b.1 && a.2@ == b.2@ && a.3 == b.3),
{
    lemma_lex_total(a.2@, b.2@);
}

proof fn lemma_routed_irreflexive(a: RoutedKey)
    ensures
        !routed_lt(a, a),
{
    lemma_lex_irreflexive(a.2@);
}

proof fn lemma_routed_le_transitive(a: RoutedKey, b: RoutedKey, c: RoutedKey)
    requires
        routed_le(a, b),
        routed_le(b, c),
    ensures
        routed_le(a, c),
{
    if routed_lt(c, a) {
        lemma_routed_total(a, b);
        if routed_lt(a, b) {
            lemma_routed_lt_transitive(c, a, b);
        } else {
            lemma_lex_irreflexive(a.2@);
        }
    }
}

/// Whether `a` sorts strictly before `b`.
fn routed_less(a: &RoutedKey, b: &RoutedKey) -> (r: bool)
    ensures
        r == routed_lt(*a, *b),
{
    if a.0 != b.0 {
        return a.0 < b.0;
    }
    if a.1 != b.1 {
        return a.1 < b.1;
    }
    match lex_compare(a.2.as_slice(), b.2.as_slice()) {
        LexOrder::Before => true,
        LexOrder::After => {
            proof {
                crate::bytes_util::lemma_lex_asymmetric(b.2@, a.2@);
            }
            false
        },
        LexOrder::Same => {
            proof {
                lemma_lex_irreflexive(a.2@);
            }
            !a.3 && b.3
        },
    }
}

/// Sorts routed keys, which brings the keys of a slot together.
pub fn sort_routed_keys(keys: Vec<RoutedKey>) -> (r: Vec<RoutedKey>)
    ensures
        routed_sorted(r@),
        r@.to_multiset() == keys@.to_multiset(),
{
    broadcast use vstd::seq_lib::group_to_multiset_ensures;
    let ghost all = keys@;
    let mut rest = keys;
    let mut sorted: Vec<RoutedKey> = Vec::new();
    let mut i: usize = 0;
    let total = rest.len();
    while rest.len() > 0
        invariant
            i + rest@.len() == all.len(),
            all.len() == total,
            rest@ == all.subrange(i as int, all.len() as int),
            routed_sorted(sorted@),
            sorted@.to_multiset() == all.subrange(0, i as int).to_multiset(),
        decreases rest@.len(),
    {
        let x = rest.remove(0);
        assert(rest@ =~= all.subrange(i + 1, all.len() as int));
        assert(all.subrange(0, i + 1) =~= all.subrange(0, i as int).push(x));
        let mut p: usize = sorted.len();
        while p > 0 && routed_less(&x, &sorted[p - 1])
            invariant
                0 <= p <= sorted@.len(),
                forall|q: int| p <= q < sorted@.len() ==> routed_lt(x, #[trigger] sorted@[q]),
            decreases p,
        {
            p = p - 1;
        }
        let ghost before = sorted@;
        sorted.insert(p, x);
        proof {
            let after = sorted@;
            assert(after == before.insert(p as int, x));
            assert forall|a: int, b: int| 0 <= a < b < after.len() implies routed_le(#[trigger] after[a], #[trigger] after[b]) by {
                if a < p && b == p {
                    assert(routed_le(before[a], before[p - 1]) || a == p - 1);
                    if a < p - 1 {
                        assert(routed_le(before[a], before[p - 1]));
                    }
                    lemma_routed_irreflexive(before[a]);
                    if a < p - 1 {
                        lemma_routed_le_transitive(before[a], before[p - 1], x);
                    }
                } else if a < p && b > p {
                    assert(after[b] == before[b - 1]);
                    assert(after[a] == before[a]);
                } else if a == p && b > p {
                    assert(after[b] == before[b - 1]);
                    assert(routed_lt(x, before[b - 1]));
                    lemma_routed_irreflexive(x);
                    if routed_lt(before[b - 1], x) {
                        lemma_routed_lt_transitive(x, before[b - 1], x);
                    }
                } else if a > p {
                    assert(after[a] == before[a - 1]);
                    assert(after[b] == before[b - 1]);
                }
            }
            vstd::seq_lib::to_multiset_insert(before, p as int, x);
            let prefix = all.subrange(0, i as int);
            assert(all.subrange(0, i + 1) =~= prefix.push(x));
            vstd::seq_lib::to_multiset_insert(prefix, prefix.len() as int, x);
            assert(prefix.insert(prefix.len() as int, x) =~= prefix.push(x));
            assert(after.to_multiset() == all.subrange(0, i + 1).to_multiset());
        }
        i = i + 1;
    }
    assert(all.subrange(0, i as int) =~= all);
    sorted
}

/// Whether routed keys were routed one after another from `before` to
/// `after`: each key's node is what choosing a node for its slot made of the
/// topology as the keys before it left it.
pub open spec fn keys_routed_in_turn(
    before: ClusterTopology,
    after: ClusterTopology,
    ask_reasons: Seq<(u16, NodeAddress)>,
    for_read: bool,
    routed: Seq<RoutedKey>,
) -> bool {
    exists|turns: Seq<ClusterTopology>|
        turns.len() == routed.len() + 1 && turns[0] == before && turns.last() == after && forall|k: int|
            0 <= k < routed.len() ==> #[trigger] slot_pick(
                turns[k],
                turns[k + 1],
                ask_reasons,
                routed[k].1,
                for_read,
                Some((routed[k].0, routed[k].3)),
            )
}

/// Whether `s` reorders keys that were routed one after another from
/// `before` to `after`.
pub open spec fn routed_from_turns(
    before: ClusterTopology,
    after: ClusterTopology,
    ask_reasons: Seq<(u16, NodeAddress)>,
    for_read: bool,
    s: Seq<RoutedKey>,
) -> bool {
    exists|v: Seq<RoutedKey>|
        keys_routed_in_turn(before, after, ask_reasons, for_read, v) && v.to_multiset() == s.to_multiset()
}

/// The keys of a multi-key command, each with the node serving its slot, the
/// slot, and whether the send needs an `ASKING`, in argument order; a key no
/// node serves makes the command a configuration error.
pub fn route_keys(
    topology: &mut ClusterTopology,
    command: &Command,
    ask_reasons: &[(u16, NodeAddress)],
    for_read: bool,
) -> (r: Result<Vec<RoutedKey>, Error>)
    requires
        old(topology).wf(),
    ensures
        final(topology).wf(),
        final(topology).nodes == old(topology).nodes,
        routes_alike(*old(topology), *final(topology)),
        r matches Ok(v) ==> v@.len() == command_keys(command@).len() && forall|k: int|
            0 <= k < v@.len() ==> {
                &&& (#[trigger] v@[k]).2@ == command_keys(command@)[k]
                &&& v@[k].1 == spec_hash_slot(v@[k].2@)
                &&& v@[k].0 < old(topology).nodes@.len()
                &&& serves_slot(*old(topology), ask_reasons@, v@[k].1, for_read, (v@[k].0, v@[k].3))
                &&& !for_read ==> slot_served(*old(topology), ask_reasons@, v@[k].1)
            },
        r matches Ok(v) ==> keys_routed_in_turn(*old(topology), *final(topology), ask_reasons@, for_read, v@),
        r matches Err(e) ==> e.kind == ErrorKind::Client(ClientError::ClusterConfig) && e.context is None,
        old(topology).ranges_disjoint() && (forall|k: int|
            0 <= k < command_keys(command@).len() ==> slot_served(
                *old(topology),
                ask_reasons@,
                spec_hash_slot(#[trigger] command_keys(command@)[k]),
            )) ==> r is Ok,
{
    let node_count: usize = topology.nodes.len();
    let mut routed: Vec<RoutedKey> = Vec::new();
    let ghost mut turns: Seq<ClusterTopology> = seq![*topology];
    let mut i: usize = 0;
    while i < command.args.len()
        invariant
            0 <= i <= command.args@.len(),
            topology.wf(),
            node_count == old(topology).nodes@.len(),
            routes_alike(*old(topology), *topology),
            turns.len() == routed@.len() + 1,
            turns[0] == *old(topology),
            turns.last() == *topology,
            forall|k: int|
                0 <= k < routed@.len() ==> #[trigger] slot_pick(
                    turns[k],
                    turns[k + 1],
                    ask_reasons@,
                    routed@[k].1,
                    for_read,
                    Some((routed@[k].0, routed@[k].3)),
                ),
            routed@.len() == key_args(command@.args, command@.key_flags, i as int).len(),
            forall|k: int|
                0 <= k < routed@.len() ==> {
                    &&& (#[trigger] routed@[k]).2@ == key_args(command@.args, command@.key_flags, i as int)[k]
                    &&& routed@[k].1 == spec_hash_slot(routed@[k].2@)
                    &&& routed@[k].0 < old(topology).nodes@.len()
                    &&& serves_slot(*old(topology), ask_reasons@, routed@[k].1, for_read, (routed@[k].0, routed@[k].3))
                    &&& !for_read ==> slot_served(*old(topology), ask_reasons@, routed@[k].1)
                },
        decreases command.args@.len() - i,
    {
        let ghost before = routed@;
        let ghost current = *topology;
        if command.args[i].is_key {
            let key = crate::bytes_util::slice_to_vec(command.args[i].value.as_slice());
            let slot = hash_slot(key.as_slice());
            match topology.node_index_by_slot(slot, ask_reasons, for_read) {
                Some((node_index, should_ask)) => {
                    proof {
                        lemma_choice_serves_slot(current, ask_reasons@, slot, for_read, (node_index, should_ask));
                        assert(routes_alike(current, *old(topology)));
                        lemma_alike_serve_alike(current, *old(topology), ask_reasons@, slot, for_read, (node_index, should_ask));
                        lemma_alike_served_alike(current, *old(topology), ask_reasons@, slot);
                        if !for_read {
                            lemma_written_slot_is_served(current, ask_reasons@, slot, (node_index, should_ask));
                        }
                    }
                    let ghost before_turns = turns;
                    proof {
                        turns = turns.push(*topology);
                    }
                    routed.push((node_index, slot, key, should_ask));
                    proof {
                        assert forall|k: int| 0 <= k < routed@.len() implies #[trigger] slot_pick(
                            turns[k],
                            turns[k + 1],
                            ask_reasons@,
                            routed@[k].1,
                            for_read,
                            Some((routed@[k].0, routed@[k].3)),
                        ) by {
                            assert(turns[k] == before_turns[k]);
                            if k < before.len() {
                                assert(routed@[k] == before[k]);
                                assert(turns[k + 1] == before_turns[k + 1]);
                            } else {
                                assert(turns[k] == current);
                            }
                        }
                    }
                    assert forall|k: int| 0 <= k < routed@.len() implies {
                        &&& (#[trigger] routed@[k]).2@ == key_args(command@.args, command@.key_flags, i + 1)[k]
                        &&& routed@[k].1 == spec_hash_slot(routed@[k].2@)
                        &&& routed@[k].0 < old(topology).nodes@.len()
                        &&& serves_slot(*old(topology), ask_reasons@, routed@[k].1, for_read, (routed@[k].0, routed@[k].3))
                        &&& !for_read ==> slot_served(*old(topology), ask_reasons@, routed@[k].1)
                    } by {
                        if k < before.len() {
                            assert(routed@[k] == before[k]);
                        }
                    }
                },
                None => {
                    proof {
                        lemma_alike_served_alike(current, *old(topology), ask_reasons@, slot);
                        if old(topology).ranges_disjoint() && slot_served(*old(topology), ask_reasons@, slot) {
                            lemma_served_slot_is_chosen(current, ask_reasons@, slot, for_read, None);
                        }
                        let n = command@.args.len() as int;
                        let k = routed@.len() as int;
                        lemma_key_args_prefix(command@.args, command@.key_flags, i + 1, n);
                        assert(key_args(command@.args, command@.key_flags, i + 1)[k] == key@);
                        assert(command_keys(command@)[k] == key@);
                        assert(!old(topology).ranges_disjoint() || !slot_served(
                            *old(topology),
                            ask_reasons@,
                            spec_hash_slot(command_keys(command@)[k]),
                        ));
                    }
                    return Err(Error::client(ClientError::ClusterConfig));
                },
            }
        }
        i = i + 1;
    }
    assert(keys_routed_in_turn(*old(topology), *topology, ask_reasons@, for_read, routed@));
    Ok(routed)
}

/// Reordering a run keeps the multiset of what any function reads off its
/// elements.
proof fn lemma_reordering_keeps_images<A, B>(a: Seq<A>, b: Seq<A>, f: spec_fn(A) -> B)
    requires
        a.to_multiset() == b.to_multiset(),
    ensures
        a.map_values(f).to_multiset() == b.map_values(f).to_multiset(),
    decreases a.len(),
{
    broadcast use vstd::seq_lib::group_to_multiset_ensures;
    broadcast use vstd::multiset::group_multiset_axioms;
    if a.len() == 0 {
        assert(a.len() == a.to_multiset().len());
        assert(b.len() == b.to_multiset().len());
        assert(b.len() == 0);
        assert(a.map_values(f) =~= Seq::<B>::empty());
        assert(b.map_values(f) =~= Seq::<B>::empty());
    } else {
        let x = a.last();
        let init = a.drop_last();
        assert(init.push(x) =~= a);
        assert(a.to_multiset().count(x) > 0);
        assert(b.contains(x));
        let j = choose|j: int| 0 <= j < b.len() && b[j] == x;
        let rest = b.remove(j);
        assert(rest.to_multiset() =~= init.to_multiset());
        lemma_reordering_keeps_images(init, rest, f);
        assert(a.map_values(f) =~= init.map_values(f).push(f(x)));
        assert(b.map_values(f) =~= rest.map_values(f).insert(j, f(x)));
        vstd::seq_lib::to_multiset_insert(rest.map_values(f), j, f(x));
    }
}

/// The slices a multi-key command is cut into: its keys routed, sorted so
/// that the keys of a slot come together, and cut one slice per slot.
pub fn plan_multi_shard(
    topology: &mut ClusterTopology,
    command: &Command,
    ask_reasons: &[(u16, NodeAddress)],
    for_read: bool,
) -> (r: Result<Vec<crate::cluster_routing::ShardSlice>, Error>)
    requires
        old(topology).wf(),
    ensures
        final(topology).wf(),
        routes_alike(*old(topology), *final(topology)),
        r matches Err(e) ==> e.kind == ErrorKind::Client(ClientError::ClusterConfig) && e.context is None,
        old(topology).ranges_disjoint() && (forall|k: int|
            0 <= k < command_keys(command@).len() ==> slot_served(
                *old(topology),
                ask_reasons@,
                spec_hash_slot(#[trigger] command_keys(command@)[k]),
            )) ==> r is Ok,
        r is Ok && !for_read ==> forall|k: int|
            0 <= k < command_keys(command@).len() ==> slot_served(
                *old(topology),
                ask_reasons@,
                spec_hash_slot(#[trigger] command_keys(command@)[k]),
            ),
        r matches Ok(slices) ==> exists|s: Seq<RoutedKey>| {
            &&& routed_sorted(s)
            &&& s.len() == command_keys(command@).len()
            &&& s.map_values(|x: RoutedKey| x.2@).to_multiset() == command_keys(command@).to_multiset()
            &&& (forall|k: int| 0 <= k < s.len() ==> {
                &&& command_keys(command@).contains((#[trigger] s[k]).2@)
                &&& s[k].1 == spec_hash_slot(s[k].2@)
                &&& s[k].0 < old(topology).nodes@.len()
                &&& serves_slot(*old(topology), ask_reasons@, s[k].1, for_read, (s[k].0, s[k].3))
            })
            &&& routed_from_turns(*old(topology), *final(topology), ask_reasons@, for_read, s)
            &&& slices@.len() == crate::cluster_routing::slices_of(s).len()
            &&& forall|j: int| 0 <= j < slices@.len() ==> (#[trigger] slices@[j])@ == crate::cluster_routing::slices_of(s)[j]
        },
{
    broadcast use vstd::seq_lib::group_to_multiset_ensures;
    let routed = match route_keys(topology, command, ask_reasons, for_read) {
        Ok(v) => v,
        Err(e) => return Err(e),
    };
    let ghost unsorted = routed@;
    assert(!for_read ==> forall|k: int|
        0 <= k < command_keys(command@).len() ==> slot_served(
            *old(topology),
            ask_reasons@,
            spec_hash_slot(#[trigger] command_keys(command@)[k]),
        )) by {
        assert forall|k: int| !for_read && 0 <= k < command_keys(command@).len() implies slot_served(
            *old(topology),
            ask_reasons@,
            spec_hash_slot(#[trigger] command_keys(command@)[k]),
        ) by {
            assert(unsorted[k].2@ == command_keys(command@)[k]);
        }
    }
    let sorted = sort_routed_keys(routed);
    let ghost s = sorted@;
    proof {
        assert forall|k: int| 0 <= k < s.len() implies {
            &&& command_keys(command@).contains((#[trigger] s[k]).2@)
            &&& s[k].1 == spec_hash_slot(s[k].2@)
            &&& s[k].0 < old(topology).nodes@.len()
            &&& serves_slot(*old(topology), ask_reasons@, s[k].1, for_read, (s[k].0, s[k].3))
        } by {
            assert(s.to_multiset().count(s[k]) > 0);
            assert(unsorted.to_multiset().count(s[k]) > 0);
            assert(unsorted.contains(s[k]));
            let m = choose|m: int| 0 <= m < unsorted.len() && unsorted[m] == s[k];
            assert(unsorted[m].2@ == command_keys(command@)[m]);
        }
        assert(s.len() == s.to_multiset().len());
        assert(unsorted.len() == unsorted.to_multiset().len());
        lemma_reordering_keeps_images(s, unsorted, |x: RoutedKey| x.2@);
        assert(unsorted.map_values(|x: RoutedKey| x.2@) =~= command_keys(command@));
    }
    assert(routed_from_turns(*old(topology), *topology, ask_reasons@, for_read, s));
    Ok(crate::cluster_routing::shard_slices(sorted))
}

/// Whether a channel is in one of the groups.
pub open spec fn grouped(groups: Seq<(usize, Vec<Vec<u8>>)>, channel: Seq<u8>) -> bool {
    exists|g: int, m: int| 0 <= g < groups.len() && 0 <= m < groups[g].1@.len() && (#[trigger] groups[g].1@[m])@ == channel
}

/// Whether `node` is the master of a shard whose range covers `slot`.
pub open spec fn served_by_master(topology: ClusterTopology, slot: u16, node: int) -> bool {
    exists|ri: int| 0 <= ri < topology.slot_ranges@.len() && covers(#[trigger] topology.slot_ranges@[ri], slot)
        && is_master_of(topology.nodes@, topology.slot_ranges@[ri], node)
}

/// Whether `pos` says where each grouped channel stands in the command: every
/// channel of the command is in exactly one group, once; the channels of a
/// group keep their command order; and the groups come in the order of their
/// first channel.
pub open spec fn channel_positions(
    channels: Seq<Vec<u8>>,
    groups: Seq<(usize, Vec<Vec<u8>>)>,
    pos: Seq<Seq<int>>,
) -> bool {
    positions_upto(channels, channels.len() as int, groups, pos)
}

/// Whether the groups hold each channel of the command once, in command
/// order, the groups coming in the order of their first channel.
pub open spec fn channels_placed(channels: Seq<Vec<u8>>, groups: Seq<(usize, Vec<Vec<u8>>)>) -> bool {
    exists|pos: Seq<Seq<int>>| channel_positions(channels, groups, pos)
}

/// Whether some group holds the channel standing at `c`.
pub open spec fn placed(count: int, pos: Seq<Seq<int>>, c: int) -> bool {
    exists|g: int, m: int| 0 <= g < count && 0 <= m < pos[g].len() && #[trigger] pos[g][m] == c
}

/// The same, for the first `n` channels of the command.
pub open spec fn positions_upto(
    channels: Seq<Vec<u8>>,
    n: int,
    groups: Seq<(usize, Vec<Vec<u8>>)>,
    pos: Seq<Seq<int>>,
) -> bool {
    &&& pos.len() == groups.len()
    &&& forall|g: int| 0 <= g < groups.len() ==> (#[trigger] pos[g]).len() == groups[g].1@.len() && pos[g].len() > 0
    &&& forall|g: int, m: int|
        0 <= g < groups.len() && 0 <= m < pos[g].len() ==> 0 <= #[trigger] pos[g][m] < n && pos[g][m] < channels.len()
            && channels[pos[g][m]]@ == groups[g].1@[m]@
    &&& forall|g: int, m1: int, m2: int|
        0 <= g < groups.len() && 0 <= m1 < m2 < pos[g].len() ==> #[trigger] pos[g][m1] < #[trigger] pos[g][m2]
    &&& forall|g: int, h: int| 0 <= g < h < groups.len() ==> #[trigger] pos[g][0] < #[trigger] pos[h][0]
    &&& forall|c: int| 0 <= c < n ==> #[trigger] placed(groups.len() as int, pos, c)
    &&& forall|g: int, m: int, h: int, k: int|
        0 <= g < groups.len() && 0 <= m < pos[g].len() && 0 <= h < groups.len() && 0 <= k < pos[h].len()
            && #[trigger] pos[g][m] == #[trigger] pos[h][k] ==> g == h && m == k
}

/// A channel joining an existing group is placed at the end of it.
proof fn lemma_positions_join(
    channels: Seq<Vec<u8>>,
    n: int,
    before: Seq<(usize, Vec<Vec<u8>>)>,
    pos: Seq<Seq<int>>,
    g: int,
    after: Seq<(usize, Vec<Vec<u8>>)>,
)
    requires
        positions_upto(channels, n, before, pos),
        0 <= n < channels.len(),
        0 <= g < before.len(),
        after.len() == before.len(),
        forall|a: int| 0 <= a < after.len() && a != g ==> #[trigger] after[a] == before[a],
        after[g].1@.len() == before[g].1@.len() + 1,
        forall|m: int| 0 <= m < before[g].1@.len() ==> #[trigger] after[g].1@[m] == before[g].1@[m],
        after[g].1@[before[g].1@.len() as int]@ == channels[n]@,
    ensures
        positions_upto(channels, n + 1, after, pos.update(g, pos[g].push(n))),
{
    let p2 = pos.update(g, pos[g].push(n));
    assert forall|a: int| 0 <= a < after.len() implies (#[trigger] p2[a]).len() == after[a].1@.len() && p2[a].len() > 0 by {
        assert(pos[a].len() == before[a].1@.len());
    }
    assert forall|a: int, m: int| 0 <= a < after.len() && 0 <= m < p2[a].len() implies 0 <= #[trigger] p2[a][m] < n + 1
        && p2[a][m] < channels.len() && channels[p2[a][m]]@ == after[a].1@[m]@ by {
        if a != g || m < pos[g].len() {
            assert(p2[a][m] == pos[a][m]);
        }
    }
    assert forall|a: int, m1: int, m2: int| 0 <= a < after.len() && 0 <= m1 < m2 < p2[a].len() implies #[trigger] p2[a][m1]
        < #[trigger] p2[a][m2] by {
        if a != g || m2 < pos[g].len() {
            assert(p2[a][m2] == pos[a][m2]);
            assert(p2[a][m1] == pos[a][m1]);
        } else {
            assert(p2[a][m1] == pos[a][m1]);
            assert(pos[a][m1] < n);
        }
    }
    assert forall|a: int, h: int| 0 <= a < h < after.len() implies #[trigger] p2[a][0] < #[trigger] p2[h][0] by {
        assert(p2[a][0] == pos[a][0]);
        assert(p2[h][0] == pos[h][0]);
    }
    assert forall|c: int| 0 <= c < n + 1 implies #[trigger] placed(after.len() as int, p2, c) by {
        if c < n {
            assert(placed(before.len() as int, pos, c));
            let (a, m) = choose|a: int, m: int| 0 <= a < before.len() && 0 <= m < pos[a].len() && #[trigger] pos[a][m] == c;
            assert(p2[a][m] == pos[a][m]);
        } else {
            assert(p2[g][pos[g].len() as int] == n);
        }
    }
    assert forall|a: int, m: int, h: int, k: int|
        0 <= a < after.len() && 0 <= m < p2[a].len() && 0 <= h < after.len() && 0 <= k < p2[h].len()
            && #[trigger] p2[a][m] == #[trigger] p2[h][k] implies a == h && m == k by {
        let old_am = a != g || m < pos[g].len();
        let old_hk = h != g || k < pos[g].len();
        if old_am {
            assert(p2[a][m] == pos[a][m]);
        }
        if old_hk {
            assert(p2[h][k] == pos[h][k]);
        }
    }
}

/// A channel opening a group is its only member so far.
proof fn lemma_positions_open(
    channels: Seq<Vec<u8>>,
    n: int,
    before: Seq<(usize, Vec<Vec<u8>>)>,
    pos: Seq<Seq<int>>,
    after: Seq<(usize, Vec<Vec<u8>>)>,
)
    requires
        positions_upto(channels, n, before, pos),
        0 <= n < channels.len(),
        after.len() == before.len() + 1,
        forall|a: int| 0 <= a < before.len() ==> #[trigger] after[a] == before[a],
        after[before.len() as int].1@.len() == 1,
        after[before.len() as int].1@[0]@ == channels[n]@,
    ensures
        positions_upto(channels, n + 1, after, pos.push(seq![n])),
{
    let p2 = pos.push(seq![n]);
    let last = before.len() as int;
    assert forall|a: int| 0 <= a < after.len() implies (#[trigger] p2[a]).len() == after[a].1@.len() && p2[a].len() > 0 by {
        if a < last {
            assert(pos[a].len() == before[a].1@.len());
        }
    }
    assert forall|a: int, m: int| 0 <= a < after.len() && 0 <= m < p2[a].len() implies 0 <= #[trigger] p2[a][m] < n + 1
        && p2[a][m] < channels.len() && channels[p2[a][m]]@ == after[a].1@[m]@ by {
        if a < last {
            assert(p2[a][m] == pos[a][m]);
        }
    }
    assert forall|a: int, m1: int, m2: int| 0 <= a < after.len() && 0 <= m1 < m2 < p2[a].len() implies #[trigger] p2[a][m1]
        < #[trigger] p2[a][m2] by {
        assert(p2[a][m2] == pos[a][m2]);
        assert(p2[a][m1] == pos[a][m1]);
    }
    assert forall|a: int, h: int| 0 <= a < h < after.len() implies #[trigger] p2[a][0] < #[trigger] p2[h][0] by {
        assert(p2[a][0] == pos[a][0]);
        if h < last {
            assert(p2[h][0] == pos[h][0]);
        }
    }
    assert forall|c: int| 0 <= c < n + 1 implies #[trigger] placed(after.len() as int, p2, c) by {
        if c < n {
            assert(placed(before.len() as int, pos, c));
            let (a, m) = choose|a: int, m: int| 0 <= a < before.len() && 0 <= m < pos[a].len() && #[trigger] pos[a][m] == c;
            assert(p2[a][m] == pos[a][m]);
        } else {
            assert(p2[last][0] == n);
        }
    }
    assert forall|a: int, m: int, h: int, k: int|
        0 <= a < after.len() && 0 <= m < p2[a].len() && 0 <= h < after.len() && 0 <= k < p2[h].len()
            && #[trigger] p2[a][m] == #[trigger] p2[h][k] implies a == h && m == k by {
        if a < last {
            assert(p2[a][m] == pos[a][m]);
        }
        if h < last {
            assert(p2[h][k] == pos[h][k]);
        }
    }
}

/// The nodes a channel subscription is sent to, each with its channels in
/// the order the command names them: a channel goes to the node serving its
/// hash slot, so the matching unsubscription lands on the same node. Nodes
/// come in the order their first channel appears.
pub fn group_channels(topology: &mut ClusterTopology, channels: &Vec<Vec<u8>>) -> (r: Result<Vec<(usize, Vec<Vec<u8>>)>, Error>)
    requires
        old(topology).wf(),
    ensures
        final(topology).wf(),
        final(topology).nodes == old(topology).nodes,
        r matches Err(e) ==> e.kind == ErrorKind::Client(ClientError::ClusterConfig) && e.context is None,
        final(topology).slot_ranges == old(topology).slot_ranges,
        r matches Ok(groups) ==> {
            &&& forall|g: int| 0 <= g < groups@.len() ==> (#[trigger] groups@[g]).0 < old(topology).nodes@.len()
            &&& forall|g: int, h: int| 0 <= g < h < groups@.len() ==> (#[trigger] groups@[g]).0 != (#[trigger] groups@[h]).0
            &&& forall|g: int, m: int| 0 <= g < groups@.len() && 0 <= m < (#[trigger] groups@[g]).1@.len() ==> {
                &&& views(channels@).contains((#[trigger] groups@[g].1@[m])@)
                &&& served_by_master(*old(topology), spec_hash_slot(groups@[g].1@[m]@), groups@[g].0 as int)
            }
            &&& forall|c: int| 0 <= c < channels@.len() ==> grouped(groups@, (#[trigger] channels@[c])@)
        },
        r matches Ok(groups) ==> channels_placed(channels@, groups@),
        old(topology).ranges_disjoint() && (forall|c: int|
            0 <= c < channels@.len() ==> slot_served(
                *old(topology),
                Seq::empty(),
                spec_hash_slot((#[trigger] channels@[c])@),
            )) ==> r is Ok,
        r is Ok ==> forall|c: int|
            0 <= c < channels@.len() ==> slot_served(*old(topology), Seq::empty(), spec_hash_slot((#[trigger] channels@[c])@)),
{
    let mut groups: Vec<(usize, Vec<Vec<u8>>)> = Vec::new();
    let ghost mut pos: Seq<Seq<int>> = Seq::empty();
    let mut i: usize = 0;
    while i < channels.len()
        invariant
            0 <= i <= channels@.len(),
            topology.wf(),
            topology.nodes == old(topology).nodes,
            topology.slot_ranges == old(topology).slot_ranges,
            forall|g: int| 0 <= g < groups@.len() ==> (#[trigger] groups@[g]).0 < old(topology).nodes@.len(),
            forall|g: int, h: int| 0 <= g < h < groups@.len() ==> (#[trigger] groups@[g]).0 != (#[trigger] groups@[h]).0,
            forall|g: int, m: int| 0 <= g < groups@.len() && 0 <= m < (#[trigger] groups@[g]).1@.len() ==> {
                &&& views(channels@).contains((#[trigger] groups@[g].1@[m])@)
                &&& served_by_master(*old(topology), spec_hash_slot(groups@[g].1@[m]@), groups@[g].0 as int)
            },
            forall|c: int| 0 <= c < i ==> grouped(groups@, (#[trigger] channels@[c])@),
            forall|c: int| 0 <= c < i ==> slot_served(*old(topology), Seq::empty(), spec_hash_slot((#[trigger] channels@[c])@)),
            positions_upto(channels@, i as int, groups@, pos),
        decreases channels@.len() - i,
    {
        let slot = hash_slot(channels[i].as_slice());
        let no_asks: [(u16, NodeAddress); 0] = [];
        assert(no_asks@ =~= Seq::<(u16, NodeAddress)>::empty());
        let node_index = match topology.node_index_by_slot(slot, &no_asks, false) {
            Some((n, a)) => {
                proof {
                    lemma_written_slot_is_served(*old(topology), Seq::empty(), slot, (n, a));
                }
                n
            },
            None => {
                proof {
                    if old(topology).ranges_disjoint() && slot_served(*old(topology), Seq::empty(), slot) {
                        lemma_served_slot_is_chosen(*old(topology), Seq::empty(), slot, false, None);
                    }
                }
                return Err(Error::client(ClientError::ClusterConfig));
            },
        };
        let mut g: usize = 0;
        while g < groups.len() && groups[g].0 != node_index
            invariant
                0 <= g <= groups@.len(),
                forall|q: int| 0 <= q < g ==> (#[trigger] groups@[q]).0 != node_index,
            decreases groups@.len() - g,
        {
            g = g + 1;
        }
        let channel = crate::bytes_util::slice_to_vec(channels[i].as_slice());
        proof {
            assert(views(channels@)[i as int] == channel@);
            assert(served_by_master(*old(topology), spec_hash_slot(channel@), node_index as int));
        }
        let ghost before = groups@;
        if g < groups.len() {
            let (n, mut members) = groups.remove(g);
            let ghost old_members = members@;
            members.push(channel);
            groups.insert(g, (n, members));
            proof {
                assert forall|a: int| 0 <= a < groups@.len() && a != g implies #[trigger] groups@[a] == before[a] by {}
                assert forall|m: int| 0 <= m < before[g as int].1@.len() implies #[trigger] groups@[g as int].1@[m]
                    == before[g as int].1@[m] by {}
                lemma_positions_join(channels@, i as int, before, pos, g as int, groups@);
                pos = pos.update(g as int, pos[g as int].push(i as int));
            }
            assert forall|a: int| 0 <= a < groups@.len() implies (#[trigger] groups@[a]).0 == before[a].0 by {}
            assert forall|c: int| 0 <= c < i + 1 implies grouped(groups@, (#[trigger] channels@[c])@) by {
                if c < i {
                    let (ga, ma) = choose|ga: int, ma: int| 0 <= ga < before.len() && 0 <= ma < before[ga].1@.len()
                        && before[ga].1@[ma]@ == channels@[c]@;
                    if ga == g {
                        assert(groups@[ga].1@[ma] == old_members[ma]);
                    } else {
                        assert(groups@[ga] == before[ga]);
                    }
                    assert(groups@[ga].1@[ma]@ == channels@[c]@);
                } else {
                    assert(groups@[g as int].1@[old_members.len() as int]@ == channels@[c]@);
                }
            }
            assert forall|a: int, m: int| 0 <= a < groups@.len() && 0 <= m < (#[trigger] groups@[a]).1@.len() implies {
                &&& views(channels@).contains((#[trigger] groups@[a].1@[m])@)
                &&& served_by_master(*old(topology), spec_hash_slot(groups@[a].1@[m]@), groups@[a].0 as int)
            } by {
                if a != g {
                    assert(groups@[a] == before[a]);
                } else if m < old_members.len() {
                    assert(groups@[a].1@[m] == before[a].1@[m]);
                }
            }
        } else {
            let mut members: Vec<Vec<u8>> = Vec::new();
            members.push(channel);
            groups.push((node_index, members));
            proof {
                assert forall|a: int| 0 <= a < before.len() implies #[trigger] groups@[a] == before[a] by {}
                lemma_positions_open(channels@, i as int, before, pos, groups@);
                pos = pos.push(seq![i as int]);
            }
            assert forall|c: int| 0 <= c < i + 1 implies grouped(groups@, (#[trigger] channels@[c])@) by {
                if c < i {
                    let (ga, ma) = choose|ga: int, ma: int| 0 <= ga < before.len() && 0 <= ma < before[ga].1@.len()
                        && before[ga].1@[ma]@ == channels@[c]@;
                    assert(groups@[ga] == before[ga]);
                    assert(groups@[ga].1@[ma]@ == channels@[c]@);
                } else {
                    assert(groups@[before.len() as int].1@[0]@ == channels@[c]@);
                }
            }
            assert forall|a: int, m: int| 0 <= a < groups@.len() && 0 <= m < (#[trigger] groups@[a]).1@.len() implies {
                &&& views(channels@).contains((#[trigger] groups@[a].1@[m])@)
                &&& served_by_master(*old(topology), spec_hash_slot(groups@[a].1@[m]@), groups@[a].0 as int)
            } by {
                if a < before.len() {
                    assert(groups@[a] == before[a]);
                }
            }
        }
        i = i + 1;
    }
    assert(channel_positions(channels@, groups@, pos));
    assert(channels_placed(channels@, groups@));
    Ok(groups)
}

/// A sub-request to send again, to the node a redirection named.
#[derive(Debug)]
pub struct PendingRedirection {
    pub node_id: NodeId,
    pub command: Command,
    pub should_ask: bool,
}

/// The node a redirection points at: the first node at its address, and
/// whether the send needs an `ASKING`; `None` for a transient error, which
/// names no node, or an address the topology does not hold.
pub open spec fn redirection_target(nodes: Seq<crate::cluster_topology::Node>, reason: RetryReasonView) -> Option<(int, bool)> {
    match reason {
        RetryReasonView::Ask { host, port, .. } => match first_at_address(nodes, host, port) {
            Some(i) => Some((i, true)),
            None => None,
        },
        RetryReasonView::Moved { host, port, .. } => match first_at_address(nodes, host, port) {
            Some(i) => Some((i, false)),
            None => None,
        },
        RetryReasonView::TryAgain { .. } => None,
    }
}

/// Whether every redirection can be followed: it names a node the topology
/// holds, and a sub-request the request has.
pub open spec fn all_resolvable(nodes: Seq<crate::cluster_topology::Node>, n_subs: int, redirections: Seq<(usize, RetryReason)>) -> bool {
    forall|k: int| 0 <= k < redirections.len() ==> redirection_target(nodes, (#[trigger] redirections[k]).1@) is Some
        && redirections[k].0 < n_subs
}

/// Re-arms the redirected sub-requests of a request against the nodes their
/// redirections name, returning what is to be sent again: for each, the node,
/// the command cut down to the sub-request's keys, and whether it needs an
/// `ASKING`. Every target is resolved before anything changes: `None`, with
/// the request untouched, when the command was not kept for a per-shard
/// replay or a redirection cannot be followed.
pub fn rearm_redirected_sub_requests(
    topology: &ClusterTopology,
    request_info: &mut RequestInfo,
    redirections: &Vec<(usize, RetryReason)>,
) -> (r: Option<Vec<PendingRedirection>>)
    ensures
        r is None <==> (old(request_info).command is None || !all_resolvable(topology.nodes@, old(request_info).sub_requests@.len() as int, redirections@)),
        r is None ==> *final(request_info) == *old(request_info),
        final(request_info).response_policy == old(request_info).response_policy,
        final(request_info).keys == old(request_info).keys,
        final(request_info).command == old(request_info).command,
        final(request_info).is_pub_sub == old(request_info).is_pub_sub,
        final(request_info).sub_requests@.len() == old(request_info).sub_requests@.len(),
        forall|i: int| 0 <= i < final(request_info).sub_requests@.len() ==> (#[trigger] final(request_info).sub_requests@[i]).keys
            == old(request_info).sub_requests@[i].keys,
        r matches Some(pending) ==> {
            &&& pending@.len() == redirections@.len()
            &&& forall|k: int| 0 <= k < pending@.len() ==> {
                let target = redirection_target(topology.nodes@, redirections@[k].1@)->0;
                let sub = old(request_info).sub_requests@[redirections@[k].0 as int];
                &&& (#[trigger] pending@[k]).node_id.0@ == topology.nodes@[target.0].id.0@
                &&& pending@[k].should_ask == target.1
                &&& is_shard_command(pending@[k].command@, old(request_info).command->0@, views(sub.keys@))
            }
            &&& forall|i: int| 0 <= i < final(request_info).sub_requests@.len() ==> {
                let after = #[trigger] final(request_info).sub_requests@[i];
                let before = old(request_info).sub_requests@[i];
                if exists|k: int| 0 <= k < redirections@.len() && redirections@[k].0 == i {
                    after.result is None && exists|k: int| 0 <= k < redirections@.len() && redirections@[k].0 == i
                        && after.node_id.0@ == pending@[k].node_id.0@
                } else {
                    after == before
                }
            }
        },
{
    let command = match &request_info.command {
        Some(c) => c,
        None => return None,
    };
    let mut targets: Vec<(usize, usize, bool)> = Vec::new();
    let mut k: usize = 0;
    while k < redirections.len()
        invariant
            0 <= k <= redirections@.len(),
            targets@.len() == k,
            forall|j: int| 0 <= j < k ==> {
                &&& redirection_target(topology.nodes@, redirections@[j].1@) == Some(((#[trigger] targets@[j]).1 as int, targets@[j].2))
                &&& targets@[j].0 == redirections@[j].0
                &&& targets@[j].0 < request_info.sub_requests@.len()
                &&& targets@[j].1 < topology.nodes@.len()
            },
        decreases redirections@.len() - k,
    {
        let idx = redirections[k].0;
        let reason = &redirections[k].1;
        assert(*reason == redirections@[k as int].1);
        let (address, should_ask) = match reason {
            RetryReason::Ask { address, .. } => (address, true),
            RetryReason::Moved { address, .. } => (address, false),
            RetryReason::TryAgain { .. } => return None,
        };
        assert(redirection_target(topology.nodes@, reason@) == match first_at_address(topology.nodes@, address.0@, address.1) {
            Some(i) => Some((i, should_ask)),
            None => None,
        });
        let node_index = match topology.node_index_by_address(address) {
            Some(n) => n,
            None => return None,
        };
        proof {
            crate::cluster_topology::lemma_first_at_address_in_bounds(topology.nodes@, address.0@, address.1);
            assert(first_at_address(topology.nodes@, address.0@, address.1) is Some);
            let i = first_at_address(topology.nodes@, address.0@, address.1)->0;
            assert(node_index == i as usize);
            vstd::std_specs::vec::axiom_spec_len(&topology.nodes);
            assert(first_at_address(topology.nodes@, address.0@, address.1) == Some(node_index as int));
        }
        if idx >= request_info.sub_requests.len() {
            return None;
        }
        let ghost before_targets = targets@;
        assert(redirection_target(topology.nodes@, redirections@[k as int].1@) == Some((node_index as int, should_ask)));
        targets.push((idx, node_index, should_ask));
        assert forall|j: int| 0 <= j < k + 1 implies {
            &&& redirection_target(topology.nodes@, redirections@[j].1@) == Some(((#[trigger] targets@[j]).1 as int, targets@[j].2))
            &&& targets@[j].0 == redirections@[j].0
            &&& targets@[j].0 < request_info.sub_requests@.len()
            &&& targets@[j].1 < topology.nodes@.len()
        } by {
            if j < k {
                assert(targets@[j] == before_targets[j]);
            }
        }
        k = k + 1;
    }
    assert(all_resolvable(topology.nodes@, request_info.sub_requests@.len() as int, redirections@)) by {
        assert forall|q: int| 0 <= q < redirections@.len() implies redirection_target(topology.nodes@, (#[trigger] redirections@[q]).1@) is Some
            && redirections@[q].0 < request_info.sub_requests@.len() by {
            assert(targets@[q].0 == redirections@[q].0);
        }
    }
    let ghost initial = *request_info;
    let command = match &request_info.command {
        Some(c) => c.duplicate(),
        None => return None,
    };
    let mut pending: Vec<PendingRedirection> = Vec::new();
    let mut j: usize = 0;
    while j < targets.len()
        invariant
            0 <= j <= targets@.len(),
            targets@.len() == redirections@.len(),
            forall|q: int| 0 <= q < targets@.len() ==> {
                &&& redirection_target(topology.nodes@, redirections@[q].1@) == Some(((#[trigger] targets@[q]).1 as int, targets@[q].2))
                &&& targets@[q].0 == redirections@[q].0
                &&& targets@[q].0 < initial.sub_requests@.len()
                &&& targets@[q].1 < topology.nodes@.len()
            },
            command@ == initial.command->0@,
            initial.command is Some,
            pending@.len() == j,
            request_info.response_policy == initial.response_policy,
            request_info.keys == initial.keys,
            request_info.command == initial.command,
            request_info.is_pub_sub == initial.is_pub_sub,
            request_info.sub_requests@.len() == initial.sub_requests@.len(),
            forall|i: int| 0 <= i < request_info.sub_requests@.len() ==> (#[trigger] request_info.sub_requests@[i]).keys
                == initial.sub_requests@[i].keys,
            forall|q: int| 0 <= q < j ==> {
                let sub = initial.sub_requests@[redirections@[q].0 as int];
                &&& (#[trigger] pending@[q]).node_id.0@ == topology.nodes@[targets@[q].1 as int].id.0@
                &&& pending@[q].should_ask == targets@[q].2
                &&& is_shard_command(pending@[q].command@, command@, views(sub.keys@))
            },
            forall|i: int| 0 <= i < request_info.sub_requests@.len() ==> {
                let after = #[trigger] request_info.sub_requests@[i];
                let before = initial.sub_requests@[i];
                if exists|q: int| 0 <= q < j && redirections@[q].0 == i {
                    after.result is None && exists|q: int| 0 <= q < j && redirections@[q].0 == i
                        && after.node_id.0@ == pending@[q].node_id.0@
                } else {
                    after == before
                }
            },
        decreases targets@.len() - j,
    {
        let (idx, node_index, should_ask) = targets[j];
        let node_id = topology.nodes[node_index].id.duplicate();
        let ghost before_subs = request_info.sub_requests@;
        let mut sub = request_info.sub_requests.remove(idx);
        let shard_command = prepare_command_for_shard(&command, sub.keys.as_slice());
        sub.node_id = node_id.duplicate();
        sub.result = None;
        request_info.sub_requests.insert(idx, sub);
        let ghost before_pending = pending@;
        pending.push(PendingRedirection { node_id, command: shard_command, should_ask });
        proof {
            assert forall|i: int| 0 <= i < request_info.sub_requests@.len() implies (#[trigger] request_info.sub_requests@[i]).keys
                == initial.sub_requests@[i].keys by {
                if i != idx {
                    assert(request_info.sub_requests@[i] == before_subs[i]);
                }
            }
            assert forall|q: int| 0 <= q < j + 1 implies {
                let sub = initial.sub_requests@[redirections@[q].0 as int];
                &&& (#[trigger] pending@[q]).node_id.0@ == topology.nodes@[targets@[q].1 as int].id.0@
                &&& pending@[q].should_ask == targets@[q].2
                &&& is_shard_command(pending@[q].command@, command@, views(sub.keys@))
            } by {
                if q < j {
                    assert(pending@[q] == before_pending[q]);
                } else {
                    assert(before_subs[idx as int].keys == initial.sub_requests@[idx as int].keys);
                }
            }
            assert forall|i: int| 0 <= i < request_info.sub_requests@.len() implies {
                let after = #[trigger] request_info.sub_requests@[i];
                let before = initial.sub_requests@[i];
                if exists|q: int| 0 <= q < j + 1 && redirections@[q].0 == i {
                    after.result is None && exists|q: int| 0 <= q < j + 1 && redirections@[q].0 == i
                        && after.node_id.0@ == pending@[q].node_id.0@
                } else {
                    after == before
                }
            } by {
                if i == idx {
                    assert(redirections@[j as int].0 == i);
                    assert(pending@[j as int].node_id.0@ == request_info.sub_requests@[i].node_id.0@);
                } else {
                    assert(request_info.sub_requests@[i] == before_subs[i]);
                    if exists|q: int| 0 <= q < j + 1 && redirections@[q].0 == i {
                        let q0 = choose|q: int| 0 <= q < j + 1 && redirections@[q].0 == i;
                        assert(q0 < j);
                        let q1 = choose|q: int| 0 <= q < j && redirections@[q].0 == i
                            && before_subs[i].node_id.0@ == before_pending[q].node_id.0@;
                        assert(pending@[q1] == before_pending[q1]);
                    }
                }
            }
        }
        j = j + 1;
    }
    Some(pending)
}

/// Whether every redirection of a request can be followed, read from the
/// redirections its answers carry.
pub open spec fn redirections_followable(nodes: Seq<crate::cluster_topology::Node>, n_subs: int, rs: Seq<(int, RetryReasonView)>) -> bool {
    forall|k: int| 0 <= k < rs.len() ==> redirection_target(nodes, (#[trigger] rs[k]).1) is Some && rs[k].0 < n_subs
}

/// Whether `after` and `pending` are `before` with its redirected
/// sub-requests re-armed: each pending send goes to the node its redirection
/// names, under that redirection's `ASK` flag, carrying the command cut down
/// to the keys of its sub-request; each redirected sub-request is cleared and
/// awaits the node its send goes to; every other sub-request, and the rest of
/// the request, is unchanged.
pub open spec fn rearmed(
    nodes: Seq<crate::cluster_topology::Node>,
    before: RequestInfo,
    rs: Seq<(int, RetryReasonView)>,
    after: RequestInfo,
    pending: Seq<PendingRedirection>,
) -> bool {
    &&& pending.len() == rs.len()
    &&& forall|k: int| 0 <= k < pending.len() ==> {
        let target = redirection_target(nodes, rs[k].1)->0;
        let sub = before.sub_requests@[rs[k].0];
        &&& (#[trigger] pending[k]).node_id.0@ == nodes[target.0].id.0@
        &&& pending[k].should_ask == target.1
        &&& is_shard_command(pending[k].command@, before.command->0@, views(sub.keys@))
    }
    &&& after.response_policy == before.response_policy
    &&& after.keys == before.keys
    &&& after.command == before.command
    &&& after.is_pub_sub == before.is_pub_sub
    &&& after.sub_requests@.len() == before.sub_requests@.len()
    &&& forall|i: int| 0 <= i < after.sub_requests@.len() ==> {
        let a = #[trigger] after.sub_requests@[i];
        let b = before.sub_requests@[i];
        if exists|k: int| 0 <= k < rs.len() && rs[k].0 == i {
            &&& a.result is None
            &&& a.keys == b.keys
            &&& exists|k: int| 0 <= k < rs.len() && rs[k].0 == i && a.node_id.0@ == pending[k].node_id.0@
        } else {
            a == b
        }
    }
}

/// What reading a fulfilled request comes to.
#[derive(Debug)]
pub enum ReadOutcome {
    /// The request is over: its answer, or `None` for a disconnection.
    Ready(Option<Result<Reply, Error>>),
    /// Part of the request was redirected and re-armed: the request goes back
    /// to the front of the queue, and these sub-requests are sent again.
    Deferred(RequestInfo, Vec<PendingRedirection>),
}

/// Reads a fulfilled request. A command split across shards whose
/// sub-requests did not all fail is not replayed as a whole, since the shards
/// that answered already applied it: only the redirected sub-requests are
/// sent again, when every redirection can be followed. Anything else is
/// answered.
pub fn internal_read(topology: &ClusterTopology, request_info: RequestInfo) -> (r: ReadOutcome)
    ensures
        ({
            let rs = redirections(request_info.sub_requests@);
            let partial = 0 < rs.len() < request_info.sub_requests@.len();
            &&& (r is Deferred <==> (partial && request_info.command is Some && redirections_followable(
                topology.nodes@,
                request_info.sub_requests@.len() as int,
                rs,
            )))
            &&& (r matches ReadOutcome::Deferred(info, pending) ==> rearmed(
                topology.nodes@,
                request_info,
                rs,
                info,
                pending@,
            ))
            &&& (r matches ReadOutcome::Ready(x) ==> crate::cluster_request::is_reply_of(request_info, x))
        }),
{
    let found = collect_redirections(&request_info);
    let ghost rs = redirections(request_info.sub_requests@);
    proof {
        assert(all_resolvable(topology.nodes@, request_info.sub_requests@.len() as int, found@)
            == redirections_followable(topology.nodes@, request_info.sub_requests@.len() as int, rs)) by {
            if all_resolvable(topology.nodes@, request_info.sub_requests@.len() as int, found@) {
                assert forall|k: int| 0 <= k < rs.len() implies redirection_target(topology.nodes@, (#[trigger] rs[k]).1) is Some
                    && rs[k].0 < request_info.sub_requests@.len() by {
                    assert(found@[k].1@ == rs[k].1);
                }
            }
            if redirections_followable(topology.nodes@, request_info.sub_requests@.len() as int, rs) {
                assert forall|k: int| 0 <= k < found@.len() implies redirection_target(topology.nodes@, (#[trigger] found@[k]).1@) is Some
                    && found@[k].0 < request_info.sub_requests@.len() by {
                    assert(found@[k].1@ == rs[k].1);
                }
            }
        }
    }
    if found.len() > 0 && found.len() < request_info.sub_requests.len() {
        let mut info = request_info;
        let ghost initial = info;
        match rearm_redirected_sub_requests(topology, &mut info, &found) {
            Some(pending) => {
                proof {
                    let nodes = topology.nodes@;
                    assert forall|k: int| 0 <= k < pending@.len() implies {
                        let target = redirection_target(nodes, rs[k].1)->0;
                        let sub = initial.sub_requests@[rs[k].0];
                        &&& (#[trigger] pending@[k]).node_id.0@ == nodes[target.0].id.0@
                        &&& pending@[k].should_ask == target.1
                        &&& is_shard_command(pending@[k].command@, initial.command->0@, views(sub.keys@))
                    } by {
                        assert(found@[k].0 == rs[k].0 && found@[k].1@ == rs[k].1);
                    }
                    assert forall|i: int| 0 <= i < info.sub_requests@.len() implies {
                        let after = #[trigger] info.sub_requests@[i];
                        let before = initial.sub_requests@[i];
                        if exists|k: int| 0 <= k < rs.len() && rs[k].0 == i {
                            &&& after.result is None
                            &&& after.keys == before.keys
                            &&& exists|k: int| 0 <= k < rs.len() && rs[k].0 == i && after.node_id.0@ == pending@[k].node_id.0@
                        } else {
                            after == before
                        }
                    } by {
                        if exists|k: int| 0 <= k < rs.len() && rs[k].0 == i {
                            let k = choose|k: int| 0 <= k < rs.len() && rs[k].0 == i;
                            assert(found@[k].0 == rs[k].0);
                            assert(exists|q: int| 0 <= q < found@.len() && found@[q].0 == i);
                            let q = choose|q: int| 0 <= q < found@.len() && found@[q].0 == i
                                && info.sub_requests@[i].node_id.0@ == pending@[q].node_id.0@;
                            assert(found@[q].0 == rs[q].0);
                        } else {
                            if exists|q: int| 0 <= q < found@.len() && found@[q].0 == i {
                                let q = choose|q: int| 0 <= q < found@.len() && found@[q].0 == i;
                                assert(found@[q].0 == rs[q].0);
                            }
                        }
                    }
                }
                return ReadOutcome::Deferred(info, pending);
            },
            None => {
                assert(info == initial);
                return ReadOutcome::Ready(info.into_reply());
            },
        }
    }
    ReadOutcome::Ready(request_info.into_reply())
}

/// Whether re-sending redirected sub-requests calls for a topology reload
/// first: a `MOVED` among them says the slot map is stale. An `ASK` does not.
pub fn redirections_need_refresh(pending: &Vec<PendingRedirection>) -> (r: bool)
    ensures
        r == exists|k: int| 0 <= k < pending@.len() && !(#[trigger] pending@[k]).should_ask,
{
    let mut k: usize = 0;
    while k < pending.len()
        invariant
            0 <= k <= pending@.len(),
            forall|q: int| 0 <= q < k ==> (#[trigger] pending@[q]).should_ask,
        decreases pending@.len() - k,
    {
        if !pending[k].should_ask {
            return true;
        }
        k = k + 1;
    }
    false
}

/// The slices a multi-key command is cut into hold its keys, no more and no
/// fewer: read slice after slice, they are the command's keys reordered.
pub proof fn lemma_the_slices_hold_every_key(s: Seq<RoutedKey>, keys: Seq<Seq<u8>>)
    requires
        s.map_values(|x: RoutedKey| x.2@).to_multiset() == keys.to_multiset(),
    ensures
        crate::cluster_routing::slice_keys(crate::cluster_routing::slices_of(s)).to_multiset() == keys.to_multiset(),
{
    crate::cluster_routing::lemma_slices_keep_every_key(s);
    assert(Seq::new(s.len(), |i: int| s[i].2@) =~= s.map_values(|x: RoutedKey| x.2@));
}

/// How the read loop is driven: awaiting a reply, or polling for one without
/// waiting, which cannot send anything.
#[derive(Clone, Copy, Debug, PartialEq, Eq, Structural)]
pub enum ReadDrive {
    Await,
    Poll,
}

/// The next thing the read loop does.
#[derive(Clone, Copy, Debug, PartialEq, Eq, Structural)]
pub enum ReadStep {
    /// Send the re-armed sub-requests of a partly redirected request.
    FlushRedirections,
    /// Come back later: nothing more can be done without waiting.
    Yield,
    /// Drop the oldest request, which waits on a node the topology no longer
    /// holds, and answer it as a lost connection: replaying it could run a
    /// command twice, and its reply can never come.
    FailOrphan,
    /// Read the oldest request, all of whose sub-requests are answered.
    ReadFront,
    /// Take the next reply of any node.
    ReadNode,
}

/// The step the read loop takes, given whether re-armed sub-requests wait to
/// be sent, whether the oldest request waits on a node that is gone, and
/// whether the oldest request is fully answered, in that order of precedence.
/// A polling loop cannot send, so it yields where an awaiting one flushes.
pub open spec fn spec_read_step(drive: ReadDrive, redirections_pending: bool, front_orphaned: bool, front_fulfilled: bool) -> ReadStep {
    if redirections_pending {
        if drive == ReadDrive::Await {
            ReadStep::FlushRedirections
        } else {
            ReadStep::Yield
        }
    } else if front_orphaned {
        ReadStep::FailOrphan
    } else if front_fulfilled {
        ReadStep::ReadFront
    } else {
        ReadStep::ReadNode
    }
}

/// Chooses the next step of the read loop.
pub fn read_step(drive: ReadDrive, redirections_pending: bool, front_orphaned: bool, front_fulfilled: bool) -> (r: ReadStep)
    ensures
        r == spec_read_step(drive, redirections_pending, front_orphaned, front_fulfilled),
{
    if redirections_pending {
        match drive {
            ReadDrive::Await => ReadStep::FlushRedirections,
            ReadDrive::Poll => ReadStep::Yield,
        }
    } else if front_orphaned {
        ReadStep::FailOrphan
    } else if front_fulfilled {
        ReadStep::ReadFront
    } else {
        ReadStep::ReadNode
    }
}

/// The step after reading the oldest request came to a deferral: an awaiting
/// loop goes round again to send what was re-armed, a polling one yields.
pub fn step_after_deferral(drive: ReadDrive) -> (r: ReadStep)
    ensures
        r == spec_read_step(drive, true, false, false),
{
    read_step(drive, true, false, false)
}

/// What becomes of a reply taken from a node.
#[derive(Clone, Copy, Debug, PartialEq, Eq, Structural)]
pub enum NodeReplyStep {
    /// The node's connection closed: the read ends with nothing.
    Close,
    /// A push goes to the caller as it is, once the subscription request it
    /// acknowledges, if it acknowledges one, is retired.
    PassPush { retire: bool },
    /// The reply is filed against the sub-request awaiting it; none awaiting it
    /// makes the read an `UnexpectedMessageReceived` error.
    File,
}

/// What a reply taken from a node becomes. An awaiting loop ends on a closed
/// connection; a polling one files the absence like a reply. A push is handed
/// on, retiring a request only when it acknowledges a subscription change;
/// anything else, an error reply such as `MOVED` included, is filed.
pub open spec fn spec_node_reply_step(drive: ReadDrive, reply: Option<Result<Reply, Error>>) -> NodeReplyStep {
    match reply {
        None => if drive == ReadDrive::Await {
            NodeReplyStep::Close
        } else {
            NodeReplyStep::File
        },
        Some(Ok(response)) => if response.spec_is_push() {
            NodeReplyStep::PassPush {
                retire: spec_push_event(response) matches Some((kind, _)) && is_ack_kind(kind),
            }
        } else {
            NodeReplyStep::File
        },
        Some(Err(_)) => NodeReplyStep::File,
    }
}

/// Chooses what becomes of a reply taken from a node.
pub fn node_reply_step(drive: ReadDrive, reply: &Option<Result<Reply, Error>>) -> (r: NodeReplyStep)
    ensures
        r == spec_node_reply_step(drive, *reply),
{
    match reply {
        None => match drive {
            ReadDrive::Await => NodeReplyStep::Close,
            ReadDrive::Poll => NodeReplyStep::File,
        },
        Some(Ok(response)) => if response.is_push() {
            NodeReplyStep::PassPush { retire: is_subscription_ack(response) }
        } else {
            NodeReplyStep::File
        },
        Some(Err(_)) => NodeReplyStep::File,
    }
}

/// The answer of a request dropped because the node it waits on is gone.
pub fn orphan_answer() -> (r: Error)
    ensures
        r.kind == ErrorKind::DisconnectedByPeer,
        r.context is None,
{
    Error::new(ErrorKind::DisconnectedByPeer)
}

/// The answer of a read whose reply no request awaited.
pub fn unfiled_reply_answer() -> (r: Error)
    ensures
        r.kind == ErrorKind::Client(ClientError::UnexpectedMessageReceived),
        r.context is None,
{
    Error::client(ClientError::UnexpectedMessageReceived)
}

/// A command that is not a channel subscription is routed as its request
/// policy says, one for one: every node for `AllNodes`, one node per shard
/// for `AllShards`, cut by slot for `MultiShard`, refused for `Special`, and
/// one node by slot when it carries no policy.
pub proof fn lemma_the_policy_decides_the_routing(command: crate::command::CommandView)
    requires
        command.name != "SUBSCRIBE".spec_bytes(),
        command.name != "PSUBSCRIBE".spec_bytes(),
        command.name != "UNSUBSCRIBE".spec_bytes(),
        command.name != "PUNSUBSCRIBE".spec_bytes(),
    ensures
        (spec_routing_of(command) == Routing::AllNodes) <==> (command.request_policy == Some(RequestPolicy::AllNodes)),
        (spec_routing_of(command) == Routing::AllShards) <==> (command.request_policy == Some(RequestPolicy::AllShards)),
        (spec_routing_of(command) == Routing::MultiShard) <==> (command.request_policy == Some(RequestPolicy::MultiShard)),
        (spec_routing_of(command) == Routing::Special) <==> (command.request_policy == Some(RequestPolicy::Special)),
        (spec_routing_of(command) == Routing::SingleNode) <==> (command.request_policy is None),
        spec_routing_of(command) != Routing::PubSubByChannel,
{
}

/// A channel subscription names its channels, each hashed like a key; one
/// with no channel reaches every shard.
pub proof fn lemma_subscriptions_route_by_channel(command: crate::command::CommandView)
    requires
        command.name == "SUBSCRIBE".spec_bytes() || command.name == "PSUBSCRIBE".spec_bytes()
            || command.name == "UNSUBSCRIBE".spec_bytes() || command.name == "PUNSUBSCRIBE".spec_bytes(),
    ensures
        command.args.len() > 0 ==> spec_routing_of(command) == Routing::PubSubByChannel,
        command.args.len() == 0 ==> spec_routing_of(command) == Routing::AllShards,
{
}

} // verus!
