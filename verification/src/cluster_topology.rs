//! Who serves which slot, and how a command finds the node that owns it.
//!
//! The topology is two collections kept sorted: the nodes by id, the slot
//! ranges by their first slot. Lookups are binary searches over them, so an
//! insertion that appended instead of ordering would make what it added
//! invisible; the only ways in place what they add where the search finds it.
use crate::bytes_util::{lemma_lex_asymmetric, lemma_lex_irreflexive, lemma_lex_total,
    lemma_lex_transitive, lex_compare, lex_le, lex_lt, slice_to_vec, LexOrder};
use crate::error::NodeAddress;
use crate::random::random_below;
use vstd::prelude::*;

verus! {

/// A node's identifier, as the cluster names it.
#[derive(Debug)]
pub struct NodeId(pub Vec<u8>);

impl NodeId {
    pub fn from_bytes(id: &[u8]) -> (r: NodeId)
        ensures
            r.0@ == id@,
    {
        NodeId(slice_to_vec(id))
    }

    pub fn as_bytes(&self) -> (r: &[u8])
        ensures
            r@ == self.0@,
    {
        self.0.as_slice()
    }

    pub fn duplicate(&self) -> (r: NodeId)
        ensures
            r.0@ == self.0@,
    {
        NodeId(slice_to_vec(self.0.as_slice()))
    }
}

/// A node of the cluster, as the routing sees it.
#[derive(Debug)]
pub struct Node {
    pub id: NodeId,
    pub is_master: bool,
    pub address: NodeAddress,
    /// Whether a command was fed to the node since its last flush.
    pub is_dirty: bool,
}

#[derive(Debug)]
pub struct SlotRange {
    pub slot_range: (u16, u16),
    /// Node ids of the shard owning the range, the master first.
    pub node_ids: Vec<NodeId>,
    /// Round-robin cursor over the replicas of the shard. It only has to
    /// advance, so it wraps freely.
    pub next_replica: usize,
}

/// Which nodes a command with no key of its own must reach.
#[derive(Clone, Copy, PartialEq, Eq, Debug, Structural)]
pub enum NodeReach {
    /// One node per shard: the masters.
    Masters,
    /// Every node, replicas included.
    All,
}

/// The nodes of the cluster and the slots each shard owns.
#[derive(Debug, Default)]
pub struct ClusterTopology {
    /// Ordered by node id.
    pub nodes: Vec<Node>,
    /// Ordered by first slot.
    pub slot_ranges: Vec<SlotRange>,
}

/// Whether a slot range covers a slot.
pub open spec fn covers(r: SlotRange, slot: u16) -> bool {
    r.slot_range.0 <= slot <= r.slot_range.1
}

/// The first ask redirection naming `slot`, if any.
pub open spec fn ask_target(ask_reasons: Seq<(u16, NodeAddress)>, slot: u16) -> Option<(Seq<u8>, u16)>
    decreases ask_reasons.len(),
{
    if ask_reasons.len() == 0 {
        None
    } else if ask_reasons[0].0 == slot {
        Some((ask_reasons[0].1.0@, ask_reasons[0].1.1))
    } else {
        ask_target(ask_reasons.drop_first(), slot)
    }
}

/// The first node at an address, if any.
pub open spec fn first_at_address(nodes: Seq<Node>, host: Seq<u8>, port: u16) -> Option<int>
    decreases nodes.len(),
{
    if nodes.len() == 0 {
        None
    } else if nodes[0].address.0@ == host && nodes[0].address.1 == port {
        Some(0)
    } else {
        match first_at_address(nodes.drop_first(), host, port) {
            Some(i) => Some(i + 1),
            None => None,
        }
    }
}

/// Whether a keyless command sent with `reach` goes to `node`.
pub open spec fn reaches(reach: NodeReach, node: Node) -> bool {
    reach == NodeReach::All || node.is_master
}

/// The first node at an address is one of the nodes.
pub proof fn lemma_first_at_address_in_bounds(nodes: Seq<Node>, host: Seq<u8>, port: u16)
    ensures
        first_at_address(nodes, host, port) matches Some(i) ==> 0 <= i < nodes.len(),
    decreases nodes.len(),
{
    if nodes.len() > 0 {
        lemma_first_at_address_in_bounds(nodes.drop_first(), host, port);
    }
}

/// Where the round-robin probe `offset` steps past the cursor lands.
pub open spec fn probe(cursor: usize, offset: int, len: int) -> int {
    (vstd::wrapping::usize_specs::wrapping_add(cursor, offset as usize) as int) % len
}

/// How many replicas a slot range names after its master.
pub open spec fn replica_count(range: SlotRange) -> int {
    if range.node_ids@.len() > 0 {
        range.node_ids@.len() - 1
    } else {
        0
    }
}

/// The id of the replica that probe `o` of a range's round looks at: the
/// round starts at the range's cursor and wraps over its replicas.
pub open spec fn probed_replica(range: SlotRange, o: int) -> Seq<u8> {
    range.node_ids@[1 + probe(range.next_replica, o, replica_count(range))].0@
}

/// Whether a range's round picks node `n` at probe `o`: the replica probed
/// there is node `n`, and every earlier probe named a replica that is not
/// one of the nodes.
pub open spec fn picks_replica(nodes: Seq<Node>, range: SlotRange, o: int, n: usize) -> bool {
    &&& 0 <= o < replica_count(range)
    &&& resolves(nodes, probed_replica(range, o), Some(n))
    &&& forall|e: int| 0 <= e < o ==> !resolvable(nodes, #[trigger] probed_replica(range, e))
}

/// The range with its cursor moved just past probe `o`.
pub open spec fn advanced(range: SlotRange, o: int) -> SlotRange {
    SlotRange {
        next_replica: vstd::wrapping::usize_specs::wrapping_add(
            vstd::wrapping::usize_specs::wrapping_add(range.next_replica, o as usize),
            1,
        ),
        ..range
    }
}

/// Whether `after` is `before` once a range covering `slot` picked node `n`
/// in its round: the range's cursor moved past the probe that found `n`,
/// and nothing else changed.
pub open spec fn replica_picked(before: ClusterTopology, after: ClusterTopology, slot: u16, n: usize) -> bool {
    exists|ri: int, o: int|
        0 <= ri < before.slot_ranges@.len() && covers(before.slot_ranges@[ri], slot) && #[trigger] picks_replica(
            before.nodes@,
            before.slot_ranges@[ri],
            o,
            n,
        ) && after.nodes == before.nodes && after.slot_ranges@ == before.slot_ranges@.update(
            ri,
            advanced(before.slot_ranges@[ri], o),
        )
}

/// Whether no round finds a replica for `slot`: on disjoint ranges, every
/// probe of every range covering it names a replica that is not a node.
pub open spec fn no_replica_found(topology: ClusterTopology, slot: u16) -> bool {
    topology.ranges_disjoint() ==> forall|ri: int, o: int|
        0 <= ri < topology.slot_ranges@.len() && covers(topology.slot_ranges@[ri], slot) && 0 <= o < replica_count(
            topology.slot_ranges@[ri],
        ) ==> !resolvable(topology.nodes@, #[trigger] probed_replica(topology.slot_ranges@[ri], o))
}

/// Whether `after` and `r` are what choosing a node for `slot` makes of
/// `before`: the choice `slot_choice` describes, made by the node an `ASK`
/// names or the master with the topology untouched, or for a read by the
/// round-robin of the covering range, whose cursor alone moves.
pub open spec fn slot_pick(
    before: ClusterTopology,
    after: ClusterTopology,
    ask_reasons: Seq<(u16, NodeAddress)>,
    slot: u16,
    for_read: bool,
    r: Option<(usize, bool)>,
) -> bool {
    &&& routes_alike(before, after)
    &&& slot_choice(before, ask_reasons, slot, for_read, r)
    &&& (ask_target(ask_reasons, slot) is Some || !for_read) ==> after.slot_ranges == before.slot_ranges
    &&& (ask_target(ask_reasons, slot) is None && for_read) ==> ((r matches Some(p) && !p.1 && replica_picked(
        before,
        after,
        slot,
        p.0,
    )) || (after.slot_ranges == before.slot_ranges && no_replica_found(before, slot)))
}

/// On disjoint ranges, at most one range covers a slot.
pub proof fn lemma_one_range_covers(topology: ClusterTopology, slot: u16, ri: int)
    requires
        0 <= ri < topology.slot_ranges@.len(),
        covers(topology.slot_ranges@[ri], slot),
    ensures
        topology.ranges_disjoint() ==> forall|rj: int|
            0 <= rj < topology.slot_ranges@.len() && covers(#[trigger] topology.slot_ranges@[rj], slot) ==> rj == ri,
{
    if topology.ranges_disjoint() {
        assert forall|rj: int| 0 <= rj < topology.slot_ranges@.len() && covers(#[trigger] topology.slot_ranges@[rj], slot) implies rj
            == ri by {
            if rj < ri {
                assert(topology.slot_ranges@[rj].slot_range.1 < topology.slot_ranges@[ri].slot_range.0);
            } else if rj > ri {
                assert(topology.slot_ranges@[ri].slot_range.1 < topology.slot_ranges@[rj].slot_range.0);
            }
        }
    }
}

/// What the node chosen for a slot is, read from the topology the choice was
/// made on: the node an `ASK` for the slot names, if one does; otherwise the
/// master of a range covering the slot, or for a read one of its reachable
/// replicas.
pub open spec fn slot_choice(
    topology: ClusterTopology,
    ask_reasons: Seq<(u16, NodeAddress)>,
    slot: u16,
    for_read: bool,
    r: Option<(usize, bool)>,
) -> bool {
    let nodes = topology.nodes@;
    let ranges = topology.slot_ranges@;
    &&& (r matches Some(p) ==> p.0 < nodes.len())
    &&& (ask_target(ask_reasons, slot) matches Some(target) ==> r == (match first_at_address(nodes, target.0, target.1) {
        Some(i) => Some((i as usize, true)),
        None => None,
    }))
    &&& (ask_target(ask_reasons, slot) is None ==> (r matches Some(p) ==> !p.1 && exists|ri: int|
        0 <= ri < ranges.len() && covers(#[trigger] ranges[ri], slot) && (is_master_of(nodes, ranges[ri], p.0 as int)
            || (for_read && is_replica_of(nodes, ranges[ri], p.0 as int)))))
    &&& (ask_target(ask_reasons, slot) is None && topology.ranges_disjoint() ==> forall|ri: int|
        0 <= ri < ranges.len() && covers(#[trigger] ranges[ri], slot) ==> {
            let range = ranges[ri];
            &&& (for_read && has_reachable_replica(nodes, range) && range.next_replica + range.node_ids@.len()
                <= usize::MAX) ==> (r matches Some(p) && is_replica_of(nodes, range, p.0 as int))
            &&& (!for_read && range.node_ids@.len() > 0 && resolvable(nodes, range.node_ids@[0].0@)) ==> (r matches Some(p)
                && is_master_of(nodes, range, p.0 as int))
            &&& r is None ==> !(range.node_ids@.len() > 0 && resolvable(nodes, range.node_ids@[0].0@))
        })
    &&& (ask_target(ask_reasons, slot) is None && topology.ranges_disjoint() && r is None ==> forall|ri: int|
        0 <= ri < ranges.len() ==> !covers(#[trigger] ranges[ri], slot) || !(ranges[ri].node_ids@.len() > 0
            && resolvable(nodes, ranges[ri].node_ids@[0].0@)))
}

/// Whether a node answers for a slot: with an `ASKING`, the node an `ASK` for
/// the slot names; otherwise, without one, the master of a range covering the
/// slot or, for a read, one of its replicas.
pub open spec fn serves_slot(
    topology: ClusterTopology,
    ask_reasons: Seq<(u16, NodeAddress)>,
    slot: u16,
    for_read: bool,
    p: (usize, bool),
) -> bool {
    let nodes = topology.nodes@;
    let ranges = topology.slot_ranges@;
    match ask_target(ask_reasons, slot) {
        Some(target) => p.1 && first_at_address(nodes, target.0, target.1) == Some(p.0 as int),
        None => !p.1 && exists|ri: int|
            0 <= ri < ranges.len() && covers(#[trigger] ranges[ri], slot) && (is_master_of(nodes, ranges[ri], p.0 as int)
                || (for_read && is_replica_of(nodes, ranges[ri], p.0 as int))),
    }
}

/// Whether two topologies route alike: the same nodes, and slot ranges that
/// differ at most in where their replica rotation stands.
pub open spec fn routes_alike(a: ClusterTopology, b: ClusterTopology) -> bool {
    &&& a.nodes == b.nodes
    &&& a.slot_ranges@.len() == b.slot_ranges@.len()
    &&& forall|i: int|
        0 <= i < a.slot_ranges@.len() ==> (#[trigger] a.slot_ranges@[i]).slot_range == b.slot_ranges@[i].slot_range
            && a.slot_ranges@[i].node_ids == b.slot_ranges@[i].node_ids
}

/// A choice made for a slot is a node that serves it.
pub proof fn lemma_choice_serves_slot(
    topology: ClusterTopology,
    ask_reasons: Seq<(u16, NodeAddress)>,
    slot: u16,
    for_read: bool,
    p: (usize, bool),
)
    requires
        topology.nodes@.len() <= usize::MAX,
        slot_choice(topology, ask_reasons, slot, for_read, Some(p)),
    ensures
        serves_slot(topology, ask_reasons, slot, for_read, p),
{
    if let Some(target) = ask_target(ask_reasons, slot) {
        lemma_first_at_address_in_bounds(topology.nodes@, target.0, target.1);
    }
}

/// Whether a slot has a node to go to: the node an `ASK` for the slot names,
/// if one does; otherwise the master of a range covering the slot, when that
/// master is one of the nodes.
pub open spec fn slot_served(topology: ClusterTopology, ask_reasons: Seq<(u16, NodeAddress)>, slot: u16) -> bool {
    let nodes = topology.nodes@;
    let ranges = topology.slot_ranges@;
    match ask_target(ask_reasons, slot) {
        Some(target) => first_at_address(nodes, target.0, target.1) is Some,
        None => exists|ri: int|
            0 <= ri < ranges.len() && covers(#[trigger] ranges[ri], slot) && ranges[ri].node_ids@.len() > 0
                && resolvable(nodes, ranges[ri].node_ids@[0].0@),
    }
}

/// On disjoint ranges, a slot that is served always gets a node.
pub proof fn lemma_served_slot_is_chosen(
    topology: ClusterTopology,
    ask_reasons: Seq<(u16, NodeAddress)>,
    slot: u16,
    for_read: bool,
    r: Option<(usize, bool)>,
)
    requires
        topology.ranges_disjoint(),
        slot_choice(topology, ask_reasons, slot, for_read, r),
        slot_served(topology, ask_reasons, slot),
    ensures
        r is Some,
{
    if ask_target(ask_reasons, slot) is None {
        let ranges = topology.slot_ranges@;
        let ri = choose|ri: int|
            0 <= ri < ranges.len() && covers(#[trigger] ranges[ri], slot) && ranges[ri].node_ids@.len() > 0
                && resolvable(topology.nodes@, ranges[ri].node_ids@[0].0@);
        assert(covers(ranges[ri], slot));
    }
}

/// A node chosen for a write is the `ASK` target or the slot's master, so the
/// slot is served.
pub proof fn lemma_written_slot_is_served(
    topology: ClusterTopology,
    ask_reasons: Seq<(u16, NodeAddress)>,
    slot: u16,
    p: (usize, bool),
)
    requires
        slot_choice(topology, ask_reasons, slot, false, Some(p)),
    ensures
        slot_served(topology, ask_reasons, slot),
{
    if ask_target(ask_reasons, slot) is None {
        let ranges = topology.slot_ranges@;
        let ri = choose|ri: int|
            0 <= ri < ranges.len() && covers(#[trigger] ranges[ri], slot) && is_master_of(
                topology.nodes@,
                ranges[ri],
                p.0 as int,
            );
        assert(topology.nodes@[p.0 as int].id.0@ == ranges[ri].node_ids@[0].0@);
        assert(resolvable(topology.nodes@, ranges[ri].node_ids@[0].0@));
    }
}

/// Topologies that route alike serve the same slots, and have disjoint
/// ranges together.
pub proof fn lemma_alike_served_alike(
    a: ClusterTopology,
    b: ClusterTopology,
    ask_reasons: Seq<(u16, NodeAddress)>,
    slot: u16,
)
    requires
        routes_alike(a, b),
    ensures
        slot_served(a, ask_reasons, slot) == slot_served(b, ask_reasons, slot),
        a.ranges_disjoint() == b.ranges_disjoint(),
{
    if ask_target(ask_reasons, slot) is None {
        if slot_served(a, ask_reasons, slot) {
            let ri = choose|ri: int|
                0 <= ri < a.slot_ranges@.len() && covers(#[trigger] a.slot_ranges@[ri], slot)
                    && a.slot_ranges@[ri].node_ids@.len() > 0 && resolvable(a.nodes@, a.slot_ranges@[ri].node_ids@[0].0@);
            assert(covers(b.slot_ranges@[ri], slot));
        }
        if slot_served(b, ask_reasons, slot) {
            let ri = choose|ri: int|
                0 <= ri < b.slot_ranges@.len() && covers(#[trigger] b.slot_ranges@[ri], slot)
                    && b.slot_ranges@[ri].node_ids@.len() > 0 && resolvable(b.nodes@, b.slot_ranges@[ri].node_ids@[0].0@);
            assert(covers(a.slot_ranges@[ri], slot));
        }
    }
    if a.ranges_disjoint() {
        assert forall|i: int, j: int| 0 <= i < j < b.slot_ranges@.len() implies (#[trigger] b.slot_ranges@[i]).slot_range.1
            < (#[trigger] b.slot_ranges@[j]).slot_range.0 by {
            assert(a.slot_ranges@[i].slot_range.1 < a.slot_ranges@[j].slot_range.0);
        }
    }
    if b.ranges_disjoint() {
        assert forall|i: int, j: int| 0 <= i < j < a.slot_ranges@.len() implies (#[trigger] a.slot_ranges@[i]).slot_range.1
            < (#[trigger] a.slot_ranges@[j]).slot_range.0 by {
            assert(b.slot_ranges@[i].slot_range.1 < b.slot_ranges@[j].slot_range.0);
        }
    }
}

/// Topologies that route alike agree on who serves a slot.
pub proof fn lemma_alike_serve_alike(
    a: ClusterTopology,
    b: ClusterTopology,
    ask_reasons: Seq<(u16, NodeAddress)>,
    slot: u16,
    for_read: bool,
    p: (usize, bool),
)
    requires
        routes_alike(a, b),
        serves_slot(a, ask_reasons, slot, for_read, p),
    ensures
        serves_slot(b, ask_reasons, slot, for_read, p),
{
    if ask_target(ask_reasons, slot) is None {
        let ri = choose|ri: int|
            0 <= ri < a.slot_ranges@.len() && covers(#[trigger] a.slot_ranges@[ri], slot) && (is_master_of(
                a.nodes@,
                a.slot_ranges@[ri],
                p.0 as int,
            ) || (for_read && is_replica_of(a.nodes@, a.slot_ranges@[ri], p.0 as int)));
        let (ra, rb) = (a.slot_ranges@[ri], b.slot_ranges@[ri]);
        assert(covers(rb, slot));
        if is_replica_of(a.nodes@, ra, p.0 as int) {
            let k = choose|k: int| 1 <= k < ra.node_ids@.len() && a.nodes@[p.0 as int].id.0@ == (#[trigger] ra.node_ids@[k]).0@;
            assert(rb.node_ids@[k] == ra.node_ids@[k]);
        }
    }
}

impl ClusterTopology {
    /// Both collections are sorted: nodes by id, slot ranges by first slot.
    pub open spec fn wf(&self) -> bool {
        &&& forall|i: int, j: int|
            0 <= i < j < self.nodes@.len() ==> lex_le(
                #[trigger] self.nodes@[i].id.0@,
                #[trigger] self.nodes@[j].id.0@,
            )
        &&& forall|i: int, j: int|
            0 <= i < j < self.slot_ranges@.len() ==> (#[trigger] self.slot_ranges@[i]).slot_range.0
                <= (#[trigger] self.slot_ranges@[j]).slot_range.0
    }

    /// The slot ranges do not overlap, as a cluster assigns them.
    pub open spec fn ranges_disjoint(&self) -> bool {
        forall|i: int, j: int|
            0 <= i < j < self.slot_ranges@.len() ==> (#[trigger] self.slot_ranges@[i]).slot_range.1
                < (#[trigger] self.slot_ranges@[j]).slot_range.0
    }

    pub fn new() -> (r: ClusterTopology)
        ensures
            r.wf(),
            r.nodes@.len() == 0,
            r.slot_ranges@.len() == 0,
    {
        ClusterTopology { nodes: Vec::new(), slot_ranges: Vec::new() }
    }

    /// The node at an index.
    pub fn node(&self, index: usize) -> (r: Option<&Node>)
        ensures
            index < self.nodes@.len() ==> r == Some(&self.nodes@[index as int]),
            index >= self.nodes@.len() ==> r is None,
    {
        if index < self.nodes.len() {
            Some(&self.nodes[index])
        } else {
            None
        }
    }

    pub fn node_count(&self) -> (r: usize)
        ensures
            r == self.nodes@.len(),
    {
        self.nodes.len()
    }

    pub fn is_empty(&self) -> (r: bool)
        ensures
            r == (self.nodes@.len() == 0),
    {
        self.nodes.len() == 0
    }

    pub fn slot_ranges(&self) -> (r: &Vec<SlotRange>)
        ensures
            r == &self.slot_ranges,
    {
        &self.slot_ranges
    }

    /// Whether every node held is a master, i.e. no replica is connected yet.
    pub fn holds_no_replica(&self) -> (r: bool)
        ensures
            r == forall|i: int| 0 <= i < self.nodes@.len() ==> #[trigger] self.nodes@[i].is_master,
    {
        let mut i: usize = 0;
        while i < self.nodes.len()
            invariant
                0 <= i <= self.nodes@.len(),
                forall|j: int| 0 <= j < i ==> #[trigger] self.nodes@[j].is_master,
            decreases self.nodes@.len() - i,
        {
            if !self.nodes[i].is_master {
                return false;
            }
            i = i + 1;
        }
        true
    }

    /// The addresses of the nodes held, in node order.
    pub fn addresses(&self) -> (r: Vec<NodeAddress>)
        ensures
            r@.len() == self.nodes@.len(),
            forall|i: int|
                0 <= i < r@.len() ==> (#[trigger] r@[i]).0@ == self.nodes@[i].address.0@ && r@[i].1
                    == self.nodes@[i].address.1,
    {
        let mut r: Vec<NodeAddress> = Vec::new();
        let mut i: usize = 0;
        while i < self.nodes.len()
            invariant
                0 <= i <= self.nodes@.len(),
                r@.len() == i,
                forall|j: int|
                    0 <= j < i ==> (#[trigger] r@[j]).0@ == self.nodes@[j].address.0@ && r@[j].1
                        == self.nodes@[j].address.1,
            decreases self.nodes@.len() - i,
        {
            let host = slice_to_vec(self.nodes[i].address.0.as_slice());
            r.push((host, self.nodes[i].address.1));
            i = i + 1;
        }
        r
    }

    /// Adds a node where the id search will find it.
    pub fn insert_node(&mut self, node: Node)
        requires
            old(self).wf(),
        ensures
            final(self).wf(),
            final(self).slot_ranges == old(self).slot_ranges,
            exists|p: int|
                0 <= p <= old(self).nodes@.len() && final(self).nodes@ == old(self).nodes@.insert(
                    p,
                    node,
                ),
    {
        let mut p: usize = 0;
        while p < self.nodes.len()
            invariant
                0 <= p <= self.nodes@.len(),
                self.wf(),
                self.nodes == old(self).nodes,
                self.slot_ranges == old(self).slot_ranges,
                forall|j: int| 0 <= j < p ==> lex_lt(#[trigger] self.nodes@[j].id.0@, node.id.0@),
            ensures
                0 <= p <= self.nodes@.len(),
                self.wf(),
                self.nodes == old(self).nodes,
                self.slot_ranges == old(self).slot_ranges,
                forall|j: int| 0 <= j < p ==> lex_lt(#[trigger] self.nodes@[j].id.0@, node.id.0@),
                p < self.nodes@.len() ==> !lex_lt(self.nodes@[p as int].id.0@, node.id.0@),
            decreases self.nodes@.len() - p,
        {
            match lex_compare(self.nodes[p].id.0.as_slice(), node.id.0.as_slice()) {
                LexOrder::Before => {},
                _ => break,
            }
            p = p + 1;
        }
        proof {
            if p < self.nodes@.len() {
                lemma_lex_total(self.nodes@[p as int].id.0@, node.id.0@);
            }
        }
        let ghost before = self.nodes@;
        self.nodes.insert(p, node);
        proof {
            let after = self.nodes@;
            assert(after == before.insert(p as int, node));
            assert forall|i: int, j: int|
                0 <= i < j < after.len() implies lex_le(
                #[trigger] after[i].id.0@,
                #[trigger] after[j].id.0@,
            ) by {
                if i < p && j == p {
                } else if i < p && j > p {
                    assert(after[j] == before[j - 1]);
                    if p < before.len() {
                        assert(lex_le(node.id.0@, before[p as int].id.0@));
                        if j - 1 > p {
                            assert(lex_le(before[p as int].id.0@, before[j - 1].id.0@));
                        }
                    }
                    lemma_lex_le_via(after[i].id.0@, node.id.0@, after[j].id.0@, before, p as int, j - 1);
                } else if i == p {
                    assert(after[j] == before[j - 1]);
                    if j - 1 > p {
                        assert(lex_le(before[p as int].id.0@, before[j - 1].id.0@));
                        lemma_lex_le_trans(node.id.0@, before[p as int].id.0@, before[j - 1].id.0@);
                    }
                } else if i > p {
                    assert(after[i] == before[i - 1]);
                    assert(after[j] == before[j - 1]);
                }
            }
        }
    }

    /// Adds a slot range where the slot search will find it.
    pub fn insert_slot_range(&mut self, slot_range: SlotRange)
        requires
            old(self).wf(),
        ensures
            final(self).wf(),
            final(self).nodes == old(self).nodes,
            exists|p: int|
                0 <= p <= old(self).slot_ranges@.len() && final(self).slot_ranges@ == old(
                    self,
                ).slot_ranges@.insert(p, slot_range),
    {
        let mut p: usize = 0;
        while p < self.slot_ranges.len()
            invariant
                0 <= p <= self.slot_ranges@.len(),
                self.wf(),
                self.nodes == old(self).nodes,
                self.slot_ranges == old(self).slot_ranges,
                forall|j: int| 0 <= j < p ==> (#[trigger] self.slot_ranges@[j]).slot_range.0 < slot_range.slot_range.0,
            ensures
                0 <= p <= self.slot_ranges@.len(),
                self.wf(),
                self.nodes == old(self).nodes,
                self.slot_ranges == old(self).slot_ranges,
                forall|j: int| 0 <= j < p ==> (#[trigger] self.slot_ranges@[j]).slot_range.0 < slot_range.slot_range.0,
                p < self.slot_ranges@.len() ==> self.slot_ranges@[p as int].slot_range.0 >= slot_range.slot_range.0,
            decreases self.slot_ranges@.len() - p,
        {
            if self.slot_ranges[p].slot_range.0 >= slot_range.slot_range.0 {
                break;
            }
            p = p + 1;
        }
        let ghost before = self.slot_ranges@;
        self.slot_ranges.insert(p, slot_range);
        proof {
            let after = self.slot_ranges@;
            assert forall|i: int, j: int|
                0 <= i < j < after.len() implies (#[trigger] after[i]).slot_range.0 <= (
                #[trigger] after[j]).slot_range.0 by {
                if i < p && j > p {
                    assert(after[j] == before[j - 1]);
                } else if i == p && j > p {
                    assert(after[j] == before[j - 1]);
                    assert(before[p as int].slot_range.0 <= before[j - 1].slot_range.0);
                } else if i > p {
                    assert(after[i] == before[i - 1]);
                    assert(after[j] == before[j - 1]);
                }
            }
        }
    }

    pub fn clear_slot_ranges(&mut self)
        requires
            old(self).wf(),
        ensures
            final(self).wf(),
            final(self).slot_ranges@.len() == 0,
            final(self).nodes == old(self).nodes,
    {
        self.slot_ranges.clear();
    }

    /// The index of the node with id `id`.
    pub fn node_index_by_id(&self, id: &NodeId) -> (r: Option<usize>)
        requires
            self.wf(),
        ensures
            r matches Some(i) ==> i < self.nodes@.len() && self.nodes@[i as int].id.0@ == id.0@,
            r is None ==> forall|i: int| 0 <= i < self.nodes@.len() ==> #[trigger] self.nodes@[i].id.0@ != id.0@,
    {
        let mut lo: usize = 0;
        let mut hi: usize = self.nodes.len();
        while lo < hi
            invariant
                0 <= lo <= hi <= self.nodes@.len(),
                self.wf(),
                forall|i: int| 0 <= i < lo ==> lex_lt(#[trigger] self.nodes@[i].id.0@, id.0@),
                forall|i: int| hi <= i < self.nodes@.len() ==> lex_lt(id.0@, #[trigger] self.nodes@[i].id.0@),
            decreases hi - lo,
        {
            let mid = lo + (hi - lo) / 2;
            match lex_compare(self.nodes[mid].id.0.as_slice(), id.0.as_slice()) {
                LexOrder::Same => return Some(mid),
                LexOrder::Before => {
                    proof {
                        assert forall|i: int| 0 <= i <= mid implies lex_lt(#[trigger] self.nodes@[i].id.0@, id.0@) by {
                            if i < mid {
                                assert(lex_le(self.nodes@[i].id.0@, self.nodes@[mid as int].id.0@));
                                lemma_lex_le_lt(self.nodes@[i].id.0@, self.nodes@[mid as int].id.0@, id.0@);
                            }
                        }
                    }
                    lo = mid + 1;
                },
                LexOrder::After => {
                    proof {
                        assert forall|i: int| mid <= i < self.nodes@.len() implies lex_lt(id.0@, #[trigger] self.nodes@[i].id.0@) by {
                            if i > mid {
                                assert(lex_le(self.nodes@[mid as int].id.0@, self.nodes@[i].id.0@));
                                lemma_lt_lex_le(id.0@, self.nodes@[mid as int].id.0@, self.nodes@[i].id.0@);
                            }
                        }
                    }
                    hi = mid;
                },
            }
        }
        proof {
            assert forall|i: int| 0 <= i < self.nodes@.len() implies #[trigger] self.nodes@[i].id.0@ != id.0@ by {
                if i < lo {
                    lemma_lex_irreflexive(id.0@);
                } else {
                    lemma_lex_irreflexive(id.0@);
                }
            }
        }
        None
    }

    /// The first node at an address.
    pub fn node_index_by_address(&self, address: &NodeAddress) -> (r: Option<usize>)
        ensures
            match first_at_address(self.nodes@, address.0@, address.1) {
                Some(i) => r == Some(i as usize),
                None => r is None,
            },
            r matches Some(i) ==> i < self.nodes@.len(),
    {
        let mut i: usize = 0;
        assert(self.nodes@.subrange(0, self.nodes@.len() as int) =~= self.nodes@);
        while i < self.nodes.len()
            invariant
                0 <= i <= self.nodes@.len(),
                first_at_address(self.nodes@, address.0@, address.1) == (match first_at_address(
                    self.nodes@.subrange(i as int, self.nodes@.len() as int),
                    address.0@,
                    address.1,
                ) {
                    Some(k) => Some(k + i),
                    None => None,
                }),
            decreases self.nodes@.len() - i,
        {
            let ghost rest = self.nodes@.subrange(i as int, self.nodes@.len() as int);
            assert(rest.drop_first() =~= self.nodes@.subrange(i + 1, self.nodes@.len() as int));
            if crate::bytes_util::bytes_eq(self.nodes[i].address.0.as_slice(), address.0.as_slice())
                && self.nodes[i].address.1 == address.1 {
                return Some(i);
            }
            i = i + 1;
        }
        None
    }

    pub fn holds_address(&self, address: &NodeAddress) -> (r: bool)
        ensures
            r == first_at_address(self.nodes@, address.0@, address.1) is Some,
    {
        self.node_index_by_address(address).is_some()
    }

    /// A node picked at random, or `None` when there is none.
    pub fn random_node_index(&self) -> (r: Option<usize>)
        ensures
            self.nodes@.len() == 0 ==> r is None,
            self.nodes@.len() > 0 ==> (r matches Some(i) && i < self.nodes@.len()),
    {
        if self.nodes.len() == 0 {
            return None;
        }
        let pick = random_below(self.nodes.len() as u64);
        Some(pick as usize)
    }

    /// The index of the slot range serving `slot`.
    pub fn slot_range_index(&self, slot: u16) -> (r: Option<usize>)
        requires
            self.wf(),
        ensures
            r matches Some(i) ==> i < self.slot_ranges@.len() && covers(self.slot_ranges@[i as int], slot),
            r is None && self.ranges_disjoint() ==> forall|i: int|
                0 <= i < self.slot_ranges@.len() ==> !covers(#[trigger] self.slot_ranges@[i], slot),
    {
        let mut lo: usize = 0;
        let mut hi: usize = self.slot_ranges.len();
        while lo < hi
            invariant
                0 <= lo <= hi <= self.slot_ranges@.len(),
                self.wf(),
                self.ranges_disjoint() ==> forall|i: int| 0 <= i < lo ==> (#[trigger] self.slot_ranges@[i]).slot_range.1 < slot,
                forall|i: int| hi <= i < self.slot_ranges@.len() ==> (#[trigger] self.slot_ranges@[i]).slot_range.0 > slot,
            decreases hi - lo,
        {
            let mid = lo + (hi - lo) / 2;
            let (start, end) = self.slot_ranges[mid].slot_range;
            if start > slot {
                hi = mid;
            } else if end < slot {
                proof {
                    if self.ranges_disjoint() {
                        assert forall|i: int| 0 <= i <= mid implies (#[trigger] self.slot_ranges@[i]).slot_range.1 < slot by {
                            if i < mid {
                                assert(self.slot_ranges@[i].slot_range.1 < self.slot_ranges@[mid as int].slot_range.0);
                            }
                        }
                    }
                }
                lo = mid + 1;
            } else {
                return Some(mid);
            }
        }
        None
    }

    /// The slot range serving `slot`.
    pub fn slot_range_by_slot(&self, slot: u16) -> (r: Option<&SlotRange>)
        requires
            self.wf(),
        ensures
            r matches Some(s) ==> covers(*s, slot) && exists|i: int|
                0 <= i < self.slot_ranges@.len() && self.slot_ranges@[i] == *s,
            r is None && self.ranges_disjoint() ==> forall|i: int|
                0 <= i < self.slot_ranges@.len() ==> !covers(#[trigger] self.slot_ranges@[i], slot),
    {
        match self.slot_range_index(slot) {
            Some(i) => Some(&self.slot_ranges[i]),
            None => None,
        }
    }

    /// The next replica of the shard owning `slot`, advancing the shard's
    /// round-robin cursor past it; `None` when the shard has no replica that
    /// is connected, in which case the caller falls back to the master.
    pub fn replica_node_index_by_slot(&mut self, slot: u16) -> (r: Option<usize>)
        requires
            old(self).wf(),
        ensures
            final(self).wf(),
            final(self).nodes == old(self).nodes,
            final(self).slot_ranges@.len() == old(self).slot_ranges@.len(),
            forall|i: int|
                0 <= i < final(self).slot_ranges@.len() ==> (#[trigger] final(self).slot_ranges@[i]).slot_range
                    == old(self).slot_ranges@[i].slot_range && final(self).slot_ranges@[i].node_ids
                    == old(self).slot_ranges@[i].node_ids,
            r is None ==> final(self).slot_ranges == old(self).slot_ranges,
            r is None ==> no_replica_found(*old(self), slot),
            r matches Some(n) ==> replica_picked(*old(self), *final(self), slot, n),
            r matches Some(n) ==> exists|ri: int|
                0 <= ri < old(self).slot_ranges@.len() && covers(
                    #[trigger] old(self).slot_ranges@[ri],
                    slot,
                ) && is_replica_of(old(self).nodes@, old(self).slot_ranges@[ri], n as int),
            r is None && old(self).ranges_disjoint() ==> forall|ri: int|
                0 <= ri < old(self).slot_ranges@.len() && covers(#[trigger] old(self).slot_ranges@[ri], slot)
                    && old(self).slot_ranges@[ri].next_replica + old(self).slot_ranges@[ri].node_ids@.len()
                    <= usize::MAX ==> !has_reachable_replica(old(self).nodes@, old(self).slot_ranges@[ri]),
    {
        let range_index = match self.slot_range_index(slot) {
            Some(i) => i,
            None => return None,
        };
        let ghost range = self.slot_ranges@[range_index as int];
        proof {
            lemma_one_range_covers(*old(self), slot, range_index as int);
        }
        let mut replica_ids: Vec<NodeId> = Vec::new();
        let mut k: usize = 1;
        while k < self.slot_ranges[range_index].node_ids.len()
            invariant
                range_index < self.slot_ranges@.len(),
                range == self.slot_ranges@[range_index as int],
                1 <= k <= range.node_ids@.len() || (k == 1 && range.node_ids@.len() == 0),
                replica_ids@.len() == k - 1,
                forall|j: int| 0 <= j < k - 1 ==> (#[trigger] replica_ids@[j]).0@ == range.node_ids@[j + 1].0@,
            decreases range.node_ids@.len() - k,
        {
            replica_ids.push(self.slot_ranges[range_index].node_ids[k].duplicate());
            k = k + 1;
        }
        assert(replica_ids@.len() + 1 == range.node_ids@.len() || range.node_ids@.len() == 0);
        if replica_ids.len() == 0 {
            proof {
                assert forall|kk: int| 1 <= kk < range.node_ids@.len() implies !resolvable(self.nodes@, (#[trigger] range.node_ids@[kk]).0@) by {}
                assert(replica_count(range) == 0);
            }
            return None;
        }
        let mut cursor = self.slot_ranges[range_index].next_replica;
        let ghost c = cursor;
        let ghost len = replica_ids@.len() as int;
        let ghost nodes = self.nodes@;
        let topology = &*self;
        let lookup = |id: &NodeId| -> (found: Option<usize>)
            requires
                topology.wf(),
            ensures
                resolves(topology.nodes@, id.0@, found),
            {
                let found = topology.node_index_by_id(id);
                proof {
                    if found is None {
                        assert forall|i: int| 0 <= i < topology.nodes@.len() implies (#[trigger] topology.nodes@[i]).id.0@ != id.0@ by {}
                    }
                }
                found
            };
        let picked = select_replica(replica_ids.as_slice(), &mut cursor, lookup);
        let ghost mut picked_at: int = 0;
        proof {
            assert(replica_count(range) == len);
            assert forall|o: int| 0 <= o < len implies #[trigger] probed_replica(range, o) == replica_ids@[probe(c, o, len)].0@ by {
                let pos = probe(c, o, len);
                assert(0 <= pos < len);
            }
        }
        let node_index = match picked {
            Some(n) => {
                proof {
                    assert(exists|o: int| 0 <= o < len && #[trigger] lookup.ensures((&replica_ids@[probe(c, o, len)],), Some(n)));
                    let o = choose|o: int| 0 <= o < len && #[trigger] lookup.ensures((&replica_ids@[probe(c, o, len)],), Some(n))
                        && (forall|e: int| 0 <= e < o ==> #[trigger] lookup.ensures((&replica_ids@[probe(c, e, len)],), None))
                        && cursor == vstd::wrapping::usize_specs::wrapping_add(
                            vstd::wrapping::usize_specs::wrapping_add(c, o as usize),
                            1,
                        );
                    picked_at = o;
                    assert(probed_replica(range, o) == replica_ids@[probe(c, o, len)].0@);
                    assert forall|e: int| 0 <= e < o implies !resolvable(nodes, #[trigger] probed_replica(range, e)) by {
                        assert(lookup.ensures((&replica_ids@[probe(c, e, len)],), None));
                        assert(probed_replica(range, e) == replica_ids@[probe(c, e, len)].0@);
                    }
                    assert(picks_replica(nodes, range, o, n));
                    let pos = probe(c, o, len);
                    assert(0 <= pos < len);
                    assert(resolves(nodes, replica_ids@[pos].0@, Some(n)));
                    assert(range.node_ids@[pos + 1].0@ == replica_ids@[pos].0@);
                    assert(is_replica_of(nodes, range, n as int));
                }
                n
            },
            None => {
                proof {
                    if old(self).ranges_disjoint() && c + range.node_ids@.len() <= usize::MAX {
                        assert forall|kk: int| 1 <= kk < range.node_ids@.len() implies !resolvable(nodes, (#[trigger] range.node_ids@[kk]).0@) by {
                            lemma_probe_covers(c, kk - 1, len);
                            let o = choose|o: int| 0 <= o < len && probe(c, o, len) == kk - 1;
                            assert(lookup.ensures((&replica_ids@[probe(c, o, len)],), None));
                            assert(replica_ids@[kk - 1].0@ == range.node_ids@[kk].0@);
                        }
                    }
                    assert forall|o: int| 0 <= o < replica_count(range) implies !resolvable(nodes, #[trigger] probed_replica(range, o)) by {
                        assert(lookup.ensures((&replica_ids@[probe(c, o, len)],), None));
                        assert(probed_replica(range, o) == replica_ids@[probe(c, o, len)].0@);
                    }
                }
                return None;
            },
        };
        let mut range_now = self.slot_ranges.remove(range_index);
        range_now.next_replica = cursor;
        self.slot_ranges.insert(range_index, range_now);
        proof {
            assert(self.slot_ranges@ =~= old(self).slot_ranges@.update(range_index as int, advanced(range, picked_at)));
            assert(covers(old(self).slot_ranges@[range_index as int], slot));
            assert(replica_picked(*old(self), *self, slot, node_index));
            assert forall|i: int, j: int|
                0 <= i < j < self.slot_ranges@.len() implies (#[trigger] self.slot_ranges@[i]).slot_range.0
                <= (#[trigger] self.slot_ranges@[j]).slot_range.0 by {
                assert(self.slot_ranges@[i].slot_range == old(self).slot_ranges@[i].slot_range);
                assert(self.slot_ranges@[j].slot_range == old(self).slot_ranges@[j].slot_range);
            }
        }
        Some(node_index)
    }

    /// The node a command addressing `slot` must be fed to, and whether it has
    /// to be prefixed with an `ASKING`. An ask redirection naming the slot
    /// decides on its own; otherwise `for_read` sends the command to the
    /// shard's next connected replica, and the master takes it when there is
    /// none or when the command is not a read.
    pub fn node_index_by_slot(
        &mut self,
        slot: u16,
        ask_reasons: &[(u16, NodeAddress)],
        for_read: bool,
    ) -> (r: Option<(usize, bool)>)
        requires
            old(self).wf(),
        ensures
            final(self).wf(),
            final(self).nodes == old(self).nodes,
            final(self).slot_ranges@.len() == old(self).slot_ranges@.len(),
            forall|i: int|
                0 <= i < final(self).slot_ranges@.len() ==> (#[trigger] final(self).slot_ranges@[i]).slot_range
                    == old(self).slot_ranges@[i].slot_range && final(self).slot_ranges@[i].node_ids
                    == old(self).slot_ranges@[i].node_ids,
            ask_target(ask_reasons@, slot) is Some || !for_read ==> final(self).slot_ranges == old(self).slot_ranges,
            slot_choice(*old(self), ask_reasons@, slot, for_read, r),
            ask_target(ask_reasons@, slot) is None && for_read ==> (r matches Some(p) && !p.1 && replica_picked(
                *old(self),
                *final(self),
                slot,
                p.0,
            )) || (final(self).slot_ranges == old(self).slot_ranges && no_replica_found(*old(self), slot)),
            slot_pick(*old(self), *final(self), ask_reasons@, slot, for_read, r),
    {
        let mut a: usize = 0;
        assert(ask_reasons@.subrange(0, ask_reasons@.len() as int) =~= ask_reasons@);
        while a < ask_reasons.len()
            invariant
                0 <= a <= ask_reasons@.len(),
                self.wf(),
                self.nodes == old(self).nodes,
                self.slot_ranges == old(self).slot_ranges,
                ask_target(ask_reasons@, slot) == ask_target(ask_reasons@.subrange(a as int, ask_reasons@.len() as int), slot),
            decreases ask_reasons@.len() - a,
        {
            let ghost rest = ask_reasons@.subrange(a as int, ask_reasons@.len() as int);
            assert(rest.drop_first() =~= ask_reasons@.subrange(a + 1, ask_reasons@.len() as int));
            if ask_reasons[a].0 == slot {
                // An ASK names the node itself: the read preference has no say.
                return match self.node_index_by_address(&ask_reasons[a].1) {
                    Some(i) => Some((i, true)),
                    None => None,
                };
            }
            a = a + 1;
        }
        if for_read {
            match self.replica_node_index_by_slot(slot) {
                Some(i) => return Some((i, false)),
                None => {},
            }
        }
        let ghost mid = self.slot_ranges@;
        let range_index = match self.slot_range_index(slot) {
            Some(i) => i,
            None => return None,
        };
        // A slot range names its master first; one with no node routes nowhere.
        if self.slot_ranges[range_index].node_ids.len() == 0 {
            return None;
        }
        match self.node_index_by_id(&self.slot_ranges[range_index].node_ids[0]) {
            Some(i) => Some((i, false)),
            None => {
                proof {
                    let range = self.slot_ranges@[range_index as int];
                    assert forall|i: int| 0 <= i < self.nodes@.len() implies (#[trigger] self.nodes@[i]).id.0@ != range.node_ids@[0].0@ by {}
                }
                None
            },
        }
    }

    /// The indexes of the nodes a keyless command must reach, in node order.
    pub fn nodes_reached(&self, reach: NodeReach) -> (r: Vec<usize>)
        ensures
            forall|k: int| 0 <= k < r@.len() ==> (#[trigger] r@[k]) < self.nodes@.len(),
            forall|k: int, l: int| 0 <= k < l < r@.len() ==> #[trigger] r@[k] < #[trigger] r@[l],
            forall|i: int|
                0 <= i < self.nodes@.len() ==> (r@.contains(i as usize) <==> #[trigger] reaches(reach, self.nodes@[i])),
    {
        let mut r: Vec<usize> = Vec::new();
        let mut i: usize = 0;
        while i < self.nodes.len()
            invariant
                0 <= i <= self.nodes@.len(),
                forall|k: int| 0 <= k < r@.len() ==> (#[trigger] r@[k]) < i,
                forall|k: int, l: int| 0 <= k < l < r@.len() ==> #[trigger] r@[k] < #[trigger] r@[l],
                forall|j: int|
                    0 <= j < self.nodes@.len() ==> (r@.contains(j as usize) <==> (j < i && #[trigger] reaches(reach, self.nodes@[j]))),
            decreases self.nodes@.len() - i,
        {
            let reached = match reach {
                NodeReach::All => true,
                NodeReach::Masters => self.nodes[i].is_master,
            };
            let ghost before = r@;
            if reached {
                r.push(i);
            }
            proof {
                assert forall|j: int|
                    0 <= j < self.nodes@.len() implies (r@.contains(j as usize) <==> (j < i + 1 && #[trigger] reaches(reach, self.nodes@[j]))) by {
                    if r@.contains(j as usize) && j != i {
                        let k = choose|k: int| 0 <= k < r@.len() && r@[k] == j as usize;
                        if reached && k == r@.len() - 1 {
                        } else {
                            assert(before[k] == j as usize);
                        }
                    }
                    if j < i && reaches(reach, self.nodes@[j]) {
                        assert(before.contains(j as usize));
                        let k = choose|k: int| 0 <= k < before.len() && before[k] == j as usize;
                        assert(r@[k] == j as usize);
                    }
                    if j == i && reached {
                        assert(r@[r@.len() - 1] == j as usize);
                    }
                }
            }
            i = i + 1;
        }
        r
    }

    /// Records that a command was fed to a node, which the next flush covers.
    pub fn mark_fed(&mut self, index: usize)
        requires
            old(self).wf(),
            index < old(self).nodes@.len(),
        ensures
            final(self).wf(),
            final(self).slot_ranges == old(self).slot_ranges,
            final(self).nodes@.len() == old(self).nodes@.len(),
            final(self).nodes@[index as int].is_dirty,
            forall|i: int|
                0 <= i < final(self).nodes@.len() ==> (#[trigger] final(self).nodes@[i]).id == old(
                    self,
                ).nodes@[i].id && final(self).nodes@[i].is_master == old(self).nodes@[i].is_master
                    && final(self).nodes@[i].address == old(self).nodes@[i].address,
            forall|i: int|
                0 <= i < final(self).nodes@.len() && i != index ==> #[trigger] final(self).nodes@[i]
                    == old(self).nodes@[i],
    {
        let mut node = self.nodes.remove(index);
        node.is_dirty = true;
        self.nodes.insert(index, node);
        proof {
            assert forall|i: int, j: int|
                0 <= i < j < self.nodes@.len() implies lex_le(
                #[trigger] self.nodes@[i].id.0@,
                #[trigger] self.nodes@[j].id.0@,
            ) by {
                assert(self.nodes@[i].id == old(self).nodes@[i].id);
                assert(self.nodes@[j].id == old(self).nodes@[j].id);
            }
        }
    }

    /// The nodes fed since the last flush, in node order, all marked clean:
    /// they are flushed together, and a failed flush is a lost connection.
    pub fn take_dirty(&mut self) -> (r: Vec<usize>)
        requires
            old(self).wf(),
        ensures
            final(self).wf(),
            final(self).slot_ranges == old(self).slot_ranges,
            final(self).nodes@.len() == old(self).nodes@.len(),
            forall|i: int|
                0 <= i < final(self).nodes@.len() ==> !(#[trigger] final(self).nodes@[i]).is_dirty
                    && final(self).nodes@[i].id == old(self).nodes@[i].id && final(self).nodes@[i].is_master
                    == old(self).nodes@[i].is_master && final(self).nodes@[i].address == old(
                    self,
                ).nodes@[i].address,
            forall|k: int, l: int| 0 <= k < l < r@.len() ==> #[trigger] r@[k] < #[trigger] r@[l],
            forall|i: int|
                0 <= i < old(self).nodes@.len() ==> (r@.contains(i as usize) <==> (#[trigger] old(
                    self,
                ).nodes@[i]).is_dirty),
    {
        let mut r: Vec<usize> = Vec::new();
        let mut i: usize = 0;
        while i < self.nodes.len()
            invariant
                0 <= i <= self.nodes@.len(),
                self.nodes@.len() == old(self).nodes@.len(),
                self.slot_ranges == old(self).slot_ranges,
                old(self).wf(),
                forall|j: int|
                    0 <= j < self.nodes@.len() ==> (#[trigger] self.nodes@[j]).id == old(self).nodes@[j].id
                        && self.nodes@[j].is_master == old(self).nodes@[j].is_master
                        && self.nodes@[j].address == old(self).nodes@[j].address,
                forall|j: int| 0 <= j < i ==> !(#[trigger] self.nodes@[j]).is_dirty,
                forall|j: int| i <= j < self.nodes@.len() ==> #[trigger] self.nodes@[j] == old(self).nodes@[j],
                forall|k: int| 0 <= k < r@.len() ==> (#[trigger] r@[k]) < i,
                forall|k: int, l: int| 0 <= k < l < r@.len() ==> #[trigger] r@[k] < #[trigger] r@[l],
                forall|j: int|
                    0 <= j < old(self).nodes@.len() ==> (r@.contains(j as usize) <==> (j < i && (#[trigger] old(
                        self,
                    ).nodes@[j]).is_dirty)),
            decreases self.nodes@.len() - i,
        {
            let dirty = self.nodes[i].is_dirty;
            let ghost before = r@;
            if dirty {
                let mut node = self.nodes.remove(i);
                node.is_dirty = false;
                self.nodes.insert(i, node);
                r.push(i);
            }
            proof {
                assert forall|j: int|
                    0 <= j < old(self).nodes@.len() implies (r@.contains(j as usize) <==> (j < i + 1 && (#[trigger] old(
                    self,
                ).nodes@[j]).is_dirty)) by {
                    if r@.contains(j as usize) && j != i {
                        let k = choose|k: int| 0 <= k < r@.len() && r@[k] == j as usize;
                        if dirty && k == r@.len() - 1 {
                        } else {
                            assert(before[k] == j as usize);
                        }
                    }
                    if j < i && old(self).nodes@[j].is_dirty {
                        assert(before.contains(j as usize));
                        let k = choose|k: int| 0 <= k < before.len() && before[k] == j as usize;
                        assert(r@[k] == j as usize);
                    }
                    if j == i && dirty {
                        assert(r@[r@.len() - 1] == j as usize);
                    }
                }
            }
            i = i + 1;
        }
        proof {
            assert forall|a: int, b: int|
                0 <= a < b < self.nodes@.len() implies lex_le(
                #[trigger] self.nodes@[a].id.0@,
                #[trigger] self.nodes@[b].id.0@,
            ) by {
                assert(self.nodes@[a].id == old(self).nodes@[a].id);
                assert(self.nodes@[b].id == old(self).nodes@[b].id);
            }
        }
        r
    }
}

/// Whether some node of `nodes` has the id `id`.
pub open spec fn resolvable(nodes: Seq<Node>, id: Seq<u8>) -> bool {
    exists|i: int| 0 <= i < nodes.len() && (#[trigger] nodes[i]).id.0@ == id
}

/// What an id lookup may answer: the index of a node with that id, or
/// `None` when no node has it.
pub open spec fn resolves(nodes: Seq<Node>, id: Seq<u8>, r: Option<usize>) -> bool {
    match r {
        Some(i) => i < nodes.len() && nodes[i as int].id.0@ == id,
        None => !resolvable(nodes, id),
    }
}

/// Whether node `n` is the master the slot range names first.
pub open spec fn is_master_of(nodes: Seq<Node>, range: SlotRange, n: int) -> bool {
    &&& 0 <= n < nodes.len()
    &&& range.node_ids@.len() > 0
    &&& nodes[n].id.0@ == range.node_ids@[0].0@
}

/// Whether node `n` is one of the replicas the slot range names after its master.
pub open spec fn is_replica_of(nodes: Seq<Node>, range: SlotRange, n: int) -> bool {
    &&& 0 <= n < nodes.len()
    &&& exists|k: int| 1 <= k < range.node_ids@.len() && nodes[n].id.0@ == (#[trigger] range.node_ids@[k]).0@
}

/// Whether any replica the slot range names is a node of `nodes`.
pub open spec fn has_reachable_replica(nodes: Seq<Node>, range: SlotRange) -> bool {
    exists|k: int| 1 <= k < range.node_ids@.len() && resolvable(nodes, (#[trigger] range.node_ids@[k]).0@)
}

/// A node put in place by an insertion is one the id search finds: its id is
/// among the nodes afterwards, so `node_index_by_id` cannot answer `None`.
pub proof fn lemma_inserted_node_is_found(nodes: Seq<Node>, p: int, node: Node)
    requires
        0 <= p <= nodes.len(),
    ensures
        resolvable(nodes.insert(p, node), node.id.0@),
{
    assert(nodes.insert(p, node)[p] == node);
}

/// Marking a node fed or flushing the fed ones never reorders the nodes or
/// changes who they are, so every index resolved before stays valid.
pub proof fn lemma_feeding_keeps_the_topology(before: ClusterTopology, after: ClusterTopology)
    requires
        before.wf(),
        after.nodes@.len() == before.nodes@.len(),
        after.slot_ranges == before.slot_ranges,
        forall|i: int| 0 <= i < after.nodes@.len() ==> (#[trigger] after.nodes@[i]).id == before.nodes@[i].id,
    ensures
        after.wf(),
        forall|i: int| 0 <= i < after.nodes@.len() ==> resolves(after.nodes@, (#[trigger] before.nodes@[i]).id.0@, Some(i as usize)),
{
    assert forall|i: int, j: int| 0 <= i < j < after.nodes@.len() implies lex_le(
        #[trigger] after.nodes@[i].id.0@,
        #[trigger] after.nodes@[j].id.0@,
    ) by {
        assert(after.nodes@[i].id == before.nodes@[i].id);
        assert(after.nodes@[j].id == before.nodes@[j].id);
    }
    assert forall|i: int| 0 <= i < after.nodes@.len() implies resolves(after.nodes@, (#[trigger] before.nodes@[i]).id.0@, Some(i as usize)) by {
        assert(after.nodes@[i].id == before.nodes@[i].id);
        assert(after.nodes@.len() <= usize::MAX) by {
            vstd::std_specs::vec::axiom_spec_len(&after.nodes);
        }
    }
}

/// Picks the next replica of a shard, starting at `cursor` and advancing it
/// past the one returned. The whole list is walked from the cursor, so a
/// replica that `resolve` does not know is stepped over; `None` means none of
/// them resolved, and leaves the cursor where it was.
pub fn select_replica<F: Fn(&NodeId) -> Option<usize>>(
    replica_ids: &[NodeId],
    cursor: &mut usize,
    resolve: F,
) -> (r: Option<usize>)
    requires
        forall|id: &NodeId| #[trigger] resolve.requires((id,)),
    ensures
        r is None ==> *final(cursor) == *old(cursor),
        r is None ==> forall|o: int|
            0 <= o < replica_ids@.len() ==> #[trigger] resolve.ensures(
                (&replica_ids@[probe(*old(cursor), o, replica_ids@.len() as int)],),
                None,
            ),
        r matches Some(n) ==> exists|o: int|
            0 <= o < replica_ids@.len() && #[trigger] resolve.ensures(
                (&replica_ids@[probe(*old(cursor), o, replica_ids@.len() as int)],),
                Some(n),
            ) && (forall|e: int|
                0 <= e < o ==> #[trigger] resolve.ensures(
                    (&replica_ids@[probe(*old(cursor), e, replica_ids@.len() as int)],),
                    None,
                )) && *final(cursor) == vstd::wrapping::usize_specs::wrapping_add(
                vstd::wrapping::usize_specs::wrapping_add(*old(cursor), o as usize),
                1,
            ),
{
    let len = replica_ids.len();
    if len == 0 {
        return None;
    }
    let ghost start = *cursor;
    let mut offset: usize = 0;
    while offset < len
        invariant
            0 <= offset <= len,
            len == replica_ids@.len(),
            len > 0,
            *cursor == start,
            start == *old(cursor),
            forall|id: &NodeId| #[trigger] resolve.requires((id,)),
            forall|e: int|
                0 <= e < offset ==> #[trigger] resolve.ensures(
                    (&replica_ids@[probe(start, e, len as int)],),
                    None,
                ),
        decreases len - offset,
    {
        let position = cursor.wrapping_add(offset);
        let candidate = &replica_ids[position % len];
        match resolve(candidate) {
            Some(node_index) => {
                *cursor = position.wrapping_add(1);
                assert(resolve.ensures((&replica_ids@[probe(start, offset as int, len as int)],), Some(node_index)));
                return Some(node_index);
            },
            None => {},
        }
        offset = offset + 1;
    }
    None
}

/// Without wrapping, the probes of a round starting at `c` visit every index.
proof fn lemma_probe_covers(c: usize, target: int, len: int)
    requires
        0 <= target < len,
        c + len <= usize::MAX,
    ensures
        exists|o: int| 0 <= o < len && probe(c, o, len) == target,
{
    vstd::arithmetic::div_mod::lemma_fundamental_div_mod(c as int, len);
    let q = c as int / len;
    let m = c as int % len;
    assert(0 <= m < len);
    let o = if target >= m { target - m } else { target - m + len };
    let q2 = if target >= m { q } else { q + 1 };
    assert(c + o == len * q2 + target) by (nonlinear_arith)
        requires
            c == len * q + m,
            o == (if target >= m { target - m } else { target - m + len }),
            q2 == (if target >= m { q } else { q + 1 }),
    ;
    vstd::arithmetic::div_mod::lemma_mod_multiples_vanish(q2, target, len);
    vstd::arithmetic::div_mod::lemma_small_mod(target as nat, len as nat);
    assert(vstd::wrapping::usize_specs::wrapping_add(c, o as usize) == c + o);
    assert(probe(c, o, len) == target);
}

proof fn lemma_lex_le_trans(a: Seq<u8>, b: Seq<u8>, c: Seq<u8>)
    requires
        lex_le(a, b),
        lex_le(b, c),
    ensures
        lex_le(a, c),
{
    if lex_lt(a, b) && lex_lt(b, c) {
        lemma_lex_transitive(a, b, c);
    }
}

proof fn lemma_lex_le_lt(a: Seq<u8>, b: Seq<u8>, c: Seq<u8>)
    requires
        lex_le(a, b),
        lex_lt(b, c),
    ensures
        lex_lt(a, c),
{
    if lex_lt(a, b) {
        lemma_lex_transitive(a, b, c);
    }
}

proof fn lemma_lt_lex_le(a: Seq<u8>, b: Seq<u8>, c: Seq<u8>)
    requires
        lex_lt(a, b),
        lex_le(b, c),
    ensures
        lex_lt(a, c),
{
    if lex_lt(b, c) {
        lemma_lex_transitive(a, b, c);
    }
}

proof fn lemma_lex_le_via(a: Seq<u8>, n: Seq<u8>, c: Seq<u8>, before: Seq<Node>, p: int, k: int)
    requires
        lex_lt(a, n),
        0 <= p <= k < before.len(),
        lex_le(n, before[p].id.0@),
        lex_le(before[p].id.0@, before[k].id.0@),
        c == before[k].id.0@,
    ensures
        lex_le(a, c),
{
    lemma_lt_lex_le(a, n, before[p].id.0@);
    lemma_lt_lex_le(a, before[p].id.0@, c);
}

} // verus!
