//! How a command is cut for the shards that serve it: the slices of a
//! multi-key command, the command each shard is sent, and the redirections
//! that steer a replay.
use crate::bytes_util::{bytes_eq, slice_to_vec};
use crate::cluster_request::views;
use crate::command::{Command, CommandArg, CommandView};
use crate::error::{NodeAddress, RetryReason, RetryReasonView};
use vstd::prelude::*;
use vstd::string::StringSliceAdditionalSpecFns;

verus! {

pub open spec fn kw_subscribe_cmd() -> Seq<u8> {
    "SUBSCRIBE".spec_bytes()
}

pub open spec fn kw_psubscribe_cmd() -> Seq<u8> {
    "PSUBSCRIBE".spec_bytes()
}

pub open spec fn kw_unsubscribe_cmd() -> Seq<u8> {
    "UNSUBSCRIBE".spec_bytes()
}

pub open spec fn kw_punsubscribe_cmd() -> Seq<u8> {
    "PUNSUBSCRIBE".spec_bytes()
}

/// Whether a command subscribes or unsubscribes by channel or pattern, which
/// names no key: nothing in the command says which node must serve it, so
/// the channel name is hashed to pick one. The shard variants name their
/// channel as a key and route like any other command.
pub fn is_broadcast_pub_sub_command(command: &Command) -> (r: bool)
    ensures
        r == (command@.name == kw_subscribe_cmd() || command@.name == kw_psubscribe_cmd()
            || command@.name == kw_unsubscribe_cmd() || command@.name == kw_punsubscribe_cmd()),
{
    let name = command.name();
    bytes_eq(name, "SUBSCRIBE".as_bytes()) || bytes_eq(name, "PSUBSCRIBE".as_bytes()) || bytes_eq(
        name,
        "UNSUBSCRIBE".as_bytes(),
    ) || bytes_eq(name, "PUNSUBSCRIBE".as_bytes())
}

/// One shard's slice of a multi-key command: the keys of a single slot, the
/// node that serves them, and whether the send must be prefixed with an
/// `ASKING`.
#[derive(Debug)]
pub struct ShardSlice {
    pub node_index: usize,
    pub keys: Vec<Vec<u8>>,
    pub should_ask: bool,
}

/// A key routed to a node: the node, the key's slot, the key, and whether the
/// slot is under an `ASK` redirection.
pub type RoutedKey = (usize, u16, Vec<u8>, bool);

/// The mathematical form of a slice.
pub struct ShardSliceView {
    pub node_index: usize,
    pub keys: Seq<Seq<u8>>,
    pub should_ask: bool,
}

impl View for ShardSlice {
    type V = ShardSliceView;

    open spec fn view(&self) -> ShardSliceView {
        ShardSliceView { node_index: self.node_index, keys: views(self.keys@), should_ask: self.should_ask }
    }
}

/// The slots of a run of routed keys, each once, in the order they first
/// appear.
pub open spec fn slots_seen(routed: Seq<RoutedKey>) -> Seq<u16>
    decreases routed.len(),
{
    if routed.len() == 0 {
        seq![]
    } else {
        let before = slots_seen(routed.drop_last());
        if before.contains(routed.last().1) {
            before
        } else {
            before.push(routed.last().1)
        }
    }
}

/// The keys routed to a slot, in order.
pub open spec fn keys_of_slot(routed: Seq<RoutedKey>, slot: u16) -> Seq<Seq<u8>>
    decreases routed.len(),
{
    if routed.len() == 0 {
        seq![]
    } else {
        let before = keys_of_slot(routed.drop_last(), slot);
        if routed.last().1 == slot {
            before.push(routed.last().2@)
        } else {
            before
        }
    }
}

/// The node of the last key routed to a slot.
pub open spec fn last_node_of_slot(routed: Seq<RoutedKey>, slot: u16) -> usize
    decreases routed.len(),
{
    if routed.len() == 0 {
        0
    } else if routed.last().1 == slot {
        routed.last().0
    } else {
        last_node_of_slot(routed.drop_last(), slot)
    }
}

/// The `ASK` flag of the first key routed to a slot: the key that brought the
/// slot in.
pub open spec fn first_ask_of_slot(routed: Seq<RoutedKey>, slot: u16) -> bool
    decreases routed.len(),
{
    if routed.len() == 0 {
        false
    } else if slots_seen(routed.drop_last()).contains(slot) {
        first_ask_of_slot(routed.drop_last(), slot)
    } else {
        routed.last().1 == slot && routed.last().3
    }
}

/// The slices of a run of routed keys: one per slot, in the order the slots
/// first appear, each holding every key of its slot in order. A slot is
/// served as a whole by the node of its last key, under the `ASK` flag of its
/// first.
pub open spec fn slices_of(routed: Seq<RoutedKey>) -> Seq<ShardSliceView> {
    let slots = slots_seen(routed);
    Seq::new(
        slots.len(),
        |j: int|
            ShardSliceView {
                node_index: last_node_of_slot(routed, slots[j]),
                keys: keys_of_slot(routed, slots[j]),
                should_ask: first_ask_of_slot(routed, slots[j]),
            },
    )
}

/// No slot is seen twice, so no two slices serve one slot; and there are
/// never more slots than keys.
pub proof fn lemma_slots_seen_distinct(routed: Seq<RoutedKey>)
    ensures
        forall|a: int, b: int|
            0 <= a < b < slots_seen(routed).len() ==> #[trigger] slots_seen(routed)[a] != #[trigger] slots_seen(
                routed,
            )[b],
        slots_seen(routed).len() <= routed.len(),
        routed.len() > 0 ==> slots_seen(routed).len() > 0,
    decreases routed.len(),
{
    if routed.len() > 0 {
        lemma_slots_seen_distinct(routed.drop_last());
        let before = slots_seen(routed.drop_last());
        if !before.contains(routed.last().1) {
            let after = before.push(routed.last().1);
            assert forall|a: int, b: int| 0 <= a < b < after.len() implies #[trigger] after[a] != #[trigger] after[b] by {
                if b == after.len() - 1 {
                    assert(before[a] == after[a]);
                }
            }
        }
    }
}

/// A slot never seen has no keys.
proof fn lemma_unseen_slot_has_no_keys(routed: Seq<RoutedKey>, slot: u16)
    requires
        !slots_seen(routed).contains(slot),
    ensures
        keys_of_slot(routed, slot).len() == 0,
    decreases routed.len(),
{
    if routed.len() > 0 {
        let before = slots_seen(routed.drop_last());
        if before.contains(slot) {
            let k = choose|k: int| 0 <= k < before.len() && before[k] == slot;
            if !before.contains(routed.last().1) {
                assert(slots_seen(routed)[k] == slot);
            }
        }
        if routed.last().1 == slot {
            if !before.contains(slot) {
                assert(slots_seen(routed).last() == slot);
            }
        }
        lemma_unseen_slot_has_no_keys(routed.drop_last(), slot);
    }
}

/// A key whose slot is already seen joins that slot's slice, whose node
/// becomes the key's.
pub proof fn lemma_slices_step_seen(routed: Seq<RoutedKey>, x: RoutedKey, j: int)
    requires
        0 <= j < slots_seen(routed).len(),
        slots_seen(routed)[j] == x.1,
    ensures
        slots_seen(routed.push(x)) == slots_seen(routed),
        slices_of(routed.push(x)) == slices_of(routed).update(
            j,
            ShardSliceView {
                node_index: x.0,
                keys: slices_of(routed)[j].keys.push(x.2@),
                should_ask: slices_of(routed)[j].should_ask,
            },
        ),
{
    let after = routed.push(x);
    assert(after.drop_last() =~= routed);
    assert(slots_seen(routed).contains(x.1));
    lemma_slots_seen_distinct(routed);
    let slots = slots_seen(routed);
    assert forall|k: int| 0 <= k < slots.len() implies slots_seen(routed).contains(#[trigger] slots[k]) by {}
    assert(slices_of(after) =~= slices_of(routed).update(
        j,
        ShardSliceView {
            node_index: x.0,
            keys: slices_of(routed)[j].keys.push(x.2@),
            should_ask: slices_of(routed)[j].should_ask,
        },
    ));
}

/// A key whose slot is not yet seen opens a slice of its own, with its node
/// and its `ASK` flag.
pub proof fn lemma_slices_step_unseen(routed: Seq<RoutedKey>, x: RoutedKey)
    requires
        !slots_seen(routed).contains(x.1),
    ensures
        slots_seen(routed.push(x)) == slots_seen(routed).push(x.1),
        slices_of(routed.push(x)) == slices_of(routed).push(
            ShardSliceView { node_index: x.0, keys: seq![x.2@], should_ask: x.3 },
        ),
{
    let after = routed.push(x);
    assert(after.drop_last() =~= routed);
    lemma_unseen_slot_has_no_keys(routed, x.1);
    let slots = slots_seen(routed);
    assert forall|k: int| 0 <= k < slots.len() implies slots_seen(routed).contains(#[trigger] slots[k]) && slots[k] != x.1 by {}
    assert(keys_of_slot(routed, x.1) =~= Seq::<Seq<u8>>::empty());
    assert(slices_of(after) =~= slices_of(routed).push(
        ShardSliceView { node_index: x.0, keys: seq![x.2@], should_ask: x.3 },
    ));
}

/// Routed keys make at least one slice, and never more slices than keys.
pub proof fn lemma_slices_of_nonempty(routed: Seq<RoutedKey>)
    ensures
        routed.len() > 0 ==> slices_of(routed).len() > 0,
        slices_of(routed).len() <= routed.len(),
{
    lemma_slots_seen_distinct(routed);
}

/// Where the slice of a slot stands among the slices, if the slot was seen.
fn find_slot(slots: &Vec<u16>, slot: u16) -> (r: Option<usize>)
    ensures
        r matches Some(j) ==> j < slots@.len() && slots@[j as int] == slot,
        r is None ==> !slots@.contains(slot),
{
    let mut j: usize = 0;
    while j < slots.len()
        invariant
            0 <= j <= slots@.len(),
            forall|k: int| 0 <= k < j ==> slots@[k] != slot,
        decreases slots@.len() - j,
    {
        if slots[j] == slot {
            return Some(j);
        }
        j = j + 1;
    }
    None
}

/// Cuts the routed keys into one slice per slot. A slot is served as a
/// whole: when its keys resolved to two nodes, the last one takes them all,
/// since two slices for one slot would file two sub-requests where the
/// command was split once; the slice is sent under the `ASK` flag of the
/// slot's first key.
pub fn shard_slices(routed_keys: Vec<RoutedKey>) -> (r: Vec<ShardSlice>)
    ensures
        r@.len() == slices_of(routed_keys@).len(),
        forall|i: int| 0 <= i < r@.len() ==> (#[trigger] r@[i])@ == slices_of(routed_keys@)[i],
{
    let ghost all = routed_keys@;
    let mut rest = routed_keys;
    let mut slices: Vec<ShardSlice> = Vec::new();
    let mut slots: Vec<u16> = Vec::new();
    let mut i: usize = 0;
    let total = rest.len();
    assert(all.subrange(0, 0) =~= Seq::<RoutedKey>::empty());
    while rest.len() > 0
        invariant
            i + rest@.len() == all.len(),
            all.len() == total,
            rest@ == all.subrange(i as int, all.len() as int),
            slots@ == slots_seen(all.subrange(0, i as int)),
            slices@.len() == slices_of(all.subrange(0, i as int)).len(),
            forall|k: int| 0 <= k < slices@.len() ==> (#[trigger] slices@[k])@ == slices_of(all.subrange(0, i as int))[k],
        decreases rest@.len(),
    {
        let (node_index, slot, key, should_ask) = rest.remove(0);
        assert(rest@ =~= all.subrange(i + 1, all.len() as int));
        let ghost before = all.subrange(0, i as int);
        let ghost x = all[i as int];
        assert(all.subrange(0, i + 1) =~= before.push(x));
        let ghost prev = slices@;
        match find_slot(&slots, slot) {
            Some(j) => {
                proof {
                    lemma_slices_step_seen(before, x, j as int);
                }
                let mut taken = ShardSlice { node_index: 0, keys: Vec::new(), should_ask: false };
                std::mem::swap(&mut taken, &mut slices[j]);
                let mut keys = taken.keys;
                let ghost old_keys = keys@;
                keys.push(key);
                assert(views(keys@) =~= views(old_keys).push(x.2@));
                slices.set(j, ShardSlice { node_index, keys, should_ask: taken.should_ask });
                assert forall|k: int| 0 <= k < slices@.len() implies (#[trigger] slices@[k])@ == slices_of(
                    before.push(x),
                )[k] by {
                    if k != j {
                        assert(slices@[k] == prev[k]);
                    }
                }
            },
            None => {
                proof {
                    lemma_slices_step_unseen(before, x);
                }
                let mut keys: Vec<Vec<u8>> = Vec::new();
                keys.push(key);
                assert(views(keys@) =~= seq![x.2@]);
                slices.push(ShardSlice { node_index, keys, should_ask });
                slots.push(slot);
                assert forall|k: int| 0 <= k < slices@.len() implies (#[trigger] slices@[k])@ == slices_of(
                    before.push(x),
                )[k] by {
                    if k < slices@.len() - 1 {
                        assert(slices@[k] == prev[k]);
                    }
                }
            },
        }
        i = i + 1;
    }
    assert(all.subrange(0, i as int) =~= all);
    slices
}

/// The keys of a run of slices, slice after slice.
pub open spec fn slice_keys(slices: Seq<ShardSliceView>) -> Seq<Seq<u8>>
    decreases slices.len(),
{
    if slices.len() == 0 {
        seq![]
    } else {
        slice_keys(slices.drop_last()) + slices.last().keys
    }
}

/// Adding a key to one slice adds it to the keys of the run.
proof fn lemma_slice_keys_grow(slices: Seq<ShardSliceView>, j: int, v: ShardSliceView, key: Seq<u8>)
    requires
        0 <= j < slices.len(),
        v.keys == slices[j].keys.push(key),
    ensures
        slice_keys(slices.update(j, v)).to_multiset() == slice_keys(slices).to_multiset().insert(key),
    decreases slices.len(),
{
    broadcast use vstd::seq_lib::group_to_multiset_ensures, vstd::seq_lib::lemma_multiset_commutative;

    let u = slices.update(j, v);
    let a = slices.drop_last();
    if j == slices.len() - 1 {
        assert(u.drop_last() =~= a);
        assert(slice_keys(u) == slice_keys(a) + v.keys);
        assert(slice_keys(slices) == slice_keys(a) + slices[j].keys);
        assert(slice_keys(u).to_multiset() =~= slice_keys(slices).to_multiset().insert(key));
    } else {
        assert(u.drop_last() =~= a.update(j, v));
        lemma_slice_keys_grow(a, j, v, key);
        assert(slice_keys(u) == slice_keys(a.update(j, v)) + slices.last().keys);
        assert(slice_keys(slices) == slice_keys(a) + slices.last().keys);
        assert(slice_keys(u).to_multiset() =~= slice_keys(slices).to_multiset().insert(key));
    }
}

/// Cutting keys into slices loses none and adds none: the slices hold exactly
/// the routed keys, each as often as it was routed.
pub proof fn lemma_slices_keep_every_key(routed: Seq<RoutedKey>)
    ensures
        slice_keys(slices_of(routed)).to_multiset() == Seq::new(routed.len(), |i: int| routed[i].2@).to_multiset(),
    decreases routed.len(),
{
    broadcast use vstd::seq_lib::group_to_multiset_ensures, vstd::seq_lib::lemma_multiset_commutative;

    if routed.len() == 0 {
        assert(slices_of(routed) =~= Seq::<ShardSliceView>::empty());
        assert(Seq::new(routed.len(), |i: int| routed[i].2@) =~= Seq::<Seq<u8>>::empty());
    } else {
        let init = routed.drop_last();
        let x = routed.last();
        assert(init.push(x) =~= routed);
        lemma_slices_keep_every_key(init);
        assert(Seq::new(routed.len(), |i: int| routed[i].2@) =~= Seq::new(init.len(), |i: int| init[i].2@).push(x.2@));
        let before = slices_of(init);
        if slots_seen(init).contains(x.1) {
            let j = choose|j: int| 0 <= j < slots_seen(init).len() && slots_seen(init)[j] == x.1;
            lemma_slices_step_seen(init, x, j);
            lemma_slice_keys_grow(
                before,
                j,
                ShardSliceView { node_index: x.0, keys: before[j].keys.push(x.2@), should_ask: before[j].should_ask },
                x.2@,
            );
        } else {
            lemma_slices_step_unseen(init, x);
            let pushed = before.push(ShardSliceView { node_index: x.0, keys: seq![x.2@], should_ask: x.3 });
            assert(pushed.drop_last() =~= before);
            assert(slice_keys(pushed) == slice_keys(before) + seq![x.2@]);
            assert(slice_keys(before) + seq![x.2@] =~= slice_keys(before).push(x.2@));
        }
    }
}

/// The `ASK` redirections among some retry reasons, in order.
pub open spec fn ask_views(reasons: Seq<RetryReasonView>) -> Seq<(u16, Seq<u8>, u16)>
    decreases reasons.len(),
{
    if reasons.len() == 0 {
        seq![]
    } else {
        let before = ask_views(reasons.drop_last());
        match reasons.last() {
            RetryReasonView::Ask { hash_slot, host, port } => before.push((hash_slot, host, port)),
            _ => before,
        }
    }
}

/// The `ASK` redirections among the retry reasons, as the slot they name and
/// the node importing it.
pub fn ask_reasons(retry_reasons: &[RetryReason]) -> (r: Vec<(u16, NodeAddress)>)
    ensures
        r@.len() == ask_views(retry_reasons@.map_values(|x: RetryReason| x@)).len(),
        forall|k: int|
            0 <= k < r@.len() ==> {
                let a = ask_views(retry_reasons@.map_values(|x: RetryReason| x@))[k];
                &&& (#[trigger] r@[k]).0 == a.0
                &&& r@[k].1.0@ == a.1
                &&& r@[k].1.1 == a.2
            },
{
    let mut r: Vec<(u16, NodeAddress)> = Vec::new();
    let mut i: usize = 0;
    while i < retry_reasons.len()
        invariant
            0 <= i <= retry_reasons@.len(),
            r@.len() == ask_views(retry_reasons@.subrange(0, i as int).map_values(|x: RetryReason| x@)).len(),
            forall|k: int|
                0 <= k < r@.len() ==> {
                    let a = ask_views(retry_reasons@.subrange(0, i as int).map_values(|x: RetryReason| x@))[k];
                    &&& (#[trigger] r@[k]).0 == a.0
                    &&& r@[k].1.0@ == a.1
                    &&& r@[k].1.1 == a.2
                },
        decreases retry_reasons@.len() - i,
    {
        let ghost next = retry_reasons@.subrange(0, i + 1).map_values(|x: RetryReason| x@);
        assert(next.drop_last() =~= retry_reasons@.subrange(0, i as int).map_values(|x: RetryReason| x@));
        assert(next.last() == retry_reasons@[i as int]@);
        let ghost prev = r@;
        match &retry_reasons[i] {
            RetryReason::Ask { hash_slot, address } => {
                r.push((*hash_slot, (slice_to_vec(address.0.as_slice()), address.1)));
                assert forall|k: int| 0 <= k < r@.len() implies {
                    let a = ask_views(next)[k];
                    &&& (#[trigger] r@[k]).0 == a.0
                    &&& r@[k].1.0@ == a.1
                    &&& r@[k].1.1 == a.2
                } by {
                    if k < prev.len() {
                        assert(r@[k] == prev[k]);
                    }
                }
            },
            _ => {},
        }
        i = i + 1;
    }
    assert(retry_reasons@.subrange(0, i as int) =~= retry_reasons@);
    r
}

/// The arguments a shard is sent, read from the front of the command's: a
/// key of the shard is kept with the `step - 1` arguments that follow it, a
/// key of another shard drops its followers, and an argument that follows no
/// key is dropped.
pub open spec fn shard_args(args: Seq<Seq<u8>>, flags: Seq<bool>, shard_keys: Seq<Seq<u8>>, step: nat, keep_next: nat) -> Seq<(Seq<u8>, bool)>
    decreases args.len(),
{
    if args.len() == 0 || flags.len() == 0 {
        seq![]
    } else if flags[0] {
        if shard_keys.contains(args[0]) {
            seq![(args[0], true)] + shard_args(
                args.drop_first(),
                flags.drop_first(),
                shard_keys,
                step,
                if step >= 1 { (step - 1) as nat } else { 0 },
            )
        } else {
            shard_args(args.drop_first(), flags.drop_first(), shard_keys, step, 0)
        }
    } else if keep_next > 0 {
        seq![(args[0], false)] + shard_args(
            args.drop_first(),
            flags.drop_first(),
            shard_keys,
            step,
            (keep_next - 1) as nat,
        )
    } else {
        shard_args(args.drop_first(), flags.drop_first(), shard_keys, step, 0)
    }
}

fn contains_key(keys: &[Vec<u8>], key: &[u8]) -> (r: bool)
    ensures
        r == views(keys@).contains(key@),
{
    let mut i: usize = 0;
    while i < keys.len()
        invariant
            0 <= i <= keys@.len(),
            forall|j: int| 0 <= j < i ==> keys@[j]@ != key@,
        decreases keys@.len() - i,
    {
        if bytes_eq(keys[i].as_slice(), key) {
            assert(views(keys@)[i as int] == key@);
            return true;
        }
        i = i + 1;
    }
    proof {
        if views(keys@).contains(key@) {
            let j = choose|j: int| 0 <= j < views(keys@).len() && views(keys@)[j] == key@;
            assert(keys@[j]@ == key@);
        }
    }
    false
}

/// Whether `shard` is the command one shard of `command` is sent, for the
/// keys that shard serves: the same name, and of the arguments those keys,
/// each with the arguments of its group (the value of an `MSET`, say), with
/// no routing tips of its own.
pub open spec fn is_shard_command(shard: CommandView, command: CommandView, keys: Seq<Seq<u8>>) -> bool {
    let target = shard_args(command.args, command.key_flags, keys, command.key_step, 0);
    &&& shard.name == command.name
    &&& shard.key_step == 1
    &&& shard.request_policy is None
    &&& shard.response_policy is None
    &&& !shard.readonly
    &&& shard.args.len() == target.len()
    &&& forall|k: int| 0 <= k < shard.args.len() ==> (#[trigger] shard.args[k], shard.key_flags[k]) == target[k]
}

/// The command one shard of a multi-key command is sent: its name, and of
/// its arguments the keys that shard serves, each with the arguments of its
/// group (the value of an `MSET`, say).
pub fn prepare_command_for_shard(command: &Command, shard_keys: &[Vec<u8>]) -> (r: Command)
    ensures
        is_shard_command(r@, command@, views(shard_keys@)),
{
    let ghost target = shard_args(command@.args, command@.key_flags, views(shard_keys@), command@.key_step, 0);
    let step = command.key_step;
    let mut args: Vec<CommandArg> = Vec::new();
    let mut keep_next: usize = 0;
    let mut i: usize = 0;
    assert(command@.args.subrange(0, command@.args.len() as int) =~= command@.args);
    assert(command@.key_flags.subrange(0, command@.key_flags.len() as int) =~= command@.key_flags);
    while i < command.args.len()
        invariant
            0 <= i <= command@.args.len(),
            command@.key_flags.len() == command@.args.len(),
            step == command@.key_step,
            target == shard_args(command@.args, command@.key_flags, views(shard_keys@), command@.key_step, 0),
            keep_next <= step,
            target == Seq::new(args@.len(), |k: int| (args@[k].value@, args@[k].is_key)) + shard_args(
                command@.args.subrange(i as int, command@.args.len() as int),
                command@.key_flags.subrange(i as int, command@.args.len() as int),
                views(shard_keys@),
                step as nat,
                keep_next as nat,
            ),
        decreases command@.args.len() - i,
    {
        let ghost rest_args = command@.args.subrange(i as int, command@.args.len() as int);
        let ghost rest_flags = command@.key_flags.subrange(i as int, command@.args.len() as int);
        assert(rest_args.drop_first() =~= command@.args.subrange(i + 1, command@.args.len() as int));
        assert(rest_flags.drop_first() =~= command@.key_flags.subrange(i + 1, command@.args.len() as int));
        assert(rest_args[0] == command.args@[i as int].value@);
        assert(rest_flags[0] == command.args@[i as int].is_key);
        let ghost before = Seq::new(args@.len(), |k: int| (args@[k].value@, args@[k].is_key));
        let arg = &command.args[i];
        if arg.is_key {
            if contains_key(shard_keys, arg.value.as_slice()) {
                args.push(CommandArg { value: slice_to_vec(arg.value.as_slice()), is_key: true });
                keep_next = if step >= 1 { step - 1 } else { 0 };
                assert(Seq::new(args@.len(), |k: int| (args@[k].value@, args@[k].is_key)) =~= before + seq![(rest_args[0], true)]);
            } else {
                keep_next = 0;
            }
        } else if keep_next > 0 {
            args.push(CommandArg { value: slice_to_vec(arg.value.as_slice()), is_key: false });
            keep_next = keep_next - 1;
            assert(Seq::new(args@.len(), |k: int| (args@[k].value@, args@[k].is_key)) =~= before + seq![(rest_args[0], false)]);
        }
        i = i + 1;
    }
    let r = Command {
        name: slice_to_vec(command.name.as_slice()),
        args,
        key_step: 1,
        request_policy: None,
        response_policy: None,
        readonly: false,
    };
    assert(target =~= Seq::new(r.args@.len(), |k: int| (r.args@[k].value@, r.args@[k].is_key)));
    r
}

} // verus!
