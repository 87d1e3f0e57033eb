//! Commands as the client builds them: a name, arguments that may be keys,
//! and the routing tips a cluster needs.
use crate::bytes_util::{ascii_lower, bytes_eq_ignore_case, eq_ignore_case, slice_to_vec};
use vstd::prelude::*;
use vstd::string::StringSliceAdditionalSpecFns;

verus! {

/// The three modes `CLIENT REPLY` can set.
#[derive(Clone, Copy, Debug, PartialEq, Eq, Structural)]
pub enum ClientReplyMode {
    On,
    Off,
    Skip,
}

/// The pieces of connection state a caller can set at runtime, each one
/// replayed on a new socket by the last command that set it.
#[derive(Clone, Copy, Debug, PartialEq, Eq, Structural)]
pub enum StateSlot {
    /// `SELECT`: the database in use.
    Select,
    /// `CLIENT SETNAME`: the connection's name.
    ClientName,
    /// `CLIENT REPLY ON|OFF`: whether the server answers.
    ReplyMode,
}

/// How many state slots there are.
pub const STATE_SLOT_COUNT: usize = 3;

impl StateSlot {
    /// The position of the slot in declaration order.
    pub open spec fn spec_index(self) -> nat {
        match self {
            StateSlot::Select => 0,
            StateSlot::ClientName => 1,
            StateSlot::ReplyMode => 2,
        }
    }

    pub fn index(self) -> (r: usize)
        ensures
            r == self.spec_index(),
            r < STATE_SLOT_COUNT,
    {
        match self {
            StateSlot::Select => 0,
            StateSlot::ClientName => 1,
            StateSlot::ReplyMode => 2,
        }
    }

    /// The slot at a position in declaration order.
    pub open spec fn spec_at(i: nat) -> StateSlot {
        if i == 0 {
            StateSlot::Select
        } else if i == 1 {
            StateSlot::ClientName
        } else {
            StateSlot::ReplyMode
        }
    }

    pub fn at(i: usize) -> (r: StateSlot)
        requires
            i < STATE_SLOT_COUNT,
        ensures
            r == Self::spec_at(i as nat),
            r.spec_index() == i,
    {
        if i == 0 {
            StateSlot::Select
        } else if i == 1 {
            StateSlot::ClientName
        } else {
            StateSlot::ReplyMode
        }
    }
}

/// What a command does to the connection it is sent on, as far as the
/// network layer needs to know.
#[derive(Clone, Copy, Debug, PartialEq, Eq, Structural)]
pub enum CommandKind {
    ClientReply(ClientReplyMode),
    Reset,
    ConnectionState(StateSlot),
    Other,
}

/// Which nodes of a cluster a command must reach.
#[derive(Clone, Copy, Debug, PartialEq, Eq, Structural)]
pub enum RequestPolicy {
    AllNodes,
    AllShards,
    MultiShard,
    Special,
}

/// How the replies of several cluster nodes become one.
#[derive(Clone, Copy, Debug, PartialEq, Eq, Structural)]
pub enum ResponsePolicy {
    OneSucceeded,
    AllSucceeded,
    AggLogicalAnd,
    AggLogicalOr,
    AggMin,
    AggMax,
    AggSum,
    Special,
}

/// One argument of a command, and whether it names a key.
#[derive(Clone, Debug)]
pub struct CommandArg {
    pub value: Vec<u8>,
    pub is_key: bool,
}

/// A command: its name, its arguments and the tips that route it.
#[derive(Clone, Debug)]
pub struct Command {
    pub name: Vec<u8>,
    pub args: Vec<CommandArg>,
    /// How many arguments form one logical group led by a key (2 for `MSET`).
    pub key_step: usize,
    pub request_policy: Option<RequestPolicy>,
    pub response_policy: Option<ResponsePolicy>,
    /// Whether the command only reads, so a replica may serve it.
    pub readonly: bool,
}

/// The mathematical form of a command.
pub struct CommandView {
    pub name: Seq<u8>,
    pub args: Seq<Seq<u8>>,
    pub key_flags: Seq<bool>,
    pub key_step: nat,
    pub request_policy: Option<RequestPolicy>,
    pub response_policy: Option<ResponsePolicy>,
    pub readonly: bool,
}

impl View for Command {
    type V = CommandView;

    open spec fn view(&self) -> CommandView {
        CommandView {
            name: self.name@,
            args: Seq::new(self.args@.len(), |i: int| self.args@[i].value@),
            key_flags: Seq::new(self.args@.len(), |i: int| self.args@[i].is_key),
            key_step: self.key_step as nat,
            request_policy: self.request_policy,
            response_policy: self.response_policy,
            readonly: self.readonly,
        }
    }
}

pub open spec fn kw_client() -> Seq<u8> {
    seq!['C' as u8, 'L' as u8, 'I' as u8, 'E' as u8, 'N' as u8, 'T' as u8]
}

pub open spec fn kw_reply() -> Seq<u8> {
    seq!['R' as u8, 'E' as u8, 'P' as u8, 'L' as u8, 'Y' as u8]
}

pub open spec fn kw_on() -> Seq<u8> {
    seq!['O' as u8, 'N' as u8]
}

pub open spec fn kw_off() -> Seq<u8> {
    seq!['O' as u8, 'F' as u8, 'F' as u8]
}

pub open spec fn kw_skip() -> Seq<u8> {
    seq!['S' as u8, 'K' as u8, 'I' as u8, 'P' as u8]
}

pub open spec fn kw_reset() -> Seq<u8> {
    seq!['R' as u8, 'E' as u8, 'S' as u8, 'E' as u8, 'T' as u8]
}

pub open spec fn kw_select() -> Seq<u8> {
    seq!['S' as u8, 'E' as u8, 'L' as u8, 'E' as u8, 'C' as u8, 'T' as u8]
}

pub open spec fn kw_setname() -> Seq<u8> {
    seq!['S' as u8, 'E' as u8, 'T' as u8, 'N' as u8, 'A' as u8, 'M' as u8, 'E' as u8]
}

/// The mode a `CLIENT REPLY` argument names, if any.
pub open spec fn spec_reply_mode_of(arg: Seq<u8>) -> Option<ClientReplyMode> {
    if eq_ignore_case(arg, kw_on()) {
        Some(ClientReplyMode::On)
    } else if eq_ignore_case(arg, kw_off()) {
        Some(ClientReplyMode::Off)
    } else if eq_ignore_case(arg, kw_skip()) {
        Some(ClientReplyMode::Skip)
    } else {
        None
    }
}

impl CommandView {
    /// The kind of a command, read from its name and first arguments, ignoring
    /// the case of letters as the server does.
    pub open spec fn kind(self) -> CommandKind {
        if eq_ignore_case(self.name, kw_client()) && self.args.len() >= 2 && eq_ignore_case(
            self.args[0],
            kw_reply(),
        ) && spec_reply_mode_of(self.args[1]) is Some {
            CommandKind::ClientReply(spec_reply_mode_of(self.args[1])->0)
        } else if eq_ignore_case(self.name, kw_reset()) {
            CommandKind::Reset
        } else if eq_ignore_case(self.name, kw_select()) {
            CommandKind::ConnectionState(StateSlot::Select)
        } else if eq_ignore_case(self.name, kw_client()) && self.args.len() >= 1
            && eq_ignore_case(self.args[0], kw_setname()) {
            CommandKind::ConnectionState(StateSlot::ClientName)
        } else {
            CommandKind::Other
        }
    }

    /// The keys of a command, in argument order.
    pub open spec fn keys(self) -> Seq<Seq<u8>>
        decreases self.args.len(),
    {
        if self.args.len() == 0 || self.key_flags.len() < self.args.len() {
            seq![]
        } else {
            let rest = CommandView { args: self.args.drop_last(), key_flags: self.key_flags.take(self.args.len() - 1), ..self };
            if self.key_flags[self.args.len() - 1] {
                rest.keys().push(self.args.last())
            } else {
                rest.keys()
            }
        }
    }
}

fn reply_mode_of(arg: &[u8]) -> (r: Option<ClientReplyMode>)
    ensures
        r == spec_reply_mode_of(arg@),
{
    let on: [u8; 2] = ['O' as u8, 'N' as u8];
    let off: [u8; 3] = ['O' as u8, 'F' as u8, 'F' as u8];
    let skip: [u8; 4] = ['S' as u8, 'K' as u8, 'I' as u8, 'P' as u8];
    assert(on@ == kw_on());
    assert(off@ == kw_off());
    assert(skip@ == kw_skip());
    if bytes_eq_ignore_case(arg, &on) {
        Some(ClientReplyMode::On)
    } else if bytes_eq_ignore_case(arg, &off) {
        Some(ClientReplyMode::Off)
    } else if bytes_eq_ignore_case(arg, &skip) {
        Some(ClientReplyMode::Skip)
    } else {
        None
    }
}

/// Starts a command with no argument.
pub fn cmd(name: &str) -> (r: Command)
    ensures
        r@.name == name.spec_bytes(),
        r@.args.len() == 0,
        r@.key_flags.len() == 0,
        r@.key_step == 1,
        r@.request_policy is None,
        r@.response_policy is None,
        !r@.readonly,
{
    let r = Command {
        name: slice_to_vec(name.as_bytes()),
        args: Vec::new(),
        key_step: 1,
        request_policy: None,
        response_policy: None,
        readonly: false,
    };
    assert(r@.args =~= Seq::<Seq<u8>>::empty());
    assert(r@.key_flags =~= Seq::<bool>::empty());
    r
}

impl Command {
    /// The command name.
    pub fn name(&self) -> (r: &[u8])
        ensures
            r@ == self@.name,
    {
        self.name.as_slice()
    }

    pub fn num_args(&self) -> (r: usize)
        ensures
            r == self@.args.len(),
    {
        self.args.len()
    }

    /// The argument at position `index`, if there is one.
    pub fn get_arg(&self, index: usize) -> (r: Option<&[u8]>)
        ensures
            index < self@.args.len() ==> (r matches Some(a) && a@ == self@.args[index as int]),
            index >= self@.args.len() ==> r is None,
    {
        if index < self.args.len() {
            Some(self.args[index].value.as_slice())
        } else {
            None
        }
    }

    /// Appends an argument that is not a key.
    pub fn arg_bytes(self, value: &[u8]) -> (r: Command)
        ensures
            r@ == (CommandView {
                args: self@.args.push(value@),
                key_flags: self@.key_flags.push(false),
                ..self@
            }),
    {
        let mut c = self;
        c.args.push(CommandArg { value: slice_to_vec(value), is_key: false });
        assert(c@.args =~= self@.args.push(value@));
        assert(c@.key_flags =~= self@.key_flags.push(false));
        c
    }

    /// Appends an argument that is not a key.
    pub fn arg(self, value: &str) -> (r: Command)
        ensures
            r@ == (CommandView {
                args: self@.args.push(value.spec_bytes()),
                key_flags: self@.key_flags.push(false),
                ..self@
            }),
    {
        self.arg_bytes(value.as_bytes())
    }

    /// Appends a key.
    pub fn key_bytes(self, value: &[u8]) -> (r: Command)
        ensures
            r@ == (CommandView {
                args: self@.args.push(value@),
                key_flags: self@.key_flags.push(true),
                ..self@
            }),
    {
        let mut c = self;
        c.args.push(CommandArg { value: slice_to_vec(value), is_key: true });
        assert(c@.args =~= self@.args.push(value@));
        assert(c@.key_flags =~= self@.key_flags.push(true));
        c
    }

    /// Appends a key.
    pub fn key(self, value: &str) -> (r: Command)
        ensures
            r@ == (CommandView {
                args: self@.args.push(value.spec_bytes()),
                key_flags: self@.key_flags.push(true),
                ..self@
            }),
    {
        self.key_bytes(value.as_bytes())
    }

    /// A byte-for-byte copy of the command.
    pub fn duplicate(&self) -> (r: Command)
        ensures
            r@ == self@,
    {
        let mut args: Vec<CommandArg> = Vec::new();
        let mut i: usize = 0;
        while i < self.args.len()
            invariant
                0 <= i <= self.args.len(),
                args.len() == i,
                forall|j: int|
                    #![trigger args@[j]]
                    0 <= j < i ==> args@[j].value@ == self.args@[j].value@ && args@[j].is_key
                        == self.args@[j].is_key,
            decreases self.args.len() - i,
        {
            let value = slice_to_vec(self.args[i].value.as_slice());
            let ghost before = args@;
            args.push(CommandArg { value, is_key: self.args[i].is_key });
            assert(forall|j: int| 0 <= j < i ==> args@[j] == before[j]);
            i = i + 1;
        }
        let r = Command {
            name: slice_to_vec(self.name.as_slice()),
            args,
            key_step: self.key_step,
            request_policy: self.request_policy,
            response_policy: self.response_policy,
            readonly: self.readonly,
        };
        assert(r@.args =~= self@.args);
        assert(r@.key_flags =~= self@.key_flags);
        r
    }

    /// What the command does to its connection.
    pub fn kind(&self) -> (r: CommandKind)
        ensures
            r == self@.kind(),
    {
        let client: [u8; 6] = ['C' as u8, 'L' as u8, 'I' as u8, 'E' as u8, 'N' as u8, 'T' as u8];
        let reply: [u8; 5] = ['R' as u8, 'E' as u8, 'P' as u8, 'L' as u8, 'Y' as u8];
        let reset: [u8; 5] = ['R' as u8, 'E' as u8, 'S' as u8, 'E' as u8, 'T' as u8];
        let select: [u8; 6] = ['S' as u8, 'E' as u8, 'L' as u8, 'E' as u8, 'C' as u8, 'T' as u8];
        let setname: [u8; 7] = [
            'S' as u8,
            'E' as u8,
            'T' as u8,
            'N' as u8,
            'A' as u8,
            'M' as u8,
            'E' as u8,
        ];
        assert(client@ == kw_client());
        assert(reply@ == kw_reply());
        assert(reset@ == kw_reset());
        assert(select@ == kw_select());
        assert(setname@ == kw_setname());
        let is_client = bytes_eq_ignore_case(self.name.as_slice(), &client);
        if is_client && self.args.len() >= 2 && bytes_eq_ignore_case(
            self.args[0].value.as_slice(),
            &reply,
        ) {
            if let Some(mode) = reply_mode_of(self.args[1].value.as_slice()) {
                return CommandKind::ClientReply(mode);
            }
        }
        if bytes_eq_ignore_case(self.name.as_slice(), &reset) {
            CommandKind::Reset
        } else if bytes_eq_ignore_case(self.name.as_slice(), &select) {
            CommandKind::ConnectionState(StateSlot::Select)
        } else if is_client && self.args.len() >= 1 && bytes_eq_ignore_case(
            self.args[0].value.as_slice(),
            &setname,
        ) {
            CommandKind::ConnectionState(StateSlot::ClientName)
        } else {
            CommandKind::Other
        }
    }
}

} // verus!
