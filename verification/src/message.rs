//! A message handed to the network layer: the commands it carries, the
//! database it targets, and the bytes it holds of the queue budget.
use crate::bytes_util::{decimal, extend_bytes, u64_to_decimal};
use crate::command::{Command, CommandView};
use vstd::prelude::*;

verus! {

/// `\r\n`.
pub open spec fn crlf() -> Seq<u8> {
    seq![13u8, 10u8]
}

/// One bulk string as RESP frames it: `$<len>\r\n<bytes>\r\n`.
pub open spec fn encode_bulk(b: Seq<u8>) -> Seq<u8> {
    seq!['$' as u8] + decimal(b.len()) + crlf() + b + crlf()
}

/// Bulk strings one after the other.
pub open spec fn encode_bulks(parts: Seq<Seq<u8>>) -> Seq<u8>
    decreases parts.len(),
{
    if parts.len() == 0 {
        seq![]
    } else {
        encode_bulks(parts.drop_last()) + encode_bulk(parts.last())
    }
}

/// A command as it is written on the wire: an array of bulk strings, the
/// name first.
pub open spec fn encode_command(c: CommandView) -> Seq<u8> {
    seq!['*' as u8] + decimal(c.args.len() + 1) + crlf() + encode_bulks(seq![c.name] + c.args)
}

fn push_bulk(out: &mut Vec<u8>, b: &[u8])
    ensures
        final(out)@ == old(out)@ + encode_bulk(b@),
{
    out.push('$' as u8);
    let len = u64_to_decimal(b.len() as u64);
    extend_bytes(out, len.as_slice());
    out.push(13);
    out.push(10);
    extend_bytes(out, b);
    out.push(13);
    out.push(10);
    assert(out@ =~= old(out)@ + encode_bulk(b@));
}

/// Writes a command as RESP frames it.
pub fn encode(command: &Command) -> (r: Vec<u8>)
    requires
        command@.args.len() < u64::MAX,
    ensures
        r@ == encode_command(command@),
{
    let mut out: Vec<u8> = Vec::new();
    out.push('*' as u8);
    let count = u64_to_decimal(command.args.len() as u64 + 1);
    extend_bytes(&mut out, count.as_slice());
    out.push(13);
    out.push(10);
    let ghost header = out@;
    let ghost parts = seq![command@.name] + command@.args;
    push_bulk(&mut out, command.name.as_slice());
    let ghost first = parts.subrange(0, 1);
    assert(first.drop_last() =~= Seq::<Seq<u8>>::empty());
    assert(first.last() == command@.name);
    assert(encode_bulks(first) == encode_bulks(first.drop_last()) + encode_bulk(first.last()));
    assert(encode_bulks(Seq::<Seq<u8>>::empty()) == Seq::<u8>::empty());
    assert(out@ =~= header + encode_bulks(first));
    let mut i: usize = 0;
    while i < command.args.len()
        invariant
            0 <= i <= command.args.len(),
            parts == seq![command@.name] + command@.args,
            parts.len() == command.args.len() + 1,
            out@ == header + encode_bulks(parts.subrange(0, i + 1)),
        decreases command.args.len() - i,
    {
        push_bulk(&mut out, command.args[i].value.as_slice());
        assert(parts.subrange(0, i + 2).drop_last() =~= parts.subrange(0, i + 1));
        assert(parts[i + 1] == command@.args[i as int]);
        i = i + 1;
        assert(out@ =~= header + encode_bulks(parts.subrange(0, i + 1)));
    }
    assert(parts.subrange(0, parts.len() as int) =~= parts);
    out
}

/// A message: one command or a batch, the database it targets, and what it
/// holds of the queue budget until its reply arrives.
pub struct Message {
    pub commands: Vec<Command>,
    pub database: usize,
    /// The bytes the message is charged: the size of its commands on the wire.
    pub queued_bytes: usize,
}

impl Message {
    /// A message carrying one command, for database 0, charged the size of the
    /// command on the wire.
    pub fn new(command: Command) -> (r: Message)
        requires
            command@.args.len() < u64::MAX,
        ensures
            r.commands@.len() == 1,
            r.commands@[0]@ == command@,
            r.database == 0,
            r.queued_bytes == encode_command(command@).len(),
    {
        let size = encode(&command).len();
        let mut commands: Vec<Command> = Vec::new();
        commands.push(command);
        Message { commands, database: 0, queued_bytes: size }
    }

    /// The same message, targeting `database`.
    pub fn database(self, database: usize) -> (r: Message)
        ensures
            r.database == database,
            r.commands == self.commands,
            r.queued_bytes == self.queued_bytes,
    {
        let mut m = self;
        m.database = database;
        m
    }

    /// How many commands the message carries.
    pub fn num_commands(&self) -> (r: usize)
        ensures
            r == self.commands@.len(),
    {
        self.commands.len()
    }

    /// The bytes the message holds of the queue budget.
    pub fn queued_bytes(&self) -> (r: usize)
        ensures
            r == self.queued_bytes,
    {
        self.queued_bytes
    }
}

} // verus!
