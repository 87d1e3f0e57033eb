//! Arguments built one after another, and the command options that are
//! such arguments.
use crate::bytes_util::{decimal, i64_to_decimal, signed_decimal, slice_to_vec, u64_to_decimal};
use crate::cluster_request::views;
use vstd::prelude::*;
use vstd::string::StringSliceAdditionalSpecFns;

verus! {

/// Arguments of a command, in the order they are sent.
#[derive(Debug)]
pub struct CommandArgs {
    pub args: Vec<Vec<u8>>,
}

impl View for CommandArgs {
    type V = Seq<Seq<u8>>;

    open spec fn view(&self) -> Seq<Seq<u8>> {
        views(self.args@)
    }
}

impl Default for CommandArgs {
    fn default() -> (r: CommandArgs)
        ensures
            r@ == Seq::<Seq<u8>>::empty(),
    {
        CommandArgs::new()
    }
}

impl CommandArgs {
    pub fn new() -> (r: CommandArgs)
        ensures
            r@ == Seq::<Seq<u8>>::empty(),
    {
        let r = CommandArgs { args: Vec::new() };
        assert(r@ =~= Seq::<Seq<u8>>::empty());
        r
    }

    /// Appends raw bytes.
    pub fn arg(self, value: &[u8]) -> (r: CommandArgs)
        ensures
            r@ == self@.push(value@),
    {
        let mut args = self.args;
        let ghost before = args@;
        args.push(slice_to_vec(value));
        let r = CommandArgs { args };
        assert(r@ =~= views(before).push(value@));
        r
    }

    /// Appends a string.
    pub fn arg_str(self, value: &str) -> (r: CommandArgs)
        ensures
            r@ == self@.push(value.spec_bytes()),
    {
        self.arg(value.as_bytes())
    }

    /// Appends an unsigned integer in decimal.
    pub fn arg_u64(self, value: u64) -> (r: CommandArgs)
        ensures
            r@ == self@.push(decimal(value as nat)),
    {
        let digits = u64_to_decimal(value);
        self.arg(digits.as_slice())
    }

    /// Appends a signed integer in decimal.
    pub fn arg_i64(self, value: i64) -> (r: CommandArgs)
        ensures
            r@ == self@.push(signed_decimal(value as int)),
    {
        let digits = i64_to_decimal(value);
        self.arg(digits.as_slice())
    }

    /// Appends every argument of `other`.
    pub fn args(self, other: CommandArgs) -> (r: CommandArgs)
        ensures
            r@ == self@ + other@,
    {
        let mut args = self.args;
        let ghost before = args@;
        let mut tail = other.args;
        let ghost more = tail@;
        args.append(&mut tail);
        let r = CommandArgs { args };
        assert(r@ =~= views(before) + views(more));
        r
    }

    pub fn len(&self) -> (r: usize)
        ensures
            r == self@.len(),
    {
        self.args.len()
    }
}

/// How exactly a trim threshold is applied.
#[derive(Clone, Copy, Debug, PartialEq, Eq, Structural)]
pub enum XTrimOperator {
    Unspecified,
    Equal,
    Approximately,
}

impl Default for XTrimOperator {
    fn default() -> (r: XTrimOperator)
        ensures
            r == XTrimOperator::Unspecified,
    {
        XTrimOperator::Unspecified
    }
}

impl XTrimOperator {
    /// The arguments the operator adds: none, `=` or `~`.
    pub open spec fn spec_args(self) -> Seq<Seq<u8>> {
        match self {
            XTrimOperator::Unspecified => seq![],
            XTrimOperator::Equal => seq!["=".spec_bytes()],
            XTrimOperator::Approximately => seq!["~".spec_bytes()],
        }
    }

    pub fn into_args(self, args: CommandArgs) -> (r: CommandArgs)
        ensures
            r@ == args@ + self.spec_args(),
    {
        match self {
            XTrimOperator::Unspecified => {
                assert(args@ + self.spec_args() =~= args@);
                args
            },
            XTrimOperator::Equal => args.arg_str("="),
            XTrimOperator::Approximately => args.arg_str("~"),
        }
    }
}

/// Options of `XADD`.
#[derive(Debug)]
pub struct XAddOptions {
    pub command_args: CommandArgs,
}

impl View for XAddOptions {
    type V = Seq<Seq<u8>>;

    open spec fn view(&self) -> Seq<Seq<u8>> {
        self.command_args@
    }
}

impl Default for XAddOptions {
    fn default() -> (r: XAddOptions)
        ensures
            r@ == Seq::<Seq<u8>>::empty(),
    {
        XAddOptions { command_args: CommandArgs::new() }
    }
}

impl XAddOptions {
    pub fn no_mk_stream(self) -> (r: XAddOptions)
        ensures
            r@ == self@.push("NOMKSTREAM".spec_bytes()),
    {
        XAddOptions { command_args: self.command_args.arg_str("NOMKSTREAM") }
    }
}

/// Options of `XTRIM`, and of the trimming an `XADD` does.
#[derive(Debug)]
pub struct XTrimOptions {
    pub command_args: CommandArgs,
}

impl View for XTrimOptions {
    type V = Seq<Seq<u8>>;

    open spec fn view(&self) -> Seq<Seq<u8>> {
        self.command_args@
    }
}

impl Default for XTrimOptions {
    fn default() -> (r: XTrimOptions)
        ensures
            r@ == Seq::<Seq<u8>>::empty(),
    {
        XTrimOptions { command_args: CommandArgs::new() }
    }
}

impl XTrimOptions {
    pub fn limit(self, count: usize) -> (r: XTrimOptions)
        ensures
            r@ == self@.push("LIMIT".spec_bytes()).push(decimal(count as nat)),
    {
        XTrimOptions { command_args: self.command_args.arg_str("LIMIT").arg_u64(count as u64) }
    }
}

/// Options of `XAUTOCLAIM`.
#[derive(Debug)]
pub struct XAutoClaimOptions {
    pub command_args: CommandArgs,
}

impl View for XAutoClaimOptions {
    type V = Seq<Seq<u8>>;

    open spec fn view(&self) -> Seq<Seq<u8>> {
        self.command_args@
    }
}

impl Default for XAutoClaimOptions {
    fn default() -> (r: XAutoClaimOptions)
        ensures
            r@ == Seq::<Seq<u8>>::empty(),
    {
        XAutoClaimOptions { command_args: CommandArgs::new() }
    }
}

impl XAutoClaimOptions {
    pub fn count(self, count: usize) -> (r: XAutoClaimOptions)
        ensures
            r@ == self@.push("COUNT".spec_bytes()).push(decimal(count as nat)),
    {
        XAutoClaimOptions { command_args: self.command_args.arg_str("COUNT").arg_u64(count as u64) }
    }

    pub fn just_id(self) -> (r: XAutoClaimOptions)
        ensures
            r@ == self@.push("JUSTID".spec_bytes()),
    {
        XAutoClaimOptions { command_args: self.command_args.arg_str("JUSTID") }
    }
}

/// Options of `XCLAIM`.
#[derive(Debug)]
pub struct XClaimOptions {
    pub command_args: CommandArgs,
}

impl View for XClaimOptions {
    type V = Seq<Seq<u8>>;

    open spec fn view(&self) -> Seq<Seq<u8>> {
        self.command_args@
    }
}

impl Default for XClaimOptions {
    fn default() -> (r: XClaimOptions)
        ensures
            r@ == Seq::<Seq<u8>>::empty(),
    {
        XClaimOptions { command_args: CommandArgs::new() }
    }
}

impl XClaimOptions {
    pub fn idle_time(self, idle_time_millis: u64) -> (r: XClaimOptions)
        ensures
            r@ == self@.push("IDLE".spec_bytes()).push(decimal(idle_time_millis as nat)),
    {
        XClaimOptions { command_args: self.command_args.arg_str("IDLE").arg_u64(idle_time_millis) }
    }

    pub fn time(self, unix_time_milliseconds: u64) -> (r: XClaimOptions)
        ensures
            r@ == self@.push("TIME".spec_bytes()).push(decimal(unix_time_milliseconds as nat)),
    {
        XClaimOptions { command_args: self.command_args.arg_str("TIME").arg_u64(unix_time_milliseconds) }
    }

    pub fn retry_count(self, count: usize) -> (r: XClaimOptions)
        ensures
            r@ == self@.push("RETRYCOUNT".spec_bytes()).push(decimal(count as nat)),
    {
        XClaimOptions { command_args: self.command_args.arg_str("RETRYCOUNT").arg_u64(count as u64) }
    }

    pub fn force(self) -> (r: XClaimOptions)
        ensures
            r@ == self@.push("FORCE".spec_bytes()),
    {
        XClaimOptions { command_args: self.command_args.arg_str("FORCE") }
    }

    pub fn just_id(self) -> (r: XClaimOptions)
        ensures
            r@ == self@.push("JUSTID".spec_bytes()),
    {
        XClaimOptions { command_args: self.command_args.arg_str("JUSTID") }
    }
}

/// Options of `XGROUP CREATE`.
#[derive(Debug)]
pub struct XGroupCreateOptions {
    pub command_args: CommandArgs,
}

impl View for XGroupCreateOptions {
    type V = Seq<Seq<u8>>;

    open spec fn view(&self) -> Seq<Seq<u8>> {
        self.command_args@
    }
}

impl Default for XGroupCreateOptions {
    fn default() -> (r: XGroupCreateOptions)
        ensures
            r@ == Seq::<Seq<u8>>::empty(),
    {
        XGroupCreateOptions { command_args: CommandArgs::new() }
    }
}

impl XGroupCreateOptions {
    pub fn mk_stream(self) -> (r: XGroupCreateOptions)
        ensures
            r@ == self@.push("MKSTREAM".spec_bytes()),
    {
        XGroupCreateOptions { command_args: self.command_args.arg_str("MKSTREAM") }
    }

    pub fn entries_read(self, entries_read: usize) -> (r: XGroupCreateOptions)
        ensures
            r@ == self@.push("ENTRIESREAD".spec_bytes()).push(decimal(entries_read as nat)),
    {
        XGroupCreateOptions { command_args: self.command_args.arg_str("ENTRIESREAD").arg_u64(entries_read as u64) }
    }
}

/// Options of `XINFO STREAM`.
#[derive(Debug)]
pub struct XInfoStreamOptions {
    pub command_args: CommandArgs,
}

impl View for XInfoStreamOptions {
    type V = Seq<Seq<u8>>;

    open spec fn view(&self) -> Seq<Seq<u8>> {
        self.command_args@
    }
}

impl Default for XInfoStreamOptions {
    fn default() -> (r: XInfoStreamOptions)
        ensures
            r@ == Seq::<Seq<u8>>::empty(),
    {
        XInfoStreamOptions { command_args: CommandArgs::new() }
    }
}

impl XInfoStreamOptions {
    pub fn full(self) -> (r: XInfoStreamOptions)
        ensures
            r@ == self@.push("FULL".spec_bytes()),
    {
        XInfoStreamOptions { command_args: self.command_args.arg_str("FULL") }
    }

    pub fn count(self, count: usize) -> (r: XInfoStreamOptions)
        ensures
            r@ == self@.push("COUNT".spec_bytes()).push(decimal(count as nat)),
    {
        XInfoStreamOptions { command_args: self.command_args.arg_str("COUNT").arg_u64(count as u64) }
    }
}

/// Options of `XREAD`.
#[derive(Debug)]
pub struct XReadOptions {
    pub command_args: CommandArgs,
}

impl View for XReadOptions {
    type V = Seq<Seq<u8>>;

    open spec fn view(&self) -> Seq<Seq<u8>> {
        self.command_args@
    }
}

impl Default for XReadOptions {
    fn default() -> (r: XReadOptions)
        ensures
            r@ == Seq::<Seq<u8>>::empty(),
    {
        XReadOptions { command_args: CommandArgs::new() }
    }
}

impl XReadOptions {
    pub fn count(self, count: usize) -> (r: XReadOptions)
        ensures
            r@ == self@.push("COUNT".spec_bytes()).push(decimal(count as nat)),
    {
        XReadOptions { command_args: self.command_args.arg_str("COUNT").arg_u64(count as u64) }
    }

    pub fn block(self, milliseconds: u64) -> (r: XReadOptions)
        ensures
            r@ == self@.push("BLOCK".spec_bytes()).push(decimal(milliseconds as nat)),
    {
        XReadOptions { command_args: self.command_args.arg_str("BLOCK").arg_u64(milliseconds) }
    }
}

/// Options of `XREADGROUP`.
#[derive(Debug)]
pub struct XReadGroupOptions {
    pub command_args: CommandArgs,
}

impl View for XReadGroupOptions {
    type V = Seq<Seq<u8>>;

    open spec fn view(&self) -> Seq<Seq<u8>> {
        self.command_args@
    }
}

impl Default for XReadGroupOptions {
    fn default() -> (r: XReadGroupOptions)
        ensures
            r@ == Seq::<Seq<u8>>::empty(),
    {
        XReadGroupOptions { command_args: CommandArgs::new() }
    }
}

impl XReadGroupOptions {
    pub fn count(self, count: usize) -> (r: XReadGroupOptions)
        ensures
            r@ == self@.push("COUNT".spec_bytes()).push(decimal(count as nat)),
    {
        XReadGroupOptions { command_args: self.command_args.arg_str("COUNT").arg_u64(count as u64) }
    }

    pub fn block(self, milliseconds: u64) -> (r: XReadGroupOptions)
        ensures
            r@ == self@.push("BLOCK".spec_bytes()).push(decimal(milliseconds as nat)),
    {
        XReadGroupOptions { command_args: self.command_args.arg_str("BLOCK").arg_u64(milliseconds) }
    }

    pub fn no_ack(self) -> (r: XReadGroupOptions)
        ensures
            r@ == self@.push("NOACK".spec_bytes()),
    {
        XReadGroupOptions { command_args: self.command_args.arg_str("NOACK") }
    }
}

/// Options of `XPENDING`.
#[derive(Debug)]
pub struct XPendingOptions {
    pub command_args: CommandArgs,
}

impl View for XPendingOptions {
    type V = Seq<Seq<u8>>;

    open spec fn view(&self) -> Seq<Seq<u8>> {
        self.command_args@
    }
}

impl Default for XPendingOptions {
    fn default() -> (r: XPendingOptions)
        ensures
            r@ == Seq::<Seq<u8>>::empty(),
    {
        XPendingOptions { command_args: CommandArgs::new() }
    }
}

impl XPendingOptions {
    pub fn idle(self, min_idle_time: u64) -> (r: XPendingOptions)
        ensures
            r@ == self@.push("IDLE".spec_bytes()).push(decimal(min_idle_time as nat)),
    {
        XPendingOptions { command_args: self.command_args.arg_str("IDLE").arg_u64(min_idle_time) }
    }

    pub fn count(self, count: usize) -> (r: XPendingOptions)
        ensures
            r@ == self@.push(decimal(count as nat)),
    {
        XPendingOptions { command_args: self.command_args.arg_u64(count as u64) }
    }
}

impl XAddOptions {
    /// Trims the stream as the options say.
    pub fn trim_options(self, trim_options: XTrimOptions) -> (r: XAddOptions)
        ensures
            r@ == self@ + trim_options@,
    {
        XAddOptions { command_args: self.command_args.args(trim_options.command_args) }
    }
}

impl XTrimOptions {
    /// Trims to at most `threshold` entries.
    pub fn max_len(operator: XTrimOperator, threshold: i64) -> (r: XTrimOptions)
        ensures
            r@ == seq!["MAXLEN".spec_bytes()] + operator.spec_args() + seq![signed_decimal(threshold as int)],
    {
        let args = operator.into_args(CommandArgs::new().arg_str("MAXLEN")).arg_i64(threshold);
        let r = XTrimOptions { command_args: args };
        assert(r@ =~= seq!["MAXLEN".spec_bytes()] + operator.spec_args() + seq![signed_decimal(threshold as int)]);
        r
    }

    /// Trims the entries whose id is below `threshold_id`.
    pub fn min_id(operator: XTrimOperator, threshold_id: &str) -> (r: XTrimOptions)
        ensures
            r@ == seq!["MINID".spec_bytes()] + operator.spec_args() + seq![threshold_id.spec_bytes()],
    {
        let args = operator.into_args(CommandArgs::new().arg_str("MINID")).arg_str(threshold_id);
        let r = XTrimOptions { command_args: args };
        assert(r@ =~= seq!["MINID".spec_bytes()] + operator.spec_args() + seq![threshold_id.spec_bytes()]);
        r
    }
}

impl XPendingOptions {
    /// The smallest id listed.
    pub fn start(self, start: &str) -> (r: XPendingOptions)
        ensures
            r@ == self@.push(start.spec_bytes()),
    {
        XPendingOptions { command_args: self.command_args.arg_str(start) }
    }

    /// The greatest id listed.
    pub fn end(self, end: &str) -> (r: XPendingOptions)
        ensures
            r@ == self@.push(end.spec_bytes()),
    {
        XPendingOptions { command_args: self.command_args.arg_str(end) }
    }

    /// Lists only the entries of one consumer.
    pub fn consumer(self, consumer: &str) -> (r: XPendingOptions)
        ensures
            r@ == self@.push(consumer.spec_bytes()),
    {
        XPendingOptions { command_args: self.command_args.arg_str(consumer) }
    }
}

/// Options of `TDIGEST.MERGE`.
#[derive(Debug)]
pub struct TDigestMergeOptions {
    pub command_args: CommandArgs,
}

impl View for TDigestMergeOptions {
    type V = Seq<Seq<u8>>;

    open spec fn view(&self) -> Seq<Seq<u8>> {
        self.command_args@
    }
}

impl Default for TDigestMergeOptions {
    fn default() -> (r: TDigestMergeOptions)
        ensures
            r@ == Seq::<Seq<u8>>::empty(),
    {
        TDigestMergeOptions { command_args: CommandArgs::new() }
    }
}

impl TDigestMergeOptions {
    /// The compression of the merged sketch.
    pub fn compression(self, compression: usize) -> (r: TDigestMergeOptions)
        ensures
            r@ == self@.push("COMPRESSION".spec_bytes()).push(decimal(compression as nat)),
    {
        TDigestMergeOptions { command_args: self.command_args.arg_str("COMPRESSION").arg_u64(compression as u64) }
    }

    /// Replaces the destination rather than merging into it.
    pub fn _override(self) -> (r: TDigestMergeOptions)
        ensures
            r@ == self@.push("OVERRIDE".spec_bytes()),
    {
        TDigestMergeOptions { command_args: self.command_args.arg_str("OVERRIDE") }
    }
}

} // verus!
