//! The options and results of the commands whose arguments are named
//! fields: each builder sets one field and leaves the others as they were.
use vstd::prelude::*;
use std::collections::HashMap;

verus! {

/// Options of `SSCAN`.
#[derive(Debug)]
pub struct SScanOptions<'a> {
    pub match_pattern: Option<&'a str>,
    pub count: Option<u32>,
}

impl<'a> Default for SScanOptions<'a> {
    fn default() -> (r: SScanOptions<'a>)
        ensures
            r.match_pattern is None,
            r.count is None,
    {
        SScanOptions { match_pattern: None, count: None }
    }
}

impl<'a> SScanOptions<'a> {
    /// Only the members matching a glob pattern.
    pub fn match_pattern(self, match_pattern: &'a str) -> (r: SScanOptions<'a>)
        ensures
            r.match_pattern == Some(match_pattern),
            r.count == self.count,
    {
        SScanOptions { match_pattern: Some(match_pattern), ..self }
    }

    /// About how many members one call returns.
    pub fn count(self, count: u32) -> (r: SScanOptions<'a>)
        ensures
            r.count == Some(count),
            r.match_pattern == self.match_pattern,
    {
        SScanOptions { count: Some(count), ..self }
    }
}

/// Condition of `ZADD`.
#[derive(Clone, Copy, Debug, PartialEq, Eq, Structural)]
pub enum ZAddCondition {
    /// Only add new elements.
    NX,
    /// Only update elements that already exist.
    XX,
}

/// Comparison of `ZADD`.
#[derive(Clone, Copy, Debug, PartialEq, Eq, Structural)]
pub enum ZAddComparison {
    /// Only update when the new score is greater.
    GT,
    /// Only update when the new score is less.
    LT,
}

/// What a `ZRANGE` range is read as.
#[derive(Clone, Copy, Debug, PartialEq, Eq, Structural)]
pub enum ZRangeSortBy {
    /// Scores.
    ByScore,
    /// Lexicographic bounds.
    ByLex,
}

/// How the scores of a union or intersection are combined.
#[derive(Clone, Copy, Debug, PartialEq, Eq, Structural)]
pub enum ZAggregate {
    Sum,
    Min,
    Max,
}

/// Which end of a sorted set `ZMPOP` pops from.
#[derive(Clone, Copy, Debug, PartialEq, Eq, Structural)]
pub enum ZWhere {
    Min,
    Max,
}

/// Options of `ZADD`.
#[derive(Debug)]
pub struct ZAddOptions {
    pub condition: Option<ZAddCondition>,
    pub comparison: Option<ZAddComparison>,
    pub change: bool,
}

impl Default for ZAddOptions {
    fn default() -> (r: ZAddOptions)
        ensures
            r.condition is None,
            r.comparison is None,
            r.change == false,
    {
        ZAddOptions { condition: None, comparison: None, change: false }
    }
}

impl ZAddOptions {
    /// Adds or updates only under a condition.
    pub fn condition(self, condition: ZAddCondition) -> (r: ZAddOptions)
        ensures
            r.condition == Some(condition),
            r.comparison == self.comparison,
            r.change == self.change,
    {
        ZAddOptions { condition: Some(condition), ..self }
    }

    /// Updates only when the score compares so.
    pub fn comparison(self, comparison: ZAddComparison) -> (r: ZAddOptions)
        ensures
            r.comparison == Some(comparison),
            r.condition == self.condition,
            r.change == self.change,
    {
        ZAddOptions { comparison: Some(comparison), ..self }
    }

    /// Counts the changed elements, not only the added ones.
    pub fn change(self) -> (r: ZAddOptions)
        ensures
            r.change == true,
            r.condition == self.condition,
            r.comparison == self.comparison,
    {
        ZAddOptions { change: true, ..self }
    }
}

/// Options of `ZRANGE` and `ZRANGESTORE`.
#[derive(Debug)]
pub struct ZRangeOptions {
    pub sort_by: Option<ZRangeSortBy>,
    pub reverse: bool,
    pub limit: Option<(u32, i32)>,
}

impl Default for ZRangeOptions {
    fn default() -> (r: ZRangeOptions)
        ensures
            r.sort_by is None,
            r.reverse == false,
            r.limit is None,
    {
        ZRangeOptions { sort_by: None, reverse: false, limit: None }
    }
}

impl ZRangeOptions {
    /// Reads the range by score or lexicographically.
    pub fn sort_by(self, sort_by: ZRangeSortBy) -> (r: ZRangeOptions)
        ensures
            r.sort_by == Some(sort_by),
            r.reverse == self.reverse,
            r.limit == self.limit,
    {
        ZRangeOptions { sort_by: Some(sort_by), ..self }
    }

    /// Orders from the highest to the lowest.
    pub fn reverse(self) -> (r: ZRangeOptions)
        ensures
            r.reverse == true,
            r.sort_by == self.sort_by,
            r.limit == self.limit,
    {
        ZRangeOptions { reverse: true, ..self }
    }

    /// Skips `offset` elements and returns at most `count`.
    pub fn limit(self, offset: u32, count: i32) -> (r: ZRangeOptions)
        ensures
            r.limit == Some((offset, count)),
            r.sort_by == self.sort_by,
            r.reverse == self.reverse,
    {
        ZRangeOptions { limit: Some((offset, count)), ..self }
    }
}

/// Options of `ZSCAN`.
#[derive(Debug)]
pub struct ZScanOptions<'a> {
    pub match_pattern: Option<&'a str>,
    pub count: Option<u32>,
}

impl<'a> Default for ZScanOptions<'a> {
    fn default() -> (r: ZScanOptions<'a>)
        ensures
            r.match_pattern is None,
            r.count is None,
    {
        ZScanOptions { match_pattern: None, count: None }
    }
}

impl<'a> ZScanOptions<'a> {
    /// Only the members matching a glob pattern.
    pub fn match_pattern(self, match_pattern: &'a str) -> (r: ZScanOptions<'a>)
        ensures
            r.match_pattern == Some(match_pattern),
            r.count == self.count,
    {
        ZScanOptions { match_pattern: Some(match_pattern), ..self }
    }

    /// About how many members one call returns.
    pub fn count(self, count: u32) -> (r: ZScanOptions<'a>)
        ensures
            r.count == Some(count),
            r.match_pattern == self.match_pattern,
    {
        ZScanOptions { count: Some(count), ..self }
    }
}

/// Expiration of `GETEX`.
#[derive(Clone, Copy, Debug, PartialEq, Eq, Structural)]
pub enum GetExOptions {
    /// Seconds.
    Ex(u64),
    /// Milliseconds.
    Px(u64),
    /// Unix time in seconds.
    Exat(u64),
    /// Unix time in milliseconds.
    Pxat(u64),
    /// Removes the expiration.
    Persist,
}

/// Expiration of `SET`.
#[derive(Clone, Copy, Debug, PartialEq, Eq, Structural)]
pub enum SetExpiration {
    /// Seconds.
    Ex(u64),
    /// Milliseconds.
    Px(u64),
    /// Unix time in seconds.
    Exat(u64),
    /// Unix time in milliseconds.
    Pxat(u64),
    /// Keeps the current time to live.
    KeepTtl,
}

/// Condition of `DELEX`.
#[derive(Clone, Copy, Debug)]
pub enum DelexCondition<'a> {
    /// Deletes when the value equals.
    IFEQ(&'a str),
    /// Deletes when the value differs.
    IFNE(&'a str),
    /// Deletes when the value's digest equals.
    IFDEQ(&'a str),
    /// Deletes when the value's digest differs.
    IFDNE(&'a str),
}

/// Condition of `SET`.
#[derive(Clone, Copy, Debug)]
pub enum SetCondition<'a> {
    /// Only sets a key that does not exist.
    NX,
    /// Only sets a key that exists.
    XX,
    /// Only sets when the value equals.
    IFEQ(&'a str),
    /// Only sets when the value differs.
    IFNE(&'a str),
    /// Only sets when the value's digest equals.
    IFDEQ(&'a str),
    /// Only sets when the value's digest differs.
    IFDNE(&'a str),
}

/// One match of `LCS`: the ranges in each string, and the match length when
/// asked for.
#[derive(Debug, PartialEq, Eq)]
pub struct LcsMatch(pub (usize, usize), pub (usize, usize), pub Option<usize>);

/// What `LCS ... IDX` answers.
#[derive(Debug)]
pub struct LcsResult {
    pub matches: Vec<LcsMatch>,
    pub len: usize,
}

/// What `TDIGEST.INFO` answers.
#[derive(Debug)]
pub struct TDigestInfoResult {
    pub compression: usize,
    pub capacity: usize,
    pub merged_nodes: usize,
    pub unmerged_nodes: usize,
    pub merged_weight: usize,
    pub unmerged_weight: usize,
    pub observations: usize,
    pub total_compressions: usize,
    pub memory_usage: usize,
}

/// Encoding of a time series' chunks.
#[derive(Clone, Copy, Debug, PartialEq, Eq, Structural)]
pub enum TsEncoding {
    Compressed,
    Uncompressed,
}

/// What a time series does with a sample at an existing timestamp.
#[derive(Clone, Copy, Debug, PartialEq, Eq, Structural)]
pub enum TsDuplicatePolicy {
    Block,
    First,
    Last,
    Min,
    Max,
    Sum,
}

/// How a time series' samples are aggregated.
#[derive(Clone, Copy, Debug, PartialEq, Eq, Structural)]
pub enum TsAggregationType {
    Avg,
    Sum,
    Min,
    Max,
    Range,
    Count,
    First,
    Last,
    StdP,
    StdS,
    VarP,
    VarS,
    Twa,
}

/// Options of `TS.CREATERULE`.
#[derive(Debug)]
pub struct TsCreateRuleOptions {
    pub align_timestamp: Option<u64>,
}

impl Default for TsCreateRuleOptions {
    fn default() -> (r: TsCreateRuleOptions)
        ensures
            r.align_timestamp is None,
    {
        TsCreateRuleOptions { align_timestamp: None }
    }
}

impl TsCreateRuleOptions {
    /// Aligns the buckets on a timestamp.
    pub fn align_timestamp(self, align_timestamp: u64) -> (r: TsCreateRuleOptions)
        ensures
            r.align_timestamp == Some(align_timestamp),
    {
        TsCreateRuleOptions { align_timestamp: Some(align_timestamp), ..self }
    }
}

/// Options of `TS.GET`.
#[derive(Debug)]
pub struct TsGetOptions {
    pub latest: bool,
}

impl Default for TsGetOptions {
    fn default() -> (r: TsGetOptions)
        ensures
            r.latest == false,
    {
        TsGetOptions { latest: false }
    }
}

impl TsGetOptions {
    /// Reports the latest, possibly partial, bucket of a compaction.
    pub fn latest(self) -> (r: TsGetOptions)
        ensures
            r.latest == true,
    {
        TsGetOptions { latest: true, ..self }
    }
}

/// A compaction rule of a time series.
#[derive(Debug)]
pub struct TsCompactionRule {
    pub compaction_key: String,
    pub bucket_duration: u64,
    pub aggregator: TsAggregationType,
    pub alignment: u64,
}

/// Grouping of `TS.MRANGE`: series sharing a label value are reduced together.
#[derive(Debug)]
pub struct TsGroupByOptions<'a> {
    pub groupby: &'a str,
    pub reduce: TsAggregationType,
}

impl<'a> TsGroupByOptions<'a> {
    /// Groups by `label`, reducing each group with `reducer`.
    pub fn new(label: &'a str, reducer: TsAggregationType) -> (r: TsGroupByOptions<'a>)
        ensures
            r.groupby == label,
            r.reduce == reducer,
    {
        TsGroupByOptions { groupby: label, reduce: reducer }
    }
}

/// A time series timestamp.
#[derive(Clone, Copy, Debug, PartialEq, Eq, Structural)]
pub enum TsTimestamp {
    /// A timestamp the caller gives.
    Value(u64),
    /// The server's clock, sent as `*`.
    ServerClock,
}

impl TsTimestamp {
    /// The argument a timestamp is sent as.
    pub open spec fn spec_arg(self) -> Seq<u8> {
        match self {
            TsTimestamp::Value(ts) => crate::bytes_util::decimal(ts as nat),
            TsTimestamp::ServerClock => seq!['*' as u8],
        }
    }

    pub fn to_arg(&self) -> (r: Vec<u8>)
        ensures
            r@ == self.spec_arg(),
    {
        match self {
            TsTimestamp::Value(ts) => crate::bytes_util::u64_to_decimal(*ts),
            TsTimestamp::ServerClock => {
                let mut r: Vec<u8> = Vec::new();
                r.push('*' as u8);
                assert(r@ =~= seq!['*' as u8]);
                r
            },
        }
    }
}

/// What `TOPK.LIST ... WITHCOUNT` answers: items with their counts.
#[derive(Debug)]
pub struct TopKListWithCountResult<R> {
    pub items: Vec<(R, usize)>,
}

/// How `VADD` quantizes the vectors it stores.
#[derive(Clone, Copy, Debug, PartialEq, Eq, Structural)]
pub enum QuantizationOptions {
    NoQuant,
    Bin,
    Q8,
}

/// Options of `VADD`.
#[derive(Debug)]
pub struct VAddOptions<'a> {
    pub cas: bool,
    pub quantization: Option<QuantizationOptions>,
    pub ef: Option<u32>,
    pub setattr: Option<&'a str>,
    pub m: Option<u32>,
}

impl<'a> Default for VAddOptions<'a> {
    fn default() -> (r: VAddOptions<'a>)
        ensures
            r.cas == false,
            r.quantization is None,
            r.ef is None,
            r.setattr is None,
            r.m is None,
    {
        VAddOptions { cas: false, quantization: None, ef: None, setattr: None, m: None }
    }
}

impl<'a> VAddOptions<'a> {
    /// Runs the candidate search in a background thread.
    pub fn cas(self) -> (r: VAddOptions<'a>)
        ensures
            r.cas == true,
            r.quantization == self.quantization,
            r.ef == self.ef,
            r.setattr == self.setattr,
            r.m == self.m,
    {
        VAddOptions { cas: true, ..self }
    }

    /// How the vector is quantized.
    pub fn quantization(self, quantization: QuantizationOptions) -> (r: VAddOptions<'a>)
        ensures
            r.quantization == Some(quantization),
            r.cas == self.cas,
            r.ef == self.ef,
            r.setattr == self.setattr,
            r.m == self.m,
    {
        VAddOptions { quantization: Some(quantization), ..self }
    }

    /// The exploration factor of the graph build.
    pub fn ef(self, build_exploration_factor: u32) -> (r: VAddOptions<'a>)
        ensures
            r.ef == Some(build_exploration_factor),
            r.cas == self.cas,
            r.quantization == self.quantization,
            r.setattr == self.setattr,
            r.m == self.m,
    {
        VAddOptions { ef: Some(build_exploration_factor), ..self }
    }

    /// Attributes stored with the element.
    pub fn set_attr(self, attributes: &'a str) -> (r: VAddOptions<'a>)
        ensures
            r.setattr == Some(attributes),
            r.cas == self.cas,
            r.quantization == self.quantization,
            r.ef == self.ef,
            r.m == self.m,
    {
        VAddOptions { setattr: Some(attributes), ..self }
    }

    /// The number of links per node.
    pub fn m(self, num_links: u32) -> (r: VAddOptions<'a>)
        ensures
            r.m == Some(num_links),
            r.cas == self.cas,
            r.quantization == self.quantization,
            r.ef == self.ef,
            r.setattr == self.setattr,
    {
        VAddOptions { m: Some(num_links), ..self }
    }
}

/// What `VINFO` answers.
#[derive(Debug)]
pub struct VInfoResult {
    pub quant_type: String,
    pub vector_dim: u32,
    pub size: u32,
    pub max_level: u32,
    pub vset_uid: u32,
    pub hnsw_max_node_uid: u32,
}

/// An entry of a stream.
#[derive(Debug)]
pub struct StreamEntry<V> {
    pub stream_id: String,
    pub items: HashMap<String, V>,
}

/// What `XAUTOCLAIM` answers.
#[derive(Debug)]
pub struct XAutoClaimResult<V> {
    pub start_stream_id: String,
    pub entries: Vec<StreamEntry<V>>,
    pub deleted_ids: Vec<String>,
}

/// A consumer, as `XINFO CONSUMERS` describes it.
#[derive(Debug)]
pub struct XConsumerInfo {
    pub name: String,
    pub pending: usize,
    pub idle_millis: u64,
}

/// A consumer group, as `XINFO GROUPS` describes it.
#[derive(Debug)]
pub struct XGroupInfo {
    pub name: String,
    pub consumers: usize,
    pub pending: usize,
    pub last_delivered_id: String,
    pub entries_read: Option<usize>,
    pub lag: Option<usize>,
}

/// A stream, as `XINFO STREAM` describes it.
#[derive(Debug)]
pub struct XStreamInfo {
    pub length: usize,
    pub radix_tree_keys: usize,
    pub radix_tree_nodes: usize,
    pub groups: usize,
    pub last_generated_id: String,
    pub max_deleted_entry_id: String,
    pub entries_added: usize,
    pub first_entry: StreamEntry<String>,
    pub last_entry: StreamEntry<String>,
    pub recorded_first_entry_id: String,
}

/// What `XPENDING` answers in its summary form.
#[derive(Debug)]
pub struct XPendingResult {
    pub num_pending_messages: usize,
    pub smallest_id: String,
    pub greatest_id: String,
    pub consumers: Vec<XPendingConsumer>,
}

/// A consumer of the `XPENDING` summary.
#[derive(Debug)]
pub struct XPendingConsumer {
    pub consumer: String,
    pub num_messages: usize,
}

/// A pending entry, as `XPENDING` lists it.
#[derive(Debug)]
pub struct XPendingMessageResult {
    pub message_id: String,
    pub consumer: String,
    pub elapsed_millis: u64,
    pub times_delivered: usize,
}

} // verus!
