//! Reading the error replies of the server: the code that leads them, and the
//! slot and node a redirection names.
use crate::bytes_util::{bytes_eq, decimal, extend_bytes, slice_to_vec, u64_to_decimal};
use crate::error::{decoded_text, utf8_lossy, ClientError, Error, ErrorKind, NodeAddress, RedisError, RedisErrorKind};
use vstd::utf8::valid_utf8;
use vstd::prelude::*;
use vstd::string::StringSliceAdditionalSpecFns;

verus! {

/// Whether a byte is ASCII whitespace (space, tab, line feed, form feed,
/// carriage return).
pub open spec fn is_ascii_ws(c: u8) -> bool {
    c == 32 || c == 9 || c == 10 || c == 12 || c == 13
}

/// The pieces between whitespace bytes, empty pieces included.
pub open spec fn split_ws(s: Seq<u8>) -> Seq<Seq<u8>>
    decreases s.len(),
{
    if s.len() == 0 {
        seq![seq![]]
    } else {
        let prev = split_ws(s.drop_last());
        if is_ascii_ws(s.last()) {
            prev.push(seq![])
        } else {
            prev.update(prev.len() - 1, prev.last().push(s.last()))
        }
    }
}

/// Splitting always yields at least one piece.
pub proof fn lemma_split_ws_nonempty(s: Seq<u8>)
    ensures
        split_ws(s).len() >= 1,
    decreases s.len(),
{
    if s.len() > 0 {
        lemma_split_ws_nonempty(s.drop_last());
    }
}

/// The first position holding `c`.
pub open spec fn first_index_of(s: Seq<u8>, c: u8) -> Option<int>
    decreases s.len(),
{
    if s.len() == 0 {
        None
    } else if s[0] == c {
        Some(0)
    } else {
        match first_index_of(s.drop_first(), c) {
            Some(i) => Some(i + 1),
            None => None,
        }
    }
}

/// The last position holding `c`.
pub open spec fn last_index_of(s: Seq<u8>, c: u8) -> Option<int>
    decreases s.len(),
{
    if s.len() == 0 {
        None
    } else if s.last() == c {
        Some(s.len() - 1)
    } else {
        last_index_of(s.drop_last(), c)
    }
}

pub open spec fn is_digit(c: u8) -> bool {
    48 <= c <= 57
}

/// How many ASCII digits follow position `start`.
pub open spec fn digit_run(s: Seq<u8>, start: int) -> nat
    decreases s.len() - start,
{
    if start < 0 || start >= s.len() || !is_digit(s[start]) {
        0
    } else {
        1 + digit_run(s, start + 1)
    }
}

/// The value of a string of ASCII digits.
pub open spec fn digits_value(s: Seq<u8>) -> nat
    decreases s.len(),
{
    if s.len() == 0 {
        0
    } else {
        digits_value(s.drop_last()) * 10 + (s.last() - 48) as nat
    }
}

/// What `atoi` reads as a `u16` from the start of `text`: an optional sign,
/// then the longest run of digits. Nothing read is `None`, and so is a value
/// that does not fit; a negative sign only admits zero.
pub open spec fn spec_atoi_u16(text: Seq<u8>) -> Option<u16> {
    let signed = text.len() > 0 && (text[0] == 43 || text[0] == 45);
    let offset: int = if signed { 1 } else { 0 };
    let run = digit_run(text, offset);
    let value = digits_value(text.subrange(offset, offset + run));
    if offset + run == 0 {
        None
    } else if signed && text[0] == 45 {
        if value == 0 { Some(0u16) } else { None }
    } else if value <= 65535 {
        Some(value as u16)
    } else {
        None
    }
}

/// Reads a decimal `u16` at the start of `text`.
///
/// Calls `atoi::atoi::<u16>`, which reads an optional `+` or `-`, then as many
/// ASCII digits as follow, and answers `None` when it read nothing or when the
/// value overflows `u16` (any non-zero value after a `-` underflows).
#[verifier::external_body]
fn atoi_u16(text: &[u8]) -> (r: Option<u16>)
    ensures
        r == spec_atoi_u16(text@),
{
    atoi::atoi::<u16>(text)
}

/// The slot and the node a redirection names, or the error reading them.
pub open spec fn spec_slot_and_address(hash_slot: Seq<u8>, address: Seq<u8>) -> Result<(u16, Seq<u8>, u16), ClientError> {
    match spec_atoi_u16(hash_slot) {
        None => Err(ClientError::CannotParseHashSlot),
        Some(slot) => match last_index_of(address, 58) {
            None => Err(ClientError::CannotParseAddress),
            Some(i) => match spec_atoi_u16(address.subrange(i + 1, address.len() as int)) {
                None => Err(ClientError::CannotParsePort),
                Some(port) => Ok((slot, decoded_text(address.subrange(0, i)), port)),
            },
        },
    }
}

/// What an error code reads as.
pub enum ErrorCodeReading {
    /// A kind that names no node.
    Plain(RedisErrorKind),
    Ask(u16, Seq<u8>, u16),
    Moved(u16, Seq<u8>, u16),
    Failed(ClientError),
}

/// The kind a known code names exactly, if the bytes are one.
pub open spec fn known_code(value: Seq<u8>) -> Option<RedisErrorKind> {
    if value == "BUSYGROUP".spec_bytes() {
        Some(RedisErrorKind::BusyGroup)
    } else if value == "CLUSTERDOWN".spec_bytes() {
        Some(RedisErrorKind::ClusterDown)
    } else if value == "CROSSSLOT".spec_bytes() {
        Some(RedisErrorKind::CrossSlot)
    } else if value == "ERR".spec_bytes() {
        Some(RedisErrorKind::GenericErr)
    } else if value == "INPROG".spec_bytes() {
        Some(RedisErrorKind::InProg)
    } else if value == "IOERR".spec_bytes() {
        Some(RedisErrorKind::IoErr)
    } else if value == "MASTERDOWN".spec_bytes() {
        Some(RedisErrorKind::MasterDown)
    } else if value == "MISCONF".spec_bytes() {
        Some(RedisErrorKind::MisConf)
    } else if value == "NOAUTH".spec_bytes() {
        Some(RedisErrorKind::NoAuth)
    } else if value == "NOGOODSLAVE".spec_bytes() {
        Some(RedisErrorKind::NoGoodSlave)
    } else if value == "NOMASTERLINK".spec_bytes() {
        Some(RedisErrorKind::NoMasterLink)
    } else if value == "NOPERM".spec_bytes() {
        Some(RedisErrorKind::NoPerm)
    } else if value == "NOPROTO".spec_bytes() {
        Some(RedisErrorKind::NoProto)
    } else if value == "NOQUORUM".spec_bytes() {
        Some(RedisErrorKind::NoQuorum)
    } else if value == "NOTBUSY".spec_bytes() {
        Some(RedisErrorKind::NotBusy)
    } else if value == "NOSCRIPT".spec_bytes() {
        Some(RedisErrorKind::NoScript)
    } else if value == "OOM".spec_bytes() {
        Some(RedisErrorKind::OutOfMemory)
    } else if value == "READONLY".spec_bytes() {
        Some(RedisErrorKind::Readonly)
    } else if value == "TRYAGAIN".spec_bytes() {
        Some(RedisErrorKind::TryAgain)
    } else if value == "UNKILLABLE".spec_bytes() {
        Some(RedisErrorKind::UnKillable)
    } else if value == "UNBLOCKED".spec_bytes() {
        Some(RedisErrorKind::Unblocked)
    } else if value == "WRONGPASS".spec_bytes() {
        Some(RedisErrorKind::WrongPass)
    } else if value == "WRONGTYPE".spec_bytes() {
        Some(RedisErrorKind::WrongType)
    } else {
        None
    }
}

/// The kind an error code names: one of the known codes exactly, or an `ASK`
/// / `MOVED` redirection split into exactly three whitespace-separated pieces,
/// or `Other`.
pub open spec fn spec_error_kind(value: Seq<u8>) -> ErrorCodeReading {
    match known_code(value) {
        Some(kind) => ErrorCodeReading::Plain(kind),
        None => {
            let parts = split_ws(value);
            if parts.len() == 3 && parts[0] == "ASK".spec_bytes() {
                match spec_slot_and_address(parts[1], parts[2]) {
                    Ok((slot, host, port)) => ErrorCodeReading::Ask(slot, host, port),
                    Err(e) => ErrorCodeReading::Failed(e),
                }
            } else if parts.len() == 3 && parts[0] == "MOVED".spec_bytes() {
                match spec_slot_and_address(parts[1], parts[2]) {
                    Ok((slot, host, port)) => ErrorCodeReading::Moved(slot, host, port),
                    Err(e) => ErrorCodeReading::Failed(e),
                }
            } else {
                ErrorCodeReading::Plain(RedisErrorKind::Other)
            }
        },
    }
}

/// Whether a parsed kind is what a reading describes.
pub open spec fn kind_reads_as(kind: RedisErrorKind, reading: ErrorCodeReading) -> bool {
    match reading {
        ErrorCodeReading::Plain(k) => kind == k && !(k is Ask) && !(k is Moved),
        ErrorCodeReading::Ask(slot, host, port) => kind matches RedisErrorKind::Ask { hash_slot, address } && hash_slot == slot && address.0@ == host && address.1 == port,
        ErrorCodeReading::Moved(slot, host, port) => kind matches RedisErrorKind::Moved { hash_slot, address } && hash_slot == slot && address.0@ == host && address.1 == port,
        ErrorCodeReading::Failed(_) => false,
    }
}

/// Whether a parse outcome is what a reading describes.
pub open spec fn parse_reads_as(r: Result<RedisErrorKind, Error>, reading: ErrorCodeReading) -> bool {
    match r {
        Ok(kind) => kind_reads_as(kind, reading),
        Err(e) => reading matches ErrorCodeReading::Failed(c) && e.kind == ErrorKind::Client(c) && e.context is None,
    }
}

/// Splits `s` at every ASCII whitespace byte.
fn split_whitespace_pieces(s: &[u8]) -> (r: Vec<Vec<u8>>)
    ensures
        r@.len() == split_ws(s@).len(),
        forall|j: int| 0 <= j < r@.len() ==> (#[trigger] r@[j])@ == split_ws(s@)[j],
{
    let mut pieces: Vec<Vec<u8>> = Vec::new();
    pieces.push(Vec::new());
    let mut i: usize = 0;
    assert(s@.subrange(0, 0) =~= Seq::<u8>::empty());
    while i < s.len()
        invariant
            0 <= i <= s.len(),
            pieces@.len() == split_ws(s@.subrange(0, i as int)).len(),
            pieces@.len() >= 1,
            forall|j: int| 0 <= j < pieces@.len() ==> (#[trigger] pieces@[j])@ == split_ws(
                s@.subrange(0, i as int),
            )[j],
        decreases s.len() - i,
    {
        let c = s[i];
        let ghost before = s@.subrange(0, i as int);
        let ghost after = s@.subrange(0, i + 1);
        let ghost prev = pieces@;
        assert(after.drop_last() =~= before);
        assert(after.last() == c);
        if c == 32 || c == 9 || c == 10 || c == 12 || c == 13 {
            pieces.push(Vec::new());
            assert(split_ws(after) == split_ws(before).push(seq![]));
            assert forall|j: int| 0 <= j < pieces@.len() implies (#[trigger] pieces@[j])@ == split_ws(after)[j] by {
                if j < pieces@.len() - 1 {
                    assert(pieces@[j] == prev[j]);
                }
            }
        } else {
            let last = pieces.len() - 1;
            let mut piece = pieces.pop().unwrap();
            piece.push(c);
            pieces.push(piece);
            let ghost sb = split_ws(before);
            assert(split_ws(after) == sb.update(sb.len() - 1, sb.last().push(c)));
            assert forall|j: int| 0 <= j < pieces@.len() implies (#[trigger] pieces@[j])@ == split_ws(after)[j] by {
                if j < pieces@.len() - 1 {
                    assert(pieces@[j] == prev[j]);
                }
            }
        }
        i = i + 1;
    }
    assert(s@.subrange(0, s@.len() as int) =~= s@);
    pieces
}

/// The last position of `c` in `s`.
pub fn rposition(s: &[u8], c: u8) -> (r: Option<usize>)
    ensures
        r matches Some(i) ==> last_index_of(s@, c) == Some(i as int),
        r is None ==> last_index_of(s@, c) is None,
{
    let mut i: usize = s.len();
    assert(s@.subrange(0, s@.len() as int) =~= s@);
    while i > 0
        invariant
            0 <= i <= s.len(),
            last_index_of(s@, c) == last_index_of(s@.subrange(0, i as int), c),
        decreases i,
    {
        let ghost prefix = s@.subrange(0, i as int);
        assert(prefix.drop_last() =~= s@.subrange(0, i - 1));
        if s[i - 1] == c {
            return Some(i - 1);
        }
        i = i - 1;
    }
    None
}

/// The first position of `c` in `s`.
pub fn position(s: &[u8], c: u8) -> (r: Option<usize>)
    ensures
        r matches Some(i) ==> first_index_of(s@, c) == Some(i as int),
        r is None ==> first_index_of(s@, c) is None,
{
    let mut i: usize = 0;
    while i < s.len()
        invariant
            0 <= i <= s.len(),
            forall|j: int| 0 <= j < i ==> s@[j] != c,
        decreases s.len() - i,
    {
        if s[i] == c {
            proof {
                lemma_first_index_of(s@, c, i as int);
            }
            return Some(i);
        }
        i = i + 1;
    }
    proof {
        lemma_first_index_absent(s@, c);
    }
    None
}

proof fn lemma_first_index_of(s: Seq<u8>, c: u8, i: int)
    requires
        0 <= i < s.len(),
        s[i] == c,
        forall|j: int| 0 <= j < i ==> s[j] != c,
    ensures
        first_index_of(s, c) == Some(i),
    decreases i,
{
    if i > 0 {
        let t = s.drop_first();
        assert forall|j: int| 0 <= j < i - 1 implies t[j] != c by {
            assert(t[j] == s[j + 1]);
        }
        lemma_first_index_of(t, c, i - 1);
    }
}

proof fn lemma_first_index_absent(s: Seq<u8>, c: u8)
    requires
        forall|j: int| 0 <= j < s.len() ==> s[j] != c,
    ensures
        first_index_of(s, c) is None,
    decreases s.len(),
{
    if s.len() > 0 {
        let t = s.drop_first();
        assert forall|j: int| 0 <= j < t.len() implies t[j] != c by {
            assert(t[j] == s[j + 1]);
        }
        lemma_first_index_absent(t, c);
    }
}

/// Copies `s[from..to]`.
pub fn copy_range(s: &[u8], from: usize, to: usize) -> (r: Vec<u8>)
    requires
        from <= to <= s.len(),
    ensures
        r@ == s@.subrange(from as int, to as int),
{
    let mut r: Vec<u8> = Vec::new();
    let mut i = from;
    while i < to
        invariant
            from <= i <= to <= s.len(),
            r@ == s@.subrange(from as int, i as int),
        decreases to - i,
    {
        r.push(s[i]);
        i = i + 1;
        assert(r@ =~= s@.subrange(from as int, i as int));
    }
    r
}

/// Reads the slot and the `host:port` of a redirection. The port follows the
/// last colon, since an IPv6 host holds colons of its own.
pub fn parse_hash_slot_and_address(hash_slot: &[u8], address: &[u8]) -> (r: Result<(u16, (Vec<u8>, u16)), Error>)
    ensures
        match spec_slot_and_address(hash_slot@, address@) {
            Ok((slot, host, port)) => r matches Ok((s, (h, p))) && s == slot && h@ == host && p == port,
            Err(c) => r matches Err(e) && e.kind == ErrorKind::Client(c) && e.context is None,
        },
{
    let slot = match atoi_u16(hash_slot) {
        Some(slot) => slot,
        None => return Err(Error::client(ClientError::CannotParseHashSlot)),
    };
    let index = match rposition(address, 58) {
        Some(index) => index,
        None => return Err(Error::client(ClientError::CannotParseAddress)),
    };
    proof {
        lemma_last_index_in_bounds(address@, 58);
        assert(index < address.len());
    }
    let port_bytes = copy_range(address, index + 1, address.len());
    let port = match atoi_u16(port_bytes.as_slice()) {
        Some(port) => port,
        None => return Err(Error::client(ClientError::CannotParsePort)),
    };
    let raw_host = copy_range(address, 0, index);
    let host = utf8_lossy(raw_host.as_slice());
    Ok((slot, (host, port)))
}

/// The last position of a byte holds it, within the bytes.
pub proof fn lemma_last_index_in_bounds(s: Seq<u8>, c: u8)
    ensures
        last_index_of(s, c) matches Some(i) ==> 0 <= i < s.len() && s[i] == c,
    decreases s.len(),
{
    if s.len() > 0 && s.last() != c {
        lemma_last_index_in_bounds(s.drop_last(), c);
    }
}

impl RedisErrorKind {
    /// Reads an error code: one of the known codes, a redirection
    /// (`ASK <slot> <host>:<port>`, `MOVED <slot> <host>:<port>`), or `Other`.
    pub fn parse(value: &[u8]) -> (r: Result<RedisErrorKind, Error>)
        ensures
            parse_reads_as(r, spec_error_kind(value@)),
    {
        reveal(spec_error_kind);
        if bytes_eq(value, "BUSYGROUP".as_bytes()) {
            Ok(RedisErrorKind::BusyGroup)
        } else if bytes_eq(value, "CLUSTERDOWN".as_bytes()) {
            Ok(RedisErrorKind::ClusterDown)
        } else if bytes_eq(value, "CROSSSLOT".as_bytes()) {
            Ok(RedisErrorKind::CrossSlot)
        } else if bytes_eq(value, "ERR".as_bytes()) {
            Ok(RedisErrorKind::GenericErr)
        } else if bytes_eq(value, "INPROG".as_bytes()) {
            Ok(RedisErrorKind::InProg)
        } else if bytes_eq(value, "IOERR".as_bytes()) {
            Ok(RedisErrorKind::IoErr)
        } else if bytes_eq(value, "MASTERDOWN".as_bytes()) {
            Ok(RedisErrorKind::MasterDown)
        } else if bytes_eq(value, "MISCONF".as_bytes()) {
            Ok(RedisErrorKind::MisConf)
        } else if bytes_eq(value, "NOAUTH".as_bytes()) {
            Ok(RedisErrorKind::NoAuth)
        } else if bytes_eq(value, "NOGOODSLAVE".as_bytes()) {
            Ok(RedisErrorKind::NoGoodSlave)
        } else if bytes_eq(value, "NOMASTERLINK".as_bytes()) {
            Ok(RedisErrorKind::NoMasterLink)
        } else if bytes_eq(value, "NOPERM".as_bytes()) {
            Ok(RedisErrorKind::NoPerm)
        } else if bytes_eq(value, "NOPROTO".as_bytes()) {
            Ok(RedisErrorKind::NoProto)
        } else if bytes_eq(value, "NOQUORUM".as_bytes()) {
            Ok(RedisErrorKind::NoQuorum)
        } else if bytes_eq(value, "NOTBUSY".as_bytes()) {
            Ok(RedisErrorKind::NotBusy)
        } else if bytes_eq(value, "NOSCRIPT".as_bytes()) {
            Ok(RedisErrorKind::NoScript)
        } else if bytes_eq(value, "OOM".as_bytes()) {
            Ok(RedisErrorKind::OutOfMemory)
        } else if bytes_eq(value, "READONLY".as_bytes()) {
            Ok(RedisErrorKind::Readonly)
        } else if bytes_eq(value, "TRYAGAIN".as_bytes()) {
            Ok(RedisErrorKind::TryAgain)
        } else if bytes_eq(value, "UNKILLABLE".as_bytes()) {
            Ok(RedisErrorKind::UnKillable)
        } else if bytes_eq(value, "UNBLOCKED".as_bytes()) {
            Ok(RedisErrorKind::Unblocked)
        } else if bytes_eq(value, "WRONGPASS".as_bytes()) {
            Ok(RedisErrorKind::WrongPass)
        } else if bytes_eq(value, "WRONGTYPE".as_bytes()) {
            Ok(RedisErrorKind::WrongType)
        } else {
            let parts = split_whitespace_pieces(value);
            if parts.len() == 3 && bytes_eq(parts[0].as_slice(), "ASK".as_bytes()) {
                match parse_hash_slot_and_address(parts[1].as_slice(), parts[2].as_slice()) {
                    Ok((hash_slot, address)) => Ok(RedisErrorKind::Ask { hash_slot, address }),
                    Err(e) => Err(e),
                }
            } else if parts.len() == 3 && bytes_eq(parts[0].as_slice(), "MOVED".as_bytes()) {
                match parse_hash_slot_and_address(parts[1].as_slice(), parts[2].as_slice()) {
                    Ok((hash_slot, address)) => Ok(RedisErrorKind::Moved { hash_slot, address }),
                    Err(e) => Err(e),
                }
            } else {
                Ok(RedisErrorKind::Other)
            }
        }
    }
}

/// What a whole error reply reads as: the kind its code names, and the
/// description that follows the code, read as text. A redirection keeps no
/// description; an unknown code keeps the whole reply as its description.
pub open spec fn spec_redis_error(error: Seq<u8>) -> (ErrorCodeReading, Seq<u8>) {
    match first_index_of(error, 32) {
        Some(i) => {
            let code = error.subrange(0, i);
            let description = error.subrange(i + 1, error.len() as int);
            if code == "ASK".spec_bytes() || code == "MOVED".spec_bytes() {
                (spec_error_kind(error), seq![])
            } else {
                let reading = spec_error_kind(code);
                if reading == ErrorCodeReading::Plain(RedisErrorKind::Other) {
                    (reading, decoded_text(error))
                } else {
                    (reading, decoded_text(description))
                }
            }
        },
        None => (ErrorCodeReading::Plain(RedisErrorKind::Other), decoded_text(error)),
    }
}

/// The first position of a byte holds it, within the bytes.
pub proof fn lemma_first_index_in_bounds(s: Seq<u8>, c: u8)
    ensures
        first_index_of(s, c) matches Some(i) ==> 0 <= i < s.len() && s[i] == c,
    decreases s.len(),
{
    if s.len() > 0 && s[0] != c {
        lemma_first_index_in_bounds(s.drop_first(), c);
    }
}

impl RedisError {
    /// Reads an error reply: its leading code, then its description.
    #[verifier::rlimit(60)]
    pub fn parse(error: &[u8]) -> (r: Result<RedisError, Error>)
        ensures
            match r {
                Ok(e) => kind_reads_as(e.kind, spec_redis_error(error@).0) && e.description@
                    == spec_redis_error(error@).1,
                Err(err) => spec_redis_error(error@).0 matches ErrorCodeReading::Failed(c)
                    && err.kind == ErrorKind::Client(c) && err.context is None,
            },
    {
        match position(error, 32) {
            Some(i) => {
                proof {
                    lemma_first_index_in_bounds(error@, 32);
                }
                assert(i < error.len());
                let code = copy_range(error, 0, i);
                let redirect = bytes_eq(code.as_slice(), "ASK".as_bytes()) || bytes_eq(
                    code.as_slice(),
                    "MOVED".as_bytes(),
                );
                if redirect {
                    match RedisErrorKind::parse(error) {
                        Ok(kind) => Ok(RedisError { kind, description: Vec::new() }),
                        Err(e) => Err(e),
                    }
                } else {
                    match RedisErrorKind::parse(code.as_slice()) {
                        Ok(kind) => {
                            let is_other = match kind {
                                RedisErrorKind::Other => true,
                                _ => false,
                            };
                            proof {
                                let reading = spec_error_kind(code@);
                                assert(is_other == (reading == ErrorCodeReading::Plain(
                                    RedisErrorKind::Other,
                                )));
                            }
                            let description = if is_other {
                                utf8_lossy(error)
                            } else {
                                let raw = copy_range(error, i + 1, error.len());
                                utf8_lossy(raw.as_slice())
                            };
                            Ok(RedisError { kind, description })
                        },
                        Err(e) => Err(e),
                    }
                }
            },
            None => Ok(RedisError { kind: RedisErrorKind::Other, description: utf8_lossy(error) }),
        }
    }
}

/// The text of an error kind: its code, and for a redirection the slot and
/// node it names (`ASK <slot> <host>:<port>`); nothing for `Other`.
pub open spec fn spec_kind_text(kind: RedisErrorKind) -> Seq<u8> {
    match kind {
        RedisErrorKind::Ask { hash_slot, address } => "ASK ".spec_bytes() + decimal(hash_slot as nat) + seq![32u8] + address.0@ + seq![58u8] + decimal(address.1 as nat),
        RedisErrorKind::Moved { hash_slot, address } => "MOVED ".spec_bytes() + decimal(hash_slot as nat) + seq![32u8] + address.0@ + seq![58u8] + decimal(address.1 as nat),
        RedisErrorKind::BusyGroup => "BUSYGROUP".spec_bytes(),
        RedisErrorKind::ClusterDown => "CLUSTERDOWN".spec_bytes(),
        RedisErrorKind::CrossSlot => "CROSSSLOT".spec_bytes(),
        RedisErrorKind::GenericErr => "ERR".spec_bytes(),
        RedisErrorKind::InProg => "INPROG".spec_bytes(),
        RedisErrorKind::IoErr => "IOERR".spec_bytes(),
        RedisErrorKind::MasterDown => "MASTERDOWN".spec_bytes(),
        RedisErrorKind::MisConf => "MISCONF".spec_bytes(),
        RedisErrorKind::NoAuth => "NOAUTH".spec_bytes(),
        RedisErrorKind::NoGoodSlave => "NOGOODSLAVE".spec_bytes(),
        RedisErrorKind::NoMasterLink => "NOMASTERLINK".spec_bytes(),
        RedisErrorKind::NoPerm => "NOPERM".spec_bytes(),
        RedisErrorKind::NoProto => "NOPROTO".spec_bytes(),
        RedisErrorKind::NoQuorum => "NOQUORUM".spec_bytes(),
        RedisErrorKind::NotBusy => "NOTBUSY".spec_bytes(),
        RedisErrorKind::NoScript => "NOSCRIPT".spec_bytes(),
        RedisErrorKind::OutOfMemory => "OOM".spec_bytes(),
        RedisErrorKind::Readonly => "READONLY".spec_bytes(),
        RedisErrorKind::TryAgain => "TRYAGAIN".spec_bytes(),
        RedisErrorKind::UnKillable => "UNKILLABLE".spec_bytes(),
        RedisErrorKind::Unblocked => "UNBLOCKED".spec_bytes(),
        RedisErrorKind::WrongPass => "WRONGPASS".spec_bytes(),
        RedisErrorKind::WrongType => "WRONGTYPE".spec_bytes(),
        RedisErrorKind::Other => seq![],
    }
}

fn redirection_text(code: &str, hash_slot: u16, address: &NodeAddress) -> (r: Vec<u8>)
    ensures
        r@ == code.spec_bytes() + decimal(hash_slot as nat) + seq![32u8] + address.0@ + seq![58u8] + decimal(address.1 as nat),
{
    let mut r = slice_to_vec(code.as_bytes());
    let slot = u64_to_decimal(hash_slot as u64);
    extend_bytes(&mut r, slot.as_slice());
    r.push(32);
    extend_bytes(&mut r, address.0.as_slice());
    r.push(58);
    let port = u64_to_decimal(address.1 as u64);
    extend_bytes(&mut r, port.as_slice());
    r
}

impl RedisError {
    /// The text of the error: its kind, a space, and its description.
    pub fn text(&self) -> (r: Vec<u8>)
        ensures
            r@ == spec_kind_text(self.kind) + seq![32u8] + self.description@,
    {
        let mut r = self.kind.text();
        r.push(32);
        extend_bytes(&mut r, self.description.as_slice());
        r
    }
}

impl RedisErrorKind {
    /// The text of the kind, as an error reply would lead with it.
    pub fn text(&self) -> (r: Vec<u8>)
        ensures
            r@ == spec_kind_text(*self),
    {
        match self {
            RedisErrorKind::Ask { hash_slot, address } => redirection_text("ASK ", *hash_slot, address),
            RedisErrorKind::Moved { hash_slot, address } => redirection_text("MOVED ", *hash_slot, address),
            RedisErrorKind::BusyGroup => slice_to_vec("BUSYGROUP".as_bytes()),
            RedisErrorKind::ClusterDown => slice_to_vec("CLUSTERDOWN".as_bytes()),
            RedisErrorKind::CrossSlot => slice_to_vec("CROSSSLOT".as_bytes()),
            RedisErrorKind::GenericErr => slice_to_vec("ERR".as_bytes()),
            RedisErrorKind::InProg => slice_to_vec("INPROG".as_bytes()),
            RedisErrorKind::IoErr => slice_to_vec("IOERR".as_bytes()),
            RedisErrorKind::MasterDown => slice_to_vec("MASTERDOWN".as_bytes()),
            RedisErrorKind::MisConf => slice_to_vec("MISCONF".as_bytes()),
            RedisErrorKind::NoAuth => slice_to_vec("NOAUTH".as_bytes()),
            RedisErrorKind::NoGoodSlave => slice_to_vec("NOGOODSLAVE".as_bytes()),
            RedisErrorKind::NoMasterLink => slice_to_vec("NOMASTERLINK".as_bytes()),
            RedisErrorKind::NoPerm => slice_to_vec("NOPERM".as_bytes()),
            RedisErrorKind::NoProto => slice_to_vec("NOPROTO".as_bytes()),
            RedisErrorKind::NoQuorum => slice_to_vec("NOQUORUM".as_bytes()),
            RedisErrorKind::NotBusy => slice_to_vec("NOTBUSY".as_bytes()),
            RedisErrorKind::NoScript => slice_to_vec("NOSCRIPT".as_bytes()),
            RedisErrorKind::OutOfMemory => slice_to_vec("OOM".as_bytes()),
            RedisErrorKind::Readonly => slice_to_vec("READONLY".as_bytes()),
            RedisErrorKind::TryAgain => slice_to_vec("TRYAGAIN".as_bytes()),
            RedisErrorKind::UnKillable => slice_to_vec("UNKILLABLE".as_bytes()),
            RedisErrorKind::Unblocked => slice_to_vec("UNBLOCKED".as_bytes()),
            RedisErrorKind::WrongPass => slice_to_vec("WRONGPASS".as_bytes()),
            RedisErrorKind::WrongType => slice_to_vec("WRONGTYPE".as_bytes()),
            RedisErrorKind::Other => Vec::new(),
        }
    }
}

/// The bytes of the known error codes.
proof fn lemma_code_bytes()
    ensures
        "BUSYGROUP".spec_bytes() == seq![66u8, 85, 83, 89, 71, 82, 79, 85, 80],
        "CLUSTERDOWN".spec_bytes() == seq![67u8, 76, 85, 83, 84, 69, 82, 68, 79, 87, 78],
        "CROSSSLOT".spec_bytes() == seq![67u8, 82, 79, 83, 83, 83, 76, 79, 84],
        "ERR".spec_bytes() == seq![69u8, 82, 82],
        "INPROG".spec_bytes() == seq![73u8, 78, 80, 82, 79, 71],
        "IOERR".spec_bytes() == seq![73u8, 79, 69, 82, 82],
        "MASTERDOWN".spec_bytes() == seq![77u8, 65, 83, 84, 69, 82, 68, 79, 87, 78],
        "MISCONF".spec_bytes() == seq![77u8, 73, 83, 67, 79, 78, 70],
        "NOAUTH".spec_bytes() == seq![78u8, 79, 65, 85, 84, 72],
        "NOGOODSLAVE".spec_bytes() == seq![78u8, 79, 71, 79, 79, 68, 83, 76, 65, 86, 69],
        "NOMASTERLINK".spec_bytes() == seq![78u8, 79, 77, 65, 83, 84, 69, 82, 76, 73, 78, 75],
        "NOPERM".spec_bytes() == seq![78u8, 79, 80, 69, 82, 77],
        "NOPROTO".spec_bytes() == seq![78u8, 79, 80, 82, 79, 84, 79],
        "NOQUORUM".spec_bytes() == seq![78u8, 79, 81, 85, 79, 82, 85, 77],
        "NOTBUSY".spec_bytes() == seq![78u8, 79, 84, 66, 85, 83, 89],
        "NOSCRIPT".spec_bytes() == seq![78u8, 79, 83, 67, 82, 73, 80, 84],
        "OOM".spec_bytes() == seq![79u8, 79, 77],
        "READONLY".spec_bytes() == seq![82u8, 69, 65, 68, 79, 78, 76, 89],
        "TRYAGAIN".spec_bytes() == seq![84u8, 82, 89, 65, 71, 65, 73, 78],
        "UNKILLABLE".spec_bytes() == seq![85u8, 78, 75, 73, 76, 76, 65, 66, 76, 69],
        "UNBLOCKED".spec_bytes() == seq![85u8, 78, 66, 76, 79, 67, 75, 69, 68],
        "WRONGPASS".spec_bytes() == seq![87u8, 82, 79, 78, 71, 80, 65, 83, 83],
        "WRONGTYPE".spec_bytes() == seq![87u8, 82, 79, 78, 71, 84, 89, 80, 69],
{
    broadcast use vstd::string::is_ascii_spec_bytes;

    reveal_strlit("BUSYGROUP");
    assert(vstd::string::is_ascii("BUSYGROUP"));
    assert("BUSYGROUP".spec_bytes() =~= seq![66u8, 85, 83, 89, 71, 82, 79, 85, 80]);
    reveal_strlit("CLUSTERDOWN");
    assert(vstd::string::is_ascii("CLUSTERDOWN"));
    assert("CLUSTERDOWN".spec_bytes() =~= seq![67u8, 76, 85, 83, 84, 69, 82, 68, 79, 87, 78]);
    reveal_strlit("CROSSSLOT");
    assert(vstd::string::is_ascii("CROSSSLOT"));
    assert("CROSSSLOT".spec_bytes() =~= seq![67u8, 82, 79, 83, 83, 83, 76, 79, 84]);
    reveal_strlit("ERR");
    assert(vstd::string::is_ascii("ERR"));
    assert("ERR".spec_bytes() =~= seq![69u8, 82, 82]);
    reveal_strlit("INPROG");
    assert(vstd::string::is_ascii("INPROG"));
    assert("INPROG".spec_bytes() =~= seq![73u8, 78, 80, 82, 79, 71]);
    reveal_strlit("IOERR");
    assert(vstd::string::is_ascii("IOERR"));
    assert("IOERR".spec_bytes() =~= seq![73u8, 79, 69, 82, 82]);
    reveal_strlit("MASTERDOWN");
    assert(vstd::string::is_ascii("MASTERDOWN"));
    assert("MASTERDOWN".spec_bytes() =~= seq![77u8, 65, 83, 84, 69, 82, 68, 79, 87, 78]);
    reveal_strlit("MISCONF");
    assert(vstd::string::is_ascii("MISCONF"));
    assert("MISCONF".spec_bytes() =~= seq![77u8, 73, 83, 67, 79, 78, 70]);
    reveal_strlit("NOAUTH");
    assert(vstd::string::is_ascii("NOAUTH"));
    assert("NOAUTH".spec_bytes() =~= seq![78u8, 79, 65, 85, 84, 72]);
    reveal_strlit("NOGOODSLAVE");
    assert(vstd::string::is_ascii("NOGOODSLAVE"));
    assert("NOGOODSLAVE".spec_bytes() =~= seq![78u8, 79, 71, 79, 79, 68, 83, 76, 65, 86, 69]);
    reveal_strlit("NOMASTERLINK");
    assert(vstd::string::is_ascii("NOMASTERLINK"));
    assert("NOMASTERLINK".spec_bytes() =~= seq![78u8, 79, 77, 65, 83, 84, 69, 82, 76, 73, 78, 75]);
    reveal_strlit("NOPERM");
    assert(vstd::string::is_ascii("NOPERM"));
    assert("NOPERM".spec_bytes() =~= seq![78u8, 79, 80, 69, 82, 77]);
    reveal_strlit("NOPROTO");
    assert(vstd::string::is_ascii("NOPROTO"));
    assert("NOPROTO".spec_bytes() =~= seq![78u8, 79, 80, 82, 79, 84, 79]);
    reveal_strlit("NOQUORUM");
    assert(vstd::string::is_ascii("NOQUORUM"));
    assert("NOQUORUM".spec_bytes() =~= seq![78u8, 79, 81, 85, 79, 82, 85, 77]);
    reveal_strlit("NOTBUSY");
    assert(vstd::string::is_ascii("NOTBUSY"));
    assert("NOTBUSY".spec_bytes() =~= seq![78u8, 79, 84, 66, 85, 83, 89]);
    reveal_strlit("NOSCRIPT");
    assert(vstd::string::is_ascii("NOSCRIPT"));
    assert("NOSCRIPT".spec_bytes() =~= seq![78u8, 79, 83, 67, 82, 73, 80, 84]);
    reveal_strlit("OOM");
    assert(vstd::string::is_ascii("OOM"));
    assert("OOM".spec_bytes() =~= seq![79u8, 79, 77]);
    reveal_strlit("READONLY");
    assert(vstd::string::is_ascii("READONLY"));
    assert("READONLY".spec_bytes() =~= seq![82u8, 69, 65, 68, 79, 78, 76, 89]);
    reveal_strlit("TRYAGAIN");
    assert(vstd::string::is_ascii("TRYAGAIN"));
    assert("TRYAGAIN".spec_bytes() =~= seq![84u8, 82, 89, 65, 71, 65, 73, 78]);
    reveal_strlit("UNKILLABLE");
    assert(vstd::string::is_ascii("UNKILLABLE"));
    assert("UNKILLABLE".spec_bytes() =~= seq![85u8, 78, 75, 73, 76, 76, 65, 66, 76, 69]);
    reveal_strlit("UNBLOCKED");
    assert(vstd::string::is_ascii("UNBLOCKED"));
    assert("UNBLOCKED".spec_bytes() =~= seq![85u8, 78, 66, 76, 79, 67, 75, 69, 68]);
    reveal_strlit("WRONGPASS");
    assert(vstd::string::is_ascii("WRONGPASS"));
    assert("WRONGPASS".spec_bytes() =~= seq![87u8, 82, 79, 78, 71, 80, 65, 83, 83]);
    reveal_strlit("WRONGTYPE");
    assert(vstd::string::is_ascii("WRONGTYPE"));
    assert("WRONGTYPE".spec_bytes() =~= seq![87u8, 82, 79, 78, 71, 84, 89, 80, 69]);
}

/// Reading back the text of any kind but a redirection gives that kind: every
/// known code is told apart from the others, and the empty text of `Other`
/// reads as `Other`.
#[verifier::rlimit(40)]
proof fn lemma_kind_text_reads_back(kind: RedisErrorKind)
    requires
        !(kind is Ask),
        !(kind is Moved),
    ensures
        spec_error_kind(spec_kind_text(kind)) == ErrorCodeReading::Plain(kind),
{
    lemma_code_bytes();
    match kind {
        RedisErrorKind::BusyGroup => {},
        RedisErrorKind::ClusterDown => {},
        RedisErrorKind::CrossSlot => {},
        RedisErrorKind::GenericErr => {},
        RedisErrorKind::InProg => {},
        RedisErrorKind::IoErr => {},
        RedisErrorKind::MasterDown => {},
        RedisErrorKind::MisConf => {},
        RedisErrorKind::NoAuth => {},
        RedisErrorKind::NoGoodSlave => {},
        RedisErrorKind::NoMasterLink => {},
        RedisErrorKind::NoPerm => {},
        RedisErrorKind::NoProto => {},
        RedisErrorKind::NoQuorum => {},
        RedisErrorKind::NotBusy => {},
        RedisErrorKind::NoScript => {},
        RedisErrorKind::OutOfMemory => {},
        RedisErrorKind::Readonly => {},
        RedisErrorKind::TryAgain => {},
        RedisErrorKind::UnKillable => {},
        RedisErrorKind::Unblocked => {},
        RedisErrorKind::WrongPass => {},
        RedisErrorKind::WrongType => {},
        RedisErrorKind::Other => {
            assert(split_ws(seq![]) == seq![Seq::<u8>::empty()]);
        },
        _ => {},
    }
}

/// A known code holds upper-case letters only, and is neither `ASK` nor `MOVED`.
proof fn lemma_known_code_letters(kind: RedisErrorKind)
    requires
        !(kind is Ask),
        !(kind is Moved),
        !(kind is Other),
    ensures
        forall|j: int| 0 <= j < spec_kind_text(kind).len() ==> 65 <= #[trigger] spec_kind_text(kind)[j] <= 90,
        spec_kind_text(kind) != "ASK".spec_bytes(),
        spec_kind_text(kind) != "MOVED".spec_bytes(),
{
    lemma_code_bytes();
    lemma_redirection_code_bytes();
    match kind {
        RedisErrorKind::BusyGroup => {},
        RedisErrorKind::ClusterDown => {},
        RedisErrorKind::CrossSlot => {},
        RedisErrorKind::GenericErr => {},
        RedisErrorKind::InProg => {},
        RedisErrorKind::IoErr => {},
        RedisErrorKind::MasterDown => {},
        RedisErrorKind::MisConf => {},
        RedisErrorKind::NoAuth => {},
        RedisErrorKind::NoGoodSlave => {},
        RedisErrorKind::NoMasterLink => {},
        RedisErrorKind::NoPerm => {},
        RedisErrorKind::NoProto => {},
        RedisErrorKind::NoQuorum => {},
        RedisErrorKind::NotBusy => {},
        RedisErrorKind::NoScript => {},
        RedisErrorKind::OutOfMemory => {},
        RedisErrorKind::Readonly => {},
        RedisErrorKind::TryAgain => {},
        RedisErrorKind::UnKillable => {},
        RedisErrorKind::Unblocked => {},
        RedisErrorKind::WrongPass => {},
        RedisErrorKind::WrongType => {},
        _ => {},
    }
}

proof fn lemma_first_index_after_prefix(a: Seq<u8>, b: Seq<u8>, c: u8)
    requires
        forall|j: int| 0 <= j < a.len() ==> a[j] != c,
        b.len() > 0,
        b[0] == c,
    ensures
        first_index_of(a + b, c) == Some(a.len() as int),
    decreases a.len(),
{
    if a.len() == 0 {
        assert(a + b =~= b);
    } else {
        lemma_first_index_after_prefix(a.drop_first(), b, c);
        assert((a + b).drop_first() =~= a.drop_first() + b);
    }
}

/// Reading back the text of an error whose kind is a known code gives that
/// kind and the same description, when the description is UTF-8 text.
pub proof fn lemma_error_text_reads_back(kind: RedisErrorKind, description: Seq<u8>)
    requires
        !(kind is Ask),
        !(kind is Moved),
        !(kind is Other),
        valid_utf8(description),
    ensures
        spec_redis_error(spec_kind_text(kind) + seq![32u8] + description) == (
            ErrorCodeReading::Plain(kind),
            description,
        ),
{
    let code = spec_kind_text(kind);
    let text = code + seq![32u8] + description;
    lemma_known_code_letters(kind);
    lemma_kind_text_reads_back(kind);
    assert(text =~= code + (seq![32u8] + description));
    lemma_first_index_after_prefix(code, seq![32u8] + description, 32);
    assert(text.subrange(0, code.len() as int) =~= code);
    assert(text.subrange(code.len() + 1int, text.len() as int) =~= description);
}

/// Every byte of a decimal form is a digit, and there is at least one.
proof fn lemma_decimal_digits(n: nat)
    ensures
        decimal(n).len() >= 1,
        forall|j: int| 0 <= j < decimal(n).len() ==> is_digit(#[trigger] decimal(n)[j]),
    decreases n,
{
    if n >= 10 {
        lemma_decimal_digits(n / 10);
    }
}

/// A decimal form reads back as its number.
proof fn lemma_decimal_value(n: nat)
    ensures
        digits_value(decimal(n)) == n,
    decreases n,
{
    if n >= 10 {
        lemma_decimal_value(n / 10);
        let d = decimal(n);
        assert(d.drop_last() =~= decimal(n / 10));
        assert(n % 10 < 10);
        assert(d.last() == 48 + n % 10);
        assert(digits_value(d) == digits_value(d.drop_last()) * 10 + (d.last() - 48) as nat);
        assert((n / 10) * 10 + n % 10 == n) by (nonlinear_arith);
    } else {
        let d = decimal(n);
        assert(d.drop_last() =~= Seq::<u8>::empty());
        assert(d.last() == 48 + n);
        assert(digits_value(d) == digits_value(d.drop_last()) * 10 + (d.last() - 48) as nat);
    }
}

/// From `start` on, a string of digits is one run.
proof fn lemma_digit_run_all(s: Seq<u8>, start: int)
    requires
        0 <= start <= s.len(),
        forall|j: int| 0 <= j < s.len() ==> is_digit(#[trigger] s[j]),
    ensures
        digit_run(s, start) == s.len() - start,
    decreases s.len() - start,
{
    if start < s.len() {
        lemma_digit_run_all(s, start + 1);
    }
}

/// `atoi` reads the decimal form of a `u16` as that number.
proof fn lemma_atoi_decimal(n: u16)
    ensures
        spec_atoi_u16(decimal(n as nat)) == Some(n),
{
    let d = decimal(n as nat);
    lemma_decimal_digits(n as nat);
    lemma_decimal_value(n as nat);
    lemma_digit_run_all(d, 0);
    assert(is_digit(d[0]));
    assert(d.subrange(0, d.len() as int) =~= d);
}

/// Bytes without whitespace are one piece.
proof fn lemma_split_ws_single(w: Seq<u8>)
    requires
        forall|j: int| 0 <= j < w.len() ==> !is_ascii_ws(#[trigger] w[j]),
    ensures
        split_ws(w) == seq![w],
    decreases w.len(),
{
    if w.len() > 0 {
        lemma_split_ws_single(w.drop_last());
        assert(w.drop_last().push(w.last()) =~= w);
    } else {
        assert(w =~= Seq::<u8>::empty());
    }
}

/// A space splits the pieces of what stands before it from those after it.
proof fn lemma_split_ws_at_space(a: Seq<u8>, b: Seq<u8>)
    ensures
        split_ws(a + seq![32u8] + b) == split_ws(a) + split_ws(b),
    decreases b.len(),
{
    let joined = a + seq![32u8] + b;
    if b.len() == 0 {
        assert(joined =~= a.push(32u8));
        assert(joined.drop_last() =~= a);
        assert(split_ws(b) =~= seq![Seq::<u8>::empty()]);
        assert(split_ws(a).push(seq![]) =~= split_ws(a) + split_ws(b));
    } else {
        let b0 = b.drop_last();
        lemma_split_ws_at_space(a, b0);
        lemma_split_ws_nonempty(b0);
        lemma_split_ws_nonempty(a);
        assert(joined.drop_last() =~= a + seq![32u8] + b0);
        assert(joined.last() == b.last());
        let prev = split_ws(a) + split_ws(b0);
        if is_ascii_ws(b.last()) {
            assert(prev.push(seq![]) =~= split_ws(a) + split_ws(b0).push(seq![]));
        } else {
            let sb = split_ws(b0);
            assert(prev.update(prev.len() - 1, prev.last().push(b.last())) =~= split_ws(a) + sb.update(
                sb.len() - 1,
                sb.last().push(b.last()),
            ));
        }
    }
}

/// The last `c` is the one before a tail that holds none.
proof fn lemma_last_index_before_tail(a: Seq<u8>, c: u8, d: Seq<u8>)
    requires
        forall|j: int| 0 <= j < d.len() ==> #[trigger] d[j] != c,
    ensures
        last_index_of(a + seq![c] + d, c) == Some(a.len() as int),
    decreases d.len(),
{
    let joined = a + seq![c] + d;
    if d.len() == 0 {
        assert(joined.last() == c);
    } else {
        lemma_last_index_before_tail(a, c, d.drop_last());
        assert(joined.drop_last() =~= a + seq![c] + d.drop_last());
        assert(joined.last() == d.last());
    }
}

/// A redirection's code leads its text, then the slot and the node in three
/// pieces.
proof fn lemma_redirection_reads_back(code: Seq<u8>, slot: u16, host: Seq<u8>, port: u16)
    requires
        code.len() >= 3,
        forall|j: int| 0 <= j < code.len() ==> 65 <= #[trigger] code[j] <= 90,
        valid_utf8(host),
        forall|j: int| 0 <= j < host.len() ==> !is_ascii_ws(#[trigger] host[j]),
    ensures
        ({
            let text = code + seq![32u8] + decimal(slot as nat) + seq![32u8] + host + seq![58u8] + decimal(port as nat);
            let parts = split_ws(text);
            &&& parts.len() == 3
            &&& parts[0] == code
            &&& spec_slot_and_address(parts[1], parts[2]) == Ok::<(u16, Seq<u8>, u16), ClientError>((slot, host, port))
        }),
{
    let ds = decimal(slot as nat);
    let dp = decimal(port as nat);
    let address = host + seq![58u8] + dp;
    let text = code + seq![32u8] + ds + seq![32u8] + host + seq![58u8] + dp;
    lemma_decimal_digits(slot as nat);
    lemma_decimal_digits(port as nat);
    assert(text =~= (code + seq![32u8] + ds) + seq![32u8] + address);
    lemma_split_ws_at_space(code + seq![32u8] + ds, address);
    lemma_split_ws_at_space(code, ds);
    lemma_split_ws_single(code);
    lemma_split_ws_single(ds);
    assert forall|j: int| 0 <= j < address.len() implies !is_ascii_ws(#[trigger] address[j]) by {
        if j < host.len() {
            assert(address[j] == host[j]);
        } else if j > host.len() {
            assert(address[j] == dp[j - host.len() - 1]);
        }
    }
    lemma_split_ws_single(address);
    lemma_atoi_decimal(slot);
    lemma_atoi_decimal(port);
    lemma_last_index_before_tail(host, 58, dp);
    assert(address.subrange(host.len() + 1int, address.len() as int) =~= dp);
    assert(address.subrange(0, host.len() as int) =~= host);
}

/// Whether the host of the node a redirection names is UTF-8 text with no
/// whitespace in it.
pub open spec fn host_reads_back(kind: RedisErrorKind) -> bool {
    match kind {
        RedisErrorKind::Ask { address, .. } => valid_utf8(address.0@) && forall|j: int|
            0 <= j < address.0@.len() ==> !is_ascii_ws(#[trigger] address.0@[j]),
        RedisErrorKind::Moved { address, .. } => valid_utf8(address.0@) && forall|j: int|
            0 <= j < address.0@.len() ==> !is_ascii_ws(#[trigger] address.0@[j]),
        _ => true,
    }
}

/// Reading back the text of any kind gives that kind: the known codes, `Other`,
/// and a redirection whose host is UTF-8 text with no whitespace.
pub proof fn lemma_every_kind_reads_back(kind: RedisErrorKind)
    requires
        host_reads_back(kind),
    ensures
        kind_reads_as(kind, spec_error_kind(spec_kind_text(kind))),
{
    match kind {
        RedisErrorKind::Ask { hash_slot, address } => {
            lemma_ask_reads_back(hash_slot, address);
        },
        RedisErrorKind::Moved { hash_slot, address } => {
            lemma_moved_reads_back(hash_slot, address);
        },
        _ => {
            lemma_kind_text_reads_back(kind);
        },
    }
}

/// The text of an `ASK` redirection reads as its slot and node.
proof fn lemma_ask_reads_back(hash_slot: u16, address: NodeAddress)
    requires
        valid_utf8(address.0@),
        forall|j: int| 0 <= j < address.0@.len() ==> !is_ascii_ws(#[trigger] address.0@[j]),
    ensures
        spec_error_kind(spec_kind_text(RedisErrorKind::Ask { hash_slot, address }))
            == ErrorCodeReading::Ask(hash_slot, address.0@, address.1),
{
    let code = "ASK".spec_bytes();
    let text = spec_kind_text(RedisErrorKind::Ask { hash_slot, address });
    let pieces = code + seq![32u8] + decimal(hash_slot as nat) + seq![32u8] + address.0@ + seq![58u8]
        + decimal(address.1 as nat);
    lemma_redirection_code_bytes();
    assert(text == pieces) by {
        assert(text =~= pieces);
    }
    lemma_redirection_text_reads_back(code, hash_slot, address.0@, address.1, 3);
}

/// The text of a `MOVED` redirection reads as its slot and node.
proof fn lemma_moved_reads_back(hash_slot: u16, address: NodeAddress)
    requires
        valid_utf8(address.0@),
        forall|j: int| 0 <= j < address.0@.len() ==> !is_ascii_ws(#[trigger] address.0@[j]),
    ensures
        spec_error_kind(spec_kind_text(RedisErrorKind::Moved { hash_slot, address }))
            == ErrorCodeReading::Moved(hash_slot, address.0@, address.1),
{
    let code = "MOVED".spec_bytes();
    let text = spec_kind_text(RedisErrorKind::Moved { hash_slot, address });
    let pieces = code + seq![32u8] + decimal(hash_slot as nat) + seq![32u8] + address.0@ + seq![58u8]
        + decimal(address.1 as nat);
    lemma_redirection_code_bytes();
    assert(text == pieces) by {
        assert(text =~= pieces);
    }
    lemma_redirection_text_reads_back(code, hash_slot, address.0@, address.1, 5);
}

/// The text of a redirection reads as its code, slot and node.
proof fn lemma_redirection_text_reads_back(code: Seq<u8>, slot: u16, host: Seq<u8>, port: u16, space: int)
    requires
        code.len() == space,
        3 <= space <= 5,
        forall|j: int| 0 <= j < code.len() ==> 65 <= #[trigger] code[j] <= 90,
        valid_utf8(host),
        forall|j: int| 0 <= j < host.len() ==> !is_ascii_ws(#[trigger] host[j]),
    ensures
        ({
            let text = code + seq![32u8] + decimal(slot as nat) + seq![32u8] + host + seq![58u8] + decimal(port as nat);
            &&& known_code(text) is None
            &&& split_ws(text).len() == 3
            &&& split_ws(text)[0] == code
            &&& spec_slot_and_address(split_ws(text)[1], split_ws(text)[2]) == Ok::<(u16, Seq<u8>, u16), ClientError>((slot, host, port))
        }),
{
    let text = code + seq![32u8] + decimal(slot as nat) + seq![32u8] + host + seq![58u8] + decimal(port as nat);
    lemma_redirection_reads_back(code, slot, host, port);
    lemma_decimal_digits(slot as nat);
    assert(text[space] == 32);
    lemma_redirection_is_no_known_code(text, space);
}

/// The bytes of the two redirection codes.
proof fn lemma_redirection_code_bytes()
    ensures
        "ASK".spec_bytes() == seq![65u8, 83, 75],
        "MOVED".spec_bytes() == seq![77u8, 79, 86, 69, 68],
        "ASK ".spec_bytes() == seq![65u8, 83, 75, 32],
        "MOVED ".spec_bytes() == seq![77u8, 79, 86, 69, 68, 32],
{
    broadcast use vstd::string::is_ascii_spec_bytes;

    reveal_strlit("ASK");
    assert(vstd::string::is_ascii("ASK"));
    assert("ASK".spec_bytes() =~= seq![65u8, 83, 75]);
    reveal_strlit("MOVED");
    assert(vstd::string::is_ascii("MOVED"));
    assert("MOVED".spec_bytes() =~= seq![77u8, 79, 86, 69, 68]);
    reveal_strlit("ASK ");
    assert(vstd::string::is_ascii("ASK "));
    assert("ASK ".spec_bytes() =~= seq![65u8, 83, 75, 32]);
    reveal_strlit("MOVED ");
    assert(vstd::string::is_ascii("MOVED "));
    assert("MOVED ".spec_bytes() =~= seq![77u8, 79, 86, 69, 68, 32]);
}

/// Text with a space early on, and longer than the short codes, is none of the
/// known codes.
proof fn lemma_redirection_is_no_known_code(text: Seq<u8>, space: int)
    requires
        3 <= space <= 5,
        text.len() > 5,
        text[space] == 32,
    ensures
        known_code(text) is None,
{
    lemma_known_code_is_its_text(text);
    if let Some(kind) = known_code(text) {
        lemma_known_code_letters(kind);
        assert(65 <= text[space] <= 90);
    }
}

/// A known code is the text of the kind it names.
proof fn lemma_known_code_is_its_text(value: Seq<u8>)
    ensures
        known_code(value) matches Some(kind) ==> value == spec_kind_text(kind) && !(kind is Ask)
            && !(kind is Moved) && !(kind is Other),
{
}

} // verus!
