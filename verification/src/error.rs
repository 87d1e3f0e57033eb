//! Errors: what the client raises, what the server answers, and which of
//! them mean the connection itself failed.
use vstd::prelude::*;
use vstd::string::StringSliceAdditionalSpecFns;
use vstd::utf8::{pop_first_scalar, valid_utf8};

verus! {

/// A host and port, as a redirection names a node.
pub type NodeAddress = (Vec<u8>, u16);

/// Why a command has to be sent again.
#[derive(Debug)]
pub enum RetryReason {
    /// Received an ASK error from the server.
    Ask { hash_slot: u16, address: NodeAddress },
    /// Received a MOVED error from the server.
    Moved { hash_slot: u16, address: NodeAddress },
    /// Received a transient cluster error (`TRYAGAIN`, `CLUSTERDOWN`): the
    /// command was not executed and is replayed after a short delay.
    TryAgain {
        /// How long to wait, in milliseconds, before the command is sent again.
        delay_ms: u64,
        /// Whether the local topology has to be reloaded before the replay.
        refresh_topology: bool,
    },
}

/// A retry reason with its host read as bytes.
pub enum RetryReasonView {
    Ask { hash_slot: u16, host: Seq<u8>, port: u16 },
    Moved { hash_slot: u16, host: Seq<u8>, port: u16 },
    TryAgain { delay_ms: u64, refresh_topology: bool },
}

impl View for RetryReason {
    type V = RetryReasonView;

    open spec fn view(&self) -> RetryReasonView {
        match self {
            RetryReason::Ask { hash_slot, address } => RetryReasonView::Ask {
                hash_slot: *hash_slot,
                host: address.0@,
                port: address.1,
            },
            RetryReason::Moved { hash_slot, address } => RetryReasonView::Moved {
                hash_slot: *hash_slot,
                host: address.0@,
                port: address.1,
            },
            RetryReason::TryAgain { delay_ms, refresh_topology } => RetryReasonView::TryAgain {
                delay_ms: *delay_ms,
                refresh_topology: *refresh_topology,
            },
        }
    }
}

/// Errors issued by the client.
#[derive(Debug, Clone)]
pub enum ClientError {
    /// Raised when an invalid RESP tag is encountered
    InvalidTag,
    /// Raised when an expected array result is not received for MGET command
    ExpectedArrayForMGet,
    /// Raised when cannot parse integer from the RESP buffer
    CannotParseInteger,
    /// Raised when cannot parse double from the RESP buffer
    CannotParseDouble,
    /// Raised when cannot parse bulk string from the RESP buffer
    CannotParseBulkString,
    /// Raised when cannot parse bulk error from the RESP buffer
    CannotParseBulkError,
    /// Raised when cannot parse verbartim string from the RESP buffer
    CannotParseVerbatimString,
    /// Raised when cannot parse nil from the RESP buffer
    CannotParseNil,
    /// Raised when cannot parse boolean from the RESP buffer
    CannotParseBoolean,
    /// Raised when cannot parse char from the RESP buffer
    CannotParseChar,
    /// Raised when cannot parse str from the RESP buffer
    CannotParseStr,
    /// Raised when cannot parse string from the RESP buffer
    CannotParseString,
    /// Raised when cannot parse sequence from the RESP buffer
    CannotParseSequence,
    /// Raised when cannot parse map from the RESP buffer
    CannotParseMap,
    /// Raised when cannot parse struct from the RESP buffer
    CannotParseStruct,
    /// Raised when cannot parse bytes from the RESP buffer
    CannotParseBytes,
    /// Raised when cannot parse enum from the RESP buffer
    CannotParseEnum,
    /// Raised when verbatim string is too short
    VerbatimStringTooShort,
    /// Raised when an unknown RESP tag is encountered
    UnknownRespTag(char),
    /// Raised when disconnected from the server
    DisconnectedFromServer,
    /// Raised when an invalid channel to send messages to the network handler is used
    InvalidChannel,
    /// Raised when `Client::into_exclusive`
    /// is called while another handle on the same connection is still alive, so
    /// the connection an `ExclusiveClient`
    /// would claim as its own is in fact shared
    NotExclusive,
    /// Raised when client is already subscribed to the given channel/pattern
    AlreadySubscribed,
    /// Raised when the server sends a subscription confirmation that does not
    /// match the pending subscription request (out-of-order or spurious ack)
    UnexpectedSubscriptionConfirmation,
    /// Raised when a push frame routed to a pub/sub stream is not one of the
    /// three message shapes a subscriber can be handed (`message`, `smessage`
    /// or `pmessage`)
    UnexpectedPubSubMessage,
    /// Raised when serde serialization error occurs
    SerdeDeserialize(String),
    /// Raised when serde serialization error occurs
    SerdeSerialize(String),
    /// Raised when a command groups its arguments by a step of zero, which names
    /// no group at all. The step is a caller-supplied width on the builder's
    /// `*_with_count_and_step` methods, so the command carries the error instead of
    /// dividing its argument count by zero.
    InvalidArgumentGroupStep,
    /// Raised when a command has been retried up to `Config::max_command_attempts`
    /// without succeeding, so it is failed instead of retried indefinitely.
    MaxCommandAttemptsReached,
    /// Raised when the send queue has reached `Config::backpressure.max_queued_bytes`,
    /// so an incoming command is shed instead of growing the queue further.
    ///
    /// This means the connection is down and the queue of commands waiting for it
    /// is full. It is distinct from
    /// `DisconnectedByPeer`, which means the
    /// command was dropped because it opted out of retries, and from
    /// `MaxCommandAttemptsReached`, which means
    /// the command was retried and kept failing. Only a *new* command is refused:
    /// one already queued, or replayed after a reconnection or a redirection,
    /// never is.
    SendQueueFull,
    InvalidCacheKey,
    /// Raised when a key argument does not serialize to the number of command
    /// arguments its position allows.
    ///
    /// Command arguments are `impl Serialize`, so the compiler cannot check how
    /// many arguments a value produces: `None` and an empty collection produce
    /// none, a struct or a sequence produces one per element. A key that
    /// produced none carries no hash slot, which in Cluster mode routes the
    /// command to a random node instead of the node that owns it. The arity is
    /// therefore checked where the key is added, and the message names the
    /// command and the count.
    InvalidKeyArity {
        /// Name of the command being built.
        command: String,
        /// How many command arguments the key actually serialized to.
        written: usize,
        /// What the key's position allows, as it reads in the message.
        expected: &'static str,
    },
    /// Raised when cannot parse hash slot
    CannotParseHashSlot,
    /// Raised when cannot parse address
    CannotParseAddress,
    /// Raised when cannot parse port
    CannotParsePort,
    /// Raised when cannot parse RequestPolicy
    CannotParseRequestPolicy,
    /// Raised when cannot parse ResponsePolicy
    CannotParseResponsePolicy,
    /// Raised if an error occurs in the `Config` parsing
    ConfigParseError,
    /// Raised when a connection URI carries a query parameter that is unknown or
    /// whose value cannot be parsed. The message names the offending parameter.
    InvalidUri(String),
    /// Raised at connection time when a `Config` knob
    /// holds a value that would disable behavior rather than tune it — a zero
    /// buffer capacity, a zero loop bound. The message names the offending knob.
    InvalidConfig(&'static str),
    /// Raised when the client's own routing state stops agreeing with itself — a
    /// node index or a pending-request index that no longer addresses anything.
    /// Unreachable by construction: every such index is produced by scanning the
    /// very collection it is then used on. It is reported rather than asserted
    /// because these lookups happen on the network task, where a panic would take
    /// down every in-flight command and the reconnection loop with them.
    InconsistentRoutingState,
    /// Raised if an error occurs in the `ClusterConfig`
    ClusterConfig,
    /// Raised when EXEC is called without MULTI
    ExecCalledWithoutMulti,
    /// Raised when a transaction mixes keys belonging to different hash slots,
    /// which Redis Cluster cannot execute atomically
    CrossSlot,
    /// Raised when a command is not supported in cluster mode
    CommandNotSupportedInCluster,
    /// Raised when an unexpected message is received
    UnexpectedMessageReceived,
    /// Raised when keys hash slots do not match
    MismatchedKeySlots,
    /// Raised when cannot parse Redis server version
    CannotParseRedisServerVersion,
    /// Raised when a RESP frame nests collections deeper than the parser allows,
    /// guarding against a crafted reply driving the parser into a stack overflow.
    MaxNestingDepthExceeded,
    /// Raised when a bulk string / bulk error / verbatim string declares a
    /// length beyond the parser's configured ceiling, before the payload is
    /// trusted — stops a crafted header from driving unbounded buffering.
    BulkLengthTooLarge,
    /// Raised when a collection (array / set / push / map) declares a cardinality
    /// beyond the parser's configured ceiling.
    CollectionLengthTooLarge,
    /// Raised when the frame parser ends in a state its own grammar forbids —
    /// a closed frame that is not a collection, or a parse loop that ran out of
    /// work with no frame produced. The reader is at an unknown offset, so the
    /// connection is what fails, not the command.
    MalformedFrame,
    /// Raised when a decoded frame indexes outside the buffer or the tape that
    /// describes it. The frame is bounded, so this fails one command.
    InconsistentRespTape,
    /// Raised when a reply is read as a collection and is a scalar.
    NotACollection,
    /// Raised when a transaction's reply batch holds no answer to `EXEC`.
    MissingTransactionReply,
    /// Raised when the nodes of a cluster answer shapes that the command's
    /// response policy cannot combine — an integer against an array, or arrays
    /// of different lengths.
    IncompatibleShardReplies,
    /// Raised when an enum is deserialized as a unit variant from a reply that
    /// carries a payload.
    NotAUnitVariant,
    /// Raised when a map is deserialized and a field arrives with no value.
    MissingMapValue,
}


impl ClientError {
    /// Whether the error was raised while framing the byte stream, leaving the
    /// reader at an unknown offset.
    pub open spec fn spec_is_framing_error(&self) -> bool {
        match self {
            ClientError::CannotParseInteger
            | ClientError::CannotParseDouble
            | ClientError::CannotParseBulkString
            | ClientError::CannotParseBulkError
            | ClientError::CannotParseVerbatimString
            | ClientError::CannotParseBoolean
            | ClientError::CannotParseMap
            | ClientError::CannotParseSequence
            | ClientError::UnknownRespTag(_)
            | ClientError::InvalidTag
            | ClientError::BulkLengthTooLarge
            | ClientError::CollectionLengthTooLarge
            | ClientError::MaxNestingDepthExceeded
            | ClientError::VerbatimStringTooShort
            | ClientError::MalformedFrame => true,
            _ => false,
        }
    }

    /// Whether this error was raised while framing the byte stream, as opposed
    /// to while decoding an already-framed reply into the caller's type. A
    /// framing failure belongs to the connection; a decode failure fails
    /// exactly one command. The match names every variant, so a new one has
    /// to be classified here.
    pub fn is_framing_error(&self) -> (r: bool)
        ensures
            r == self.spec_is_framing_error(),
    {
        match self {
            // Raised by the frame parser, on bytes whose boundaries are not yet
            // known: the reader cannot be placed at the next reply.
            ClientError::CannotParseInteger
            | ClientError::CannotParseDouble
            | ClientError::CannotParseBulkString
            | ClientError::CannotParseBulkError
            | ClientError::CannotParseVerbatimString
            | ClientError::CannotParseBoolean
            | ClientError::CannotParseMap
            | ClientError::CannotParseSequence
            | ClientError::UnknownRespTag(_)
            | ClientError::InvalidTag
            | ClientError::BulkLengthTooLarge
            | ClientError::CollectionLengthTooLarge
            | ClientError::MaxNestingDepthExceeded
            | ClientError::VerbatimStringTooShort
            | ClientError::MalformedFrame => true,

            // Raised past framing — while decoding a bounded frame into the
            // caller's type, while routing, or on the caller's own input — so
            // exactly one command fails and the stream stays usable.
            ClientError::ExpectedArrayForMGet
            | ClientError::CannotParseNil
            | ClientError::CannotParseChar
            | ClientError::CannotParseStr
            | ClientError::CannotParseString
            | ClientError::CannotParseStruct
            | ClientError::CannotParseBytes
            | ClientError::CannotParseEnum
            | ClientError::DisconnectedFromServer
            | ClientError::InvalidChannel
            | ClientError::NotExclusive
            | ClientError::AlreadySubscribed
            | ClientError::UnexpectedSubscriptionConfirmation
            | ClientError::UnexpectedPubSubMessage
            | ClientError::SerdeDeserialize(_)
            | ClientError::SerdeSerialize(_)
            | ClientError::InvalidArgumentGroupStep
            | ClientError::MaxCommandAttemptsReached
            | ClientError::SendQueueFull
            | ClientError::InvalidCacheKey
            | ClientError::InvalidKeyArity { .. }
            | ClientError::CannotParseHashSlot
            | ClientError::CannotParseAddress
            | ClientError::CannotParsePort
            | ClientError::CannotParseRequestPolicy
            | ClientError::CannotParseResponsePolicy
            | ClientError::ConfigParseError
            | ClientError::InvalidUri(_)
            | ClientError::InvalidConfig(_)
            | ClientError::InconsistentRoutingState
            | ClientError::ClusterConfig
            | ClientError::ExecCalledWithoutMulti
            | ClientError::CrossSlot
            | ClientError::CommandNotSupportedInCluster
            | ClientError::UnexpectedMessageReceived
            | ClientError::MismatchedKeySlots
            | ClientError::CannotParseRedisServerVersion
            | ClientError::InconsistentRespTape
            | ClientError::NotACollection
            | ClientError::MissingTransactionReply
            | ClientError::IncompatibleShardReplies
            | ClientError::NotAUnitVariant
            | ClientError::MissingMapValue => false,
        }
    }
}

/// Which deadline expired.
#[derive(Debug, Clone, Copy, PartialEq, Eq, Structural)]
pub enum TimeoutKind {
    /// The connection, or its handshake, did not complete in time.
    Connect,
    /// The command was sent and its reply did not arrive in time.
    Command,
}

/// Redis server error kind.
#[derive(Debug, PartialEq, Eq)]
pub enum RedisErrorKind {
    Ask { hash_slot: u16, address: NodeAddress },
    BusyGroup,
    ClusterDown,
    CrossSlot,
    GenericErr,
    InProg,
    IoErr,
    MasterDown,
    MisConf,
    Moved { hash_slot: u16, address: NodeAddress },
    NoAuth,
    NoGoodSlave,
    NoMasterLink,
    NoPerm,
    NoProto,
    NoQuorum,
    NotBusy,
    NoScript,
    OutOfMemory,
    Readonly,
    TryAgain,
    UnKillable,
    Unblocked,
    WrongPass,
    WrongType,
    Other,
}

/// Error issued by the Redis server.
#[derive(Debug, PartialEq, Eq)]
pub struct RedisError {
    pub kind: RedisErrorKind,
    pub description: Vec<u8>,
}

/// What an error is, independently of the command it belongs to. Failures of
/// the transport and of the runtime carry the text they were reported with.
#[derive(Debug)]
pub enum ErrorKind {
    /// Raised if an error occurs within the driver.
    Client(ClientError),
    /// Raised if a required cache key is in the wrong type.
    CacheWrongKeyType,
    /// A transaction has been aborted.
    Aborted,
    /// Raised if an error occurs when contacting Sentinel instances.
    Sentinel(String),
    /// Error returned by the Redis server.
    Redis(RedisError),
    /// IO error when talking to the server.
    IO(String),
    /// Raised by the TLS library.
    Tls(String),
    /// Invalid DNS name.
    InvalidDnsName(String),
    /// A deadline expired before the operation completed.
    Timeout(TimeoutKind),
    /// Internal error to trigger retry sending the command.
    Retry(Vec<RetryReason>),
    /// Raised when end of stream is reached.
    EOF,
    /// Raised when a runtime task failed to join.
    TokioJoin(String),
    /// Raised when a oneshot channel is canceled.
    OneshotCanceled,
    /// Raised when an mpsc send fails.
    MpscSend(String),
    /// Raised when UTF-8 decoding fails.
    Utf8(String),
    /// Raised when UTF-8 decoding of an owned buffer fails.
    FromUtf8(String),
    /// Raised when a float cannot be parsed.
    ParseFloat(String),
    /// Raised when an integer cannot be parsed.
    ParseInt(String),
    /// Raised when a broadcast send fails.
    TokioBroadcastSend,
    /// Disconnected by peer.
    DisconnectedByPeer,
}

/// Identifies the command an error belongs to.
#[derive(Debug, Clone)]
pub struct ErrorContext {
    /// The command name, as sent on the wire.
    pub command: Vec<u8>,
}

/// Whether every byte is ASCII.
pub open spec fn all_ascii(bytes: Seq<u8>) -> bool {
    forall|i: int| 0 <= i < bytes.len() ==> #[trigger] bytes[i] < 128
}

/// The bytes read as UTF-8, or the empty string when they are not valid.
///
/// Calls `std::str::from_utf8(bytes).unwrap_or_default()`: `from_utf8` hands
/// back the same bytes as text when they are well-formed UTF-8 (no overlong
/// form, no surrogate, nothing past U+10FFFF), and an error otherwise, which
/// `unwrap_or_default` turns into the empty string.
#[verifier::external_body]
fn utf8_or_empty(bytes: &[u8]) -> (r: &str)
    ensures
        r.spec_bytes() == (if valid_utf8(bytes@) { bytes@ } else { Seq::<u8>::empty() }),
{
    std::str::from_utf8(bytes).unwrap_or_default()
}

/// What `String::from_utf8_lossy` makes of bytes that are not well-formed
/// UTF-8.
pub uninterp spec fn lossy_utf8(bytes: Seq<u8>) -> Seq<u8>;

/// Bytes read as text: unchanged when they are well-formed UTF-8; otherwise
/// what the lossy decoding makes of them.
pub open spec fn decoded_text(bytes: Seq<u8>) -> Seq<u8> {
    if valid_utf8(bytes) {
        bytes
    } else {
        lossy_utf8(bytes)
    }
}

/// The bytes read as UTF-8 text, an invalid sequence becoming U+FFFD.
///
/// Calls `String::from_utf8_lossy(bytes)` and takes the bytes of the text it
/// gives. Well-formed UTF-8 comes back unchanged, as std documents; what
/// replaces an invalid sequence is named (`lossy_utf8`), not spelled out.
#[verifier::external_body]
pub(crate) fn utf8_lossy(bytes: &[u8]) -> (r: Vec<u8>)
    ensures
        r@ == (if valid_utf8(bytes@) { bytes@ } else { lossy_utf8(bytes@) }),
{
    String::from_utf8_lossy(bytes).into_owned().into_bytes()
}

/// ASCII bytes are well-formed UTF-8.
proof fn lemma_ascii_is_utf8(bytes: Seq<u8>)
    requires
        all_ascii(bytes),
    ensures
        valid_utf8(bytes),
    decreases bytes.len(),
{
    if bytes.len() > 0 {
        let b = bytes[0];
        assert(b < 128);
        assert((b & 0x7f) <= 0x7f) by (bit_vector);
        let rest = pop_first_scalar(bytes);
        assert(rest =~= bytes.subrange(1, bytes.len() as int));
        assert forall|i: int| 0 <= i < rest.len() implies #[trigger] rest[i] < 128 by {
            assert(rest[i] == bytes[i + 1]);
        }
        lemma_ascii_is_utf8(rest);
    }
}

impl ErrorContext {
    /// The name of the command the error belongs to; empty when the name is
    /// not text.
    pub fn command(&self) -> (r: &str)
        ensures
            r.spec_bytes() == (if valid_utf8(self.command@) { self.command@ } else { Seq::<u8>::empty() }),
            all_ascii(self.command@) ==> r.spec_bytes() == self.command@,
    {
        proof {
            if all_ascii(self.command@) {
                lemma_ascii_is_utf8(self.command@);
            }
        }
        utf8_or_empty(self.command.as_slice())
    }
}

/// Any error raised by the client, and the command it belongs to.
#[derive(Debug)]
pub struct Error {
    pub kind: ErrorKind,
    pub context: Option<ErrorContext>,
}

impl ErrorKind {
    pub open spec fn spec_is_connection_error(&self) -> bool {
        match self {
            ErrorKind::IO(_)
            | ErrorKind::EOF
            | ErrorKind::DisconnectedByPeer
            | ErrorKind::OneshotCanceled
            | ErrorKind::MpscSend(_)
            | ErrorKind::Tls(_)
            | ErrorKind::InvalidDnsName(_)
            | ErrorKind::TokioJoin(_) => true,
            ErrorKind::Client(client_error) => client_error.spec_is_framing_error(),
            _ => false,
        }
    }

    pub open spec fn spec_is_timeout(&self) -> bool {
        self is Timeout
    }

    pub open spec fn spec_is_server_error(&self) -> bool {
        self is Redis
    }

    pub open spec fn spec_is_retryable(&self) -> bool {
        ||| self.spec_is_connection_error()
        ||| self.spec_is_timeout()
        ||| (self matches ErrorKind::Redis(e) && (e.kind is TryAgain || e.kind is ClusterDown
            || e.kind is MasterDown || e.kind is NoMasterLink))
    }
}

impl Error {
    /// An error of this kind, naming no command.
    pub fn new(kind: ErrorKind) -> (r: Error)
        ensures
            r.kind == kind,
            r.context is None,
    {
        Error { kind, context: None }
    }

    /// A client error, naming no command.
    pub fn client(error: ClientError) -> (r: Error)
        ensures
            r.kind == ErrorKind::Client(error),
            r.context is None,
    {
        Error { kind: ErrorKind::Client(error), context: None }
    }

    /// What the error is.
    pub fn kind(&self) -> (r: &ErrorKind)
        ensures
            *r == self.kind,
    {
        &self.kind
    }

    /// Consumes the error and yields its kind.
    pub fn into_kind(self) -> (r: ErrorKind)
        ensures
            r == self.kind,
    {
        self.kind
    }

    /// The command the error belongs to, when the client knows it.
    pub fn context(&self) -> (r: Option<&ErrorContext>)
        ensures
            r == (match &self.context {
                Some(c) => Some(c),
                None => None,
            }),
    {
        match &self.context {
            Some(c) => Some(c),
            None => None,
        }
    }

    /// The name of the command the error belongs to.
    pub fn command(&self) -> (r: Option<&str>)
        ensures
            self.context is None ==> r is None,
            self.context matches Some(c) ==> (r matches Some(s) && s.spec_bytes() == (if valid_utf8(
                c.command@,
            ) {
                c.command@
            } else {
                Seq::<u8>::empty()
            }) && (all_ascii(c.command@) ==> s.spec_bytes() == c.command@)),
    {
        match &self.context {
            Some(c) => Some(c.command()),
            None => None,
        }
    }

    /// Whether the connection to the server is what failed: the transport
    /// broke, the peer went away, or a reply could not be framed.
    pub fn is_connection_error(&self) -> (r: bool)
        ensures
            r == self.kind.spec_is_connection_error(),
    {
        match &self.kind {
            ErrorKind::IO(_)
            | ErrorKind::EOF
            | ErrorKind::DisconnectedByPeer
            | ErrorKind::OneshotCanceled
            | ErrorKind::MpscSend(_)
            | ErrorKind::Tls(_)
            | ErrorKind::InvalidDnsName(_)
            | ErrorKind::TokioJoin(_) => true,
            ErrorKind::Client(client_error) => client_error.is_framing_error(),
            _ => false,
        }
    }

    /// Whether a deadline expired before the operation completed.
    pub fn is_timeout(&self) -> (r: bool)
        ensures
            r == self.kind.spec_is_timeout(),
    {
        match &self.kind {
            ErrorKind::Timeout(_) => true,
            _ => false,
        }
    }

    /// Whether the server answered, and answered an error.
    pub fn is_server_error(&self) -> (r: bool)
        ensures
            r == self.kind.spec_is_server_error(),
    {
        match &self.kind {
            ErrorKind::Redis(_) => true,
            _ => false,
        }
    }

    /// Whether the failure is transient, so that sending the command again
    /// may succeed: every connection error, every timeout, and the server
    /// codes that ask for a replay.
    pub fn is_retryable(&self) -> (r: bool)
        ensures
            r == self.kind.spec_is_retryable(),
    {
        if self.is_connection_error() || self.is_timeout() {
            return true;
        }
        match &self.kind {
            ErrorKind::Redis(e) => match e.kind {
                RedisErrorKind::TryAgain
                | RedisErrorKind::ClusterDown
                | RedisErrorKind::MasterDown
                | RedisErrorKind::NoMasterLink => true,
                _ => false,
            },
            _ => false,
        }
    }

    /// Names the command this error belongs to, unless one is already named.
    pub fn with_command(self, command: Vec<u8>) -> (r: Error)
        ensures
            r.kind == self.kind,
            self.context is Some ==> r.context == self.context,
            self.context is None ==> (r.context matches Some(c) && c.command@ == command@),
    {
        let mut e = self;
        if e.context.is_none() {
            e.context = Some(ErrorContext { command });
        }
        e
    }
}

/// Every error the client tears a connection down for is one the caller is
/// told is a connection error, and a connection error is always retryable.
pub proof fn lemma_connection_errors_are_retryable(kind: ErrorKind)
    requires
        kind.spec_is_connection_error(),
    ensures
        kind.spec_is_retryable(),
{
}

/// The server errors that ask for a replay: `TRYAGAIN`, `CLUSTERDOWN`,
/// `MASTERDOWN` and `NOMASTERLINK` are retryable; an error that belongs to
/// the caller's command, such as `WRONGTYPE` or `ERR`, is not.
pub proof fn lemma_which_server_errors_are_retryable(e: RedisError)
    ensures
        e.kind is TryAgain || e.kind is ClusterDown || e.kind is MasterDown || e.kind is NoMasterLink
            ==> ErrorKind::Redis(e).spec_is_retryable(),
        e.kind is WrongType || e.kind is GenericErr || e.kind is Other || e.kind is Ask || e.kind is Moved
            ==> !ErrorKind::Redis(e).spec_is_retryable(),
{
}

} // verus!
