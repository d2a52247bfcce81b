//! The decisions a stream collector makes: when to subscribe again, which
//! signatures a message carries, and what it asks the server for.
use vstd::prelude::*;
use std::collections::HashMap;
use crate::config::Endpoint;

verus! {

// ---------------------------------------------------------------------------
// Retrying

/// The pause, in seconds, before the first retry of a failed subscription,
/// and the one a session that ends cleanly brings it back to.
pub const INITIAL_RETRY_SECS: u64 = 2;

/// The longest pause, in seconds, between retries.
pub const MAX_RETRY_SECS: u64 = 30;

/// How a subscription session ended.
#[derive(Debug, Clone, Copy, PartialEq, Eq)]
pub enum SessionEnd {
    /// The session ended without an error.
    Completed,
    /// The session failed; `auth` tells whether the server refused the
    /// credentials.
    Failed { auth: bool },
}

/// What a collector does once a session has ended.
#[derive(Debug, Clone, Copy, PartialEq, Eq)]
pub enum NextStep {
    /// Subscribe again at once.
    Subscribe,
    /// Wait this many seconds, then subscribe again.
    RetryAfter(u64),
    /// Stop collecting.
    Stop,
}

/// The retry state of a collector: the pause before its next retry, and
/// whether it gives up when the server refuses its credentials.
#[derive(Debug, Clone, Copy)]
pub struct RetryPolicy {
    delay_secs: u64,
    stop_on_auth: bool,
}

/// The pause that follows a pause of `delay` seconds: twice as long, at
/// most 30 seconds.
pub open spec fn doubled(delay: nat) -> nat {
    if 2 * delay > MAX_RETRY_SECS { MAX_RETRY_SECS as nat } else { 2 * delay }
}

impl RetryPolicy {
    /// The pause, in seconds, before the next retry.
    pub closed spec fn delay(self) -> nat {
        self.delay_secs as nat
    }

    /// Whether the collector gives up when its credentials are refused.
    pub closed spec fn stops_on_auth(self) -> bool {
        self.stop_on_auth
    }

    /// The pause stays between 2 and 30 seconds.
    pub closed spec fn wf(self) -> bool {
        INITIAL_RETRY_SECS <= self.delay_secs <= MAX_RETRY_SECS
    }

    /// A fresh policy, with the initial pause.
    pub fn new(stop_on_auth: bool) -> (res: RetryPolicy)
        ensures
            res.wf(),
            res.delay() == INITIAL_RETRY_SECS,
            res.stops_on_auth() == stop_on_auth,
    {
        RetryPolicy { delay_secs: INITIAL_RETRY_SECS, stop_on_auth }
    }

    /// The pause, in seconds, before the next retry.
    pub fn delay_secs(&self) -> (res: u64)
        ensures
            res == self.delay(),
    {
        self.delay_secs
    }

    /// What to do once a session has ended, and the pause for the retry
    /// after it: stop when the run is cancelled, or when the credentials
    /// were refused and the collector gives up on that; subscribe again at
    /// once after a clean end, with the pause back at 2 seconds; otherwise
    /// wait the current pause and double it, up to 30 seconds.
    pub fn after(&mut self, end: SessionEnd, cancelled: bool) -> (res: NextStep)
        requires
            old(self).wf(),
        ensures
            final(self).wf(),
            final(self).stops_on_auth() == old(self).stops_on_auth(),
            cancelled ==> res == NextStep::Stop && final(self).delay() == old(self).delay(),
            !cancelled ==> match end {
                SessionEnd::Completed => res == NextStep::Subscribe && final(self).delay() == INITIAL_RETRY_SECS,
                SessionEnd::Failed { auth } => if auth && old(self).stops_on_auth() {
                    res == NextStep::Stop && final(self).delay() == old(self).delay()
                } else {
                    res == NextStep::RetryAfter(old(self).delay() as u64) && final(self).delay() == doubled(old(self).delay())
                },
            },
    {
        if cancelled {
            return NextStep::Stop;
        }
        match end {
            SessionEnd::Completed => {
                self.delay_secs = INITIAL_RETRY_SECS;
                NextStep::Subscribe
            },
            SessionEnd::Failed { auth } => {
                if auth && self.stop_on_auth {
                    NextStep::Stop
                } else {
                    let wait = self.delay_secs;
                    self.delay_secs = if 2 * wait > MAX_RETRY_SECS { MAX_RETRY_SECS } else { 2 * wait };
                    NextStep::RetryAfter(wait)
                }
            },
        }
    }
}

/// After `k` failures in a row from a fresh policy, the pause is
/// `min(2 * 2^k, 30)` seconds: doubling `k` times from 2, capped at 30.
pub open spec fn delay_after_failures(k: nat) -> nat
    decreases k,
{
    if k == 0 { INITIAL_RETRY_SECS as nat } else { doubled(delay_after_failures((k - 1) as nat)) }
}

/// The pause never leaves the range 2 to 30 seconds, and from 16 seconds on
/// it is at its cap.
pub proof fn lemma_retry_delay_bounds(k: nat)
    ensures
        INITIAL_RETRY_SECS <= delay_after_failures(k) <= MAX_RETRY_SECS,
        k >= 4 ==> delay_after_failures(k) == MAX_RETRY_SECS,
    decreases k,
{
    if k > 0 {
        lemma_retry_delay_bounds((k - 1) as nat);
        if k == 4 {
            reveal_with_fuel(delay_after_failures, 5);
        }
    }
}

/// Whether a session has gone too long without a transaction: `idle_nanos`
/// since the last one is at least the timeout.
pub fn stalled(idle_nanos: u128, timeout_nanos: u128) -> (res: bool)
    ensures
        res == (idle_nanos >= timeout_nanos),
{
    idle_nanos >= timeout_nanos
}

// ---------------------------------------------------------------------------
// Errors

/// The gRPC status code of a request denied to the caller.
pub const CODE_PERMISSION_DENIED: i32 = 7;

/// The gRPC status code of a request without valid credentials.
pub const CODE_UNAUTHENTICATED: i32 = 16;

/// Whether one of the gRPC status codes found along an error's chain of
/// causes says the server refused the credentials.
pub fn is_auth_error(status_codes: &[i32]) -> (res: bool)
    ensures
        res <==> exists|i: int| 0 <= i < status_codes@.len()
            && (status_codes@[i] == CODE_UNAUTHENTICATED || status_codes@[i] == CODE_PERMISSION_DENIED),
{
    for i in 0..status_codes.len()
        invariant
            forall|j: int| 0 <= j < i ==> !(status_codes@[j] == CODE_UNAUTHENTICATED || status_codes@[j] == CODE_PERMISSION_DENIED),
    {
        let code = status_codes[i];
        if code == CODE_UNAUTHENTICATED || code == CODE_PERMISSION_DENIED {
            return true;
        }
    }
    false
}

// ---------------------------------------------------------------------------
// Credentials

/// Whether `c` may stand in a gRPC metadata value: a tab, or any character
/// from the space up other than DEL.
pub open spec fn metadata_char(c: char) -> bool {
    c == '\t' || (c as u32 >= 32 && c as u32 != 127)
}

/// tonic's `str::parse::<MetadataValue<Ascii>>`, told apart by its outcome
/// only. It goes through http's `HeaderValue::from_str`, which accepts a
/// text whose UTF-8 bytes are each a tab or at least 32 and not 127: in
/// characters, what `metadata_char` admits.
#[verifier::external_body]
fn metadata_value_ok(token: &str) -> (res: bool)
    ensures
        res <==> forall|i: int| 0 <= i < token@.len() ==> metadata_char(#[trigger] token@[i]),
{
    token.parse::<tonic::metadata::MetadataValue<tonic::metadata::Ascii>>().is_ok()
}

/// Why a collector could not set up or keep up its subscription.
#[derive(Debug, Clone, PartialEq, Eq)]
pub enum CollectorError {
    /// The access token cannot be sent as gRPC metadata.
    InvalidToken,
    /// An account of the filter is not a public key.
    InvalidAccount(String),
    /// A signature the stream sent is not 64 bytes long.
    BadSignature,
}

/// The access token to send as `x-token` metadata: none when it is empty,
/// an error when gRPC metadata cannot carry it.
pub fn parse_x_token(token: &str) -> (res: Result<Option<String>, CollectorError>)
    ensures
        token@.len() == 0 ==> res == Ok::<Option<String>, CollectorError>(None),
        token@.len() > 0 ==> match res {
            Ok(Some(t)) => t@ == token@ && forall|i: int| 0 <= i < token@.len() ==> metadata_char(#[trigger] token@[i]),
            Ok(None) => false,
            Err(e) => e == CollectorError::InvalidToken
                && !(forall|i: int| 0 <= i < token@.len() ==> metadata_char(#[trigger] token@[i])),
        },
{
    if token.unicode_len() == 0 {
        return Ok(None);
    }
    if metadata_value_ok(token) {
        Ok(Some(token.to_owned()))
    } else {
        Err(CollectorError::InvalidToken)
    }
}

// ---------------------------------------------------------------------------
// Signatures

/// The base58 text of the transaction signature `bytes`.
pub uninterp spec fn signature_base58(bytes: Seq<u8>) -> Seq<char>;

/// solana-signature's `Signature::try_from(bytes)`, which takes exactly 64
/// bytes, followed where it succeeds by `to_string()`, the base58 text.
#[verifier::external_body]
fn signature_text(bytes: &[u8]) -> (res: Option<String>)
    ensures
        res is Some <==> bytes@.len() == 64,
        res matches Some(s) ==> s@ == signature_base58(bytes@),
{
    match solana_signature::Signature::try_from(bytes) {
        Ok(signature) => Some(signature.to_string()),
        Err(_) => None,
    }
}

/// The base58 text of a transaction signature, which must be 64 bytes.
pub fn decode_signature(bytes: &[u8]) -> (res: Result<String, CollectorError>)
    ensures
        bytes@.len() == 64 ==> (res matches Ok(s) && s@ == signature_base58(bytes@)),
        bytes@.len() != 64 ==> res == Err::<String, CollectorError>(CollectorError::BadSignature),
{
    match signature_text(bytes) {
        Some(s) => Ok(s),
        None => Err(CollectorError::BadSignature),
    }
}

// ---------------------------------------------------------------------------
// Accounts

/// The 32 bytes of the public key whose base58 text is `text`, if it is one.
pub uninterp spec fn pubkey_of(text: Seq<char>) -> Option<Seq<u8>>;

/// solana-pubkey's `Pubkey::from_str(text)` (through solana-sdk), which reads
/// base58 text of at most 44 characters holding exactly 32 bytes, followed
/// where it succeeds by `to_bytes()`.
#[verifier::external_body]
fn parse_pubkey(text: &str) -> (res: Option<[u8; 32]>)
    ensures
        match res {
            Some(key) => pubkey_of(text@) == Some(key@),
            None => pubkey_of(text@) is None,
        },
{
    match <solana_sdk::pubkey::Pubkey as std::str::FromStr>::from_str(text) {
        Ok(key) => Some(key.to_bytes()),
        Err(_) => None,
    }
}

/// Whether every account is a public key.
pub open spec fn all_pubkeys(accounts: Seq<String>) -> bool {
    forall|i: int| 0 <= i < accounts.len() ==> #[trigger] pubkey_of(accounts[i]@) is Some
}

/// The index of the first account that is not a public key.
pub open spec fn first_invalid_account(accounts: Seq<String>, i: int) -> bool {
    &&& 0 <= i < accounts.len()
    &&& pubkey_of(accounts[i]@) is None
    &&& forall|j: int| 0 <= j < i ==> #[trigger] pubkey_of(accounts[j]@) is Some
}

/// The public keys of the accounts, in order; the first account that is not
/// a public key is the error.
pub fn account_keys(accounts: &[String]) -> (res: Result<Vec<[u8; 32]>, CollectorError>)
    ensures
        match res {
            Ok(keys) => all_pubkeys(accounts@) && keys@.len() == accounts@.len()
                && forall|i: int| 0 <= i < accounts@.len() ==> pubkey_of(accounts@[i]@) == Some(#[trigger] keys@[i]@),
            Err(e) => exists|i: int| first_invalid_account(accounts@, i)
                && e == CollectorError::InvalidAccount(accounts@[i]),
        },
{
    let mut keys: Vec<[u8; 32]> = Vec::new();
    for i in 0..accounts.len()
        invariant
            keys@.len() == i,
            forall|j: int| 0 <= j < i ==> pubkey_of(accounts@[j]@) == Some(#[trigger] keys@[j]@),
            forall|j: int| 0 <= j < i ==> #[trigger] pubkey_of(accounts@[j]@) is Some,
    {
        match parse_pubkey(accounts[i].as_str()) {
            Some(key) => {
                keys.push(key);
            },
            None => {
                assert(first_invalid_account(accounts@, i as int));
                return Err(CollectorError::InvalidAccount(accounts[i].clone()));
            },
        }
    }
    Ok(keys)
}

// ---------------------------------------------------------------------------
// What a collector asks for

/// The name under which a subscription's transaction filter is sent.
pub const FILTER_NAME: &'static str = "bench";

/// A transaction filter: the accounts a transaction must touch one of, must
/// not touch, and must touch all of.
#[derive(Debug, Clone, PartialEq, Eq)]
pub struct TransactionFilter {
    pub account_include: Vec<String>,
    pub account_exclude: Vec<String>,
    pub account_required: Vec<String>,
}

/// A ping, or the answer to one.
#[derive(Debug, Clone, Copy, PartialEq, Eq)]
pub struct Ping {
    pub id: i32,
}

/// A subscription request of the Jetstream protocol: named transaction
/// filters, and a ping.
#[derive(Debug, Clone)]
pub struct SubscribeRequest {
    pub transactions: HashMap<String, TransactionFilter>,
    pub ping: Option<Ping>,
}

/// Transaction filters by name.
pub type FilterMap = HashMap<String, TransactionFilter>;

/// std's `HashMap::from([(name, filter)])`: a map holding that one entry.
#[verifier::external_body]
fn single_filter(name: String, filter: TransactionFilter) -> (res: FilterMap)
    ensures
        res@ == Map::empty().insert(name, filter),
{
    HashMap::from([(name, filter)])
}

/// The copies of `accounts`.
fn copy_accounts(accounts: &[String]) -> (res: Vec<String>)
    ensures
        res@ == accounts@,
{
    let mut res: Vec<String> = Vec::new();
    for i in 0..accounts.len()
        invariant
            res@ == accounts@.take(i as int),
    {
        res.push(accounts[i].clone());
        assert(res@ =~= accounts@.take(i + 1));
    }
    assert(accounts@.take(accounts@.len() as int) =~= accounts@);
    res
}

/// The filter for transactions that touch one of `accounts`; with no
/// accounts, every transaction.
pub fn transaction_filter(accounts: &[String]) -> (res: TransactionFilter)
    ensures
        res.account_include@ == accounts@,
        res.account_exclude@.len() == 0,
        res.account_required@.len() == 0,
{
    TransactionFilter { account_include: copy_accounts(accounts), account_exclude: Vec::new(), account_required: Vec::new() }
}

/// The Jetstream request: without a ping id, the subscription, whose one
/// transaction filter is named `bench` and forwards `accounts`; with a ping
/// id, the answer to a ping, with no filter.
pub fn subscribe_request(accounts: &[String], ping_id: Option<i32>) -> (res: SubscribeRequest)
    ensures
        match ping_id {
            None => res.ping is None && exists|name: String, f: TransactionFilter|
                #![trigger Map::<String, TransactionFilter>::empty().insert(name, f)]
                res.transactions@ == Map::<String, TransactionFilter>::empty().insert(name, f) && name@ == FILTER_NAME@
                    && f.account_include@ == accounts@ && f.account_exclude@.len() == 0
                    && f.account_required@.len() == 0,
            Some(id) => res.ping == Some(Ping { id }) && res.transactions@ == Map::<String, TransactionFilter>::empty(),
        },
{
    match ping_id {
        None => {
            let filter = transaction_filter(accounts);
            let transactions = single_filter(FILTER_NAME.to_owned(), filter);
            SubscribeRequest { transactions, ping: None }
        },
        Some(id) => SubscribeRequest { transactions: HashMap::new(), ping: Some(Ping { id }) },
    }
}

/// What an Aperture subscription asks for: vote transactions too, whether to
/// send signatures only, whether to include simulation results, and the
/// public keys of the accounts a transaction must touch one of.
#[derive(Debug, Clone)]
pub struct SubscribeFilters {
    pub include_votes: bool,
    pub signatures_only: bool,
    pub include_simulation: bool,
    pub accounts: Vec<[u8; 32]>,
}

/// The Aperture subscription filters; the first account that is not a
/// public key is the error.
pub fn subscribe_filters(accounts: &[String], signatures_only: bool, include_simulation: bool) -> (res: Result<
    SubscribeFilters,
    CollectorError,
>)
    ensures
        match res {
            Ok(f) => all_pubkeys(accounts@) && f.include_votes && f.signatures_only == signatures_only
                && f.include_simulation == include_simulation && f.accounts@.len() == accounts@.len()
                && forall|i: int| 0 <= i < accounts@.len() ==> pubkey_of(accounts@[i]@) == Some(#[trigger] f.accounts@[i]@),
            Err(e) => exists|i: int| first_invalid_account(accounts@, i) && e == CollectorError::InvalidAccount(accounts@[i]),
        },
{
    let keys = account_keys(accounts)?;
    Ok(SubscribeFilters { include_votes: true, signatures_only, include_simulation, accounts: keys })
}

/// The user agent the Aperture client announces.
pub const APERTURE_USER_AGENT: &'static str = "rpcfast-grpcbench/aperture-txstream";

/// The settings of an Aperture client.
#[derive(Debug, Clone)]
pub struct ApertureClientSettings {
    pub url: String,
    pub max_decoding_message_size: usize,
    pub max_encoding_message_size: usize,
    pub initial_stream_window_size: Option<u32>,
    pub initial_connection_window_size: Option<u32>,
    pub user_agent: Option<String>,
    pub x_token: Option<String>,
}

/// The window size for a buffer of `buffer_size` bytes: the buffer size,
/// or the largest `u32` when it does not fit.
pub open spec fn window_size(buffer_size: usize) -> u32 {
    if buffer_size <= u32::MAX { buffer_size as u32 } else { u32::MAX }
}

/// The Aperture client settings for `endpoint`: messages up to
/// `buffer_size` bytes both ways, windows of `buffer_size` bytes, the
/// collector's user agent, and the token when there is one.
pub fn client_config(endpoint: &Endpoint, buffer_size: usize) -> (res: ApertureClientSettings)
    ensures
        res.url@ == endpoint.url@,
        res.max_decoding_message_size == buffer_size,
        res.max_encoding_message_size == buffer_size,
        res.initial_stream_window_size == Some(window_size(buffer_size)),
        res.initial_connection_window_size == Some(window_size(buffer_size)),
        res.user_agent matches Some(a) && a@ == APERTURE_USER_AGENT@,
        endpoint.token@.len() == 0 ==> res.x_token is None,
        endpoint.token@.len() > 0 ==> (res.x_token matches Some(t) && t@ == endpoint.token@),
{
    let window: u32 = if buffer_size <= 4294967295usize { buffer_size as u32 } else { u32::MAX };
    let x_token = if endpoint.token.unicode_len() == 0 { None } else { Some(endpoint.token.clone()) };
    ApertureClientSettings {
        url: endpoint.url.clone(),
        max_decoding_message_size: buffer_size,
        max_encoding_message_size: buffer_size,
        initial_stream_window_size: Some(window),
        initial_connection_window_size: Some(window),
        user_agent: Some(APERTURE_USER_AGENT.to_owned()),
        x_token,
    }
}

// ---------------------------------------------------------------------------
// Messages

/// What a collector does after a message, besides recording signatures.
#[derive(Debug, Clone, PartialEq, Eq)]
pub enum AfterMessage {
    /// Wait for the next message.
    Continue,
    /// Answer the server's ping.
    ReplyPing,
    /// End the session with this error.
    Fail(CollectorError),
}

/// What a collector makes of one message: the signatures to record a
/// sighting of, in order; whether the message counts as traffic for the
/// inactivity timeout; and what comes next.
#[derive(Debug, Clone)]
pub struct MessageOutcome {
    pub signatures: Vec<String>,
    pub active: bool,
    pub next: AfterMessage,
}

/// The signatures of a transaction as a stream sends them: its own
/// signature field (empty where the stream leaves it out) and its list of
/// signatures.
#[derive(Debug, Clone)]
pub struct TransactionSignatures {
    pub signature: Vec<u8>,
    pub signatures: Vec<Vec<u8>>,
}

/// A message of a transaction stream.
#[derive(Debug, Clone)]
pub enum StreamUpdate {
    /// A transaction update, and the transaction it carries, if any.
    Transaction(Option<TransactionSignatures>),
    /// The server's ping.
    Ping,
    /// Anything else.
    Other,
}

/// Nothing to record, nothing to answer.
pub open spec fn skipped(o: MessageOutcome) -> bool {
    o.signatures@.len() == 0 && !o.active && o.next == AfterMessage::Continue
}

/// The ping is to be answered.
pub open spec fn ping_answered(o: MessageOutcome) -> bool {
    o.signatures@.len() == 0 && !o.active && o.next == AfterMessage::ReplyPing
}

/// The one signature `bytes` is recorded when it is 64 bytes long; else the
/// session fails.
pub open spec fn decoded_one(o: MessageOutcome, bytes: Seq<u8>) -> bool {
    if bytes.len() == 64 {
        o.signatures@.len() == 1 && o.signatures@[0]@ == signature_base58(bytes) && o.active && o.next == AfterMessage::Continue
    } else {
        o.signatures@.len() == 0 && !o.active && o.next == AfterMessage::Fail(CollectorError::BadSignature)
    }
}

fn skip() -> (res: MessageOutcome)
    ensures
        skipped(res),
{
    MessageOutcome { signatures: Vec::new(), active: false, next: AfterMessage::Continue }
}

fn answer_ping() -> (res: MessageOutcome)
    ensures
        ping_answered(res),
{
    MessageOutcome { signatures: Vec::new(), active: false, next: AfterMessage::ReplyPing }
}

fn record_one(bytes: &[u8]) -> (res: MessageOutcome)
    ensures
        decoded_one(res, bytes@),
{
    match decode_signature(bytes) {
        Ok(s) => {
            let mut signatures = Vec::new();
            signatures.push(s);
            MessageOutcome { signatures, active: true, next: AfterMessage::Continue }
        },
        Err(e) => MessageOutcome { signatures: Vec::new(), active: false, next: AfterMessage::Fail(e) },
    }
}

/// The signature a Jetstream transaction is known by: its signature field,
/// or where that is empty the first of its signatures.
pub open spec fn jetstream_signature(tx: TransactionSignatures) -> Option<Seq<u8>> {
    if tx.signature@.len() > 0 {
        Some(tx.signature@)
    } else if tx.signatures@.len() > 0 {
        Some(tx.signatures@[0]@)
    } else {
        None
    }
}

/// What a Jetstream collector makes of a message: a transaction is recorded
/// by its signature field, or else by its first signature, and skipped when
/// it has neither; a ping is answered.
pub fn jetstream_outcome(update: &StreamUpdate) -> (res: MessageOutcome)
    ensures
        match update {
            StreamUpdate::Transaction(Some(tx)) => match jetstream_signature(*tx) {
                Some(bytes) => decoded_one(res, bytes),
                None => skipped(res),
            },
            StreamUpdate::Transaction(None) => skipped(res),
            StreamUpdate::Ping => ping_answered(res),
            StreamUpdate::Other => skipped(res),
        },
{
    match update {
        StreamUpdate::Transaction(Some(tx)) => {
            if tx.signature.len() > 0 {
                record_one(tx.signature.as_slice())
            } else if tx.signatures.len() > 0 {
                record_one(tx.signatures[0].as_slice())
            } else {
                skip()
            }
        },
        StreamUpdate::Transaction(None) => skip(),
        StreamUpdate::Ping => answer_ping(),
        StreamUpdate::Other => skip(),
    }
}

/// What a Yellowstone collector makes of a message: a transaction is
/// recorded by its signature field; a ping is answered.
pub fn yellowstone_outcome(update: &StreamUpdate) -> (res: MessageOutcome)
    ensures
        match update {
            StreamUpdate::Transaction(Some(tx)) => decoded_one(res, tx.signature@),
            StreamUpdate::Transaction(None) => skipped(res),
            StreamUpdate::Ping => ping_answered(res),
            StreamUpdate::Other => skipped(res),
        },
{
    match update {
        StreamUpdate::Transaction(Some(tx)) => record_one(tx.signature.as_slice()),
        StreamUpdate::Transaction(None) => skip(),
        StreamUpdate::Ping => answer_ping(),
        StreamUpdate::Other => skip(),
    }
}

/// What a Shreder Binary collector makes of a message's transaction: it is
/// recorded by its first signature, and skipped when it has none or the
/// message carries no transaction.
pub fn shreder_outcome(transaction: &Option<TransactionSignatures>) -> (res: MessageOutcome)
    ensures
        match transaction {
            Some(tx) => if tx.signatures@.len() > 0 {
                decoded_one(res, tx.signatures@[0]@)
            } else {
                skipped(res)
            },
            None => skipped(res),
        },
{
    match transaction {
        Some(tx) => {
            if tx.signatures.len() > 0 {
                record_one(tx.signatures[0].as_slice())
            } else {
                skip()
            }
        },
        None => skip(),
    }
}

/// Every signature of an Aperture transaction is recorded in order, up to
/// the first that is not 64 bytes long, which fails the session; a
/// transaction without signatures is skipped.
pub open spec fn aperture_recorded(o: MessageOutcome, sigs: Seq<Vec<u8>>) -> bool {
    if sigs.len() == 0 {
        skipped(o)
    } else {
        let n = o.signatures@.len();
        &&& o.active
        &&& n <= sigs.len()
        &&& forall|i: int| 0 <= i < n ==> (#[trigger] sigs[i])@.len() == 64
        &&& forall|i: int| 0 <= i < n ==> (#[trigger] o.signatures@[i])@ == signature_base58(sigs[i]@)
        &&& o.next == AfterMessage::Continue ==> n == sigs.len()
        &&& o.next != AfterMessage::Continue ==> n < sigs.len() && sigs[n as int]@.len() != 64 && o.next == AfterMessage::Fail(CollectorError::BadSignature)
    }
}

/// What an Aperture collector makes of a transaction.
pub fn aperture_outcome(signatures: &Vec<Vec<u8>>) -> (res: MessageOutcome)
    ensures
        aperture_recorded(res, signatures@),
{
    if signatures.len() == 0 {
        return skip();
    }
    let mut recorded: Vec<String> = Vec::new();
    let mut i: usize = 0;
    while i < signatures.len()
        invariant
            i <= signatures@.len(),
            recorded@.len() == i,
            forall|j: int| 0 <= j < i ==> (#[trigger] signatures@[j])@.len() == 64,
            forall|j: int| 0 <= j < i ==> (#[trigger] recorded@[j])@ == signature_base58(signatures@[j]@),
        decreases signatures@.len() - i,
    {
        match decode_signature(signatures[i].as_slice()) {
            Ok(s) => {
                recorded.push(s);
            },
            Err(e) => {
                return MessageOutcome { signatures: recorded, active: true, next: AfterMessage::Fail(e) };
            },
        }
        i = i + 1;
    }
    MessageOutcome { signatures: recorded, active: true, next: AfterMessage::Continue }
}

// ---------------------------------------------------------------------------
// ShredStream entries

/// The account filter of a ShredStream collector: none when no account is
/// given, else the public keys of the accounts; the first account that is
/// not a public key is the error.
pub fn account_filter(accounts: &[String]) -> (res: Result<Option<Vec<[u8; 32]>>, CollectorError>)
    ensures
        accounts@.len() == 0 ==> res matches Ok(None),
        accounts@.len() > 0 ==> match res {
            Ok(Some(keys)) => all_pubkeys(accounts@) && keys@.len() == accounts@.len()
                && forall|i: int| 0 <= i < accounts@.len() ==> pubkey_of(accounts@[i]@) == Some(#[trigger] keys@[i]@),
            Ok(None) => false,
            Err(e) => exists|i: int| first_invalid_account(accounts@, i) && e == CollectorError::InvalidAccount(accounts@[i]),
        },
{
    if accounts.len() == 0 {
        return Ok(None);
    }
    let keys = account_keys(accounts)?;
    Ok(Some(keys))
}

/// A transaction of a ShredStream entry: the account keys of its message
/// and its signatures.
#[derive(Debug, Clone)]
pub struct ShredTransaction {
    pub account_keys: Vec<[u8; 32]>,
    pub signatures: Vec<[u8; 64]>,
}

/// Whether one of `keys` is one of `filter`.
pub open spec fn touches(keys: Seq<[u8; 32]>, filter: Seq<[u8; 32]>) -> bool {
    exists|i: int, j: int| 0 <= i < keys.len() && 0 <= j < filter.len() && #[trigger] keys[i]@ == #[trigger] filter[j]@
}

/// Whether a ShredStream collector records transaction `tx`: it passes the
/// account filter, if there is one, and has a signature.
pub open spec fn shred_recorded(filter: Option<Vec<[u8; 32]>>, tx: ShredTransaction) -> bool {
    &&& match filter {
        None => true,
        Some(f) => touches(tx.account_keys@, f@),
    }
    &&& tx.signatures@.len() > 0
}

/// The signatures a ShredStream collector records from `txs`: the first
/// signature of each transaction it records, in order.
pub open spec fn shred_signatures(filter: Option<Vec<[u8; 32]>>, txs: Seq<ShredTransaction>) -> Seq<Seq<char>>
    decreases txs.len(),
{
    if txs.len() == 0 {
        Seq::empty()
    } else {
        let rest = shred_signatures(filter, txs.drop_last());
        if shred_recorded(filter, txs.last()) {
            rest.push(signature_base58(txs.last().signatures@[0]@))
        } else {
            rest
        }
    }
}

/// Whether two public keys are the same.
fn same_key(a: &[u8; 32], b: &[u8; 32]) -> (res: bool)
    ensures
        res <==> a@ == b@,
{
    let mut i: usize = 0;
    while i < 32
        invariant
            i <= 32,
            a@.len() == 32,
            b@.len() == 32,
            forall|k: int| 0 <= k < i ==> a@[k] == b@[k],
        decreases 32 - i,
    {
        if a[i] != b[i] {
            return false;
        }
        i = i + 1;
    }
    assert(a@ =~= b@);
    true
}

/// Whether one of `keys` is one of `filter`.
fn touches_filter(keys: &Vec<[u8; 32]>, filter: &Vec<[u8; 32]>) -> (res: bool)
    ensures
        res <==> touches(keys@, filter@),
{
    for i in 0..keys.len()
        invariant
            forall|a: int, b: int| 0 <= a < i && 0 <= b < filter@.len() ==> !(#[trigger] keys@[a]@ == #[trigger] filter@[b]@),
    {
        for j in 0..filter.len()
            invariant
                i < keys@.len(),
                forall|a: int, b: int| 0 <= a < i && 0 <= b < filter@.len() ==> !(#[trigger] keys@[a]@ == #[trigger] filter@[b]@),
                forall|b: int| 0 <= b < j ==> !(keys@[i as int]@ == #[trigger] filter@[b]@),
        {
            if same_key(&keys[i], &filter[j]) {
                assert(keys@[i as int]@ == filter@[j as int]@);
                return true;
            }
        }
    }
    false
}

/// What a ShredStream collector makes of the transactions of an entry batch:
/// the first signature of each transaction that passes the account filter,
/// if any, and has one; the batch counts as traffic when one is recorded.
pub fn shredstream_outcome(filter: &Option<Vec<[u8; 32]>>, transactions: &Vec<ShredTransaction>) -> (res: MessageOutcome)
    ensures
        res.signatures@.map_values(|s: String| s@) == shred_signatures(*filter, transactions@),
        res.active <==> exists|i: int| 0 <= i < transactions@.len() && shred_recorded(*filter, #[trigger] transactions@[i]),
        res.next == AfterMessage::Continue,
{
    let mut recorded: Vec<String> = Vec::new();
    let mut active = false;
    for i in 0..transactions.len()
        invariant
            recorded@.map_values(|s: String| s@) == shred_signatures(*filter, transactions@.take(i as int)),
            active <==> exists|k: int| 0 <= k < i && shred_recorded(*filter, #[trigger] transactions@[k]),
    {
        let tx = &transactions[i];
        assert(transactions@.take(i + 1).drop_last() =~= transactions@.take(i as int));
        assert(transactions@.take(i + 1).last() == transactions@[i as int]);
        let passes = match filter {
            None => true,
            Some(f) => touches_filter(&tx.account_keys, f),
        };
        if passes && tx.signatures.len() > 0 {
            let first: &[u8; 64] = &tx.signatures[0];
            let text = match decode_signature(first.as_slice()) {
                Ok(t) => t,
                Err(_) => String::new(),
            };
            let ghost before = recorded@;
            recorded.push(text);
            assert(recorded@.map_values(|s: String| s@) =~= before.map_values(|s: String| s@).push(text@));
            active = true;
        }
    }
    assert(transactions@.take(transactions@.len() as int) =~= transactions@);
    MessageOutcome { signatures: recorded, active, next: AfterMessage::Continue }
}

} // verus!
