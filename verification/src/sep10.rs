//! SEP-10 (Stellar Web Authentication): discovery data of a server, the
//! well-known `stellar.toml` location, and the strict client-side validation
//! of a challenge transaction.
//!
//! The validation rules are stated over a plain model of the challenge
//! transaction (`ChallengeTransaction`): every rule that rejects a challenge
//! names the single check that failed (`ChallengeError`).

use vstd::prelude::*;
use base64::Engine;
use stellar_xdr::{BytesM, DecoratedSignature, Limits, ReadXdr, SignatureHint, TransactionEnvelope, VecM, WriteXdr};
use crate::gas_profiler::wasm::{lossy_string, utf8_lossy};
use crate::security::analysis::{sha256, sha256_digest};
use vstd::utf8::encode_utf8;
use crate::text::{
    chars_of, decimal, decimal_string, is_prefix, join, join_spec, push_str, slice_chars,
    str_eq, string_of, string_views, to_owned_string, trim, trim_chars, trim_str,
};

verus! {

/// Network passphrase used when a server neither publishes `NETWORK_PASSPHRASE`
/// nor returns one with the challenge.
pub const PUBLIC_NETWORK_PASSPHRASE: &'static str =
    "Public Global Stellar Network ; September 2015";

/// Number of raw random bytes the challenge nonce must decode to.
pub const NONCE_BYTES: usize = 48;

/// Number of base64 characters a `NONCE_BYTES` nonce occupies.
pub const NONCE_ENCODED_LEN: usize = 64;

/// Suffix of the challenge's first Manage Data operation key (`<home domain> auth`).
pub const AUTH_DATA_NAME_SUFFIX: &'static str = " auth";

/// Data name of the optional operation carrying the server's own web auth domain.
pub const WEB_AUTH_DOMAIN_DATA_NAME: &'static str = "web_auth_domain";

/// Data name of the optional operation pinning the client's domain.
pub const CLIENT_DOMAIN_DATA_NAME: &'static str = "client_domain";

// ── Errors ────────────────────────────────────────────────────────────────────

/// Reasons a SEP-10 challenge is rejected; every variant names the single rule
/// that failed.
#[derive(Debug, Clone, PartialEq, Eq)]
pub enum ChallengeError {
    /// The challenge is not valid base64.
    InvalidBase64(String),
    /// The decoded bytes are not a Stellar transaction envelope.
    MalformedXdr(String),
    /// Only v1 (`ENVELOPE_TYPE_TX`) envelopes carry a SEP-10 challenge.
    UnsupportedEnvelope(&'static str),
    /// The transaction's source account must be the server's `SIGNING_KEY`.
    WrongSourceAccount { expected: String, found: String },
    /// A challenge must be unsubmittable, so its sequence number is 0.
    NonZeroSequence(i64),
    /// Time bounds are mandatory: they bound the useful life of the nonce.
    MissingTimeBounds(&'static str),
    /// The challenge window is already over.
    Expired { expired_at: u64, now: u64 },
    /// The challenge is not valid yet.
    NotYetValid { min_time: u64, now: u64 },
    /// The time bound window is inverted.
    InvertedTimeBounds { min_time: u64, max_time: u64 },
    /// A challenge carries at least the client's Manage Data operation.
    WrongOperationCount(usize),
    /// The first operation must be the `<home domain> auth` Manage Data.
    WrongOperationType(&'static str),
    /// The first operation names a different home domain.
    WrongDataName { expected: String, found: String },
    /// The `<home domain> auth` operation must carry a nonce.
    MissingNonce(String),
    /// The nonce is not the 64 base64 characters (48 raw bytes) SEP-10 requires.
    InvalidNonceLength(usize),
    /// The nonce is 64 characters but does not decode to 48 bytes.
    InvalidNonceEncoding(String),
    /// The first operation must be signed for by the account being authenticated.
    WrongOperationSource { expected: String, found: String },
    /// An operation other than the first must be a server or client-domain operation.
    UnexpectedOperation { index: usize, operation_type: &'static str },
    /// Any operation after the first must be signed for by a known account.
    WrongOperationAccount { index: usize, data_name: String, expected: String, found: String },
    /// The `web_auth_domain` operation must name a domain the client contacted.
    WrongWebAuthDomain { expected: String, found: String },
    /// The memo must be absent, or the id the client asked for.
    UnsupportedMemo(&'static str),
    /// The memo does not match the one the client requested.
    WrongMemo { expected: u64, found: u64 },
    /// The server's signature is absent or does not verify.
    InvalidServerSignature(String),
    /// The signing key published in `stellar.toml` is unusable.
    InvalidSigningKey { key: String, reason: String },
    /// The client's secret key is unusable.
    InvalidSecretKey(String),
    /// The signed envelope could not be re-encoded.
    Encoding(String),
}

// ── Servers ───────────────────────────────────────────────────────────────────

/// SEP-10 discovery data for one server, as published in its `stellar.toml`.
#[derive(Debug, Clone, PartialEq, Eq)]
pub struct Sep10Server {
    /// Domain that hosts the `stellar.toml` (`example.com`, no scheme).
    pub home_domain: String,
    /// `SIGNING_KEY`: the account that signs challenges.
    pub signing_key: String,
    /// `WEB_AUTH_ENDPOINT`: where challenges are fetched and submitted.
    pub web_auth_endpoint: String,
    /// `NETWORK_PASSPHRASE`, defaulting to the public network.
    pub network_passphrase: String,
    /// `WEB_AUTH_DOMAIN`, when the endpoint lives on another domain.
    pub web_auth_domain: Option<String>,
}

/// What URL parsing yields for a string: the scheme and the host, if the
/// string is an absolute URL.
pub uninterp spec fn url_scheme_host(s: Seq<char>) -> Option<(Seq<char>, Option<Seq<char>>)>;

/// `url::Url::parse`, reduced to the scheme and the host (`host_str`). What the
/// URL standard's parser accepts, and the error text on failure, are left to
/// the `url` crate: only the name above is claimed of the result.
#[verifier::external_body]
fn parse_url(s: &str) -> (r: Result<(String, Option<String>), String>)
    ensures
        match url_scheme_host(s@) {
            Some((scheme, host)) => r matches Ok((sc, h)) && sc@ == scheme && match host {
                Some(x) => h matches Some(y) && y@ == x,
                None => h is None,
            },
            None => r is Err,
        },
{
    match reqwest::Url::parse(s) {
        Ok(u) => Ok((u.scheme().to_string(), u.host_str().map(|h| h.to_string()))),
        Err(e) => Err(e.to_string()),
    }
}

/// The host of an endpoint URL, when it parses and has one.
pub open spec fn endpoint_host(endpoint: Seq<char>) -> Option<Seq<char>> {
    match url_scheme_host(endpoint) {
        Some((_, host)) => host,
        None => None,
    }
}

/// `d` occurs in `ds`.
pub open spec fn seq_has(ds: Seq<Seq<char>>, d: Seq<char>) -> bool {
    exists|k: int| 0 <= k < ds.len() && ds[k] == d
}

/// The domains the client knows a server by: the home domain, then the host
/// of the web auth endpoint and the explicit `WEB_AUTH_DOMAIN`, each added
/// when not already present.
pub open spec fn known_domains_spec(server: Sep10Server) -> Seq<Seq<char>> {
    let first = seq![server.home_domain@];
    let second = match endpoint_host(server.web_auth_endpoint@) {
        Some(h) => if seq_has(first, h) {
            first
        } else {
            first.push(h)
        },
        None => first,
    };
    match server.web_auth_domain {
        Some(d) => if seq_has(second, d@) {
            second
        } else {
            second.push(d@)
        },
        None => second,
    }
}

fn has_domain(ds: &Vec<String>, d: &str) -> (r: bool)
    ensures
        r == seq_has(string_views(ds@), d@),
{
    let ghost dv = string_views(ds@);
    let mut k: usize = 0;
    while k < ds.len()
        invariant
            dv == string_views(ds@),
            k <= ds@.len(),
            forall|j: int| 0 <= j < k ==> dv[j] != d@,
        decreases ds@.len() - k,
    {
        assert(dv[k as int] == ds@[k as int]@);
        if str_eq(ds[k].as_str(), d) {
            return true;
        }
        k += 1;
    }
    false
}

impl Sep10Server {
    /// The `<home domain> auth` data name the challenge must carry.
    pub fn auth_data_name(&self) -> (r: String)
        ensures
            r@ == self.home_domain@ + " auth"@,
    {
        let mut s = to_owned_string(self.home_domain.as_str());
        push_str(&mut s, AUTH_DATA_NAME_SUFFIX);
        s
    }

    /// Domains this client knows the server by, used to validate the
    /// `web_auth_domain` operation's value: the home domain, the host of
    /// `WEB_AUTH_ENDPOINT`, and the explicit `WEB_AUTH_DOMAIN`.
    pub fn known_domains(&self) -> (r: Vec<String>)
        ensures
            string_views(r@) == known_domains_spec(*self),
    {
        let mut domains: Vec<String> = Vec::new();
        domains.push(to_owned_string(self.home_domain.as_str()));
        assert(string_views(domains@) =~= seq![self.home_domain@]);
        match parse_url(self.web_auth_endpoint.as_str()) {
            Ok((_, Some(host))) => {
                if !has_domain(&domains, host.as_str()) {
                    let ghost before = domains@;
                    domains.push(host);
                    proof {
                        crate::text::lemma_string_views_push(before, domains@.last());
                    }
                }
            },
            _ => {},
        }
        match &self.web_auth_domain {
            Some(d) => {
                if !has_domain(&domains, d.as_str()) {
                    let ghost before = domains@;
                    let x = to_owned_string(d.as_str());
                    domains.push(x);
                    proof {
                        crate::text::lemma_string_views_push(before, x);
                    }
                }
            },
            None => {},
        }
        domains
    }
}

/// Whether a host names the local machine.
pub open spec fn is_loopback(host: Seq<char>) -> bool {
    host == "localhost"@ || host == "127.0.0.1"@ || host == "::1"@ || host == "[::1]"@
}

fn is_loopback_host(host: &str) -> (r: bool)
    ensures
        r == is_loopback(host@),
{
    str_eq(host, "localhost") || str_eq(host, "127.0.0.1") || str_eq(host, "::1") || str_eq(
        host,
        "[::1]",
    )
}

/// The part after the last `@`, or all of `s`.
pub open spec fn after_last_at(s: Seq<char>) -> Seq<char>
    decreases s.len(),
{
    if s.len() == 0 {
        s
    } else if s.last() == '@' {
        Seq::empty()
    } else {
        after_last_at(s.drop_last()).push(s.last())
    }
}

/// The part before the first `c`, or all of `s`.
pub open spec fn before_first(s: Seq<char>, c: char) -> Seq<char>
    decreases s.len(),
{
    if s.len() == 0 {
        s
    } else if s[0] == c {
        Seq::empty()
    } else {
        seq![s[0]] + before_first(s.drop_first(), c)
    }
}

/// Host portion of a `home_domain`: after any `user@`, with a port or IPv6
/// brackets removed.
pub open spec fn host_of(home_domain: Seq<char>) -> Seq<char> {
    let authority = after_last_at(home_domain);
    if authority.len() > 0 && authority[0] == '[' {
        before_first(authority.drop_first(), ']')
    } else {
        before_first(authority, ':')
    }
}

fn after_last_at_exec(s: &Vec<char>) -> (r: Vec<char>)
    ensures
        r@ == after_last_at(s@),
{
    let mut start: usize = 0;
    let mut i: usize = 0;
    while i < s.len()
        invariant
            i <= s@.len(),
            start <= i,
            after_last_at(s@.take(i as int)) == s@.subrange(start as int, i as int),
        decreases s@.len() - i,
    {
        assert(s@.take(i + 1).drop_last() =~= s@.take(i as int));
        if s[i] == '@' {
            start = i + 1;
            assert(after_last_at(s@.take(i + 1)) =~= s@.subrange(start as int, i + 1));
        } else {
            assert(after_last_at(s@.take(i + 1)) =~= s@.subrange(start as int, i + 1));
        }
        i += 1;
    }
    assert(s@.take(i as int) =~= s@);
    slice_chars(s, start, s.len())
}

fn before_first_exec(s: &Vec<char>, from: usize, c: char) -> (r: Vec<char>)
    requires
        from <= s@.len(),
    ensures
        r@ == before_first(s@.skip(from as int), c),
{
    let mut i = from;
    while i < s.len() && s[i] != c
        invariant
            from <= i <= s@.len(),
            forall|k: int| from <= k < i ==> s@[k] != c,
            before_first(s@.skip(from as int), c) == s@.subrange(from as int, i as int)
                + before_first(s@.skip(i as int), c),
        decreases s@.len() - i,
    {
        assert(s@.skip(i as int).drop_first() =~= s@.skip(i + 1));
        assert(s@.subrange(from as int, i + 1) =~= s@.subrange(from as int, i as int) + seq![s@[i as int]]);
        i += 1;
    }
    if i < s.len() {
        assert(before_first(s@.skip(i as int), c) =~= Seq::<char>::empty());
    } else {
        assert(s@.skip(i as int) =~= Seq::<char>::empty());
    }
    let r = slice_chars(s, from, i);
    assert(r@ =~= before_first(s@.skip(from as int), c));
    r
}

/// Host portion of a `home_domain`.
fn host_of_exec(home_domain: &Vec<char>) -> (r: Vec<char>)
    ensures
        r@ == host_of(home_domain@),
{
    let authority = after_last_at_exec(home_domain);
    if authority.len() > 0 && authority[0] == '[' {
        let r = before_first_exec(&authority, 1, ']');
        assert(authority@.skip(1) =~= authority@.drop_first());
        r
    } else {
        let r = before_first_exec(&authority, 0, ':');
        assert(authority@.skip(0) =~= authority@);
        r
    }
}

/// SEP-1 well-known URL of a home domain's `stellar.toml`.
pub open spec fn stellar_toml_url_spec(home_domain: Seq<char>) -> Seq<char> {
    let domain = trim(home_domain);
    let scheme = if is_loopback(host_of(domain)) {
        "http"@
    } else {
        "https"@
    };
    scheme + "://"@ + domain + "/.well-known/stellar.toml"@
}

/// SEP-1 well-known URL a `home_domain` publishes its `stellar.toml` at.
///
/// `home_domain` may include a port (`127.0.0.1:8000`); TLS is dropped only
/// for loopback hosts, whose traffic never leaves the machine.
pub fn stellar_toml_url(home_domain: &str) -> (r: String)
    ensures
        r@ == stellar_toml_url_spec(home_domain@),
{
    let domain = trim_str(home_domain);
    let host = string_of(&host_of_exec(&domain));
    let mut s = if is_loopback_host(host.as_str()) {
        to_owned_string("http")
    } else {
        to_owned_string("https")
    };
    push_str(&mut s, "://");
    push_str(&mut s, string_of(&domain).as_str());
    push_str(&mut s, "/.well-known/stellar.toml");
    s
}


// ── The challenge as plain values ─────────────────────────────────────────────

/// The preconditions of a challenge transaction.
#[derive(Debug, Clone, Copy, PartialEq, Eq)]
pub enum ChallengeConditions {
    Absent,
    Time { min_time: u64, max_time: u64 },
    V2,
}

/// The memo of a challenge transaction (only an id memo carries a value).
#[derive(Debug, Clone, Copy, PartialEq, Eq)]
pub enum ChallengeMemo {
    Absent,
    Id(u64),
    Text,
    Hash,
    Return,
}

/// One operation of a challenge: the account it is signed for, its type, and
/// for a Manage Data operation its raw name and value.
#[derive(Debug, Clone)]
pub struct ChallengeOperation {
    pub source: Option<String>,
    pub kind: &'static str,
    pub data_name: Vec<u8>,
    pub data_value: Option<Vec<u8>>,
}

/// An operation as plain values.
pub type OperationView = (Option<Seq<char>>, Seq<char>, Seq<u8>, Option<Seq<u8>>);

pub open spec fn operation_view(op: ChallengeOperation) -> OperationView {
    (
        match op.source {
            Some(s) => Some(s@),
            None => None,
        },
        op.kind@,
        op.data_name@,
        match op.data_value {
            Some(v) => Some(v@),
            None => None,
        },
    )
}

// ── Outside calls ─────────────────────────────────────────────────────────────

/// The standard-alphabet base64 decoding of the characters of `s`: the bytes,
/// or the decoder's error text.
pub uninterp spec fn base64_standard_decoding(s: Seq<char>) -> Result<Seq<u8>, Seq<char>>;

/// The URL-safe, unpadded base64 decoding of the characters of `s`.
pub uninterp spec fn base64_url_decoding(s: Seq<char>) -> Result<Seq<u8>, Seq<char>>;

/// The standard-alphabet, padded base64 encoding of `b`.
pub uninterp spec fn base64_standard_encoding(b: Seq<u8>) -> Seq<char>;

/// `base64::engine::general_purpose::STANDARD.decode`.
#[verifier::external_body]
pub(crate) fn base64_standard_decode(s: &str) -> (r: Result<Vec<u8>, String>)
    ensures
        match base64_standard_decoding(s@) {
            Ok(b) => r matches Ok(v) && v@ == b,
            Err(e) => r matches Err(m) && m@ == e,
        },
{
    base64::engine::general_purpose::STANDARD.decode(s).map_err(|e| e.to_string())
}

/// `base64::engine::general_purpose::URL_SAFE_NO_PAD.decode`.
#[verifier::external_body]
fn base64_url_decode(s: &str) -> (r: Result<Vec<u8>, String>)
    ensures
        match base64_url_decoding(s@) {
            Ok(b) => r matches Ok(v) && v@ == b,
            Err(e) => r matches Err(m) && m@ == e,
        },
{
    base64::engine::general_purpose::URL_SAFE_NO_PAD.decode(s).map_err(|e| e.to_string())
}

/// `base64::engine::general_purpose::STANDARD.encode`.
#[verifier::external_body]
fn base64_standard_encode(b: &[u8]) -> (r: String)
    ensures
        r@ == base64_standard_encoding(b@),
{
    base64::engine::general_purpose::STANDARD.encode(b)
}

/// The 32-byte ed25519 key of a `G...` strkey, if `s` is one.
pub uninterp spec fn strkey_public_decoded(s: Seq<char>) -> Option<Seq<u8>>;

/// The `G...` strkey of a 32-byte ed25519 key.
pub uninterp spec fn strkey_public_encoded(key: Seq<u8>) -> Seq<char>;

/// `stellar_strkey::ed25519::PublicKey::from_string`: the key's 32 bytes.
#[verifier::external_body]
fn strkey_decode_public(s: &str) -> (r: Option<Vec<u8>>)
    ensures
        match strkey_public_decoded(s@) {
            Some(k) => r matches Some(v) && v@ == k && k.len() == 32,
            None => r is None,
        },
{
    stellar_strkey::ed25519::PublicKey::from_string(s).ok().map(|k| k.0.to_vec())
}

/// `stellar_strkey::ed25519::PublicKey(key).to_string()`.
#[verifier::external_body]
fn strkey_encode_public(key: &[u8]) -> (r: String)
    requires
        key@.len() == 32,
    ensures
        r@ == strkey_public_encoded(key@),
{
    let mut k = [0u8; 32];
    k.copy_from_slice(key);
    format!("{}", stellar_strkey::ed25519::PublicKey(k))
}

/// Whether `sig` is a valid strict ed25519 signature of `msg` by `key`.
pub uninterp spec fn ed25519_strict_verifies(key: Seq<u8>, msg: Seq<u8>, sig: Seq<u8>) -> bool;

/// `ed25519_dalek::VerifyingKey::from_bytes` then `verify_strict`; a key that
/// is not a valid point verifies nothing.
#[verifier::external_body]
fn ed25519_verify(key: &[u8], msg: &[u8], sig: &[u8]) -> (r: bool)
    requires
        key@.len() == 32,
        sig@.len() == 64,
    ensures
        r == ed25519_strict_verifies(key@, msg@, sig@),
{
    let mut k = [0u8; 32];
    k.copy_from_slice(key);
    let mut s = [0u8; 64];
    s.copy_from_slice(sig);
    match ed25519_dalek::VerifyingKey::from_bytes(&k) {
        Ok(vk) => vk.verify_strict(msg, &ed25519_dalek::Signature::from_bytes(&s)).is_ok(),
        Err(_) => false,
    }
}

/// Reading XDR bytes as a transaction envelope: its kind (`TxV0`, `Tx`,
/// `TxFeeBump`) or the reader's error text. Every read of challenge bytes in
/// this module limits nesting to depth 500 and length to the input's size, so
/// a deeply nested envelope is refused as an error rather than exhausting the
/// stack.
pub uninterp spec fn xdr_envelope_kind(bytes: Seq<u8>) -> Result<Seq<char>, Seq<char>>;

/// `TransactionEnvelope::from_xdr`, reduced to the envelope kind.
#[verifier::external_body]
fn read_envelope_kind(bytes: &[u8]) -> (r: Result<&'static str, String>)
    ensures
        match xdr_envelope_kind(bytes@) {
            Ok(k) => r matches Ok(x) && x@ == k,
            Err(e) => r matches Err(m) && m@ == e,
        },
{
    match TransactionEnvelope::from_xdr(bytes, Limits { depth: 500, len: bytes.len() }) {
        Ok(env) => Ok(env.name()),
        Err(e) => Err(e.to_string()),
    }
}

/// The `M...` strkey of a 32-byte ed25519 key multiplexed with `id`.
pub uninterp spec fn strkey_muxed_encoded(key: Seq<u8>, id: u64) -> Seq<char>;

/// An account as its strkey: `G...` for a plain key, `M...` for a
/// multiplexed one.
pub open spec fn account_strkey(account: (Seq<u8>, Option<u64>)) -> Seq<char> {
    match account.1 {
        None => strkey_public_encoded(account.0),
        Some(id) => strkey_muxed_encoded(account.0, id),
    }
}

/// The v1 envelope's transaction, as the fields a challenge check reads.
/// Its source account: the ed25519 key and, for a multiplexed account, its id.
pub uninterp spec fn xdr_tx_source_account(bytes: Seq<u8>) -> (Seq<u8>, Option<u64>);

/// The transaction's source account as a strkey.
pub open spec fn xdr_tx_source(bytes: Seq<u8>) -> Seq<char> {
    account_strkey(xdr_tx_source_account(bytes))
}

pub uninterp spec fn xdr_tx_sequence(bytes: Seq<u8>) -> i64;

pub uninterp spec fn xdr_tx_conditions(bytes: Seq<u8>) -> ChallengeConditions;

pub uninterp spec fn xdr_tx_memo(bytes: Seq<u8>) -> ChallengeMemo;

pub uninterp spec fn xdr_tx_operation_count(bytes: Seq<u8>) -> nat;

/// The account operation `i` is signed for, when it sets one: the ed25519
/// key and, for a multiplexed account, its id.
pub uninterp spec fn xdr_op_source_account(bytes: Seq<u8>, i: int) -> Option<(Seq<u8>, Option<u64>)>;

/// The account operation `i` is signed for, as a strkey, when it sets one.
pub open spec fn xdr_op_source(bytes: Seq<u8>, i: int) -> Option<Seq<char>> {
    match xdr_op_source_account(bytes, i) {
        Some(a) => Some(account_strkey(a)),
        None => None,
    }
}

/// The XDR type name of operation `i` (`OperationBody::name`).
pub uninterp spec fn xdr_op_type_name(bytes: Seq<u8>, i: int) -> Seq<char>;

/// The operation types a challenge report names; any other is reported as
/// "another operation type".
pub open spec fn operation_type_label(name: Seq<char>) -> Seq<char> {
    if name == "ManageData"@ || name == "Payment"@ || name == "CreateAccount"@ || name
        == "SetOptions"@ || name == "ChangeTrust"@ || name == "InvokeHostFunction"@ {
        name
    } else {
        "another operation type"@
    }
}

/// The reported type name of operation `i`.
pub open spec fn xdr_op_kind(bytes: Seq<u8>, i: int) -> Seq<char> {
    operation_type_label(xdr_op_type_name(bytes, i))
}

/// The raw name and value of operation `i` when it is a Manage Data
/// operation (an empty name and no value otherwise).
pub uninterp spec fn xdr_op_data(bytes: Seq<u8>, i: int) -> (Seq<u8>, Option<Seq<u8>>);

/// The view of operation `i`.
pub open spec fn xdr_tx_operation(bytes: Seq<u8>, i: int) -> OperationView {
    (xdr_op_source(bytes, i), xdr_op_kind(bytes, i), xdr_op_data(bytes, i).0, xdr_op_data(bytes, i).1)
}

/// `stellar_strkey::ed25519::MuxedAccount { ed25519: key, id }.to_string()`.
#[verifier::external_body]
fn strkey_encode_muxed(key: &[u8], id: u64) -> (r: String)
    requires
        key@.len() == 32,
    ensures
        r@ == strkey_muxed_encoded(key@, id),
{
    let mut k = [0u8; 32];
    k.copy_from_slice(key);
    format!("{}", stellar_strkey::ed25519::MuxedAccount { ed25519: k, id })
}

/// The strkey of an account given as its key and multiplexing id.
fn account_text(key: &[u8], id: Option<u64>) -> (r: String)
    requires
        key@.len() == 32,
    ensures
        r@ == account_strkey((key@, id)),
{
    match id {
        None => strkey_encode_public(key),
        Some(n) => strkey_encode_muxed(key, n),
    }
}

/// The transaction's source account (`Transaction::source_account`): its
/// 32-byte ed25519 key and, for a multiplexed account, its id.
#[verifier::external_body]
fn tx_source_account(bytes: &[u8]) -> (r: (Vec<u8>, Option<u64>))
    requires
        xdr_envelope_kind(bytes@) == Ok::<Seq<char>, Seq<char>>("Tx"@),
    ensures
        (r.0@, r.1) == xdr_tx_source_account(bytes@),
        r.0@.len() == 32,
{
    let tx = match TransactionEnvelope::from_xdr(bytes, Limits { depth: 500, len: bytes.len() }) {
        Ok(TransactionEnvelope::Tx(v1)) => v1.tx,
        _ => stellar_xdr::Transaction::default(),
    };
    match tx.source_account {
        stellar_xdr::MuxedAccount::Ed25519(k) => (k.0.to_vec(), None),
        stellar_xdr::MuxedAccount::MuxedEd25519(m) => (m.ed25519.0.to_vec(), Some(m.id)),
    }
}

/// The transaction's source account as a `G...`/`M...` strkey.
fn tx_source(bytes: &[u8]) -> (r: String)
    requires
        xdr_envelope_kind(bytes@) == Ok::<Seq<char>, Seq<char>>("Tx"@),
    ensures
        r@ == xdr_tx_source(bytes@),
{
    let (key, id) = tx_source_account(bytes);
    account_text(&key, id)
}

/// The transaction's sequence number.
#[verifier::external_body]
fn tx_sequence(bytes: &[u8]) -> (r: i64)
    requires
        xdr_envelope_kind(bytes@) == Ok::<Seq<char>, Seq<char>>("Tx"@),
    ensures
        r == xdr_tx_sequence(bytes@),
{
    let tx = match TransactionEnvelope::from_xdr(bytes, Limits { depth: 500, len: bytes.len() }) {
        Ok(TransactionEnvelope::Tx(v1)) => v1.tx,
        _ => stellar_xdr::Transaction::default(),
    };
    tx.seq_num.0
}

/// The transaction's preconditions.
#[verifier::external_body]
fn tx_conditions(bytes: &[u8]) -> (r: ChallengeConditions)
    requires
        xdr_envelope_kind(bytes@) == Ok::<Seq<char>, Seq<char>>("Tx"@),
    ensures
        r == xdr_tx_conditions(bytes@),
{
    let tx = match TransactionEnvelope::from_xdr(bytes, Limits { depth: 500, len: bytes.len() }) {
        Ok(TransactionEnvelope::Tx(v1)) => v1.tx,
        _ => stellar_xdr::Transaction::default(),
    };
    match tx.cond {
        stellar_xdr::Preconditions::None => ChallengeConditions::Absent,
        stellar_xdr::Preconditions::Time(t) => ChallengeConditions::Time {
            min_time: t.min_time.0,
            max_time: t.max_time.0,
        },
        stellar_xdr::Preconditions::V2(_) => ChallengeConditions::V2,
    }
}

/// The transaction's memo.
#[verifier::external_body]
fn tx_memo(bytes: &[u8]) -> (r: ChallengeMemo)
    requires
        xdr_envelope_kind(bytes@) == Ok::<Seq<char>, Seq<char>>("Tx"@),
    ensures
        r == xdr_tx_memo(bytes@),
{
    let tx = match TransactionEnvelope::from_xdr(bytes, Limits { depth: 500, len: bytes.len() }) {
        Ok(TransactionEnvelope::Tx(v1)) => v1.tx,
        _ => stellar_xdr::Transaction::default(),
    };
    match tx.memo {
        stellar_xdr::Memo::None => ChallengeMemo::Absent,
        stellar_xdr::Memo::Id(id) => ChallengeMemo::Id(id),
        stellar_xdr::Memo::Text(_) => ChallengeMemo::Text,
        stellar_xdr::Memo::Hash(_) => ChallengeMemo::Hash,
        stellar_xdr::Memo::Return(_) => ChallengeMemo::Return,
    }
}

/// The number of operations of the transaction.
#[verifier::external_body]
fn tx_operation_count(bytes: &[u8]) -> (r: usize)
    requires
        xdr_envelope_kind(bytes@) == Ok::<Seq<char>, Seq<char>>("Tx"@),
    ensures
        r == xdr_tx_operation_count(bytes@),
{
    let tx = match TransactionEnvelope::from_xdr(bytes, Limits { depth: 500, len: bytes.len() }) {
        Ok(TransactionEnvelope::Tx(v1)) => v1.tx,
        _ => stellar_xdr::Transaction::default(),
    };
    tx.operations.len()
}

/// The source account operation `i` sets (`Operation::source_account`), if
/// any: its 32-byte ed25519 key and, for a multiplexed account, its id.
#[verifier::external_body]
fn tx_operation_source_account(bytes: &[u8], i: usize) -> (r: Option<(Vec<u8>, Option<u64>)>)
    requires
        xdr_envelope_kind(bytes@) == Ok::<Seq<char>, Seq<char>>("Tx"@),
        i < xdr_tx_operation_count(bytes@),
    ensures
        match xdr_op_source_account(bytes@, i as int) {
            Some(a) => r matches Some(x) && (x.0@, x.1) == a && x.0@.len() == 32,
            None => r is None,
        },
{
    let tx = match TransactionEnvelope::from_xdr(bytes, Limits { depth: 500, len: bytes.len() }) {
        Ok(TransactionEnvelope::Tx(v1)) => v1.tx,
        _ => stellar_xdr::Transaction::default(),
    };
    match tx.operations[i].source_account.clone() {
        None => None,
        Some(stellar_xdr::MuxedAccount::Ed25519(k)) => Some((k.0.to_vec(), None)),
        Some(stellar_xdr::MuxedAccount::MuxedEd25519(m)) => Some((m.ed25519.0.to_vec(), Some(m.id))),
    }
}

/// The account operation `i` is signed for.
fn tx_operation_source(bytes: &[u8], i: usize) -> (r: Option<String>)
    requires
        xdr_envelope_kind(bytes@) == Ok::<Seq<char>, Seq<char>>("Tx"@),
        i < xdr_tx_operation_count(bytes@),
    ensures
        match xdr_op_source(bytes@, i as int) {
            Some(a) => r matches Some(x) && x@ == a,
            None => r is None,
        },
{
    match tx_operation_source_account(bytes, i) {
        None => None,
        Some((key, id)) => Some(account_text(&key, id)),
    }
}

/// The XDR type name of operation `i` (`OperationBody::name`).
#[verifier::external_body]
fn tx_operation_type_name(bytes: &[u8], i: usize) -> (r: &'static str)
    requires
        xdr_envelope_kind(bytes@) == Ok::<Seq<char>, Seq<char>>("Tx"@),
        i < xdr_tx_operation_count(bytes@),
    ensures
        r@ == xdr_op_type_name(bytes@, i as int),
{
    let tx = match TransactionEnvelope::from_xdr(bytes, Limits { depth: 500, len: bytes.len() }) {
        Ok(TransactionEnvelope::Tx(v1)) => v1.tx,
        _ => stellar_xdr::Transaction::default(),
    };
    tx.operations[i].body.name()
}

/// The reported type name of operation `i`, for the shapes a challenge could
/// carry.
fn tx_operation_kind(bytes: &[u8], i: usize) -> (r: &'static str)
    requires
        xdr_envelope_kind(bytes@) == Ok::<Seq<char>, Seq<char>>("Tx"@),
        i < xdr_tx_operation_count(bytes@),
    ensures
        r@ == xdr_op_kind(bytes@, i as int),
{
    let name = tx_operation_type_name(bytes, i);
    if str_eq(name, "ManageData") {
        "ManageData"
    } else if str_eq(name, "Payment") {
        "Payment"
    } else if str_eq(name, "CreateAccount") {
        "CreateAccount"
    } else if str_eq(name, "SetOptions") {
        "SetOptions"
    } else if str_eq(name, "ChangeTrust") {
        "ChangeTrust"
    } else if str_eq(name, "InvokeHostFunction") {
        "InvokeHostFunction"
    } else {
        "another operation type"
    }
}

/// The raw Manage Data name and value of operation `i`.
#[verifier::external_body]
fn tx_operation_data(bytes: &[u8], i: usize) -> (r: (Vec<u8>, Option<Vec<u8>>))
    requires
        xdr_envelope_kind(bytes@) == Ok::<Seq<char>, Seq<char>>("Tx"@),
        i < xdr_tx_operation_count(bytes@),
    ensures
        r.0@ == xdr_op_data(bytes@, i as int).0,
        match xdr_op_data(bytes@, i as int).1 {
            Some(v) => r.1 matches Some(x) && x@ == v,
            None => r.1 is None,
        },
{
    let tx = match TransactionEnvelope::from_xdr(bytes, Limits { depth: 500, len: bytes.len() }) {
        Ok(TransactionEnvelope::Tx(v1)) => v1.tx,
        _ => stellar_xdr::Transaction::default(),
    };
    match &tx.operations[i].body {
        stellar_xdr::OperationBody::ManageData(md) => {
            (md.data_name.0.to_vec(), md.data_value.as_ref().map(|v| v.0.to_vec()))
        },
        _ => (Vec::new(), None),
    }
}

/// The bytes a signature of the envelope's transaction signs on the network
/// with id `network_id`: the XDR of the signature payload (network id and
/// tagged transaction).
pub uninterp spec fn xdr_signature_payload(bytes: Seq<u8>, network_id: Seq<u8>) -> Option<Seq<u8>>;

/// The id of the network with `passphrase`: the SHA-256 digest of its UTF-8
/// bytes.
pub open spec fn network_id_of(passphrase: Seq<char>) -> Seq<u8> {
    sha256_digest(encode_utf8(passphrase))
}

/// The id of the network with `passphrase`.
fn network_id(passphrase: &str) -> (r: Vec<u8>)
    ensures
        r@ == network_id_of(passphrase@),
        r@.len() == 32,
{
    sha256(passphrase.as_bytes())
}

/// The signatures attached to the envelope.
pub uninterp spec fn xdr_signatures(bytes: Seq<u8>) -> Seq<Seq<u8>>;

/// `TransactionSignaturePayload::to_xdr` for the envelope's transaction on
/// the network with the 32-byte id `network_id`: the result is the named
/// payload, `None` where the encoding fails.
#[verifier::external_body]
fn tx_signature_payload(bytes: &[u8], network_id: &[u8]) -> (r: Option<Vec<u8>>)
    requires
        xdr_envelope_kind(bytes@) == Ok::<Seq<char>, Seq<char>>("Tx"@),
        network_id@.len() == 32,
    ensures
        match xdr_signature_payload(bytes@, network_id@) {
            Some(p) => r matches Some(v) && v@ == p,
            None => r is None,
        },
{
    let tx = match TransactionEnvelope::from_xdr(bytes, Limits { depth: 500, len: bytes.len() }) {
        Ok(TransactionEnvelope::Tx(v1)) => v1.tx,
        _ => stellar_xdr::Transaction::default(),
    };
    let payload = stellar_xdr::TransactionSignaturePayload {
        network_id: stellar_xdr::Hash(<[u8; 32]>::try_from(network_id).unwrap_or([0u8; 32])),
        tagged_transaction: stellar_xdr::TransactionSignaturePayloadTaggedTransaction::Tx(tx),
    };
    payload.to_xdr(Limits { depth: 500, len: usize::MAX }).ok()
}

/// The raw bytes of each signature attached to the envelope.
#[verifier::external_body]
fn envelope_signatures(bytes: &[u8]) -> (r: Vec<Vec<u8>>)
    requires
        xdr_envelope_kind(bytes@) == Ok::<Seq<char>, Seq<char>>("Tx"@),
    ensures
        r@.map_values(|v: Vec<u8>| v@) == xdr_signatures(bytes@),
{
    match TransactionEnvelope::from_xdr(bytes, Limits { depth: 500, len: bytes.len() }) {
        Ok(TransactionEnvelope::Tx(v1)) => {
            v1.signatures.iter().map(|s| s.signature.0.to_vec()).collect()
        },
        _ => Vec::new(),
    }
}


// ── The rules ─────────────────────────────────────────────────────────────────

/// A rejection as plain values: the view of a `ChallengeError`.
pub enum Rejection {
    InvalidBase64(Seq<char>),
    MalformedXdr(Seq<char>),
    UnsupportedEnvelope(Seq<char>),
    WrongSourceAccount { expected: Seq<char>, found: Seq<char> },
    NonZeroSequence(i64),
    MissingTimeBounds(Seq<char>),
    Expired { expired_at: u64, now: u64 },
    NotYetValid { min_time: u64, now: u64 },
    InvertedTimeBounds { min_time: u64, max_time: u64 },
    WrongOperationCount(usize),
    WrongOperationType(Seq<char>),
    WrongDataName { expected: Seq<char>, found: Seq<char> },
    MissingNonce(Seq<char>),
    InvalidNonceLength(usize),
    InvalidNonceEncoding(Seq<char>),
    WrongOperationSource { expected: Seq<char>, found: Seq<char> },
    UnexpectedOperation { index: int, operation_type: Seq<char> },
    WrongOperationAccount { index: int, data_name: Seq<char>, expected: Seq<char>, found: Seq<char> },
    WrongWebAuthDomain { expected: Seq<char>, found: Seq<char> },
    UnsupportedMemo(Seq<char>),
    WrongMemo { expected: u64, found: u64 },
    InvalidServerSignature(Seq<char>),
    InvalidSigningKey { key: Seq<char>, reason: Seq<char> },
    InvalidSecretKey(Seq<char>),
    Encoding(Seq<char>),
}

/// The view of a `ChallengeError`.
pub open spec fn rejection_of(e: ChallengeError) -> Rejection {
    match e {
        ChallengeError::InvalidBase64(m) => Rejection::InvalidBase64(m@),
        ChallengeError::MalformedXdr(m) => Rejection::MalformedXdr(m@),
        ChallengeError::UnsupportedEnvelope(k) => Rejection::UnsupportedEnvelope(k@),
        ChallengeError::WrongSourceAccount { expected, found } => Rejection::WrongSourceAccount {
            expected: expected@,
            found: found@,
        },
        ChallengeError::NonZeroSequence(n) => Rejection::NonZeroSequence(n),
        ChallengeError::MissingTimeBounds(k) => Rejection::MissingTimeBounds(k@),
        ChallengeError::Expired { expired_at, now } => Rejection::Expired { expired_at, now },
        ChallengeError::NotYetValid { min_time, now } => Rejection::NotYetValid { min_time, now },
        ChallengeError::InvertedTimeBounds { min_time, max_time } => Rejection::InvertedTimeBounds {
            min_time,
            max_time,
        },
        ChallengeError::WrongOperationCount(n) => Rejection::WrongOperationCount(n),
        ChallengeError::WrongOperationType(k) => Rejection::WrongOperationType(k@),
        ChallengeError::WrongDataName { expected, found } => Rejection::WrongDataName {
            expected: expected@,
            found: found@,
        },
        ChallengeError::MissingNonce(m) => Rejection::MissingNonce(m@),
        ChallengeError::InvalidNonceLength(n) => Rejection::InvalidNonceLength(n),
        ChallengeError::InvalidNonceEncoding(m) => Rejection::InvalidNonceEncoding(m@),
        ChallengeError::WrongOperationSource { expected, found } => Rejection::WrongOperationSource {
            expected: expected@,
            found: found@,
        },
        ChallengeError::UnexpectedOperation { index, operation_type } => Rejection::UnexpectedOperation {
            index: index as int,
            operation_type: operation_type@,
        },
        ChallengeError::WrongOperationAccount { index, data_name, expected, found } => Rejection::WrongOperationAccount {
            index: index as int,
            data_name: data_name@,
            expected: expected@,
            found: found@,
        },
        ChallengeError::WrongWebAuthDomain { expected, found } => Rejection::WrongWebAuthDomain {
            expected: expected@,
            found: found@,
        },
        ChallengeError::UnsupportedMemo(k) => Rejection::UnsupportedMemo(k@),
        ChallengeError::WrongMemo { expected, found } => Rejection::WrongMemo { expected, found },
        ChallengeError::InvalidServerSignature(k) => Rejection::InvalidServerSignature(k@),
        ChallengeError::InvalidSigningKey { key, reason } => Rejection::InvalidSigningKey {
            key: key@,
            reason: reason@,
        },
        ChallengeError::InvalidSecretKey(m) => Rejection::InvalidSecretKey(m@),
        ChallengeError::Encoding(m) => Rejection::Encoding(m@),
    }
}

/// The raw key of a `G...` account, or why it is not one.
pub open spec fn account_key(account: Seq<char>) -> Result<Seq<u8>, Seq<char>> {
    let t = trim(account);
    if t.len() > 0 && t[0] == 'M' {
        Err("muxed accounts (M...) are not supported here"@)
    } else {
        match strkey_public_decoded(t) {
            Some(k) => Ok(k),
            None => Err("expected a G... ed25519 public key"@),
        }
    }
}

fn parse_account(account: &str) -> (r: Result<Vec<u8>, &'static str>)
    ensures
        match account_key(account@) {
            Ok(k) => r matches Ok(v) && v@ == k && k.len() == 32,
            Err(m) => r matches Err(x) && x@ == m,
        },
{
    let t = string_of(&trim_str(account));
    let tc = chars_of(t.as_str());
    if tc.len() > 0 && tc[0] == 'M' {
        return Err("muxed accounts (M...) are not supported here");
    }
    match strkey_decode_public(t.as_str()) {
        Some(k) => Ok(k),
        None => Err("expected a G... ed25519 public key"),
    }
}

/// What the checks of the time bounds and memo leave: the window and the
/// challenge's memo id.
pub open spec fn time_and_memo(
    cond: ChallengeConditions,
    cmemo: ChallengeMemo,
    memo: Option<u64>,
    now: u64,
) -> Result<(u64, u64, Option<u64>), Rejection> {
    match cond {
        ChallengeConditions::Absent => Err(Rejection::MissingTimeBounds("Preconditions::None"@)),
        ChallengeConditions::V2 => Err(Rejection::MissingTimeBounds("Preconditions::V2"@)),
        ChallengeConditions::Time { min_time, max_time } => {
            if min_time > max_time {
                Err(Rejection::InvertedTimeBounds { min_time, max_time })
            } else if max_time <= now {
                Err(Rejection::Expired { expired_at: max_time, now })
            } else if min_time > now {
                Err(Rejection::NotYetValid { min_time, now })
            } else {
                let found: Result<Option<u64>, Rejection> = match cmemo {
                    ChallengeMemo::Absent => Ok(None),
                    ChallengeMemo::Id(id) => Ok(Some(id)),
                    ChallengeMemo::Text => Err(Rejection::UnsupportedMemo("MEMO_TEXT"@)),
                    ChallengeMemo::Hash => Err(Rejection::UnsupportedMemo("MEMO_HASH"@)),
                    ChallengeMemo::Return => Err(Rejection::UnsupportedMemo("MEMO_RETURN"@)),
                };
                match found {
                    Err(e) => Err(e),
                    Ok(cm) => match (memo, cm) {
                        (Some(expected), Some(f)) => if expected != f {
                            Err(Rejection::WrongMemo { expected, found: f })
                        } else {
                            Ok((min_time, max_time, cm))
                        },
                        (Some(expected), None) => Err(Rejection::WrongMemo { expected, found: 0 }),
                        _ => Ok((min_time, max_time, cm)),
                    },
                }
            }
        },
    }
}

/// `s`, or `(missing)` when there is none.
pub open spec fn or_missing(s: Option<Seq<char>>) -> Seq<char> {
    match s {
        Some(x) => x,
        None => "(missing)"@,
    }
}

/// The check of operation `index` (after the first): the entry it records, or
/// why it is rejected.
pub open spec fn extra_operation_entry(
    op: OperationView,
    index: int,
    server: Sep10Server,
    server_account: Seq<char>,
    known: Seq<Seq<char>>,
) -> Result<Seq<char>, Rejection> {
    let (source, kind, raw_name, raw_value) = op;
    let name = utf8_lossy(raw_name);
    if kind != "ManageData"@ {
        Err(Rejection::UnexpectedOperation { index, operation_type: kind })
    } else if name == "web_auth_domain"@ {
        let value = match raw_value {
            Some(v) => utf8_lossy(v),
            None => Seq::empty(),
        };
        if source != Some(server_account) {
            Err(
                Rejection::WrongOperationAccount {
                    index,
                    data_name: name,
                    expected: server.signing_key@,
                    found: or_missing(source),
                },
            )
        } else if !seq_has(known, value) {
            Err(Rejection::WrongWebAuthDomain { expected: join_spec(known, ", "@), found: value })
        } else {
            Ok(name + " = "@ + value)
        }
    } else if name == "client_domain"@ {
        if source is None {
            Err(
                Rejection::WrongOperationAccount {
                    index,
                    data_name: name,
                    expected: "a client domain account"@,
                    found: or_missing(source),
                },
            )
        } else {
            Ok(name + " = "@ + or_missing(source))
        }
    } else if source != Some(server_account) {
        Err(
            Rejection::WrongOperationAccount {
                index,
                data_name: name,
                expected: server.signing_key@,
                found: or_missing(source),
            },
        )
    } else {
        Ok(name + " (server)"@)
    }
}

/// The entries recorded for operations `1..k`, or the first rejection.
pub open spec fn extra_operations(
    bytes: Seq<u8>,
    server: Sep10Server,
    server_account: Seq<char>,
    known: Seq<Seq<char>>,
    k: int,
) -> Result<Seq<Seq<char>>, Rejection>
    decreases k,
{
    if k <= 1 {
        Ok(Seq::empty())
    } else {
        match extra_operations(bytes, server, server_account, known, k - 1) {
            Err(e) => Err(e),
            Ok(entries) => match extra_operation_entry(
                xdr_tx_operation(bytes, k - 1),
                k - 1,
                server,
                server_account,
                known,
            ) {
                Err(e) => Err(e),
                Ok(x) => Ok(entries.push(x)),
            },
        }
    }
}

/// The client and web auth domains the recorded entries name (the last of
/// each kind wins).
pub open spec fn entry_domains(entries: Seq<Seq<char>>) -> (Option<Seq<char>>, Option<Seq<char>>)
    decreases entries.len(),
{
    if entries.len() == 0 {
        (None, None)
    } else {
        let (client, web) = entry_domains(entries.drop_last());
        let e = entries.last();
        if is_prefix("client_domain = "@, e) {
            (Some(e.skip(16)), web)
        } else if is_prefix("web_auth_domain = "@, e) {
            (client, Some(e.skip(18)))
        } else {
            (client, web)
        }
    }
}

/// What a valid challenge yields: nonce (re-encoded), time bounds, memo id,
/// client domain, web auth domain, operation count.
pub type Accepted = (Seq<char>, u64, u64, Option<u64>, Option<Seq<char>>, Option<Seq<char>>, nat);

/// The nonce check: the raw value must be 64 characters of base64 that
/// decode to 48 bytes; yields the decoded bytes.
pub open spec fn nonce_check(raw: Seq<u8>) -> Result<Seq<u8>, Rejection> {
    if raw.len() != 64 {
        Err(Rejection::InvalidNonceLength(raw.len() as usize))
    } else {
        match base64_standard_decoding(utf8_lossy(raw)) {
            Err(e) => Err(Rejection::InvalidNonceEncoding(e)),
            Ok(d) => if d.len() != 48 {
                Err(
                    Rejection::InvalidNonceEncoding(
                        "decoded to "@ + decimal(d.len()) + " bytes, expected 48"@,
                    ),
                )
            } else {
                Ok(d)
            },
        }
    }
}

/// The first operation's checks: a `<home domain> auth` Manage Data operation,
/// signed for by the client, carrying a valid nonce; yields the decoded nonce.
pub open spec fn first_operation_check(
    bytes: Seq<u8>,
    server: Sep10Server,
    client: Seq<char>,
    client_account: Seq<char>,
) -> Result<Seq<u8>, Rejection> {
    let (source, kind, raw_name, raw_value) = xdr_tx_operation(bytes, 0);
    let expected_name = server.home_domain@ + " auth"@;
    let name = utf8_lossy(raw_name);
    if kind != "ManageData"@ {
        Err(Rejection::WrongOperationType(kind))
    } else if name != expected_name {
        Err(Rejection::WrongDataName { expected: expected_name, found: name })
    } else if source != Some(client_account) {
        Err(Rejection::WrongOperationSource { expected: client, found: or_missing(source) })
    } else {
        match raw_value {
            None => Err(Rejection::MissingNonce(name)),
            Some(v) => nonce_check(v),
        }
    }
}

/// The checks of SEP-10 on a v1 challenge envelope's XDR, in order, up to and
/// excluding the server signature: the source account is the server's
/// `SIGNING_KEY`, the sequence number is 0, the time bounds hold `now`, the
/// memo is absent or the requested id, the first operation is the client's
/// `<home domain> auth` Manage Data with a 48-byte nonce, and every other
/// operation is a server, client-domain or web-auth-domain Manage Data.
pub open spec fn challenge_checks(
    bytes: Seq<u8>,
    server: Sep10Server,
    client: Seq<char>,
    memo: Option<u64>,
    now: u64,
) -> Result<Accepted, Rejection> {
    match account_key(server.signing_key@) {
        Err(reason) => Err(Rejection::InvalidSigningKey { key: server.signing_key@, reason }),
        Ok(skey) => {
            let server_account = strkey_public_encoded(skey);
            if xdr_tx_source(bytes) != server_account {
                Err(
                    Rejection::WrongSourceAccount {
                        expected: server.signing_key@,
                        found: xdr_tx_source(bytes),
                    },
                )
            } else if xdr_tx_sequence(bytes) != 0 {
                Err(Rejection::NonZeroSequence(xdr_tx_sequence(bytes)))
            } else {
                match time_and_memo(xdr_tx_conditions(bytes), xdr_tx_memo(bytes), memo, now) {
                    Err(e) => Err(e),
                    Ok((min_time, max_time, cmemo)) => {
                        let n = xdr_tx_operation_count(bytes);
                        if n == 0 {
                            Err(Rejection::WrongOperationCount(0))
                        } else {
                            match account_key(client) {
                                Err(reason) => Err(
                                    Rejection::WrongOperationSource { expected: client, found: reason },
                                ),
                                Ok(ckey) => match first_operation_check(
                                    bytes,
                                    server,
                                    client,
                                    strkey_public_encoded(ckey),
                                ) {
                                    Err(e) => Err(e),
                                    Ok(nonce) => match extra_operations(
                                        bytes,
                                        server,
                                        server_account,
                                        known_domains_spec(server),
                                        n as int,
                                    ) {
                                        Err(e) => Err(e),
                                        Ok(entries) => {
                                            let (cd, wd) = entry_domains(entries);
                                            Ok(
                                                (
                                                    base64_standard_encoding(nonce),
                                                    min_time,
                                                    max_time,
                                                    cmemo,
                                                    cd,
                                                    wd,
                                                    n,
                                                ),
                                            )
                                        },
                                    },
                                },
                            }
                        }
                    },
                }
            }
        },
    }
}


fn time_and_memo_exec(
    cond: ChallengeConditions,
    cmemo: ChallengeMemo,
    memo: Option<u64>,
    now: u64,
) -> (r: Result<(u64, u64, Option<u64>), ChallengeError>)
    ensures
        match time_and_memo(cond, cmemo, memo, now) {
            Ok(t) => r == Ok::<(u64, u64, Option<u64>), ChallengeError>(t),
            Err(e) => r matches Err(x) && rejection_of(x) == e,
        },
        memo is Some ==> (r matches Ok(t) ==> t.2 == memo && cmemo == ChallengeMemo::Id(memo->0)),
{
    proof {
        reveal_strlit("Preconditions::None");
        reveal_strlit("Preconditions::V2");
        reveal_strlit("MEMO_TEXT");
        reveal_strlit("MEMO_HASH");
        reveal_strlit("MEMO_RETURN");
    }
    let (min_time, max_time) = match cond {
        ChallengeConditions::Absent => {
            return Err(ChallengeError::MissingTimeBounds("Preconditions::None"));
        },
        ChallengeConditions::V2 => {
            return Err(ChallengeError::MissingTimeBounds("Preconditions::V2"));
        },
        ChallengeConditions::Time { min_time, max_time } => (min_time, max_time),
    };
    if min_time > max_time {
        return Err(ChallengeError::InvertedTimeBounds { min_time, max_time });
    }
    if max_time <= now {
        return Err(ChallengeError::Expired { expired_at: max_time, now });
    }
    if min_time > now {
        return Err(ChallengeError::NotYetValid { min_time, now });
    }
    let cm = match cmemo {
        ChallengeMemo::Absent => None,
        ChallengeMemo::Id(id) => Some(id),
        ChallengeMemo::Text => {
            return Err(ChallengeError::UnsupportedMemo("MEMO_TEXT"));
        },
        ChallengeMemo::Hash => {
            return Err(ChallengeError::UnsupportedMemo("MEMO_HASH"));
        },
        ChallengeMemo::Return => {
            return Err(ChallengeError::UnsupportedMemo("MEMO_RETURN"));
        },
    };
    match (memo, cm) {
        (Some(expected), Some(found)) => {
            if expected != found {
                return Err(ChallengeError::WrongMemo { expected, found });
            }
        },
        (Some(expected), None) => {
            return Err(ChallengeError::WrongMemo { expected, found: 0 });
        },
        _ => {},
    }
    Ok((min_time, max_time, cm))
}

fn or_missing_exec(s: &Option<String>) -> (r: String)
    ensures
        r@ == or_missing(match s {
            Some(x) => Some(x@),
            None => None,
        }),
{
    match s {
        Some(x) => to_owned_string(x.as_str()),
        None => to_owned_string("(missing)"),
    }
}

fn opt_is(s: &Option<String>, v: &str) -> (r: bool)
    ensures
        r == (match s {
            Some(x) => Some(x@),
            None => None,
        } == Some(v@)),
{
    match s {
        Some(x) => str_eq(x.as_str(), v),
        None => false,
    }
}

fn extra_operation_entry_exec(
    bytes: &[u8],
    i: usize,
    server: &Sep10Server,
    server_account: &str,
    known: &Vec<String>,
) -> (r: Result<String, ChallengeError>)
    requires
        xdr_envelope_kind(bytes@) == Ok::<Seq<char>, Seq<char>>("Tx"@),
        i < xdr_tx_operation_count(bytes@),
    ensures
        match extra_operation_entry(
            xdr_tx_operation(bytes@, i as int),
            i as int,
            *server,
            server_account@,
            string_views(known@),
        ) {
            Ok(x) => r matches Ok(y) && y@ == x,
            Err(e) => r matches Err(x) && rejection_of(x) == e,
        },
{
    let source = tx_operation_source(bytes, i);
    let kind = tx_operation_kind(bytes, i);
    let (raw_name, raw_value) = tx_operation_data(bytes, i);
    let name = lossy_string(&raw_name);
    if !str_eq(kind, "ManageData") {
        return Err(ChallengeError::UnexpectedOperation { index: i, operation_type: kind });
    }
    if str_eq(name.as_str(), WEB_AUTH_DOMAIN_DATA_NAME) {
        let value = match &raw_value {
            Some(v) => lossy_string(v),
            None => String::new(),
        };
        if !opt_is(&source, server_account) {
            return Err(
                ChallengeError::WrongOperationAccount {
                    index: i,
                    data_name: name,
                    expected: to_owned_string(server.signing_key.as_str()),
                    found: or_missing_exec(&source),
                },
            );
        }
        if !has_domain(known, value.as_str()) {
            return Err(
                ChallengeError::WrongWebAuthDomain { expected: join(known, ", "), found: value },
            );
        }
        let mut e = name;
        push_str(&mut e, " = ");
        push_str(&mut e, value.as_str());
        return Ok(e);
    }
    if str_eq(name.as_str(), CLIENT_DOMAIN_DATA_NAME) {
        if source.is_none() {
            return Err(
                ChallengeError::WrongOperationAccount {
                    index: i,
                    data_name: name,
                    expected: to_owned_string("a client domain account"),
                    found: or_missing_exec(&source),
                },
            );
        }
        let mut e = name;
        push_str(&mut e, " = ");
        push_str(&mut e, or_missing_exec(&source).as_str());
        return Ok(e);
    }
    if !opt_is(&source, server_account) {
        return Err(
            ChallengeError::WrongOperationAccount {
                index: i,
                data_name: name,
                expected: to_owned_string(server.signing_key.as_str()),
                found: or_missing_exec(&source),
            },
        );
    }
    let mut e = name;
    push_str(&mut e, " (server)");
    Ok(e)
}

fn nonce_check_exec(raw: &Vec<u8>) -> (r: Result<Vec<u8>, ChallengeError>)
    ensures
        match nonce_check(raw@) {
            Ok(d) => r matches Ok(v) && v@ == d,
            Err(e) => r matches Err(x) && rejection_of(x) == e,
        },
{
    if raw.len() != NONCE_ENCODED_LEN {
        return Err(ChallengeError::InvalidNonceLength(raw.len()));
    }
    let encoded = lossy_string(raw);
    match base64_standard_decode(encoded.as_str()) {
        Err(m) => Err(ChallengeError::InvalidNonceEncoding(m)),
        Ok(d) => {
            if d.len() != NONCE_BYTES {
                let mut m = to_owned_string("decoded to ");
                push_str(&mut m, decimal_string(d.len() as u64).as_str());
                push_str(&mut m, " bytes, expected 48");
                Err(ChallengeError::InvalidNonceEncoding(m))
            } else {
                Ok(d)
            }
        },
    }
}

fn first_operation_check_exec(
    bytes: &[u8],
    server: &Sep10Server,
    client: &str,
    client_account: &str,
) -> (r: Result<Vec<u8>, ChallengeError>)
    requires
        xdr_envelope_kind(bytes@) == Ok::<Seq<char>, Seq<char>>("Tx"@),
        0 < xdr_tx_operation_count(bytes@),
    ensures
        match first_operation_check(bytes@, *server, client@, client_account@) {
            Ok(d) => r matches Ok(v) && v@ == d,
            Err(e) => r matches Err(x) && rejection_of(x) == e,
        },
{
    let source = tx_operation_source(bytes, 0);
    let kind = tx_operation_kind(bytes, 0);
    let (raw_name, raw_value) = tx_operation_data(bytes, 0);
    let expected_name = server.auth_data_name();
    let name = lossy_string(&raw_name);
    if !str_eq(kind, "ManageData") {
        return Err(ChallengeError::WrongOperationType(kind));
    }
    if !str_eq(name.as_str(), expected_name.as_str()) {
        return Err(ChallengeError::WrongDataName { expected: expected_name, found: name });
    }
    if !opt_is(&source, client_account) {
        return Err(
            ChallengeError::WrongOperationSource {
                expected: to_owned_string(client),
                found: or_missing_exec(&source),
            },
        );
    }
    match &raw_value {
        None => Err(ChallengeError::MissingNonce(name)),
        Some(v) => nonce_check_exec(v),
    }
}

fn entry_domains_exec(entries: &Vec<String>) -> (r: (Option<String>, Option<String>))
    ensures
        match entry_domains(string_views(entries@)).0 {
            Some(c) => r.0 matches Some(x) && x@ == c,
            None => r.0 is None,
        },
        match entry_domains(string_views(entries@)).1 {
            Some(w) => r.1 matches Some(x) && x@ == w,
            None => r.1 is None,
        },
{
    proof {
        reveal_strlit("client_domain = ");
        reveal_strlit("web_auth_domain = ");
    }
    let ghost ev = string_views(entries@);
    let mut client: Option<String> = None;
    let mut web: Option<String> = None;
    let mut k: usize = 0;
    while k < entries.len()
        invariant
            ev == string_views(entries@),
            k <= entries@.len(),
            match entry_domains(ev.take(k as int)).0 {
                Some(c) => client matches Some(x) && x@ == c,
                None => client is None,
            },
            match entry_domains(ev.take(k as int)).1 {
                Some(w) => web matches Some(x) && x@ == w,
                None => web is None,
            },
        decreases entries@.len() - k,
    {
        assert(ev.take(k + 1).drop_last() =~= ev.take(k as int));
        assert(ev.take(k + 1).last() == entries@[k as int]@);
        proof {
            reveal_strlit("client_domain = ");
            reveal_strlit("web_auth_domain = ");
        }
        let e = chars_of(entries[k].as_str());
        if crate::text::starts_with_str(&e, "client_domain = ") {
            let v = slice_chars(&e, 16, e.len());
            assert(v@ =~= e@.skip(16));
            client = Some(string_of(&v));
        } else if crate::text::starts_with_str(&e, "web_auth_domain = ") {
            let v = slice_chars(&e, 18, e.len());
            assert(v@ =~= e@.skip(18));
            web = Some(string_of(&v));
        }
        k += 1;
    }
    assert(ev.take(k as int) =~= ev);
    (client, web)
}


/// The facts a successful check leaves: the server's raw key, the nonce
/// (re-encoded), the time bounds, the memo id, the client and web auth
/// domains, and the operation count.
struct Checked {
    server_key: Vec<u8>,
    nonce: String,
    min_time: u64,
    max_time: u64,
    memo: Option<u64>,
    client_domain: Option<String>,
    web_auth_domain: Option<String>,
    operation_count: usize,
}

pub open spec fn opt_str(o: Option<String>) -> Option<Seq<char>> {
    match o {
        Some(s) => Some(s@),
        None => None,
    }
}

spec fn checked_view(c: Checked) -> Accepted {
    (
        c.nonce@,
        c.min_time,
        c.max_time,
        c.memo,
        opt_str(c.client_domain),
        opt_str(c.web_auth_domain),
        c.operation_count as nat,
    )
}

#[verifier::loop_isolation(false)]
fn check_challenge(
    bytes: &[u8],
    server: &Sep10Server,
    client: &str,
    memo: Option<u64>,
    now: u64,
) -> (r: Result<Checked, ChallengeError>)
    requires
        xdr_envelope_kind(bytes@) == Ok::<Seq<char>, Seq<char>>("Tx"@),
    ensures
        match challenge_checks(bytes@, *server, client@, memo, now) {
            Ok(acc) => r matches Ok(c) && checked_view(c) == acc && account_key(server.signing_key@)
                == Ok::<Seq<u8>, Seq<char>>(c.server_key@) && c.server_key@.len() == 32,
            Err(e) => r matches Err(x) && rejection_of(x) == e,
        },
{
    let skey = match parse_account(server.signing_key.as_str()) {
        Ok(k) => k,
        Err(reason) => {
            return Err(
                ChallengeError::InvalidSigningKey {
                    key: to_owned_string(server.signing_key.as_str()),
                    reason: to_owned_string(reason),
                },
            );
        },
    };
    let server_account = strkey_encode_public(&skey);
    let found = tx_source(bytes);
    if !str_eq(found.as_str(), server_account.as_str()) {
        return Err(
            ChallengeError::WrongSourceAccount {
                expected: to_owned_string(server.signing_key.as_str()),
                found,
            },
        );
    }
    let seq = tx_sequence(bytes);
    if seq != 0 {
        return Err(ChallengeError::NonZeroSequence(seq));
    }
    let (min_time, max_time, cmemo) = match time_and_memo_exec(
        tx_conditions(bytes),
        tx_memo(bytes),
        memo,
        now,
    ) {
        Ok(t) => t,
        Err(e) => {
            return Err(e);
        },
    };
    let n = tx_operation_count(bytes);
    if n == 0 {
        return Err(ChallengeError::WrongOperationCount(0));
    }
    let ckey = match parse_account(client) {
        Ok(k) => k,
        Err(reason) => {
            return Err(
                ChallengeError::WrongOperationSource {
                    expected: to_owned_string(client),
                    found: to_owned_string(reason),
                },
            );
        },
    };
    let client_account = strkey_encode_public(&ckey);
    let nonce = match first_operation_check_exec(bytes, server, client, client_account.as_str()) {
        Ok(d) => d,
        Err(e) => {
            return Err(e);
        },
    };
    let known = server.known_domains();
    let ghost kv = string_views(known@);
    let mut entries: Vec<String> = Vec::new();
    assert(string_views(entries@) =~= Seq::<Seq<char>>::empty());
    let mut i: usize = 1;
    while i < n
        invariant
            xdr_envelope_kind(bytes@) == Ok::<Seq<char>, Seq<char>>("Tx"@),
            n == xdr_tx_operation_count(bytes@),
            1 <= i <= n,
            kv == string_views(known@),
            kv == known_domains_spec(*server),
            extra_operations(bytes@, *server, server_account@, kv, i as int) == Ok::<
                Seq<Seq<char>>,
                Rejection,
            >(string_views(entries@)),
        decreases n - i,
    {
        match extra_operation_entry_exec(bytes, i, server, server_account.as_str(), &known) {
            Ok(x) => {
                proof {
                    crate::text::lemma_string_views_push(entries@, x);
                }
                entries.push(x);
            },
            Err(e) => {
                proof {
                    lemma_extra_operations_err(
                        bytes@,
                        *server,
                        server_account@,
                        kv,
                        i + 1,
                        n as int,
                    );
                }
                return Err(e);
            },
        }
        i += 1;
    }
    let (client_domain, web_auth_domain) = entry_domains_exec(&entries);
    Ok(
        Checked {
            server_key: skey,
            nonce: base64_standard_encode(&nonce),
            min_time,
            max_time,
            memo: cmemo,
            client_domain,
            web_auth_domain,
            operation_count: n,
        },
    )
}

/// Once an operation is rejected, every longer scan is rejected the same way.
proof fn lemma_extra_operations_err(
    bytes: Seq<u8>,
    server: Sep10Server,
    server_account: Seq<char>,
    known: Seq<Seq<char>>,
    k: int,
    m: int,
)
    requires
        1 <= k <= m,
        extra_operations(bytes, server, server_account, known, k) is Err,
    ensures
        extra_operations(bytes, server, server_account, known, m) == extra_operations(
            bytes,
            server,
            server_account,
            known,
            k,
        ),
    decreases m - k,
{
    if k < m {
        lemma_extra_operations_err(bytes, server, server_account, known, k, m - 1);
    }
}

/// The decoding of a challenge string: standard base64, else URL-safe base64
/// (whose error is reported when both fail).
pub open spec fn challenge_bytes(xdr: Seq<char>) -> Result<Seq<u8>, Seq<char>> {
    let t = trim(xdr);
    match base64_standard_decoding(t) {
        Ok(b) => Ok(b),
        Err(_) => base64_url_decoding(t),
    }
}

/// Some signature of the envelope, 64 bytes long, verifies strictly against
/// `key` over the transaction's signature payload for `passphrase`.
pub open spec fn server_signed(bytes: Seq<u8>, passphrase: Seq<char>, key: Seq<u8>) -> bool {
    match xdr_signature_payload(bytes, network_id_of(passphrase)) {
        None => false,
        Some(p) => exists|k: int|
            0 <= k < xdr_signatures(bytes).len() && #[trigger] xdr_signatures(bytes)[k].len() == 64
                && ed25519_strict_verifies(key, p, xdr_signatures(bytes)[k]),
    }
}

/// What validating a challenge string yields: the envelope bytes and what
/// the checks accepted, or the first rule that failed.
pub open spec fn challenge_outcome(
    xdr: Seq<char>,
    server: Sep10Server,
    client: Seq<char>,
    memo: Option<u64>,
    now: u64,
) -> Result<(Seq<u8>, Accepted), Rejection> {
    match challenge_bytes(xdr) {
        Err(e) => Err(Rejection::InvalidBase64(e)),
        Ok(bytes) => match xdr_envelope_kind(bytes) {
            Err(e) => Err(Rejection::MalformedXdr(e)),
            Ok(kind) => if kind != "Tx"@ {
                Err(Rejection::UnsupportedEnvelope(kind))
            } else {
                match challenge_checks(bytes, server, client, memo, now) {
                    Err(e) => Err(e),
                    Ok(acc) => match account_key(server.signing_key@) {
                        Ok(key) => if server_signed(bytes, server.network_passphrase@, key) {
                            Ok((bytes, acc))
                        } else {
                            Err(Rejection::InvalidServerSignature(server.signing_key@))
                        },
                        Err(_) => Err(Rejection::InvalidServerSignature(server.signing_key@)),
                    },
                }
            },
        },
    }
}

fn signature_verifies(bytes: &[u8], passphrase: &str, key: &Vec<u8>) -> (r: bool)
    requires
        xdr_envelope_kind(bytes@) == Ok::<Seq<char>, Seq<char>>("Tx"@),
        key@.len() == 32,
    ensures
        r == server_signed(bytes@, passphrase@, key@),
{
    let id = network_id(passphrase);
    let payload = match tx_signature_payload(bytes, &id) {
        Some(p) => p,
        None => {
            return false;
        },
    };
    let sigs = envelope_signatures(bytes);
    let ghost sv = sigs@.map_values(|v: Vec<u8>| v@);
    let mut k: usize = 0;
    while k < sigs.len()
        invariant
            sv == sigs@.map_values(|v: Vec<u8>| v@),
            sv == xdr_signatures(bytes@),
            xdr_signature_payload(bytes@, network_id_of(passphrase@)) == Some(payload@),
            key@.len() == 32,
            k <= sigs@.len(),
            forall|j: int|
                0 <= j < k ==> !(#[trigger] sv[j].len() == 64 && ed25519_strict_verifies(
                    key@,
                    payload@,
                    sv[j],
                )),
        decreases sigs@.len() - k,
    {
        assert(sv[k as int] == sigs@[k as int]@);
        if sigs[k].len() == 64 && ed25519_verify(key, &payload, &sigs[k]) {
            assert(xdr_signatures(bytes@)[k as int].len() == 64 && ed25519_strict_verifies(
                key@,
                payload@,
                xdr_signatures(bytes@)[k as int],
            ));
            return true;
        }
        k += 1;
    }
    false
}

/// A challenge that passed every validation rule.
#[derive(Debug)]
pub struct ValidatedChallenge {
    /// The envelope's XDR bytes, with the server's signature still attached.
    pub xdr: Vec<u8>,
    /// Home domain the challenge was validated against.
    pub home_domain: String,
    /// The `<home domain> auth` data name that was checked.
    pub data_name: String,
    /// Nonce from that operation, base64 encoded.
    pub nonce: String,
    /// `minTime` of the challenge's time bounds.
    pub min_time: u64,
    /// `maxTime` of the challenge's time bounds.
    pub max_time: u64,
    /// Memo id, when the server echoed the one the client asked for.
    pub memo: Option<u64>,
    /// Account the challenge authenticates.
    pub client_account: String,
    /// Passphrase the challenge will be signed for.
    pub network_passphrase: String,
    /// Account whose key signed the challenge.
    pub server_signing_key: String,
    /// Value of the optional `client_domain` operation.
    pub client_domain: Option<String>,
    /// Value of the optional `web_auth_domain` operation.
    pub web_auth_domain: Option<String>,
    /// Number of operations in the challenge.
    pub operation_count: usize,
}

/// Validate a challenge (base64 XDR) against `server` for `client_account`.
///
/// Implements the client-side checks of SEP-10: v1 envelope, source account
/// equal to the server's `SIGNING_KEY`, sequence number 0, usable time bounds,
/// a first `<home domain> auth` Manage Data operation owned by the client with
/// a 48-byte nonce, only server or client-domain Manage Data operations after
/// it, no memo other than the requested id, and a verifying server signature.
/// `now` is unix seconds.
pub fn validate_challenge(
    challenge_xdr: &str,
    server: &Sep10Server,
    client_account: &str,
    memo: Option<u64>,
    now: u64,
) -> (r: Result<ValidatedChallenge, ChallengeError>)
    ensures
        match challenge_outcome(challenge_xdr@, *server, client_account@, memo, now) {
            Err(e) => r matches Err(x) && rejection_of(x) == e,
            Ok((bytes, acc)) => r matches Ok(v) && v.xdr@ == bytes && (
                v.nonce@,
                v.min_time,
                v.max_time,
                v.memo,
                opt_str(v.client_domain),
                opt_str(v.web_auth_domain),
                v.operation_count as nat,
            ) == acc && v.home_domain@ == server.home_domain@ && v.data_name@
                == server.home_domain@ + " auth"@ && v.client_account@ == client_account@
                && v.network_passphrase@ == server.network_passphrase@ && v.server_signing_key@
                == server.signing_key@,
        },
        memo is Some ==> (r matches Ok(v) ==> v.memo == memo && xdr_tx_memo(v.xdr@) == ChallengeMemo::Id(
            memo->0,
        )),
        r matches Ok(v) ==> v.min_time <= now && now < v.max_time,
{
    proof {
        law_accepted_challenge_is_current(challenge_xdr@, *server, client_account@, memo, now);
        if memo is Some {
            law_requested_memo_is_carried(challenge_xdr@, *server, client_account@, memo->0, now);
        }
    }
    let t = string_of(&trim_str(challenge_xdr));
    let bytes = match base64_standard_decode(t.as_str()) {
        Ok(b) => b,
        Err(_) => match base64_url_decode(t.as_str()) {
            Ok(b) => b,
            Err(m) => {
                return Err(ChallengeError::InvalidBase64(m));
            },
        },
    };
    let kind = match read_envelope_kind(&bytes) {
        Ok(k) => k,
        Err(m) => {
            return Err(ChallengeError::MalformedXdr(m));
        },
    };
    proof {
        reveal_strlit("Tx");
    }
    if !str_eq(kind, "Tx") {
        return Err(ChallengeError::UnsupportedEnvelope(kind));
    }
    let checked = match check_challenge(&bytes, server, client_account, memo, now) {
        Ok(c) => c,
        Err(e) => {
            return Err(e);
        },
    };
    if !signature_verifies(&bytes, server.network_passphrase.as_str(), &checked.server_key) {
        return Err(
            ChallengeError::InvalidServerSignature(to_owned_string(server.signing_key.as_str())),
        );
    }
    Ok(
        ValidatedChallenge {
            xdr: bytes,
            home_domain: to_owned_string(server.home_domain.as_str()),
            data_name: server.auth_data_name(),
            nonce: checked.nonce,
            min_time: checked.min_time,
            max_time: checked.max_time,
            memo: checked.memo,
            client_account: to_owned_string(client_account),
            network_passphrase: to_owned_string(server.network_passphrase.as_str()),
            server_signing_key: to_owned_string(server.signing_key.as_str()),
            client_domain: checked.client_domain,
            web_auth_domain: checked.web_auth_domain,
            operation_count: checked.operation_count,
        },
    )
}

/// An accepted challenge is valid now: its transaction has time bounds
/// with `minTime <= now < maxTime`, which it reports; and it reports the
/// transaction's memo id, which is the requested one when one was asked for
/// (a challenge with a text, hash or return memo is never accepted).
pub proof fn law_accepted_challenge_is_current(
    xdr: Seq<char>,
    server: Sep10Server,
    client: Seq<char>,
    memo: Option<u64>,
    now: u64,
)
    ensures
        challenge_outcome(xdr, server, client, memo, now) matches Ok((bytes, acc)) ==> acc.1 <= now
            && now < acc.2 && xdr_tx_conditions(bytes) == (ChallengeConditions::Time {
            min_time: acc.1,
            max_time: acc.2,
        }) && match xdr_tx_memo(bytes) {
            ChallengeMemo::Absent => acc.3 is None && memo is None,
            ChallengeMemo::Id(id) => acc.3 == Some(id) && (memo is None || memo == Some(id)),
            _ => false,
        },
{
}

/// An accepted challenge is a `Tx` envelope whose transaction has the
/// server's signing account as source, sequence number 0 and at least one
/// operation (as many as it reports), and which carries a signature of the
/// server's key.
pub proof fn law_accepted_challenge_is_well_formed(
    xdr: Seq<char>,
    server: Sep10Server,
    client: Seq<char>,
    memo: Option<u64>,
    now: u64,
)
    ensures
        challenge_outcome(xdr, server, client, memo, now) matches Ok((bytes, acc)) ==> xdr_envelope_kind(
            bytes,
        ) == Ok::<Seq<char>, Seq<char>>("Tx"@) && account_key(server.signing_key@) is Ok
            && xdr_tx_source(bytes) == strkey_public_encoded(account_key(server.signing_key@)->Ok_0)
            && xdr_tx_sequence(bytes) == 0 && acc.6 == xdr_tx_operation_count(bytes) && acc.6 > 0
            && server_signed(bytes, server.network_passphrase@, account_key(server.signing_key@)->Ok_0),
{
}

/// A client that asks for a memo id only accepts a challenge whose
/// transaction carries exactly that memo id, and the accepted challenge
/// reports it.
pub proof fn law_requested_memo_is_carried(
    xdr: Seq<char>,
    server: Sep10Server,
    client: Seq<char>,
    memo: u64,
    now: u64,
)
    ensures
        challenge_outcome(xdr, server, client, Some(memo), now) matches Ok((bytes, acc)) ==> acc.3 == Some(
            memo,
        ) && xdr_tx_memo(bytes) == ChallengeMemo::Id(memo),
{
}

/// The characters of `value`, cut to at most `max`.
pub open spec fn truncated(value: Seq<char>, max: nat) -> Seq<char> {
    if value.len() <= max {
        value
    } else {
        value.take(max as int)
    }
}

fn truncate(value: &str, max: usize) -> (r: String)
    ensures
        r@ == truncated(value@, max as nat),
{
    let c = chars_of(value);
    if c.len() <= max {
        to_owned_string(value)
    } else {
        let t = slice_chars(&c, 0, max);
        assert(t@ =~= value@.take(max as int));
        string_of(&t)
    }
}

/// `(label, value)` rows describing a validated challenge, in order: home
/// domain, client account, server account, data name, nonce, time bounds,
/// network, operations, then memo, client domain and web auth domain when
/// present.
pub open spec fn describe_rows(v: ValidatedChallenge) -> Seq<(Seq<char>, Seq<char>)> {
    let base = seq![
        ("home domain"@, v.home_domain@),
        ("client account"@, v.client_account@),
        ("server account"@, v.server_signing_key@),
        ("data name"@, v.data_name@),
        ("nonce"@, v.nonce@),
        ("time bounds"@, decimal(v.min_time as nat) + " \u{2013} "@ + decimal(v.max_time as nat)),
        ("network"@, v.network_passphrase@),
        ("operations"@, decimal(v.operation_count as nat)),
    ];
    let with_memo = match v.memo {
        Some(m) => base.push(("memo"@, decimal(m as nat))),
        None => base,
    };
    let with_client = match v.client_domain {
        Some(d) => with_memo.push(("client domain"@, d@)),
        None => with_memo,
    };
    match v.web_auth_domain {
        Some(d) => with_client.push(("web auth domain"@, d@)),
        None => with_client,
    }
}

/// The views of a list of string pairs.
pub open spec fn pair_views(rows: Seq<(String, String)>) -> Seq<(Seq<char>, Seq<char>)> {
    rows.map_values(|p: (String, String)| (p.0@, p.1@))
}

fn push_row(rows: &mut Vec<(String, String)>, label: &str, value: String)
    ensures
        pair_views(final(rows)@) == pair_views(old(rows)@).push((label@, value@)),
{
    let ghost before = rows@;
    rows.push((to_owned_string(label), value));
    assert(pair_views(rows@) =~= pair_views(before).push((label@, value@)));
}

impl ValidatedChallenge {
    /// One `(label, value)` pair per checked field.
    pub fn describe(&self) -> (r: Vec<(String, String)>)
        ensures
            pair_views(r@) == describe_rows(*self),
    {
        let mut rows: Vec<(String, String)> = Vec::new();
        push_row(&mut rows, "home domain", to_owned_string(self.home_domain.as_str()));
        push_row(&mut rows, "client account", to_owned_string(self.client_account.as_str()));
        push_row(&mut rows, "server account", to_owned_string(self.server_signing_key.as_str()));
        push_row(&mut rows, "data name", to_owned_string(self.data_name.as_str()));
        push_row(&mut rows, "nonce", to_owned_string(self.nonce.as_str()));
        let mut bounds = decimal_string(self.min_time);
        push_str(&mut bounds, " \u{2013} ");
        push_str(&mut bounds, decimal_string(self.max_time).as_str());
        push_row(&mut rows, "time bounds", bounds);
        push_row(&mut rows, "network", to_owned_string(self.network_passphrase.as_str()));
        push_row(&mut rows, "operations", decimal_string(self.operation_count as u64));
        match self.memo {
            Some(m) => push_row(&mut rows, "memo", decimal_string(m)),
            None => {},
        }
        match &self.client_domain {
            Some(d) => push_row(&mut rows, "client domain", to_owned_string(d.as_str())),
            None => {},
        }
        match &self.web_auth_domain {
            Some(d) => push_row(&mut rows, "web auth domain", to_owned_string(d.as_str())),
            None => {},
        }
        assert(pair_views(rows@) =~= describe_rows(*self));
        rows
    }
}

/// The 32-byte seed of an `S...` strkey, or the decoder's error text.
pub uninterp spec fn strkey_private_decoded(s: Seq<char>) -> Result<Seq<u8>, Seq<char>>;

/// The ed25519 public key of a 32-byte seed.
pub uninterp spec fn ed25519_public_key(seed: Seq<u8>) -> Seq<u8>;

/// `stellar_strkey::ed25519::PrivateKey::from_string`: the seed's 32 bytes.
#[verifier::external_body]
fn strkey_decode_private(s: &str) -> (r: Result<Vec<u8>, String>)
    ensures
        match strkey_private_decoded(s@) {
            Ok(k) => r matches Ok(v) && v@ == k && k.len() == 32,
            Err(e) => r matches Err(m) && m@ == e,
        },
{
    match stellar_strkey::ed25519::PrivateKey::from_string(s) {
        Ok(k) => Ok(k.0.to_vec()),
        Err(e) => Err(e.to_string()),
    }
}

/// `ed25519_dalek::SigningKey::from_bytes(seed).verifying_key().to_bytes()`.
#[verifier::external_body]
fn public_key_of_seed(seed: &[u8]) -> (r: Vec<u8>)
    requires
        seed@.len() == 32,
    ensures
        r@ == ed25519_public_key(seed@),
        r@.len() == 32,
{
    let mut k = [0u8; 32];
    k.copy_from_slice(seed);
    ed25519_dalek::SigningKey::from_bytes(&k).verifying_key().to_bytes().to_vec()
}

/// The `G...` account of an `S...` secret key, or why the key is unusable.
pub open spec fn account_of_secret(secret: Seq<char>) -> Result<Seq<char>, Rejection> {
    match strkey_private_decoded(trim(secret)) {
        Ok(seed) => Ok(strkey_public_encoded(ed25519_public_key(seed))),
        Err(e) => Err(
            Rejection::InvalidSecretKey(
                "'"@ + truncated(secret, 6) + "' is not a valid S... strkey: "@ + e,
            ),
        ),
    }
}

/// Derive the `G...` account of an `S...` secret key.
pub fn account_from_secret(secret_key: &str) -> (r: Result<String, ChallengeError>)
    ensures
        match account_of_secret(secret_key@) {
            Ok(a) => r matches Ok(s) && s@ == a,
            Err(e) => r matches Err(x) && rejection_of(x) == e,
        },
{
    let t = string_of(&trim_str(secret_key));
    match strkey_decode_private(t.as_str()) {
        Ok(seed) => {
            let public = public_key_of_seed(&seed);
            Ok(strkey_encode_public(&public))
        },
        Err(e) => {
            let mut m = to_owned_string("'");
            push_str(&mut m, truncate(secret_key, 6).as_str());
            push_str(&mut m, "' is not a valid S... strkey: ");
            push_str(&mut m, e.as_str());
            Err(ChallengeError::InvalidSecretKey(m))
        },
    }
}

/// The ed25519 signature of `msg` by the key whose 32-byte seed is `seed`.
pub uninterp spec fn ed25519_signature(seed: Seq<u8>, msg: Seq<u8>) -> Seq<u8>;

/// `ed25519_dalek::SigningKey::from_bytes(seed)` signing `msg` through
/// `Signer::sign`: ed25519 signatures are deterministic and 64 bytes long.
#[verifier::external_body]
fn ed25519_sign(seed: &[u8], msg: &[u8]) -> (r: Vec<u8>)
    requires
        seed@.len() == 32,
    ensures
        r@ == ed25519_signature(seed@, msg@),
        r@.len() == 64,
{
    let mut k = [0u8; 32];
    k.copy_from_slice(seed);
    ed25519_dalek::Signer::sign(&ed25519_dalek::SigningKey::from_bytes(&k), msg).to_bytes().to_vec()
}

/// The XDR of a v1 envelope with the decorated signature (`hint`, `sig`)
/// appended to its signatures, or the encoder's error text.
pub uninterp spec fn xdr_with_signature(bytes: Seq<u8>, hint: Seq<u8>, sig: Seq<u8>) -> Result<
    Seq<u8>,
    Seq<char>,
>;

/// Reads the v1 envelope, pushes a `DecoratedSignature` and writes it back
/// with `stellar_xdr`'s `to_xdr`.
#[verifier::external_body]
fn append_signature(bytes: &[u8], hint: &[u8], sig: &[u8]) -> (r: Result<Vec<u8>, String>)
    requires
        xdr_envelope_kind(bytes@) == Ok::<Seq<char>, Seq<char>>("Tx"@),
        hint@.len() == 4,
        sig@.len() == 64,
    ensures
        match xdr_with_signature(bytes@, hint@, sig@) {
            Ok(b) => r matches Ok(v) && v@ == b,
            Err(e) => r matches Err(m) && m@ == e,
        },
{
    let mut v1 = match TransactionEnvelope::from_xdr(bytes, Limits { depth: 500, len: bytes.len() }) {
        Ok(TransactionEnvelope::Tx(v1)) => v1,
        _ => stellar_xdr::TransactionV1Envelope::default(),
    };
    let bytes64 = BytesM::try_from(sig.to_vec()).map_err(|e| e.to_string())?;
    let mut all = v1.signatures.to_vec();
    all.push(DecoratedSignature {
        hint: SignatureHint([hint[0], hint[1], hint[2], hint[3]]),
        signature: stellar_xdr::Signature(bytes64),
    });
    v1.signatures = VecM::try_from(all).map_err(|e| e.to_string())?;
    TransactionEnvelope::Tx(v1).to_xdr(Limits { depth: 500, len: usize::MAX }).map_err(|e| e.to_string())
}

/// What signing the challenge with the key of `seed` gives: the base64 XDR of
/// the envelope with the client's signature (hinted by the last four bytes of
/// its public key) appended after the server's.
pub open spec fn challenge_signed_with(xdr: Seq<u8>, passphrase: Seq<char>, seed: Seq<u8>) -> Result<
    Seq<char>,
    Rejection,
> {
    if xdr_envelope_kind(xdr) != Ok::<Seq<char>, Seq<char>>("Tx"@) {
        Err(Rejection::UnsupportedEnvelope("not Tx"@))
    } else {
        match xdr_signature_payload(xdr, network_id_of(passphrase)) {
            None => Err(Rejection::Encoding("the signature payload could not be encoded"@)),
            Some(payload) => match xdr_with_signature(
                xdr,
                ed25519_public_key(seed).subrange(28, 32),
                ed25519_signature(seed, payload),
            ) {
                Ok(signed) => Ok(base64_standard_encoding(signed)),
                Err(e) => Err(Rejection::Encoding(e)),
            },
        }
    }
}

/// Sign a validated challenge with the 32-byte ed25519 seed of the client's
/// key, keeping the server's signature.
///
/// Returns the base64 XDR of the envelope to POST to the token endpoint.
pub fn sign_challenge(challenge: &ValidatedChallenge, seed: &[u8]) -> (r: Result<String, ChallengeError>)
    requires
        seed@.len() == 32,
    ensures
        match challenge_signed_with(challenge.xdr@, challenge.network_passphrase@, seed@) {
            Ok(t) => r matches Ok(s) && s@ == t,
            Err(e) => r matches Err(x) && rejection_of(x) == e,
        },
{
    proof {
        reveal_strlit("Tx");
    }
    let is_tx = match read_envelope_kind(&challenge.xdr) {
        Ok(kind) => str_eq(kind, "Tx"),
        Err(_) => false,
    };
    if !is_tx {
        return Err(ChallengeError::UnsupportedEnvelope("not Tx"));
    }
    let id = network_id(challenge.network_passphrase.as_str());
    let payload = match tx_signature_payload(&challenge.xdr, &id) {
        Some(p) => p,
        None => {
            return Err(
                ChallengeError::Encoding(
                    to_owned_string("the signature payload could not be encoded"),
                ),
            );
        },
    };
    let public = public_key_of_seed(seed);
    let mut hint: Vec<u8> = Vec::new();
    let mut i: usize = 28;
    while i < 32
        invariant
            28 <= i <= 32,
            public@.len() == 32,
            hint@ == public@.subrange(28, i as int),
        decreases 32 - i,
    {
        hint.push(public[i]);
        i += 1;
    }
    let signature = ed25519_sign(seed, &payload);
    match append_signature(&challenge.xdr, &hint, &signature) {
        Ok(signed) => Ok(base64_standard_encode(&signed)),
        Err(e) => Err(ChallengeError::Encoding(e)),
    }
}

/// What signing with an `S...` secret key gives: the key's rejection, or the
/// challenge signed with its seed.
pub open spec fn challenge_signed_with_secret(
    xdr: Seq<u8>,
    passphrase: Seq<char>,
    secret: Seq<char>,
) -> Result<Seq<char>, Rejection> {
    match strkey_private_decoded(trim(secret)) {
        Ok(seed) => challenge_signed_with(xdr, passphrase, seed),
        Err(e) => Err(
            Rejection::InvalidSecretKey(
                "'"@ + truncated(secret, 6) + "' is not a valid S... strkey: "@ + e,
            ),
        ),
    }
}

/// Sign a challenge with the `S...` secret key of the account being authenticated.
pub fn sign_challenge_with_secret(challenge: &ValidatedChallenge, secret_key: &str) -> (r: Result<
    String,
    ChallengeError,
>)
    ensures
        match challenge_signed_with_secret(
            challenge.xdr@,
            challenge.network_passphrase@,
            secret_key@,
        ) {
            Ok(t) => r matches Ok(s) && s@ == t,
            Err(e) => r matches Err(x) && rejection_of(x) == e,
        },
{
    let t = string_of(&trim_str(secret_key));
    match strkey_decode_private(t.as_str()) {
        Ok(seed) => sign_challenge(challenge, &seed),
        Err(e) => {
            let mut m = to_owned_string("'");
            push_str(&mut m, truncate(secret_key, 6).as_str());
            push_str(&mut m, "' is not a valid S... strkey: ");
            push_str(&mut m, e.as_str());
            Err(ChallengeError::InvalidSecretKey(m))
        },
    }
}

/// Current unix time in seconds (zero if the clock is before the epoch).
#[verifier::external_body]
pub fn unix_now() -> u64 {
    std::time::SystemTime::now()
        .duration_since(std::time::UNIX_EPOCH)
        .map(|elapsed| elapsed.as_secs())
        .unwrap_or_default()
}

// ── Discovery ─────────────────────────────────────────────────────────────────

/// The SEP-10 keys of a `stellar.toml` document (upper- or lower-case keys).
#[derive(Debug, Clone, Default)]
pub struct StellarTomlFields {
    pub signing_key: Option<String>,
    pub network_passphrase: Option<String>,
    pub web_auth_endpoint: Option<String>,
    pub web_auth_domain: Option<String>,
}

/// A present value that is not blank.
pub open spec fn non_blank(o: Option<String>) -> Option<Seq<char>> {
    match o {
        Some(s) => if trim(s@).len() > 0 {
            Some(s@)
        } else {
            None
        },
        None => None,
    }
}

/// The discovery data a `stellar.toml` yields for `home_domain`, or why it
/// does not support SEP-10. The home domain is the one the document was
/// fetched from, never a value read from it.
pub open spec fn server_from_toml(home_domain: Seq<char>, doc: StellarTomlFields) -> Result<
    (Seq<char>, Seq<char>, Seq<char>, Seq<char>, Option<Seq<char>>),
    Seq<char>,
> {
    if trim(home_domain).len() == 0 {
        Err("home domain cannot be empty"@)
    } else {
        match non_blank(doc.signing_key) {
            None => Err("stellar.toml has no SIGNING_KEY \u{2014} SEP-10 is not supported"@),
            Some(key) => match account_key(key) {
                Err(reason) => Err(
                    "stellar.toml SIGNING_KEY '"@ + key + "' is invalid: "@ + reason,
                ),
                Ok(_) => match non_blank(doc.web_auth_endpoint) {
                    None => Err(
                        "stellar.toml has no WEB_AUTH_ENDPOINT \u{2014} SEP-10 is not supported"@,
                    ),
                    Some(endpoint) => match url_scheme_host(endpoint) {
                        None => Err(
                            "stellar.toml WEB_AUTH_ENDPOINT '"@ + endpoint + "' is not a URL"@,
                        ),
                        Some((_, None)) => Err(
                            "stellar.toml WEB_AUTH_ENDPOINT '"@ + endpoint + "' has no host"@,
                        ),
                        Some((scheme, Some(host))) => if scheme != "https"@ && !(scheme
                            == "http"@ && is_loopback(host)) {
                            Err(
                                "stellar.toml WEB_AUTH_ENDPOINT '"@ + endpoint
                                    + "' must use https (http is only accepted for loopback hosts)"@,
                            )
                        } else {
                            Ok(
                                (
                                    trim(home_domain),
                                    trim(key),
                                    trim(endpoint),
                                    match non_blank(doc.network_passphrase) {
                                        Some(p) => p,
                                        None => PUBLIC_NETWORK_PASSPHRASE@,
                                    },
                                    match non_blank(doc.web_auth_domain) {
                                        Some(d) => Some(trim(d)),
                                        None => None,
                                    },
                                ),
                            )
                        },
                    },
                },
            },
        }
    }
}

fn non_blank_exec(o: &Option<String>) -> (r: Option<String>)
    ensures
        match non_blank(*o) {
            Some(s) => r matches Some(x) && x@ == s,
            None => r is None,
        },
{
    match o {
        Some(s) => {
            if trim_str(s.as_str()).len() > 0 {
                Some(to_owned_string(s.as_str()))
            } else {
                None
            }
        },
        None => None,
    }
}

/// The SEP-10 discovery data in a `stellar.toml` fetched from `home_domain`:
/// a usable `SIGNING_KEY`, and a `WEB_AUTH_ENDPOINT` that is an https URL
/// (http only for loopback hosts); the passphrase defaults to the public
/// network's.
pub fn server_from_stellar_toml(home_domain: &str, doc: &StellarTomlFields) -> (r: Result<
    Sep10Server,
    String,
>)
    ensures
        match server_from_toml(home_domain@, *doc) {
            Ok((h, k, e, p, d)) => r matches Ok(s) && s.home_domain@ == h && s.signing_key@ == k
                && s.web_auth_endpoint@ == e && s.network_passphrase@ == p && opt_str(
                s.web_auth_domain,
            ) == d,
            Err(m) => r matches Err(x) && x@ == m,
        },
{
    let home = trim_str(home_domain);
    if home.len() == 0 {
        return Err(to_owned_string("home domain cannot be empty"));
    }
    let key = match non_blank_exec(&doc.signing_key) {
        Some(k) => k,
        None => {
            return Err(
                to_owned_string("stellar.toml has no SIGNING_KEY \u{2014} SEP-10 is not supported"),
            );
        },
    };
    match parse_account(key.as_str()) {
        Ok(_) => {},
        Err(reason) => {
            let mut m = to_owned_string("stellar.toml SIGNING_KEY '");
            push_str(&mut m, key.as_str());
            push_str(&mut m, "' is invalid: ");
            push_str(&mut m, reason);
            return Err(m);
        },
    }
    let endpoint = match non_blank_exec(&doc.web_auth_endpoint) {
        Some(e) => e,
        None => {
            return Err(
                to_owned_string(
                    "stellar.toml has no WEB_AUTH_ENDPOINT \u{2014} SEP-10 is not supported",
                ),
            );
        },
    };
    let (scheme, host) = match parse_url(endpoint.as_str()) {
        Ok((sc, Some(h))) => (sc, h),
        Ok((_, None)) => {
            let mut m = to_owned_string("stellar.toml WEB_AUTH_ENDPOINT '");
            push_str(&mut m, endpoint.as_str());
            push_str(&mut m, "' has no host");
            return Err(m);
        },
        Err(_) => {
            let mut m = to_owned_string("stellar.toml WEB_AUTH_ENDPOINT '");
            push_str(&mut m, endpoint.as_str());
            push_str(&mut m, "' is not a URL");
            return Err(m);
        },
    };
    if !str_eq(scheme.as_str(), "https") && !(str_eq(scheme.as_str(), "http") && is_loopback_host(
        host.as_str(),
    )) {
        let mut m = to_owned_string("stellar.toml WEB_AUTH_ENDPOINT '");
        push_str(&mut m, endpoint.as_str());
        push_str(&mut m, "' must use https (http is only accepted for loopback hosts)");
        return Err(m);
    }
    let network_passphrase = match non_blank_exec(&doc.network_passphrase) {
        Some(p) => p,
        None => to_owned_string(PUBLIC_NETWORK_PASSPHRASE),
    };
    let web_auth_domain = match non_blank_exec(&doc.web_auth_domain) {
        Some(d) => Some(string_of(&trim_str(d.as_str()))),
        None => None,
    };
    Ok(
        Sep10Server {
            home_domain: string_of(&home),
            signing_key: string_of(&trim_str(key.as_str())),
            web_auth_endpoint: string_of(&trim_str(endpoint.as_str())),
            network_passphrase,
            web_auth_domain,
        },
    )
}

// ── Flow records ──────────────────────────────────────────────────────────────

/// The JSON body the challenge endpoint returns.
#[derive(Debug, Clone)]
pub struct ChallengeResponse {
    /// Base64-encoded challenge transaction envelope.
    pub transaction: String,
    /// Passphrase the server will verify the signed challenge against.
    pub network_passphrase: Option<String>,
}

/// One step of the authentication flow, recorded so it can be replayed.
#[derive(Debug, Clone)]
pub struct AuthStep {
    /// Short name of the step (`fetch`, `validate`, `sign`, `submit`).
    pub step: String,
    /// Human-readable detail for that step.
    pub detail: String,
}

/// Everything the flow learned, including the session token.
#[derive(Debug, Clone)]
pub struct AuthOutcome {
    /// Account that was authenticated.
    pub account: String,
    /// Home domain the challenge was requested from and validated against.
    pub home_domain: String,
    /// Endpoint the challenge was fetched from and submitted to.
    pub web_auth_endpoint: String,
    /// Network passphrase the challenge was signed for.
    pub network_passphrase: String,
    /// The session JWT.
    pub jwt: String,
    /// Ordered record of the flow.
    pub steps: Vec<AuthStep>,
    /// One `(label, value)` pair per rule the validated challenge satisfied.
    pub checks: Vec<(String, String)>,
}

/// The passphrase a challenge is signed for: the one the server sent with
/// it, which must equal the one `stellar.toml` declares, or else the declared
/// one.
pub open spec fn signing_passphrase(declared: Seq<char>, sent: Option<Seq<char>>) -> Result<
    Seq<char>,
    Seq<char>,
> {
    match sent {
        Some(p) => if p != declared {
            Err(
                "server sent network passphrase '"@ + p + "' but stellar.toml declares '"@ + declared
                    + "'"@,
            )
        } else {
            Ok(p)
        },
        None => Ok(declared),
    }
}

/// Decides the passphrase to sign a fetched challenge for.
pub fn choose_signing_passphrase(server: &Sep10Server, challenge: &ChallengeResponse) -> (r: Result<
    String,
    String,
>)
    ensures
        match signing_passphrase(server.network_passphrase@, opt_str(challenge.network_passphrase)) {
            Ok(p) => r matches Ok(x) && x@ == p,
            Err(m) => r matches Err(x) && x@ == m,
        },
{
    match &challenge.network_passphrase {
        Some(p) => {
            if !str_eq(p.as_str(), server.network_passphrase.as_str()) {
                let mut m = to_owned_string("server sent network passphrase '");
                push_str(&mut m, p.as_str());
                push_str(&mut m, "' but stellar.toml declares '");
                push_str(&mut m, server.network_passphrase.as_str());
                push_str(&mut m, "'");
                Err(m)
            } else {
                Ok(to_owned_string(p.as_str()))
            }
        },
        None => Ok(to_owned_string(server.network_passphrase.as_str())),
    }
}


/// The query of a challenge request for `account`: the account and the home
/// domain, then the memo and the client domain when given; or why the account
/// cannot ask for a challenge.
pub open spec fn challenge_query_spec(
    home_domain: Seq<char>,
    account: Seq<char>,
    memo: Option<u64>,
    client_domain: Option<Seq<char>>,
) -> Result<Seq<(Seq<char>, Seq<char>)>, Seq<char>> {
    match account_key(account) {
        Err(reason) => Err("invalid client account '"@ + account + "': "@ + reason),
        Ok(_) => {
            let base = seq![("account"@, account), ("home_domain"@, home_domain)];
            let with_memo = match memo {
                Some(m) => base.push(("memo"@, decimal(m as nat))),
                None => base,
            };
            Ok(
                match client_domain {
                    Some(d) => with_memo.push(("client_domain"@, d)),
                    None => with_memo,
                },
            )
        },
    }
}

/// The query parameters of `GET <WEB_AUTH_ENDPOINT>` for `account`, after
/// checking that the account is a `G...` key.
pub fn challenge_query(
    server: &Sep10Server,
    account: &str,
    memo: Option<u64>,
    client_domain: Option<&str>,
) -> (r: Result<Vec<(String, String)>, String>)
    ensures
        match challenge_query_spec(
            server.home_domain@,
            account@,
            memo,
            match client_domain {
                Some(d) => Some(d@),
                None => None,
            },
        ) {
            Ok(q) => r matches Ok(v) && pair_views(v@) == q,
            Err(m) => r matches Err(x) && x@ == m,
        },
{
    match parse_account(account) {
        Ok(_) => {},
        Err(reason) => {
            let mut m = to_owned_string("invalid client account '");
            push_str(&mut m, account);
            push_str(&mut m, "': ");
            push_str(&mut m, reason);
            return Err(m);
        },
    }
    let mut query: Vec<(String, String)> = Vec::new();
    push_row(&mut query, "account", to_owned_string(account));
    push_row(&mut query, "home_domain", to_owned_string(server.home_domain.as_str()));
    match memo {
        Some(m) => push_row(&mut query, "memo", decimal_string(m)),
        None => {},
    }
    match client_domain {
        Some(d) => push_row(&mut query, "client_domain", to_owned_string(d)),
        None => {},
    }
    Ok(query)
}

} // verus!
