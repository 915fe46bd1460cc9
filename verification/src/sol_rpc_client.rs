//! The source-chain RPC client's verifiable half: its configuration, its
//! error taxonomy, the ledger memo encoding, the proxy-token refresh
//! decision, and the rolling idempotency-key material. The HTTP transport
//! itself is a suspension point outside the library.

use vstd::prelude::*;

use crate::bytes::push_all;
use crate::events::clone_bytes;
use crate::cbor::encode_uint;
use crate::crypto::{sha3_256, sha3_256_of, spec_b64url, spec_cbor_uint};
use crate::state::State;

verus! {

/// Nanoseconds in a second.
pub const SECONDS: u64 = 1_000_000_000;

/// How long a proxy token stays fresh, in seconds.
pub const REFRESH_PROXY_TOKEN_INTERVAL: u64 = 3600;

/// Slack added to a token's own expiry beyond the cache's, in seconds.
pub const PROXY_TOKEN_SKEW: u64 = 120;

/// A configured client for the source-chain JSON-RPC endpoint.
pub struct SolRpcClient {
    pub rpc_url: Vec<u8>,
}

impl View for SolRpcClient {
    type V = Seq<u8>;

    open spec fn view(&self) -> Seq<u8> {
        self.rpc_url@
    }
}

impl SolRpcClient {
    pub fn new(rpc_url: Vec<u8>) -> (r: SolRpcClient)
        ensures
            r@ == rpc_url@,
    {
        SolRpcClient { rpc_url }
    }

    pub fn from_state(state: &State) -> (r: SolRpcClient)
        ensures
            r@ == state@.solana_rpc_url,
    {
        SolRpcClient::new(state.solana_rpc_url())
    }

    /// The endpoint every outcall goes to: the configured URL, byte for
    /// byte. The transport must not substitute its own.
    pub fn request_url(&self) -> (r: Vec<u8>)
        ensures
            r@ == self@,
    {
        clone_bytes(&self.rpc_url)
    }
}

/// What went wrong with one RPC exchange; messages are carried as bytes.
#[derive(Debug, PartialEq, Eq)]
pub enum SolRpcError {
    RequestFailed { code: i32, msg: Vec<u8> },
    JsonRpcFailed { code: i32, msg: Vec<u8> },
    FromUtf8Failed(Vec<u8>),
    FromStringOfJsonFailed(Vec<u8>),
    ToStringOfJsonFailed(Vec<u8>),
}

/// The 32-byte ledger memo payload: the identifier, CBOR-encoded.
pub struct LedgerMemo(pub u64);

impl LedgerMemo {
    /// The canonical CBOR bytes the ledger memo carries.
    pub fn to_memo_bytes(&self) -> (r: Vec<u8>)
        ensures
            r@ == spec_cbor_uint(self.0),
    {
        encode_uint(self.0)
    }
}

/// Whether the cached proxy token must be refreshed, and to what expiry.
pub enum TokenDecision {
    Reuse,
    Refresh { cache_expiry: u64, token_expiry: u64 },
}

/// The proxy-token refresh rule: a token whose expiry has reached the
/// current second is replaced by one cached for the refresh interval and
/// self-expiring a little later.
pub fn proxy_token_decision(expire_at: u64, now_ns: u64) -> (r: TokenDecision)
    ensures
        expire_at > now_ns / SECONDS ==> r is Reuse,
        expire_at <= now_ns / SECONDS ==> (r matches TokenDecision::Refresh {
            cache_expiry,
            token_expiry,
        } && cache_expiry == now_ns / SECONDS + REFRESH_PROXY_TOKEN_INTERVAL && token_expiry
            == cache_expiry + PROXY_TOKEN_SKEW),
{
    let now_s = now_ns / SECONDS;
    proof {
        assert(now_ns / SECONDS <= u64::MAX / SECONDS) by (nonlinear_arith)
            requires
                now_ns <= u64::MAX,
        ;
    }
    if expire_at <= now_s {
        let cache_expiry = now_s + REFRESH_PROXY_TOKEN_INTERVAL;
        TokenDecision::Refresh { cache_expiry, token_expiry: cache_expiry + PROXY_TOKEN_SKEW }
    } else {
        TokenDecision::Reuse
    }
}

/// Lowercase hex as ASCII bytes: two digits per byte, high nibble first.
pub open spec fn spec_hex_lower_bytes(s: Seq<u8>) -> Seq<u8> {
    Seq::new(
        s.len() * 2,
        |i: int|
            if i % 2 == 0 {
                spec_hex_digit((s[i / 2] >> 4u8) as u8)
            } else {
                spec_hex_digit((s[i / 2] & 0x0fu8) as u8)
            },
    )
}

/// ASCII code of one lowercase hex digit.
pub open spec fn spec_hex_digit(v: u8) -> u8 {
    if v < 10 {
        (48 + v) as u8
    } else {
        (87 + v) as u8
    }
}

fn hex_digit(v: u8) -> (r: u8)
    requires
        v < 16,
    ensures
        r == spec_hex_digit(v),
{
    if v < 10 {
        48 + v
    } else {
        87 + v
    }
}

/// Hex encoding into bytes, for building the idempotency-key material.
pub fn hex_lower_bytes(s: &Vec<u8>) -> (r: Vec<u8>)
    ensures
        r@ == spec_hex_lower_bytes(s@),
{
    let mut r: Vec<u8> = Vec::new();
    let n = s.len();
    let mut i: usize = 0;
    while i < n
        invariant
            n == s@.len(),
            i <= n,
            r@.len() == 2 * i,
            forall|j: int| 0 <= j < 2 * i ==> r@[j] == spec_hex_lower_bytes(s@)[j],
        decreases n - i,
    {
        let b = s[i];
        proof {
            assert((b >> 4u8) < 16 && (b & 0x0fu8) < 16) by (bit_vector);
        }
        r.push(hex_digit(b >> 4));
        r.push(hex_digit(b & 0x0f));
        i += 1;
    }
    proof {
        assert(r@ =~= spec_hex_lower_bytes(s@));
    }
    r
}

/// Decimal digits of an unsigned integer, most significant first.
pub open spec fn spec_decimal(v: u64) -> Seq<u8>
    decreases v,
{
    if v < 10 {
        seq![(48 + v) as u8]
    } else {
        spec_decimal(v / 10).push((48 + v % 10) as u8)
    }
}

/// Decimal rendering of an identifier or timestamp, as ASCII bytes.
pub fn u64_decimal(v: u64) -> (r: Vec<u8>)
    ensures
        r@ == spec_decimal(v),
    decreases v,
{
    if v < 10 {
        let mut r: Vec<u8> = Vec::new();
        r.push(48 + (v as u8));
        proof {
            assert(r@ =~= spec_decimal(v));
        }
        r
    } else {
        let mut r = u64_decimal(v / 10);
        r.push(48 + ((v % 10) as u8));
        r
    }
}

/// The preimage of the next rolling chain value: the current value in
/// hex, a dash, and the time in decimal.
pub open spec fn spec_chain_material(chain: Seq<u8>, now_ns: u64) -> Seq<u8> {
    spec_hex_lower_bytes(chain) + seq![45u8] + spec_decimal(now_ns)
}

/// Advances the rolling 32-byte chain value that feeds the idempotency
/// keys: the digest of the current value and the time.
pub fn next_chain_id(chain: &Vec<u8>, now_ns: u64) -> (r: Vec<u8>)
    ensures
        r@ == sha3_256_of(spec_chain_material(chain@, now_ns)),
        r@.len() == 32,
{
    let mut material = hex_lower_bytes(chain);
    material.push(45u8);
    let dec = u64_decimal(now_ns);
    push_all(&mut material, &dec);
    proof {
        assert(material@ =~= spec_chain_material(chain@, now_ns));
    }
    sha3_256(&material)
}

/// The idempotency key an outcall carries: the chain value, base64url
/// without padding.
pub fn idempotency_key(chain: &Vec<u8>) -> (r: Vec<u8>)
    ensures
        r@ == spec_b64url(chain@),
{
    crate::crypto::base64url_encode(chain)
}

} // verus!
