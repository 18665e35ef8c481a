//! The UDP connection cookie: a 64-bit token that proves the holder
//! received a connect response at some time, from some address, without
//! any per-client state on the server. The low 32 bits carry the issue
//! time, the high 32 bits an HMAC tag over the client address, the
//! issue time and a process-wide secret; a restart invalidates every
//! outstanding cookie, and clients simply reconnect.

use vstd::prelude::*;
use vstd::arithmetic::div_mod::lemma_fundamental_div_mod_converse;
use hmac::Mac;
use crate::primitives::{IpAddress, SocketAddress};
use crate::udp_codec::{push_u128_be, push_u16_be, push_u32_be, spec_u128_to_be, spec_u16_to_be,
    spec_u32_to_be};

verus! {

/// The first 32 bits of the HMAC-SHA-256 tag of `input` under
/// `secret`. The tag is a function of its arguments alone; nothing
/// more is assumed of it.
pub uninterp spec fn spec_mac_of(input: Seq<u8>, secret: u64) -> u32;

/// Relies on `hmac::Hmac<sha2::Sha256>` (HMAC-SHA-256): keyed with the
/// secret's big-endian bytes, fed the input, and the tag is a function
/// of key and input alone. The first four tag bytes, big-endian, are
/// the 32-bit value used here.
#[verifier::external_body]
fn mac_of(input: &[u8], secret: u64) -> (r: u32)
    ensures
        r == spec_mac_of(input@, secret),
{
    let mut m = hmac::Hmac::<sha2::Sha256>::new_from_slice(&secret.to_be_bytes()).unwrap();
    m.update(input);
    let out = m.finalize().into_bytes();
    u32::from_be_bytes([out[0], out[1], out[2], out[3]])
}

/// The bytes a cookie's tag covers: an address-family marker, the
/// address, the port, and the issue time, all big-endian.
pub open spec fn spec_cookie_input(addr: SocketAddress, issued_at: u32) -> Seq<u8> {
    (match addr.ip {
        IpAddress::V4(a) => seq![4u8] + spec_u32_to_be(a),
        IpAddress::V6(a) => seq![6u8] + spec_u128_to_be(a),
    }) + spec_u16_to_be(addr.port) + spec_u32_to_be(issued_at)
}

fn cookie_input(addr: &SocketAddress, issued_at: u32) -> (r: Vec<u8>)
    ensures
        r@ == spec_cookie_input(*addr, issued_at),
{
    let mut out: Vec<u8> = Vec::new();
    match addr.ip {
        IpAddress::V4(a) => {
            out.push(4);
            push_u32_be(&mut out, a);
        },
        IpAddress::V6(a) => {
            out.push(6);
            push_u128_be(&mut out, a);
        },
    }
    push_u16_be(&mut out, addr.port);
    push_u32_be(&mut out, issued_at);
    proof {
        assert(out@ =~= spec_cookie_input(*addr, issued_at));
    }
    out
}

/// The tag binding a cookie to a client address and an issue time
/// under the process secret.
pub open spec fn spec_mac(addr: SocketAddress, issued_at: u32, secret: u64) -> u32 {
    spec_mac_of(spec_cookie_input(addr, issued_at), secret)
}

fn mac(addr: &SocketAddress, issued_at: u32, secret: u64) -> (r: u32)
    ensures
        r == spec_mac(*addr, issued_at, secret),
{
    let input = cookie_input(addr, issued_at);
    mac_of(input.as_slice(), secret)
}

/// The cookie issued to `addr` at `now_secs`: the tag in the high 32
/// bits, the issue time in the low 32 bits.
pub open spec fn spec_make(addr: SocketAddress, now_secs: u64, secret: u64) -> u64
    recommends
        now_secs <= u32::MAX,
{
    (spec_mac(addr, now_secs as u32, secret) * 0x1_0000_0000 + now_secs) as u64
}

/// When a cookie passes validation against an address at a time: the
/// tag matches the address and the embedded issue time, and `now_secs`
/// lies within the cookie's lifetime, never before the issue time.
pub open spec fn spec_cookie_valid(
    cookie: u64,
    addr: SocketAddress,
    now_secs: u64,
    lifetime_secs: u64,
    secret: u64,
) -> bool {
    let issued = cookie % 0x1_0000_0000;
    &&& cookie / 0x1_0000_0000 == spec_mac(addr, issued as u32, secret)
    &&& issued <= now_secs <= issued + lifetime_secs
}

/// Why a cookie was rejected: the tag did not match the sending
/// address (or the token was corrupt), or the time window has passed.
#[derive(Clone, Copy, Debug, PartialEq, Eq, Structural)]
pub enum CookieError {
    InvalidCookie,
    ExpiredCookie,
}

/// Issues the cookie for a connect request. Issue times fit 32 bits on
/// the wire, which holds for Unix-epoch seconds until the year 2106.
pub fn make(addr: &SocketAddress, now_secs: u64, secret: u64) -> (r: u64)
    requires
        now_secs <= u32::MAX,
    ensures
        r == spec_make(*addr, now_secs, secret),
{
    let m = mac(addr, now_secs as u32, secret);
    (m as u64) * 0x1_0000_0000 + now_secs
}

/// Validates a cookie against the sending address and the clock:
/// `Ok` exactly when the tag binds the cookie to this address and the
/// lifetime has not passed; a tag mismatch is `InvalidCookie`, a missed
/// window `ExpiredCookie`.
pub fn verify(
    cookie: u64,
    addr: &SocketAddress,
    now_secs: u64,
    lifetime_secs: u64,
    secret: u64,
) -> (r: Result<(), CookieError>)
    ensures
        r is Ok <==> spec_cookie_valid(cookie, *addr, now_secs, lifetime_secs, secret),
        r matches Err(e) ==> (e == CookieError::InvalidCookie <==> cookie / 0x1_0000_0000
            != spec_mac(*addr, (cookie % 0x1_0000_0000) as u32, secret)),
{
    let issued = cookie % 0x1_0000_0000;
    let expected = mac(addr, issued as u32, secret);
    if cookie / 0x1_0000_0000 != expected as u64 {
        Err(CookieError::InvalidCookie)
    } else if now_secs < issued {
        Err(CookieError::ExpiredCookie)
    } else if now_secs - issued > lifetime_secs {
        Err(CookieError::ExpiredCookie)
    } else {
        Ok(())
    }
}

/// The cookie round trip: a cookie made for an address at time `now`
/// passes validation at that same address `k` seconds later exactly
/// when `k` does not exceed the lifetime. (Issue times are 32-bit on
/// the wire, so the times involved must fit 32 bits.)
pub proof fn lemma_cookie_round_trip(
    addr: SocketAddress,
    now_secs: u64,
    k: u64,
    lifetime_secs: u64,
    secret: u64,
)
    requires
        now_secs + k <= u32::MAX,
    ensures
        spec_cookie_valid(spec_make(addr, now_secs, secret), addr, (now_secs + k) as u64,
            lifetime_secs, secret) <==> k <= lifetime_secs,
{
    let m = spec_mac(addr, now_secs as u32, secret);
    let cookie = spec_make(addr, now_secs, secret);
    lemma_fundamental_div_mod_converse(cookie as int, 0x1_0000_0000, m as int, now_secs as int);
    assert(cookie % 0x1_0000_0000 == now_secs);
    assert(cookie / 0x1_0000_0000 == m);
    assert((cookie % 0x1_0000_0000) as u32 == now_secs as u32);
}

} // verus!
