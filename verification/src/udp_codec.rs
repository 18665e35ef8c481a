//! The BEP 15 wire format: big-endian request parsing and response
//! encoding for the UDP tracker. Truncated datagrams, a wrong connect
//! magic, an unknown action or event, and oversized scrapes are each
//! rejected with a distinct parse error.

use vstd::prelude::*;
use crate::info_hash::InfoHash;
use crate::peer::{Peer, PeerId};
use crate::primitives::{AnnounceEvent, IpAddress};

verus! {

/// The protocol magic a connect request must open with.
pub const PROTOCOL_MAGIC: u64 = 0x41727101980;

/// The 16-bit big-endian value at offset `o`.
pub open spec fn spec_u16_be(s: Seq<u8>, o: int) -> u16
    recommends
        0 <= o,
        o + 2 <= s.len(),
{
    (s[o] * 0x100 + s[o + 1]) as u16
}

/// The 32-bit big-endian value at offset `o`.
pub open spec fn spec_u32_be(s: Seq<u8>, o: int) -> u32
    recommends
        0 <= o,
        o + 4 <= s.len(),
{
    (s[o] * 0x100_0000 + s[o + 1] * 0x1_0000 + s[o + 2] * 0x100 + s[o + 3]) as u32
}

/// The 64-bit big-endian value at offset `o`.
pub open spec fn spec_u64_be(s: Seq<u8>, o: int) -> u64
    recommends
        0 <= o,
        o + 8 <= s.len(),
{
    (spec_u32_be(s, o) * 0x1_0000_0000 + spec_u32_be(s, o + 4)) as u64
}

pub fn read_u16_be(b: &[u8], o: usize) -> (r: u16)
    requires
        o + 2 <= b@.len(),
        b@.len() <= usize::MAX,
    ensures
        r == spec_u16_be(b@, o as int),
{
    (b[o] as u16) * 0x100 + (b[o + 1] as u16)
}

pub fn read_u32_be(b: &[u8], o: usize) -> (r: u32)
    requires
        o + 4 <= b@.len(),
        b@.len() <= usize::MAX,
    ensures
        r == spec_u32_be(b@, o as int),
{
    (b[o] as u32) * 0x100_0000 + (b[o + 1] as u32) * 0x1_0000 + (b[o + 2] as u32) * 0x100
        + (b[o + 3] as u32)
}

pub fn read_u64_be(b: &[u8], o: usize) -> (r: u64)
    requires
        o + 8 <= b@.len(),
        b@.len() <= usize::MAX,
    ensures
        r == spec_u64_be(b@, o as int),
{
    (read_u32_be(b, o) as u64) * 0x1_0000_0000 + (read_u32_be(b, o + 4) as u64)
}

/// Big-endian bytes of a 16-bit value.
pub open spec fn spec_u16_to_be(x: u16) -> Seq<u8> {
    seq![(x / 0x100) as u8, (x % 0x100) as u8]
}

/// Big-endian bytes of a 32-bit value.
pub open spec fn spec_u32_to_be(x: u32) -> Seq<u8> {
    seq![
        (x / 0x100_0000) as u8,
        ((x / 0x1_0000) % 0x100) as u8,
        ((x / 0x100) % 0x100) as u8,
        (x % 0x100) as u8,
    ]
}

/// Big-endian bytes of a 64-bit value.
pub open spec fn spec_u64_to_be(x: u64) -> Seq<u8> {
    spec_u32_to_be((x / 0x1_0000_0000) as u32) + spec_u32_to_be((x % 0x1_0000_0000) as u32)
}

/// Big-endian bytes of a 128-bit value (an IPv6 address).
pub open spec fn spec_u128_to_be(x: u128) -> Seq<u8> {
    spec_u64_to_be((x / 0x1_0000_0000_0000_0000) as u64)
        + spec_u64_to_be((x % 0x1_0000_0000_0000_0000) as u64)
}

pub fn push_u16_be(out: &mut Vec<u8>, x: u16)
    ensures
        final(out)@ == old(out)@ + spec_u16_to_be(x),
{
    out.push((x / 0x100) as u8);
    out.push((x % 0x100) as u8);
    proof {
        assert(final(out)@ =~= old(out)@ + spec_u16_to_be(x));
    }
}

pub fn push_u32_be(out: &mut Vec<u8>, x: u32)
    ensures
        final(out)@ == old(out)@ + spec_u32_to_be(x),
{
    out.push((x / 0x100_0000) as u8);
    out.push(((x / 0x1_0000) % 0x100) as u8);
    out.push(((x / 0x100) % 0x100) as u8);
    out.push((x % 0x100) as u8);
    proof {
        assert(final(out)@ =~= old(out)@ + spec_u32_to_be(x));
    }
}

pub fn push_u64_be(out: &mut Vec<u8>, x: u64)
    ensures
        final(out)@ == old(out)@ + spec_u64_to_be(x),
{
    push_u32_be(out, (x / 0x1_0000_0000) as u32);
    push_u32_be(out, (x % 0x1_0000_0000) as u32);
    proof {
        assert(final(out)@ =~= old(out)@ + spec_u64_to_be(x));
    }
}

pub fn push_u128_be(out: &mut Vec<u8>, x: u128)
    ensures
        final(out)@ == old(out)@ + spec_u128_to_be(x),
{
    push_u64_be(out, (x / 0x1_0000_0000_0000_0000) as u64);
    push_u64_be(out, (x % 0x1_0000_0000_0000_0000) as u64);
    proof {
        assert(final(out)@ =~= old(out)@ + spec_u128_to_be(x));
    }
}

/// The signed 64-bit counter a peer put on the wire as an unsigned
/// field.
pub open spec fn spec_i64_from_u64(v: u64) -> i64 {
    if v <= i64::MAX {
        v as i64
    } else {
        (v - 0x1_0000_0000_0000_0000) as i64
    }
}

pub fn i64_from_u64(v: u64) -> (r: i64)
    ensures
        r == spec_i64_from_u64(v),
{
    if v <= 0x7FFF_FFFF_FFFF_FFFFu64 {
        v as i64
    } else {
        -((u64::MAX - v) as i64) - 1
    }
}

/// The announce event named by the wire value, if any.
pub open spec fn spec_event_of(x: u32) -> Option<AnnounceEvent> {
    if x == 0 {
        Some(AnnounceEvent::Empty)
    } else if x == 1 {
        Some(AnnounceEvent::Completed)
    } else if x == 2 {
        Some(AnnounceEvent::Started)
    } else if x == 3 {
        Some(AnnounceEvent::Stopped)
    } else {
        None
    }
}

fn event_of(x: u32) -> (r: Option<AnnounceEvent>)
    ensures
        r == spec_event_of(x),
{
    if x == 0 {
        Some(AnnounceEvent::Empty)
    } else if x == 1 {
        Some(AnnounceEvent::Completed)
    } else if x == 2 {
        Some(AnnounceEvent::Started)
    } else if x == 3 {
        Some(AnnounceEvent::Stopped)
    } else {
        None
    }
}

/// A connect request: the magic checked, the transaction kept.
#[derive(Clone, Copy, Debug, PartialEq, Eq, Structural)]
pub struct ConnectRequest {
    pub transaction_id: u32,
}

/// An announce request as parsed off the wire; the byte counters and
/// `num_want` stay in their raw unsigned wire form.
#[derive(Clone, Copy, Debug, PartialEq, Eq)]
pub struct AnnounceRequest {
    pub connection_id: u64,
    pub transaction_id: u32,
    pub info_hash: InfoHash,
    pub peer_id: PeerId,
    pub downloaded: u64,
    pub left: u64,
    pub uploaded: u64,
    pub event: AnnounceEvent,
    pub ip_raw: u32,
    pub key: u32,
    pub num_want_raw: u32,
    pub port: u16,
}

/// A scrape request: up to 74 info-hashes.
#[derive(Clone, Debug, PartialEq, Eq)]
pub struct ScrapeRequest {
    pub connection_id: u64,
    pub transaction_id: u32,
    pub info_hashes: Vec<InfoHash>,
}

/// Any request the UDP tracker accepts.
#[derive(Clone, Debug, PartialEq, Eq)]
pub enum Request {
    Connect(ConnectRequest),
    Announce(AnnounceRequest),
    Scrape(ScrapeRequest),
}

/// Why a datagram was rejected before it reached the tracker.
#[derive(Clone, Copy, Debug, PartialEq, Eq, Structural)]
pub enum ParseError {
    /// Shorter than its action's fixed part.
    Truncated,
    /// A connect request that does not open with the protocol magic.
    WrongMagic,
    /// An action id other than connect, announce or scrape.
    UnknownAction,
    /// An announce event value outside the protocol's four.
    InvalidEvent,
    /// A scrape naming more than 74 torrents.
    TooManyScrapeHashes,
}

/// The most torrents one scrape may name.
pub const MAX_SCRAPE_TORRENTS: usize = 74;

fn read_hash20(b: &[u8], o: usize) -> (r: [u8; 20])
    requires
        o + 20 <= b@.len(),
        b@.len() <= usize::MAX,
    ensures
        r@ =~= b@.subrange(o as int, o + 20),
{
    let mut arr: [u8; 20] = [0; 20];
    let mut i: usize = 0;
    while i < 20
        invariant
            i <= 20,
            o + 20 <= b@.len(),
            b@.len() <= usize::MAX,
            forall|k: int| 0 <= k < i ==> arr@[k] == b@[o + k],
        decreases 20 - i,
    {
        arr[i] = b[o + i];
        i = i + 1;
    }
    arr
}

/// Parses one datagram. The classification is exact: every way a
/// datagram can be malformed maps to its error, and a well-formed one
/// parses to exactly the fields the bytes carry.
pub fn parse_request(b: &[u8]) -> (r: Result<Request, ParseError>)
    ensures
        b@.len() < 16 ==> r == Result::<Request, ParseError>::Err(ParseError::Truncated),
        b@.len() >= 16 && spec_u32_be(b@, 8) == 0 ==> if spec_u64_be(b@, 0) == PROTOCOL_MAGIC {
            r == Result::<Request, ParseError>::Ok(Request::Connect(ConnectRequest {
                transaction_id: spec_u32_be(b@, 12),
            }))
        } else {
            r == Result::<Request, ParseError>::Err(ParseError::WrongMagic)
        },
        b@.len() >= 16 && spec_u32_be(b@, 8) == 1 ==> if b@.len() < 98 {
            r == Result::<Request, ParseError>::Err(ParseError::Truncated)
        } else if spec_event_of(spec_u32_be(b@, 80)) is None {
            r == Result::<Request, ParseError>::Err(ParseError::InvalidEvent)
        } else {
            &&& r matches Result::Ok(Request::Announce(a))
            &&& r matches Result::Ok(Request::Announce(a)) ==> {
                &&& a.connection_id == spec_u64_be(b@, 0)
                &&& a.transaction_id == spec_u32_be(b@, 12)
                &&& a.info_hash@ == b@.subrange(16, 36)
                &&& a.peer_id@ == b@.subrange(36, 56)
                &&& a.downloaded == spec_u64_be(b@, 56)
                &&& a.left == spec_u64_be(b@, 64)
                &&& a.uploaded == spec_u64_be(b@, 72)
                &&& Some(a.event) == spec_event_of(spec_u32_be(b@, 80))
                &&& a.ip_raw == spec_u32_be(b@, 84)
                &&& a.key == spec_u32_be(b@, 88)
                &&& a.num_want_raw == spec_u32_be(b@, 92)
                &&& a.port == spec_u16_be(b@, 96)
            }
        },
        b@.len() >= 16 && spec_u32_be(b@, 8) == 2 ==> if (b@.len() - 16) / 20
            > MAX_SCRAPE_TORRENTS as int {
            r == Result::<Request, ParseError>::Err(ParseError::TooManyScrapeHashes)
        } else {
            &&& r matches Result::Ok(Request::Scrape(s))
            &&& r matches Result::Ok(Request::Scrape(s)) ==> {
                &&& s.connection_id == spec_u64_be(b@, 0)
                &&& s.transaction_id == spec_u32_be(b@, 12)
                &&& s.info_hashes@.len() == (b@.len() - 16) / 20
                &&& forall|i: int| 0 <= i < s.info_hashes@.len()
                    ==> (#[trigger] s.info_hashes@[i])@ == b@.subrange(16 + 20 * i, 36 + 20 * i)
            }
        },
        b@.len() >= 16 && spec_u32_be(b@, 8) > 2 ==> r == Result::<Request, ParseError>::Err(
            ParseError::UnknownAction),
{
    if b.len() < 16 {
        return Err(ParseError::Truncated);
    }
    let action = read_u32_be(b, 8);
    if action == 0 {
        if read_u64_be(b, 0) != PROTOCOL_MAGIC {
            return Err(ParseError::WrongMagic);
        }
        Ok(Request::Connect(ConnectRequest { transaction_id: read_u32_be(b, 12) }))
    } else if action == 1 {
        if b.len() < 98 {
            return Err(ParseError::Truncated);
        }
        let event = match event_of(read_u32_be(b, 80)) {
            Some(e) => e,
            None => {
                return Err(ParseError::InvalidEvent);
            },
        };
        Ok(Request::Announce(AnnounceRequest {
            connection_id: read_u64_be(b, 0),
            transaction_id: read_u32_be(b, 12),
            info_hash: InfoHash(read_hash20(b, 16)),
            peer_id: PeerId(read_hash20(b, 36)),
            downloaded: read_u64_be(b, 56),
            left: read_u64_be(b, 64),
            uploaded: read_u64_be(b, 72),
            event,
            ip_raw: read_u32_be(b, 84),
            key: read_u32_be(b, 88),
            num_want_raw: read_u32_be(b, 92),
            port: read_u16_be(b, 96),
        }))
    } else if action == 2 {
        let n = (b.len() - 16) / 20;
        if n > MAX_SCRAPE_TORRENTS {
            return Err(ParseError::TooManyScrapeHashes);
        }
        let mut hashes: Vec<InfoHash> = Vec::new();
        let mut i: usize = 0;
        while i < n
            invariant
                i <= n,
                n <= 74,
                n == (b@.len() - 16) / 20,
                16 + 20 * n <= b@.len(),
                b@.len() <= usize::MAX,
                hashes@.len() == i,
                forall|k: int| 0 <= k < i
                    ==> (#[trigger] hashes@[k])@ == b@.subrange(16 + 20 * k, 36 + 20 * k),
            decreases n - i,
        {
            let h = InfoHash(read_hash20(b, 16 + 20 * i));
            hashes.push(h);
            i = i + 1;
        }
        Ok(Request::Scrape(ScrapeRequest {
            connection_id: read_u64_be(b, 0),
            transaction_id: read_u32_be(b, 12),
            info_hashes: hashes,
        }))
    } else {
        Err(ParseError::UnknownAction)
    }
}

/// The 16 bytes of a connect response: action 0, the echoed
/// transaction, the issued connection id.
pub fn encode_connect_response(transaction_id: u32, connection_id: u64) -> (r: Vec<u8>)
    ensures
        r@ == spec_u32_to_be(0) + spec_u32_to_be(transaction_id) + spec_u64_to_be(connection_id),
        r@.len() == 16,
{
    let mut out: Vec<u8> = Vec::new();
    push_u32_be(&mut out, 0);
    push_u32_be(&mut out, transaction_id);
    push_u64_be(&mut out, connection_id);
    proof {
        assert(out@ =~= spec_u32_to_be(0) + spec_u32_to_be(transaction_id)
            + spec_u64_to_be(connection_id));
    }
    out
}

/// The 6-byte records of an IPv4 peer list. A peer of the other
/// family would contribute no address bytes, which is why the encoders
/// require a single-family list.
pub open spec fn spec_peers_v4(peers: Seq<Peer>) -> Seq<u8>
    decreases peers.len(),
{
    if peers.len() == 0 {
        Seq::<u8>::empty()
    } else {
        spec_peers_v4(peers.drop_last()) + (match peers.last().peer_addr.ip {
            IpAddress::V4(a) => spec_u32_to_be(a),
            IpAddress::V6(_) => Seq::<u8>::empty(),
        }) + spec_u16_to_be(peers.last().peer_addr.port)
    }
}

/// The 18-byte records of an IPv6 peer list. A peer of the other
/// family would contribute no address bytes, which is why the encoders
/// require a single-family list.
pub open spec fn spec_peers_v6(peers: Seq<Peer>) -> Seq<u8>
    decreases peers.len(),
{
    if peers.len() == 0 {
        Seq::<u8>::empty()
    } else {
        spec_peers_v6(peers.drop_last()) + (match peers.last().peer_addr.ip {
            IpAddress::V6(a) => spec_u128_to_be(a),
            IpAddress::V4(_) => Seq::<u8>::empty(),
        }) + spec_u16_to_be(peers.last().peer_addr.port)
    }
}

/// An announce response: action 1, the echoed transaction, interval,
/// leecher and seeder counts, then the peer records — 6 bytes each for
/// IPv4, 18 for IPv6, chosen by `v6`. The records have one fixed size
/// per family, so the list must hold peers of that family alone.
pub fn encode_announce_response(
    transaction_id: u32,
    interval: u32,
    leechers: u32,
    seeders: u32,
    peers: &Vec<Peer>,
    v6: bool,
) -> (r: Vec<u8>)
    requires
        forall|i: int| 0 <= i < peers@.len() ==> ((#[trigger] peers@[i]).peer_addr.ip is V6) == v6,
    ensures
        r@ == spec_u32_to_be(1) + spec_u32_to_be(transaction_id) + spec_u32_to_be(interval)
            + spec_u32_to_be(leechers) + spec_u32_to_be(seeders) + if v6 {
            spec_peers_v6(peers@)
        } else {
            spec_peers_v4(peers@)
        },
{
    let ghost header = spec_u32_to_be(1) + spec_u32_to_be(transaction_id)
        + spec_u32_to_be(interval) + spec_u32_to_be(leechers) + spec_u32_to_be(seeders);
    let mut out: Vec<u8> = Vec::new();
    push_u32_be(&mut out, 1);
    push_u32_be(&mut out, transaction_id);
    push_u32_be(&mut out, interval);
    push_u32_be(&mut out, leechers);
    push_u32_be(&mut out, seeders);
    proof {
        assert(out@ =~= header + if v6 {
            spec_peers_v6(peers@.take(0))
        } else {
            spec_peers_v4(peers@.take(0))
        });
    }
    let mut i: usize = 0;
    while i < peers.len()
        invariant
            i <= peers@.len(),
            out@ == header + if v6 {
                spec_peers_v6(peers@.take(i as int))
            } else {
                spec_peers_v4(peers@.take(i as int))
            },
        decreases peers@.len() - i,
    {
        proof {
            assert(peers@.take(i + 1).drop_last() =~= peers@.take(i as int));
            assert(peers@.take(i + 1).last() == peers@[i as int]);
        }
        let p = &peers[i];
        if v6 {
            match p.peer_addr.ip {
                IpAddress::V6(a) => {
                    push_u128_be(&mut out, a);
                },
                IpAddress::V4(_) => {},
            }
        } else {
            match p.peer_addr.ip {
                IpAddress::V4(a) => {
                    push_u32_be(&mut out, a);
                },
                IpAddress::V6(_) => {},
            }
        }
        push_u16_be(&mut out, p.peer_addr.port);
        proof {
            assert(out@ =~= header + if v6 {
                spec_peers_v6(peers@.take(i + 1))
            } else {
                spec_peers_v4(peers@.take(i + 1))
            });
        }
        i = i + 1;
    }
    proof {
        assert(peers@.take(peers@.len() as int) =~= peers@);
    }
    out
}

/// Packs a peer list into its compact wire records: 6 bytes per IPv4
/// peer, 18 per IPv6 peer, family chosen by `v6`. The list must hold
/// peers of that family alone, so every record has the fixed size.
pub fn encode_peers_compact(peers: &Vec<Peer>, v6: bool) -> (r: Vec<u8>)
    requires
        forall|i: int| 0 <= i < peers@.len() ==> ((#[trigger] peers@[i]).peer_addr.ip is V6) == v6,
    ensures
        r@ == if v6 {
            spec_peers_v6(peers@)
        } else {
            spec_peers_v4(peers@)
        },
{
    let mut out: Vec<u8> = Vec::new();
    proof {
        assert(out@ =~= if v6 {
            spec_peers_v6(peers@.take(0))
        } else {
            spec_peers_v4(peers@.take(0))
        });
    }
    let mut i: usize = 0;
    while i < peers.len()
        invariant
            i <= peers@.len(),
            out@ == if v6 {
                spec_peers_v6(peers@.take(i as int))
            } else {
                spec_peers_v4(peers@.take(i as int))
            },
        decreases peers@.len() - i,
    {
        proof {
            assert(peers@.take(i + 1).drop_last() =~= peers@.take(i as int));
            assert(peers@.take(i + 1).last() == peers@[i as int]);
        }
        let p = &peers[i];
        if v6 {
            match p.peer_addr.ip {
                IpAddress::V6(a) => {
                    push_u128_be(&mut out, a);
                },
                IpAddress::V4(_) => {},
            }
        } else {
            match p.peer_addr.ip {
                IpAddress::V4(a) => {
                    push_u32_be(&mut out, a);
                },
                IpAddress::V6(_) => {},
            }
        }
        push_u16_be(&mut out, p.peer_addr.port);
        proof {
            assert(out@ =~= if v6 {
                spec_peers_v6(peers@.take(i + 1))
            } else {
                spec_peers_v4(peers@.take(i + 1))
            });
        }
        i = i + 1;
    }
    proof {
        assert(peers@.take(peers@.len() as int) =~= peers@);
    }
    out
}

/// The 12-byte records of a scrape response body.
pub open spec fn spec_scrape_entries(files: Seq<crate::swarm::SwarmMetadata>) -> Seq<u8>
    decreases files.len(),
{
    if files.len() == 0 {
        Seq::<u8>::empty()
    } else {
        spec_scrape_entries(files.drop_last()) + spec_u32_to_be(files.last().complete)
            + spec_u32_to_be(files.last().downloaded) + spec_u32_to_be(files.last().incomplete)
    }
}

/// A scrape response: action 2, the echoed transaction, then one
/// `complete, downloaded, incomplete` triple per requested torrent, in
/// request order.
pub fn encode_scrape_response(transaction_id: u32, files: &Vec<crate::swarm::SwarmMetadata>) -> (r:
    Vec<u8>)
    ensures
        r@ == spec_u32_to_be(2) + spec_u32_to_be(transaction_id) + spec_scrape_entries(files@),
{
    let ghost header = spec_u32_to_be(2) + spec_u32_to_be(transaction_id);
    let mut out: Vec<u8> = Vec::new();
    push_u32_be(&mut out, 2);
    push_u32_be(&mut out, transaction_id);
    proof {
        assert(out@ =~= header + spec_scrape_entries(files@.take(0)));
    }
    let mut i: usize = 0;
    while i < files.len()
        invariant
            i <= files@.len(),
            out@ == header + spec_scrape_entries(files@.take(i as int)),
        decreases files@.len() - i,
    {
        proof {
            assert(files@.take(i + 1).drop_last() =~= files@.take(i as int));
            assert(files@.take(i + 1).last() == files@[i as int]);
        }
        let f = &files[i];
        push_u32_be(&mut out, f.complete);
        push_u32_be(&mut out, f.downloaded);
        push_u32_be(&mut out, f.incomplete);
        proof {
            assert(out@ =~= header + spec_scrape_entries(files@.take(i + 1)));
        }
        i = i + 1;
    }
    proof {
        assert(files@.take(files@.len() as int) =~= files@);
    }
    out
}

/// An error response: action 3, the echoed transaction, then the
/// message bytes (ASCII).
pub fn encode_error_response(transaction_id: u32, message: &[u8]) -> (r: Vec<u8>)
    ensures
        r@ == spec_u32_to_be(3) + spec_u32_to_be(transaction_id) + message@,
{
    let ghost header = spec_u32_to_be(3) + spec_u32_to_be(transaction_id);
    let mut out: Vec<u8> = Vec::new();
    push_u32_be(&mut out, 3);
    push_u32_be(&mut out, transaction_id);
    proof {
        assert(out@ =~= header + message@.take(0));
    }
    let mut i: usize = 0;
    while i < message.len()
        invariant
            i <= message@.len(),
            out@ == header + message@.take(i as int),
        decreases message@.len() - i,
    {
        out.push(message[i]);
        proof {
            assert(out@ =~= header + message@.take(i + 1));
        }
        i = i + 1;
    }
    proof {
        assert(message@.take(message@.len() as int) =~= message@);
    }
    out
}

} // verus!
