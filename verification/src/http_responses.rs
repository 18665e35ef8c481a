//! Bencoded bodies of the HTTP tracker: announce (compact form),
//! scrape, and the failure body. Every error travels as HTTP 200 with
//! a `failure reason` dictionary.

use vstd::prelude::*;
use crate::bencode::{push_bencode_bytes, push_bencode_int, spec_bencode_bytes, spec_decimal,
    spec_bencode_int};
use crate::info_hash::InfoHash;
use crate::peer::Peer;
use crate::swarm::SwarmMetadata;
use crate::udp_codec::{spec_peers_v4, spec_peers_v6};

verus! {

/// A tracker failure as the HTTP wire carries it.
#[derive(Clone, Debug, PartialEq, Eq)]
pub struct Error {
    pub failure_reason: String,
}

/// The bytes of the dictionary key `failure reason`.
pub open spec fn spec_failure_reason_key() -> Seq<u8> {
    seq![102u8, 97, 105, 108, 117, 114, 101, 32, 114, 101, 97, 115, 111, 110]
}

/// The failure body: a dictionary with the single key
/// `failure reason` and the reason text.
pub open spec fn spec_error_body(reason: Seq<u8>) -> Seq<u8> {
    seq![100u8] + spec_bencode_bytes(spec_failure_reason_key()) + spec_bencode_bytes(reason)
        + seq![101u8]
}

/// Encodes the failure body for a reason given as bytes.
pub fn error_body(reason: &[u8]) -> (r: Vec<u8>)
    ensures
        r@ == spec_error_body(reason@),
{
    let mut out: Vec<u8> = Vec::new();
    out.push(100);
    let mut key: Vec<u8> = Vec::new();
    key.push(102);
    key.push(97);
    key.push(105);
    key.push(108);
    key.push(117);
    key.push(114);
    key.push(101);
    key.push(32);
    key.push(114);
    key.push(101);
    key.push(97);
    key.push(115);
    key.push(111);
    key.push(110);
    proof {
        assert(key@ =~= spec_failure_reason_key());
    }
    push_bencode_bytes(&mut out, key.as_slice());
    push_bencode_bytes(&mut out, reason);
    out.push(101);
    proof {
        assert(out@ =~= spec_error_body(reason@));
    }
    out
}


/// Appends `8:complete`.
fn push_key_complete(out: &mut Vec<u8>)
    ensures
        final(out)@ == old(out)@ + seq![56u8, 58, 99, 111, 109, 112, 108, 101, 116, 101],
{
    out.push(56);
    out.push(58);
    out.push(99);
    out.push(111);
    out.push(109);
    out.push(112);
    out.push(108);
    out.push(101);
    out.push(116);
    out.push(101);
    proof {
        assert(final(out)@ =~= old(out)@ + seq![56u8, 58, 99, 111, 109, 112, 108, 101, 116, 101]);
    }
}

/// Appends `10:incomplete`.
fn push_key_incomplete(out: &mut Vec<u8>)
    ensures
        final(out)@ == old(out)@
            + seq![49u8, 48, 58, 105, 110, 99, 111, 109, 112, 108, 101, 116, 101],
{
    out.push(49);
    out.push(48);
    out.push(58);
    out.push(105);
    out.push(110);
    out.push(99);
    out.push(111);
    out.push(109);
    out.push(112);
    out.push(108);
    out.push(101);
    out.push(116);
    out.push(101);
    proof {
        assert(final(out)@ =~= old(out)@
            + seq![49u8, 48, 58, 105, 110, 99, 111, 109, 112, 108, 101, 116, 101]);
    }
}

/// Appends `8:interval`.
fn push_key_interval(out: &mut Vec<u8>)
    ensures
        final(out)@ == old(out)@ + seq![56u8, 58, 105, 110, 116, 101, 114, 118, 97, 108],
{
    out.push(56);
    out.push(58);
    out.push(105);
    out.push(110);
    out.push(116);
    out.push(101);
    out.push(114);
    out.push(118);
    out.push(97);
    out.push(108);
    proof {
        assert(final(out)@ =~= old(out)@ + seq![56u8, 58, 105, 110, 116, 101, 114, 118, 97, 108]);
    }
}

/// Appends `12:min interval`.
fn push_key_min_interval(out: &mut Vec<u8>)
    ensures
        final(out)@ == old(out)@
            + seq![49u8, 50, 58, 109, 105, 110, 32, 105, 110, 116, 101, 114, 118, 97, 108],
{
    out.push(49);
    out.push(50);
    out.push(58);
    out.push(109);
    out.push(105);
    out.push(110);
    out.push(32);
    out.push(105);
    out.push(110);
    out.push(116);
    out.push(101);
    out.push(114);
    out.push(118);
    out.push(97);
    out.push(108);
    proof {
        assert(final(out)@ =~= old(out)@
            + seq![49u8, 50, 58, 109, 105, 110, 32, 105, 110, 116, 101, 114, 118, 97, 108]);
    }
}

/// Appends `5:peers` or `6:peers6`.
fn push_key_peers(out: &mut Vec<u8>, v6: bool)
    ensures
        final(out)@ == old(out)@ + if v6 {
            seq![54u8, 58, 112, 101, 101, 114, 115, 54]
        } else {
            seq![53u8, 58, 112, 101, 101, 114, 115]
        },
{
    if v6 {
        out.push(54);
        out.push(58);
        out.push(112);
        out.push(101);
        out.push(101);
        out.push(114);
        out.push(115);
        out.push(54);
        proof {
            assert(final(out)@ =~= old(out)@ + seq![54u8, 58, 112, 101, 101, 114, 115, 54]);
        }
    } else {
        out.push(53);
        out.push(58);
        out.push(112);
        out.push(101);
        out.push(101);
        out.push(114);
        out.push(115);
        proof {
            assert(final(out)@ =~= old(out)@ + seq![53u8, 58, 112, 101, 101, 114, 115]);
        }
    }
}

/// Appends `10:downloaded`.
fn push_key_downloaded(out: &mut Vec<u8>)
    ensures
        final(out)@ == old(out)@
            + seq![49u8, 48, 58, 100, 111, 119, 110, 108, 111, 97, 100, 101, 100],
{
    out.push(49);
    out.push(48);
    out.push(58);
    out.push(100);
    out.push(111);
    out.push(119);
    out.push(110);
    out.push(108);
    out.push(111);
    out.push(97);
    out.push(100);
    out.push(101);
    out.push(100);
    proof {
        assert(final(out)@ =~= old(out)@
            + seq![49u8, 48, 58, 100, 111, 119, 110, 108, 111, 97, 100, 101, 100]);
    }
}

/// The compact announce body: `complete`, `incomplete`, `interval`,
/// `min interval`, then the packed peer records under `peers`
/// (6 bytes each) or `peers6` (18 bytes each).
pub open spec fn spec_announce_body_compact(
    complete: u32,
    incomplete: u32,
    interval: u32,
    interval_min: u32,
    peers: Seq<Peer>,
    v6: bool,
) -> Seq<u8> {
    seq![100u8, 56, 58, 99, 111, 109, 112, 108, 101, 116, 101] + spec_bencode_int(complete as nat)
        + seq![49u8, 48, 58, 105, 110, 99, 111, 109, 112, 108, 101, 116, 101]
        + spec_bencode_int(incomplete as nat)
        + seq![56u8, 58, 105, 110, 116, 101, 114, 118, 97, 108]
        + spec_bencode_int(interval as nat)
        + seq![49u8, 50, 58, 109, 105, 110, 32, 105, 110, 116, 101, 114, 118, 97, 108]
        + spec_bencode_int(interval_min as nat) + (if v6 {
        seq![54u8, 58, 112, 101, 101, 114, 115, 54] + spec_bencode_bytes(spec_peers_v6(peers))
    } else {
        seq![53u8, 58, 112, 101, 101, 114, 115] + spec_bencode_bytes(spec_peers_v4(peers))
    }) + seq![101u8]
}

/// Encodes the compact announce body. The packed records have one
/// fixed size per family, so the list must hold peers of the family
/// `v6` names alone; `crate::swarm::peers_of_family` yields such a
/// list from a mixed selection.
pub fn announce_body_compact(
    complete: u32,
    incomplete: u32,
    interval: u32,
    interval_min: u32,
    peers: &Vec<Peer>,
    v6: bool,
) -> (r: Vec<u8>)
    requires
        forall|i: int| 0 <= i < peers@.len() ==> ((#[trigger] peers@[i]).peer_addr.ip is V6) == v6,
    ensures
        r@ == spec_announce_body_compact(complete, incomplete, interval, interval_min, peers@,
            v6),
{
    let mut out: Vec<u8> = Vec::new();
    out.push(100);
    push_key_complete(&mut out);
    push_bencode_int(&mut out, complete as u64);
    push_key_incomplete(&mut out);
    push_bencode_int(&mut out, incomplete as u64);
    push_key_interval(&mut out);
    push_bencode_int(&mut out, interval as u64);
    push_key_min_interval(&mut out);
    push_bencode_int(&mut out, interval_min as u64);
    push_key_peers(&mut out, v6);
    let packed = crate::udp_codec::encode_peers_compact(peers, v6);
    push_bencode_bytes(&mut out, packed.as_slice());
    out.push(101);
    proof {
        assert(out@ =~= spec_announce_body_compact(complete, incomplete, interval, interval_min,
            peers@, v6));
    }
    out
}

/// One torrent's entry inside the scrape body: the hash as the key,
/// then its counts.
pub open spec fn spec_scrape_file(h: Seq<u8>, md: SwarmMetadata) -> Seq<u8> {
    spec_bencode_bytes(h) + seq![100u8, 56, 58, 99, 111, 109, 112, 108, 101, 116, 101]
        + spec_bencode_int(md.complete as nat)
        + seq![49u8, 48, 58, 100, 111, 119, 110, 108, 111, 97, 100, 101, 100]
        + spec_bencode_int(md.downloaded as nat)
        + seq![49u8, 48, 58, 105, 110, 99, 111, 109, 112, 108, 101, 116, 101]
        + spec_bencode_int(md.incomplete as nat) + seq![101u8]
}

/// The entries of the scrape body, in request order.
pub open spec fn spec_scrape_files(files: Seq<(InfoHash, SwarmMetadata)>) -> Seq<u8>
    decreases files.len(),
{
    if files.len() == 0 {
        Seq::<u8>::empty()
    } else {
        spec_scrape_files(files.drop_last()) + spec_scrape_file(files.last().0@, files.last().1)
    }
}

/// The scrape body: the `files` dictionary, one entry per requested
/// torrent, in request order.
pub open spec fn spec_scrape_body(files: Seq<(InfoHash, SwarmMetadata)>) -> Seq<u8> {
    seq![100u8, 53, 58, 102, 105, 108, 101, 115, 100] + spec_scrape_files(files)
        + seq![101u8, 101]
}

/// Encodes the scrape body.
pub fn scrape_body(files: &Vec<(InfoHash, SwarmMetadata)>) -> (r: Vec<u8>)
    ensures
        r@ == spec_scrape_body(files@),
{
    let ghost header = seq![100u8, 53, 58, 102, 105, 108, 101, 115, 100];
    let mut out: Vec<u8> = Vec::new();
    out.push(100);
    out.push(53);
    out.push(58);
    out.push(102);
    out.push(105);
    out.push(108);
    out.push(101);
    out.push(115);
    out.push(100);
    proof {
        assert(out@ =~= header + spec_scrape_files(files@.take(0)));
    }
    let mut i: usize = 0;
    while i < files.len()
        invariant
            i <= files@.len(),
            out@ == header + spec_scrape_files(files@.take(i as int)),
        decreases files@.len() - i,
    {
        proof {
            assert(files@.take(i + 1).drop_last() =~= files@.take(i as int));
            assert(files@.take(i + 1).last() == files@[i as int]);
        }
        let h: &InfoHash = &files[i].0;
        let md = files[i].1;
        let hash_slice: &[u8] = h.0.as_slice();
        proof {
            assert(hash_slice@ == files@[i as int].0@);
        }
        push_bencode_bytes(&mut out, hash_slice);
        out.push(100);
        push_key_complete(&mut out);
        push_bencode_int(&mut out, md.complete as u64);
        push_key_downloaded(&mut out);
        push_bencode_int(&mut out, md.downloaded as u64);
        push_key_incomplete(&mut out);
        push_bencode_int(&mut out, md.incomplete as u64);
        out.push(101);
        proof {
            assert(out@ =~= header + spec_scrape_files(files@.take(i + 1)));
        }
        i = i + 1;
    }
    out.push(101);
    out.push(101);
    proof {
        assert(files@.take(files@.len() as int) =~= files@);
        assert(out@ =~= spec_scrape_body(files@));
    }
    out
}


/// The ASCII lowercase hexadecimal digits of `n`, most significant
/// first, no leading zeros (zero itself is "0").
pub open spec fn spec_lower_hex(n: nat) -> Seq<u8>
    decreases n,
{
    if n < 16 {
        seq![spec_hex_char(n)]
    } else {
        spec_lower_hex(n / 16).push(spec_hex_char(n % 16))
    }
}

/// One lowercase hexadecimal digit.
pub open spec fn spec_hex_char(d: nat) -> u8
    recommends
        d < 16,
{
    if d < 10 {
        (48 + d) as u8
    } else {
        (87 + d) as u8
    }
}

/// Appends the lowercase hexadecimal digits of `x`.
pub fn push_lower_hex(out: &mut Vec<u8>, x: u16)
    ensures
        final(out)@ == old(out)@ + spec_lower_hex(x as nat),
    decreases x,
{
    if x < 16 {
        let d = x as u8;
        out.push(if d < 10 { 48 + d } else { 87 + d });
        proof {
            assert(final(out)@ =~= old(out)@ + spec_lower_hex(x as nat));
        }
    } else {
        push_lower_hex(out, x / 16);
        let d = (x % 16) as u8;
        out.push(if d < 10 { 48 + d } else { 87 + d });
        proof {
            assert(final(out)@ =~= old(out)@ + spec_lower_hex(x as nat));
        }
    }
}

/// The dotted-quad text of an IPv4 address.
pub open spec fn spec_ipv4_text(a: u32) -> Seq<u8> {
    spec_decimal((a / 0x100_0000) as nat) + seq![46u8]
        + spec_decimal(((a / 0x1_0000) % 0x100) as nat) + seq![46u8]
        + spec_decimal(((a / 0x100) % 0x100) as nat) + seq![46u8] + spec_decimal((a % 0x100) as nat)
}

/// The text of an IPv6 address: its eight 16-bit groups in lowercase
/// hexadecimal, colon-separated, written in full (no zero compression).
pub open spec fn spec_ipv6_text(a: u128) -> Seq<u8> {
    spec_lower_hex(((a / 0x1_0000_0000_0000_0000_0000_0000_0000) % 0x1_0000) as nat) + seq![58u8]
        + spec_lower_hex(((a / 0x1_0000_0000_0000_0000_0000_0000) % 0x1_0000) as nat) + seq![58u8]
        + spec_lower_hex(((a / 0x1_0000_0000_0000_0000_0000) % 0x1_0000) as nat) + seq![58u8]
        + spec_lower_hex(((a / 0x1_0000_0000_0000_0000) % 0x1_0000) as nat) + seq![58u8]
        + spec_lower_hex(((a / 0x1_0000_0000_0000) % 0x1_0000) as nat) + seq![58u8]
        + spec_lower_hex(((a / 0x1_0000_0000) % 0x1_0000) as nat) + seq![58u8]
        + spec_lower_hex(((a / 0x1_0000) % 0x1_0000) as nat) + seq![58u8]
        + spec_lower_hex((a % 0x1_0000) as nat)
}

/// The text under which a peer's IP is published in the non-compact
/// response.
pub open spec fn spec_ip_text(ip: crate::primitives::IpAddress) -> Seq<u8> {
    match ip {
        crate::primitives::IpAddress::V4(a) => spec_ipv4_text(a),
        crate::primitives::IpAddress::V6(a) => spec_ipv6_text(a),
    }
}

/// Appends the textual form of an IP address.
pub fn push_ip_text(out: &mut Vec<u8>, ip: &crate::primitives::IpAddress)
    ensures
        final(out)@ == old(out)@ + spec_ip_text(*ip),
{
    match ip {
        crate::primitives::IpAddress::V4(a) => {
            crate::bencode::push_decimal(out, (*a / 0x100_0000) as u64);
            out.push(46);
            crate::bencode::push_decimal(out, ((*a / 0x1_0000) % 0x100) as u64);
            out.push(46);
            crate::bencode::push_decimal(out, ((*a / 0x100) % 0x100) as u64);
            out.push(46);
            crate::bencode::push_decimal(out, (*a % 0x100) as u64);
            proof {
                assert(final(out)@ =~= old(out)@ + spec_ipv4_text(*a));
            }
        },
        crate::primitives::IpAddress::V6(a) => {
            push_lower_hex(out, ((*a / 0x1_0000_0000_0000_0000_0000_0000_0000) % 0x1_0000) as u16);
            out.push(58);
            push_lower_hex(out, ((*a / 0x1_0000_0000_0000_0000_0000_0000) % 0x1_0000) as u16);
            out.push(58);
            push_lower_hex(out, ((*a / 0x1_0000_0000_0000_0000_0000) % 0x1_0000) as u16);
            out.push(58);
            push_lower_hex(out, ((*a / 0x1_0000_0000_0000_0000) % 0x1_0000) as u16);
            out.push(58);
            push_lower_hex(out, ((*a / 0x1_0000_0000_0000) % 0x1_0000) as u16);
            out.push(58);
            push_lower_hex(out, ((*a / 0x1_0000_0000) % 0x1_0000) as u16);
            out.push(58);
            push_lower_hex(out, ((*a / 0x1_0000) % 0x1_0000) as u16);
            out.push(58);
            push_lower_hex(out, (*a % 0x1_0000) as u16);
            proof {
                assert(final(out)@ =~= old(out)@ + spec_ipv6_text(*a));
            }
        },
    }
}

/// One peer of the non-compact response: a dictionary with `ip`,
/// `peer id` and `port`.
pub open spec fn spec_peer_dict(p: Peer) -> Seq<u8> {
    seq![100u8, 50, 58, 105, 112] + spec_bencode_bytes(spec_ip_text(p.peer_addr.ip))
        + seq![55u8, 58, 112, 101, 101, 114, 32, 105, 100] + spec_bencode_bytes(p.peer_id@)
        + seq![52u8, 58, 112, 111, 114, 116] + spec_bencode_int(p.peer_addr.port as nat)
        + seq![101u8]
}

/// Appends one peer dictionary.
#[verifier::rlimit(60)]
fn push_peer_dict(out: &mut Vec<u8>, p: &Peer)
    ensures
        final(out)@ == old(out)@ + spec_peer_dict(*p),
{
    out.push(100);
    out.push(50);
    out.push(58);
    out.push(105);
    out.push(112);
    let mut ip_text: Vec<u8> = Vec::new();
    push_ip_text(&mut ip_text, &p.peer_addr.ip);
    push_bencode_bytes(out, ip_text.as_slice());
    out.push(55);
    out.push(58);
    out.push(112);
    out.push(101);
    out.push(101);
    out.push(114);
    out.push(32);
    out.push(105);
    out.push(100);
    push_bencode_bytes(out, p.peer_id.0.as_slice());
    out.push(52);
    out.push(58);
    out.push(112);
    out.push(111);
    out.push(114);
    out.push(116);
    push_bencode_int(out, p.peer_addr.port as u64);
    out.push(101);
    proof {
        assert(final(out)@ =~= old(out)@ + spec_peer_dict(*p));
    }
}

/// The peer dictionaries of the non-compact response, in selection
/// order.
pub open spec fn spec_peer_dicts(peers: Seq<Peer>) -> Seq<u8>
    decreases peers.len(),
{
    if peers.len() == 0 {
        Seq::<u8>::empty()
    } else {
        spec_peer_dicts(peers.drop_last()) + spec_peer_dict(peers.last())
    }
}

/// The non-compact announce body: the same counts and intervals as the
/// compact form, with `peers` a list of `ip`, `peer id`, `port`
/// dictionaries.
pub open spec fn spec_announce_body_normal(
    complete: u32,
    incomplete: u32,
    interval: u32,
    interval_min: u32,
    peers: Seq<Peer>,
) -> Seq<u8> {
    seq![100u8, 56, 58, 99, 111, 109, 112, 108, 101, 116, 101] + spec_bencode_int(complete as nat)
        + seq![49u8, 48, 58, 105, 110, 99, 111, 109, 112, 108, 101, 116, 101]
        + spec_bencode_int(incomplete as nat)
        + seq![56u8, 58, 105, 110, 116, 101, 114, 118, 97, 108]
        + spec_bencode_int(interval as nat)
        + seq![49u8, 50, 58, 109, 105, 110, 32, 105, 110, 116, 101, 114, 118, 97, 108]
        + spec_bencode_int(interval_min as nat) + seq![53u8, 58, 112, 101, 101, 114, 115]
        + seq![108u8] + spec_peer_dicts(peers) + seq![101u8] + seq![101u8]
}

/// Encodes the non-compact announce body, for clients that ask for the
/// dictionary form.
pub fn announce_body_normal(
    complete: u32,
    incomplete: u32,
    interval: u32,
    interval_min: u32,
    peers: &Vec<Peer>,
) -> (r: Vec<u8>)
    ensures
        r@ == spec_announce_body_normal(complete, incomplete, interval, interval_min, peers@),
{
    let ghost header = seq![100u8, 56, 58, 99, 111, 109, 112, 108, 101, 116, 101]
        + spec_bencode_int(complete as nat)
        + seq![49u8, 48, 58, 105, 110, 99, 111, 109, 112, 108, 101, 116, 101]
        + spec_bencode_int(incomplete as nat)
        + seq![56u8, 58, 105, 110, 116, 101, 114, 118, 97, 108]
        + spec_bencode_int(interval as nat)
        + seq![49u8, 50, 58, 109, 105, 110, 32, 105, 110, 116, 101, 114, 118, 97, 108]
        + spec_bencode_int(interval_min as nat) + seq![53u8, 58, 112, 101, 101, 114, 115]
        + seq![108u8];
    let mut out: Vec<u8> = Vec::new();
    out.push(100);
    push_key_complete(&mut out);
    push_bencode_int(&mut out, complete as u64);
    push_key_incomplete(&mut out);
    push_bencode_int(&mut out, incomplete as u64);
    push_key_interval(&mut out);
    push_bencode_int(&mut out, interval as u64);
    push_key_min_interval(&mut out);
    push_bencode_int(&mut out, interval_min as u64);
    push_key_peers(&mut out, false);
    out.push(108);
    proof {
        assert(out@ =~= header + spec_peer_dicts(peers@.take(0)));
    }
    let mut i: usize = 0;
    while i < peers.len()
        invariant
            i <= peers@.len(),
            out@ == header + spec_peer_dicts(peers@.take(i as int)),
        decreases peers@.len() - i,
    {
        proof {
            assert(peers@.take(i + 1).drop_last() =~= peers@.take(i as int));
            assert(peers@.take(i + 1).last() == peers@[i as int]);
        }
        push_peer_dict(&mut out, &peers[i]);
        proof {
            assert(out@ =~= header + spec_peer_dicts(peers@.take(i + 1)));
        }
        i = i + 1;
    }
    out.push(101);
    out.push(101);
    proof {
        assert(peers@.take(peers@.len() as int) =~= peers@);
        assert(out@ =~= spec_announce_body_normal(complete, incomplete, interval, interval_min,
            peers@));
    }
    out
}

} // verus!
