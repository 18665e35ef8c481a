//! Per-datagram decisions of the UDP tracker: ban gate, cookie
//! issuance and validation, the whitelist gate of listed mode,
//! dispatch to the tracker core, and the choice of statistics event.
//! An announce or scrape whose cookie does not validate, and an
//! announce for a torrent off the allow-list, yield an error response
//! and change no tracker state.

use vstd::prelude::*;
use crate::banning::{spec_is_banned, spec_record_after_error, spec_record_of, BanService};
use crate::config::{mode_requires_whitelist, spec_mode_requires_whitelist, TrackerMode};
use crate::cookie;
use crate::cookie::CookieError;
use crate::peer::Peer;
use crate::primitives::{DurationSinceUnixEpoch, IpAddress, NumberOfBytes, PeersWanted,
    SocketAddress};
use crate::statistics::Event;
use crate::swarm::SwarmMetadata;
use crate::swarm::{spec_rotated, spec_select};
use crate::swarm::{family_pred, peers_of_family};
use crate::tracker::{spec_metadata_of, spec_peers_of, spec_upsert_effect, spec_wanted_limit,
    AnnounceData, Tracker, TorrentEntry};
use crate::udp_codec::{encode_announce_response, encode_connect_response, encode_error_response,
    encode_scrape_response, parse_request, spec_event_of, spec_i64_from_u64, spec_peers_v4,
    spec_peers_v6, spec_scrape_entries, spec_u16_be, spec_u32_be, spec_u32_to_be, spec_u64_be,
    spec_u64_to_be, AnnounceRequest, ConnectRequest, Request, ScrapeRequest, MAX_SCRAPE_TORRENTS,
    PROTOCOL_MAGIC};
use crate::whitelist::{spec_whitelisted, InMemoryWhitelist};

verus! {

/// How many peers the announce asks for: a wire value with the sign
/// bit set is negative, which means "as many as the tracker gives".
pub open spec fn spec_peers_wanted(num_want_raw: u32) -> PeersWanted {
    if num_want_raw >= 0x8000_0000 {
        PeersWanted::All
    } else {
        PeersWanted::Only(num_want_raw)
    }
}

pub fn peers_wanted_of(num_want_raw: u32) -> (r: PeersWanted)
    ensures
        r == spec_peers_wanted(num_want_raw),
{
    if num_want_raw >= 0x8000_0000 {
        PeersWanted::All
    } else {
        PeersWanted::Only(num_want_raw)
    }
}

/// The peer record an announce request stores: identity and port from
/// the request, the IP the tracker resolved, the clock reading, and
/// the counters moved from their unsigned wire form.
pub open spec fn spec_announced_peer(
    req: AnnounceRequest,
    resolved_ip: IpAddress,
    now: DurationSinceUnixEpoch,
) -> Peer {
    Peer {
        peer_id: req.peer_id,
        peer_addr: SocketAddress { ip: resolved_ip, port: req.port },
        updated: now,
        uploaded: NumberOfBytes(spec_i64_from_u64(req.uploaded)),
        downloaded: NumberOfBytes(spec_i64_from_u64(req.downloaded)),
        left: NumberOfBytes(spec_i64_from_u64(req.left)),
        event: req.event,
    }
}

/// The statistics event of one handled UDP connect, by IP version.
pub fn udp_connect_event(ip: &IpAddress) -> (r: Event)
    ensures
        ip is V4 ==> r == Event::Udp4Connection,
        ip is V6 ==> r == Event::Udp6Connection,
{
    match ip {
        IpAddress::V4(_) => Event::Udp4Connection,
        IpAddress::V6(_) => Event::Udp6Connection,
    }
}

/// The statistics event of one handled UDP announce, by IP version.
pub fn udp_announce_event(ip: &IpAddress) -> (r: Event)
    ensures
        ip is V4 ==> r == Event::Udp4Announce,
        ip is V6 ==> r == Event::Udp6Announce,
{
    match ip {
        IpAddress::V4(_) => Event::Udp4Announce,
        IpAddress::V6(_) => Event::Udp6Announce,
    }
}

/// The statistics event of one handled UDP scrape, by IP version.
pub fn udp_scrape_event(ip: &IpAddress) -> (r: Event)
    ensures
        ip is V4 ==> r == Event::Udp4Scrape,
        ip is V6 ==> r == Event::Udp6Scrape,
{
    match ip {
        IpAddress::V4(_) => Event::Udp4Scrape,
        IpAddress::V6(_) => Event::Udp6Scrape,
    }
}

/// Handles a connect request: issues the cookie bound to the sender's
/// address and this moment, to be echoed in the connect response.
pub fn handle_connect(src: &SocketAddress, req: &ConnectRequest, now_secs: u64, secret: u64) -> (r:
    (u64, Event))
    requires
        now_secs <= u32::MAX,
    ensures
        r.0 == cookie::spec_make(*src, now_secs, secret),
        src.ip is V4 ==> r.1 == Event::Udp4Connection,
        src.ip is V6 ==> r.1 == Event::Udp6Connection,
{
    let connection_id = cookie::make(src, now_secs, secret);
    let event = udp_connect_event(&src.ip);
    (connection_id, event)
}

/// Why a UDP announce was refused before it touched the swarm.
#[derive(Clone, Copy, Debug, PartialEq, Eq, Structural)]
pub enum UdpAnnounceError {
    /// The cookie did not validate against the sending address.
    BadCookie(CookieError),
    /// Listed mode and the torrent is not on the allow-list.
    TorrentNotWhitelisted,
}

/// Whether the mode lets this torrent be announced at all: listed and
/// private-listed modes serve only whitelisted torrents, over UDP too.
pub open spec fn spec_announce_allowed(
    mode: TrackerMode,
    whitelist: Seq<crate::info_hash::InfoHash>,
    h: Seq<u8>,
) -> bool {
    spec_mode_requires_whitelist(mode) ==> spec_whitelisted(whitelist, h)
}

/// Handles an announce request: the cookie must bind the request to
/// the sending address and the present moment, and in listed mode the
/// torrent must be on the allow-list; only then is the swarm mutated
/// and a peer list drawn. A refused request yields the error and
/// leaves the tracker exactly as it was.
pub fn handle_announce(
    tracker: &mut Tracker,
    whitelist: &InMemoryWhitelist,
    req: &AnnounceRequest,
    src: &SocketAddress,
    now: DurationSinceUnixEpoch,
    secret: u64,
    rotation_offset: usize,
) -> (r: Result<AnnounceData, UdpAnnounceError>)
    requires
        old(tracker).wf(),
    ensures
        final(tracker).wf(),
        final(tracker).policy == old(tracker).policy,
        r is Ok <==> cookie::spec_cookie_valid(req.connection_id, *src, now.secs,
            old(tracker).policy.connection_cookie_lifetime_seconds, secret)
            && spec_announce_allowed(old(tracker).policy.mode, whitelist.hashes@, req.info_hash@),
        r is Err ==> *final(tracker) == *old(tracker),
        !cookie::spec_cookie_valid(req.connection_id, *src, now.secs,
            old(tracker).policy.connection_cookie_lifetime_seconds, secret)
            ==> (r matches Err(UdpAnnounceError::BadCookie(e))
                && (e == CookieError::InvalidCookie <==> req.connection_id / 0x1_0000_0000
                    != cookie::spec_mac(*src, (req.connection_id % 0x1_0000_0000) as u32,
                        secret))),
        cookie::spec_cookie_valid(req.connection_id, *src, now.secs,
            old(tracker).policy.connection_cookie_lifetime_seconds, secret)
            && !spec_announce_allowed(old(tracker).policy.mode, whitelist.hashes@, req.info_hash@)
            ==> r == Result::<AnnounceData, UdpAnnounceError>::Err(
                UdpAnnounceError::TorrentNotWhitelisted),
        r matches Ok(d) ==> {
            &&& spec_upsert_effect(old(tracker).torrents.torrents@, final(tracker).torrents.torrents@,
                req.info_hash@, spec_announced_peer(*req, src.ip, now), d.stats)
            &&& d.peers@ == spec_select(
                spec_rotated(spec_peers_of(final(tracker).torrents.torrents@, req.info_hash@),
                    rotation_offset as nat),
                req.peer_id@,
                spec_wanted_limit(spec_peers_wanted(req.num_want_raw)),
            )
            &&& forall|i: int| 0 <= i < d.peers@.len()
                ==> (#[trigger] d.peers@[i]).peer_id@ != req.peer_id@
            &&& d.interval == old(tracker).policy.announce_interval_seconds
            &&& d.interval_min == old(tracker).policy.min_announce_interval_seconds
        },
{
    let lifetime = tracker.policy.connection_cookie_lifetime_seconds;
    if let Err(e) = cookie::verify(req.connection_id, src, now.secs, lifetime, secret) {
        return Err(UdpAnnounceError::BadCookie(e));
    }
    if mode_requires_whitelist(tracker.policy.mode) && !whitelist.contains(&req.info_hash) {
        return Err(UdpAnnounceError::TorrentNotWhitelisted);
    }
    let mut peer = Peer {
        peer_id: req.peer_id,
        peer_addr: SocketAddress { ip: src.ip, port: req.port },
        updated: now,
        uploaded: NumberOfBytes(crate::udp_codec::i64_from_u64(req.uploaded)),
        downloaded: NumberOfBytes(crate::udp_codec::i64_from_u64(req.downloaded)),
        left: NumberOfBytes(crate::udp_codec::i64_from_u64(req.left)),
        event: req.event,
    };
    let wanted = peers_wanted_of(req.num_want_raw);
    let d = tracker.announce(&req.info_hash, &mut peer, &src.ip, &wanted, rotation_offset);
    proof {
        assert(peer == spec_announced_peer(*req, src.ip, now));
    }
    Ok(d)
}

/// Handles a scrape request under the cookie gate: the metadata of
/// every named torrent, in request order, zeroed for the unknown
/// ones. The tracker is never mutated by a scrape.
pub fn handle_scrape(
    tracker: &Tracker,
    req: &ScrapeRequest,
    src: &SocketAddress,
    now: DurationSinceUnixEpoch,
    secret: u64,
) -> (r: Result<Vec<SwarmMetadata>, CookieError>)
    requires
        tracker.wf(),
    ensures
        r is Ok <==> cookie::spec_cookie_valid(req.connection_id, *src, now.secs,
            tracker.policy.connection_cookie_lifetime_seconds, secret),
        r matches Err(e) ==> (e == CookieError::InvalidCookie <==> req.connection_id
            / 0x1_0000_0000 != cookie::spec_mac(*src, (req.connection_id % 0x1_0000_0000) as u32,
            secret)),
        r matches Ok(files) ==> {
            &&& files@.len() == req.info_hashes@.len()
            &&& forall|i: int| 0 <= i < files@.len() ==> #[trigger] files@[i]
                == spec_metadata_of(tracker.torrents.torrents@, req.info_hashes@[i]@)
        },
{
    let lifetime = tracker.policy.connection_cookie_lifetime_seconds;
    if let Err(e) = cookie::verify(req.connection_id, src, now.secs, lifetime, secret) {
        return Err(e);
    }
    let data = tracker.scrape(&req.info_hashes);
    let mut files: Vec<SwarmMetadata> = Vec::new();
    let mut i: usize = 0;
    while i < data.files.len()
        invariant
            i <= data.files@.len(),
            data.files@.len() == req.info_hashes@.len(),
            files@.len() == i,
            forall|k: int| 0 <= k < data.files@.len() ==> (#[trigger] data.files@[k]).1
                == spec_metadata_of(tracker.torrents.torrents@, req.info_hashes@[k]@),
            forall|k: int| 0 <= k < i ==> #[trigger] files@[k] == data.files@[k].1,
        decreases data.files@.len() - i,
    {
        files.push(data.files[i].1);
        i = i + 1;
    }
    Ok(files)
}

/// A well-formed connect request: long enough, action `connect`, and
/// the protocol magic in front.
pub open spec fn spec_is_connect_packet(b: Seq<u8>) -> bool {
    b.len() >= 16 && spec_u32_be(b, 8) == 0 && spec_u64_be(b, 0) == PROTOCOL_MAGIC
}

/// An announce datagram that reaches the cookie gate: well formed, and
/// its cookie binds it to the sending address at this moment.
pub open spec fn spec_is_valid_announce_packet(
    b: Seq<u8>,
    src: SocketAddress,
    now_secs: u64,
    lifetime_secs: u64,
    secret: u64,
) -> bool {
    &&& b.len() >= 98
    &&& spec_u32_be(b, 8) == 1
    &&& spec_event_of(spec_u32_be(b, 80)) is Some
    &&& cookie::spec_cookie_valid(spec_u64_be(b, 0), src, now_secs, lifetime_secs, secret)
}

/// A scrape datagram the tracker will answer: well formed, within the
/// torrent cap, under a cookie bound to the sending address.
pub open spec fn spec_is_valid_scrape_packet(
    b: Seq<u8>,
    src: SocketAddress,
    now_secs: u64,
    lifetime_secs: u64,
    secret: u64,
) -> bool {
    &&& b.len() >= 16
    &&& spec_u32_be(b, 8) == 2
    &&& (b.len() - 16) / 20 <= MAX_SCRAPE_TORRENTS as int
    &&& cookie::spec_cookie_valid(spec_u64_be(b, 0), src, now_secs, lifetime_secs, secret)
}

/// A datagram the codec rejects, whatever the cookie says: too short,
/// wrong magic, truncated or ill-evented announce, oversized scrape,
/// or an unknown action.
pub open spec fn spec_parse_failed(b: Seq<u8>) -> bool {
    ||| b.len() < 16
    ||| (spec_u32_be(b, 8) == 0 && spec_u64_be(b, 0) != PROTOCOL_MAGIC)
    ||| (spec_u32_be(b, 8) == 1 && (b.len() < 98 || spec_event_of(spec_u32_be(b, 80)) is None))
    ||| (spec_u32_be(b, 8) == 2 && (b.len() - 16) / 20 > MAX_SCRAPE_TORRENTS as int)
    ||| spec_u32_be(b, 8) > 2
}

/// The transaction id an error response echoes: the request's own when
/// the datagram is long enough to carry one, zero otherwise.
pub open spec fn spec_error_tx(b: Seq<u8>) -> u32 {
    if b.len() >= 16 {
        spec_u32_be(b, 12)
    } else {
        0u32
    }
}

/// The bytes of `bad request`.
pub open spec fn spec_bad_request_text() -> Seq<u8> {
    seq![98u8, 97, 100, 32, 114, 101, 113, 117, 101, 115, 116]
}

/// The bytes of `bad cookie`.
pub open spec fn spec_bad_cookie_text() -> Seq<u8> {
    seq![98u8, 97, 100, 32, 99, 111, 111, 107, 105, 101]
}

/// The bytes of `torrent not whitelisted`.
pub open spec fn spec_not_whitelisted_text() -> Seq<u8> {
    seq![116u8, 111, 114, 114, 101, 110, 116, 32, 110, 111, 116, 32, 119, 104, 105, 116, 101,
        108, 105, 115, 116, 101, 100]
}

/// The whole error response to a refused datagram: action 3, the
/// echoed transaction id, the message.
pub open spec fn spec_error_reply(b: Seq<u8>, message: Seq<u8>) -> Seq<u8> {
    spec_u32_to_be(3) + spec_u32_to_be(spec_error_tx(b)) + message
}

fn bad_request_text() -> (r: Vec<u8>)
    ensures
        r@ == spec_bad_request_text(),
{
    let mut m: Vec<u8> = Vec::new();
    m.push(98);
    m.push(97);
    m.push(100);
    m.push(32);
    m.push(114);
    m.push(101);
    m.push(113);
    m.push(117);
    m.push(101);
    m.push(115);
    m.push(116);
    proof {
        assert(m@ =~= spec_bad_request_text());
    }
    m
}

fn bad_cookie_text() -> (r: Vec<u8>)
    ensures
        r@ == spec_bad_cookie_text(),
{
    let mut m: Vec<u8> = Vec::new();
    m.push(98);
    m.push(97);
    m.push(100);
    m.push(32);
    m.push(99);
    m.push(111);
    m.push(111);
    m.push(107);
    m.push(105);
    m.push(101);
    proof {
        assert(m@ =~= spec_bad_cookie_text());
    }
    m
}

fn not_whitelisted_text() -> (r: Vec<u8>)
    ensures
        r@ == spec_not_whitelisted_text(),
{
    let mut m: Vec<u8> = Vec::new();
    m.push(116);
    m.push(111);
    m.push(114);
    m.push(114);
    m.push(101);
    m.push(110);
    m.push(116);
    m.push(32);
    m.push(110);
    m.push(111);
    m.push(116);
    m.push(32);
    m.push(119);
    m.push(104);
    m.push(105);
    m.push(116);
    m.push(101);
    m.push(108);
    m.push(105);
    m.push(115);
    m.push(116);
    m.push(101);
    m.push(100);
    proof {
        assert(m@ =~= spec_not_whitelisted_text());
    }
    m
}

/// The announce request a well-formed announce datagram spells, tied
/// field by field to its bytes.
pub open spec fn spec_announce_fields(req: AnnounceRequest, b: Seq<u8>) -> bool {
    &&& req.connection_id == spec_u64_be(b, 0)
    &&& req.transaction_id == spec_u32_be(b, 12)
    &&& req.info_hash@ == b.subrange(16, 36)
    &&& req.peer_id@ == b.subrange(36, 56)
    &&& req.downloaded == spec_u64_be(b, 56)
    &&& req.left == spec_u64_be(b, 64)
    &&& req.uploaded == spec_u64_be(b, 72)
    &&& Some(req.event) == spec_event_of(spec_u32_be(b, 80))
    &&& req.ip_raw == spec_u32_be(b, 84)
    &&& req.key == spec_u32_be(b, 88)
    &&& req.num_want_raw == spec_u32_be(b, 92)
    &&& req.port == spec_u16_be(b, 96)
}

/// The peer records a served announce reply carries: the selection
/// drawn from the torrent's swarm, narrowed to the sender's address
/// family so every record has the wire's fixed size.
pub open spec fn spec_announce_reply_peers(
    b: Seq<u8>,
    ts: Seq<TorrentEntry>,
    req: AnnounceRequest,
    rotation_offset: nat,
    v6: bool,
) -> Seq<Peer> {
    crate::swarm::spec_select(
        crate::swarm::spec_rotated(spec_peers_of(ts, b.subrange(16, 36)), rotation_offset),
        req.peer_id@,
        spec_wanted_limit(spec_peers_wanted(req.num_want_raw)),
    ).filter(family_pred(v6))
}

/// The per-torrent counts a served scrape reply carries, one per
/// requested hash, in request order.
pub open spec fn spec_scrape_reply_files(b: Seq<u8>, ts: Seq<TorrentEntry>) -> Seq<
    crate::swarm::SwarmMetadata,
> {
    Seq::new(((b.len() - 16) / 20) as nat, |i: int| spec_metadata_of(ts,
        b.subrange(16 + 20 * i, 36 + 20 * i)))
}

/// The whole per-datagram flow of the UDP server: the ban gate first,
/// then decode, cookie check, whitelist gate and dispatch; errors are
/// answered with the error action, the echoed transaction id and the
/// named message, and counted against the sender alone. Only an
/// announce whose cookie validates and whose torrent the mode allows
/// ever moves the swarms, and only a handled request emits a
/// statistics event.
#[verifier::rlimit(100)]
pub fn handle_packet(
    tracker: &mut Tracker,
    bans: &mut BanService,
    whitelist: &InMemoryWhitelist,
    payload: &[u8],
    src: &SocketAddress,
    now: DurationSinceUnixEpoch,
    secret: u64,
    rotation_offset: usize,
) -> (r: (Option<Vec<u8>>, Option<Event>))
    requires
        old(tracker).wf(),
        old(bans).wf(),
        now.secs <= u32::MAX,
    ensures
        final(tracker).wf(),
        final(bans).wf(),
        final(tracker).policy == old(tracker).policy,
        final(bans).max_errors == old(bans).max_errors,
        final(bans).window_secs == old(bans).window_secs,
        forall|q: IpAddress| q != src.ip ==> spec_record_of(final(bans).records@, q)
            == spec_record_of(old(bans).records@, q),
        spec_is_banned(*old(bans), src.ip, now.secs) ==> r.0 is None && r.1 is None
            && *final(tracker) == *old(tracker) && *final(bans) == *old(bans),
        !spec_is_banned(*old(bans), src.ip, now.secs) ==> r.0 is Some,
        !(spec_is_valid_announce_packet(payload@, *src, now.secs,
            old(tracker).policy.connection_cookie_lifetime_seconds, secret)
            && spec_announce_allowed(old(tracker).policy.mode, whitelist.hashes@,
                payload@.subrange(16, 36)))
            ==> *final(tracker) == *old(tracker),
        !spec_is_banned(*old(bans), src.ip, now.secs) && spec_is_connect_packet(payload@) ==> {
            &&& r.0 matches Some(v) && v@ == spec_u32_to_be(0)
                + spec_u32_to_be(spec_u32_be(payload@, 12))
                + spec_u64_to_be(cookie::spec_make(*src, now.secs, secret))
            &&& (src.ip is V4 ==> r.1 == Some(Event::Udp4Connection))
            &&& (src.ip is V6 ==> r.1 == Some(Event::Udp6Connection))
            &&& *final(bans) == *old(bans)
        },
        !spec_is_banned(*old(bans), src.ip, now.secs) && spec_is_valid_announce_packet(payload@,
            *src, now.secs, old(tracker).policy.connection_cookie_lifetime_seconds, secret)
            && spec_announce_allowed(old(tracker).policy.mode, whitelist.hashes@,
                payload@.subrange(16, 36)) ==> {
            &&& (src.ip is V4 ==> r.1 == Some(Event::Udp4Announce))
            &&& (src.ip is V6 ==> r.1 == Some(Event::Udp6Announce))
            &&& *final(bans) == *old(bans)
            &&& exists|req: AnnounceRequest| {
                &&& #[trigger] spec_announce_fields(req, payload@)
                &&& spec_upsert_effect(old(tracker).torrents.torrents@,
                    final(tracker).torrents.torrents@, payload@.subrange(16, 36),
                    spec_announced_peer(req, src.ip, now),
                    spec_metadata_of(final(tracker).torrents.torrents@,
                        payload@.subrange(16, 36)))
                &&& (r.0 matches Some(v) && v@ == spec_u32_to_be(1)
                    + spec_u32_to_be(spec_u32_be(payload@, 12))
                    + spec_u32_to_be(old(tracker).policy.announce_interval_seconds)
                    + spec_u32_to_be(spec_metadata_of(final(tracker).torrents.torrents@,
                        payload@.subrange(16, 36)).incomplete)
                    + spec_u32_to_be(spec_metadata_of(final(tracker).torrents.torrents@,
                        payload@.subrange(16, 36)).complete) + (if src.ip is V6 {
                    spec_peers_v6(spec_announce_reply_peers(payload@,
                        final(tracker).torrents.torrents@, req, rotation_offset as nat, true))
                } else {
                    spec_peers_v4(spec_announce_reply_peers(payload@,
                        final(tracker).torrents.torrents@, req, rotation_offset as nat, false))
                }))
            }
        },
        !spec_is_banned(*old(bans), src.ip, now.secs) && spec_is_valid_scrape_packet(payload@,
            *src, now.secs, old(tracker).policy.connection_cookie_lifetime_seconds, secret) ==> {
            &&& (src.ip is V4 ==> r.1 == Some(Event::Udp4Scrape))
            &&& (src.ip is V6 ==> r.1 == Some(Event::Udp6Scrape))
            &&& *final(bans) == *old(bans)
            &&& r.0 matches Some(v) && v@ == spec_u32_to_be(2)
                + spec_u32_to_be(spec_u32_be(payload@, 12))
                + spec_scrape_entries(spec_scrape_reply_files(payload@,
                    final(tracker).torrents.torrents@))
        },
        !spec_is_banned(*old(bans), src.ip, now.secs) && spec_parse_failed(payload@) ==> {
            &&& r.0 matches Some(v) && v@ == spec_error_reply(payload@, spec_bad_request_text())
            &&& r.1 is None
            &&& spec_record_of(final(bans).records@, src.ip) == spec_record_after_error(
                old(bans).records@, old(bans).window_secs, src.ip, now.secs)
        },
        !spec_is_banned(*old(bans), src.ip, now.secs) && !spec_parse_failed(payload@)
            && payload@.len() >= 16 && (spec_u32_be(payload@, 8) == 1
                || spec_u32_be(payload@, 8) == 2)
            && !cookie::spec_cookie_valid(spec_u64_be(payload@, 0), *src, now.secs,
                old(tracker).policy.connection_cookie_lifetime_seconds, secret) ==> {
            &&& r.0 matches Some(v) && v@ == spec_error_reply(payload@, spec_bad_cookie_text())
            &&& r.1 is None
            &&& spec_record_of(final(bans).records@, src.ip) == spec_record_after_error(
                old(bans).records@, old(bans).window_secs, src.ip, now.secs)
        },
        !spec_is_banned(*old(bans), src.ip, now.secs) && spec_is_valid_announce_packet(payload@,
            *src, now.secs, old(tracker).policy.connection_cookie_lifetime_seconds, secret)
            && !spec_announce_allowed(old(tracker).policy.mode, whitelist.hashes@,
                payload@.subrange(16, 36)) ==> {
            &&& r.0 matches Some(v) && v@ == spec_error_reply(payload@,
                spec_not_whitelisted_text())
            &&& r.1 is None
            &&& spec_record_of(final(bans).records@, src.ip) == spec_record_after_error(
                old(bans).records@, old(bans).window_secs, src.ip, now.secs)
        },
{
    if bans.is_banned(&src.ip, now.secs) {
        return (None, None);
    }
    let tx: u32 = if payload.len() >= 16 {
        crate::udp_codec::read_u32_be(payload, 12)
    } else {
        0
    };
    match parse_request(payload) {
        Err(_) => {
            bans.record_error(&src.ip, now.secs);
            let msg = bad_request_text();
            let v = encode_error_response(tx, msg.as_slice());
            proof {
                assert(v@ =~= spec_error_reply(payload@, spec_bad_request_text()));
            }
            (Some(v), None)
        },
        Ok(Request::Connect(c)) => {
            let (connection_id, event) = handle_connect(src, &c, now.secs, secret);
            let v = encode_connect_response(c.transaction_id, connection_id);
            (Some(v), Some(event))
        },
        Ok(Request::Announce(a)) => {
            match handle_announce(tracker, whitelist, &a, src, now, secret, rotation_offset) {
                Ok(d) => {
                    let v6 = matches!(src.ip, IpAddress::V6(_));
                    let peers = peers_of_family(&d.peers, v6);
                    let v = encode_announce_response(a.transaction_id, d.interval,
                        d.stats.incomplete, d.stats.complete, &peers, v6);
                    proof {
                        let b = payload@;
                        let ts1 = final(tracker).torrents.torrents@;
                        assert(spec_announce_fields(a, b));
                        assert(a.info_hash@ == b.subrange(16, 36));
                        assert(d.stats == spec_metadata_of(ts1, b.subrange(16, 36)));
                        assert(peers@ == spec_announce_reply_peers(b, ts1, a,
                            rotation_offset as nat, v6));
                    }
                    (Some(v), Some(udp_announce_event(&src.ip)))
                },
                Err(UdpAnnounceError::BadCookie(_)) => {
                    bans.record_error(&src.ip, now.secs);
                    let msg = bad_cookie_text();
                    let v = encode_error_response(a.transaction_id, msg.as_slice());
                    proof {
                        assert(v@ =~= spec_error_reply(payload@, spec_bad_cookie_text()));
                    }
                    (Some(v), None)
                },
                Err(UdpAnnounceError::TorrentNotWhitelisted) => {
                    bans.record_error(&src.ip, now.secs);
                    let msg = not_whitelisted_text();
                    let v = encode_error_response(a.transaction_id, msg.as_slice());
                    proof {
                        assert(v@ =~= spec_error_reply(payload@, spec_not_whitelisted_text()));
                    }
                    (Some(v), None)
                },
            }
        },
        Ok(Request::Scrape(s)) => {
            match handle_scrape(tracker, &s, src, now, secret) {
                Ok(files) => {
                    let v = encode_scrape_response(s.transaction_id, &files);
                    proof {
                        assert(files@ =~= spec_scrape_reply_files(payload@,
                            final(tracker).torrents.torrents@));
                    }
                    (Some(v), Some(udp_scrape_event(&src.ip)))
                },
                Err(_) => {
                    bans.record_error(&src.ip, now.secs);
                    let msg = bad_cookie_text();
                    let v = encode_error_response(s.transaction_id, msg.as_slice());
                    proof {
                        assert(v@ =~= spec_error_reply(payload@, spec_bad_cookie_text()));
                    }
                    (Some(v), None)
                },
            }
        },
    }
}

} // verus!
