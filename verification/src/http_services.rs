//! The announce and scrape services of the HTTP tracker: peer-address
//! resolution, the authentication and whitelist gates in order, the
//! swarm call, and the statistics event each handled request emits.

use vstd::prelude::*;
use crate::authentication::{spec_authenticate, AuthenticationError, AuthenticationService};
use crate::config::{mode_requires_auth, mode_requires_whitelist, spec_mode_requires_auth,
    spec_mode_requires_whitelist, ExternalIp, TrackerMode};
use crate::http_auth;
use crate::info_hash::InfoHash;
use crate::peer::Peer;
use crate::primitives::{IpAddress, PeersWanted};
use crate::statistics::{announce_event_for_ip_version, scrape_event_for_ip_version, Event};
use crate::swarm::{spec_rotated, spec_select, SwarmMetadata};
use crate::tracker::{spec_metadata_of, spec_upsert_effect, spec_peers_of, spec_wanted_limit,
    AnnounceData, ScrapeData, Tracker};
use crate::whitelist::{spec_whitelisted, InMemoryWhitelist};

verus! {

/// A loopback address: a peer that reached the tracker over its own
/// host, whose observed address is useless to other peers.
pub open spec fn spec_is_loopback(ip: IpAddress) -> bool {
    match ip {
        IpAddress::V4(a) => a / 0x100_0000 == 127,
        IpAddress::V6(a) => a == 1,
    }
}

pub fn is_loopback(ip: &IpAddress) -> (r: bool)
    ensures
        r == spec_is_loopback(*ip),
{
    match ip {
        IpAddress::V4(a) => *a / 0x100_0000 == 127,
        IpAddress::V6(a) => *a == 1,
    }
}

/// What address resolution yields before the NAT override: behind a
/// reverse proxy the rightmost X-Forwarded-For entry is the client and
/// a request without one is refused; otherwise the observed source
/// address stands.
pub open spec fn spec_base_peer_ip(
    observed: IpAddress,
    xff_rightmost: Option<IpAddress>,
    on_reverse_proxy: bool,
) -> Option<IpAddress> {
    if on_reverse_proxy {
        xff_rightmost
    } else {
        Some(observed)
    }
}

/// Resolves the peer address the tracker will publish: the reverse
/// proxy's rightmost X-Forwarded-For entry or the observed source
/// address; a loopback result is replaced with the configured external
/// address, so a tracker behind NAT publishes a reachable peer.
pub fn resolve_peer_ip(
    observed: &IpAddress,
    xff_rightmost: Option<IpAddress>,
    on_reverse_proxy: bool,
    external_ip: &ExternalIp,
) -> (r: Option<IpAddress>)
    ensures
        r == (match spec_base_peer_ip(*observed, xff_rightmost, on_reverse_proxy) {
            None => None::<IpAddress>,
            Some(base) => if spec_is_loopback(base) && external_ip.configured {
                Some(external_ip.ip)
            } else {
                Some(base)
            },
        }),
{
    let base = if on_reverse_proxy {
        match xff_rightmost {
            Some(ip) => ip,
            None => {
                return None;
            },
        }
    } else {
        *observed
    };
    if is_loopback(&base) && external_ip.configured {
        Some(external_ip.ip)
    } else {
        Some(base)
    }
}

/// Why the gates refused a request before it touched the swarm.
#[derive(Clone, Copy, Debug, PartialEq, Eq, Structural)]
pub enum ServiceError {
    /// A private tracker and no usable key segment.
    KeyRequired(http_auth::Error),
    /// The key failed against the store.
    Authentication(AuthenticationError),
    /// Listed mode and the torrent is not on the allow-list.
    TorrentNotWhitelisted,
}

/// The failure reason a refused request puts on the wire: key
/// extraction errors name what was missing (nothing about the store),
/// every store-level authentication failure gives the one generic
/// reason, and a whitelist refusal says so.
pub open spec fn spec_service_failure_reason(e: ServiceError) -> Seq<char> {
    match e {
        ServiceError::KeyRequired(k) => crate::http_auth::spec_failure_reason(k),
        ServiceError::Authentication(_) => crate::http_auth::spec_generic_auth_failure_reason(),
        ServiceError::TorrentNotWhitelisted => "torrent not whitelisted"@,
    }
}

pub fn service_failure_reason(e: &ServiceError) -> (r: &'static str)
    ensures
        r@ == spec_service_failure_reason(*e),
{
    match e {
        ServiceError::KeyRequired(k) => k.failure_reason(),
        ServiceError::Authentication(a) => crate::http_auth::auth_failure_reason(a),
        ServiceError::TorrentNotWhitelisted => "torrent not whitelisted",
    }
}

/// The outcome of the mode's gates: authentication first, the
/// whitelist second.
pub open spec fn spec_authorize(
    mode: TrackerMode,
    keys: Seq<crate::authentication::Key>,
    whitelist: Seq<InfoHash>,
    key: Option<Seq<u8>>,
    info_hash: Seq<u8>,
    now_secs: u64,
) -> Result<(), ServiceError> {
    let auth = if spec_mode_requires_auth(mode) {
        match key {
            None => Err(ServiceError::KeyRequired(http_auth::Error::MissingAuthKey)),
            Some(k) => match spec_authenticate(keys, k, now_secs) {
                Err(e) => Err(ServiceError::Authentication(e)),
                Ok(()) => Ok(()),
            },
        }
    } else {
        Ok(())
    };
    match auth {
        Err(e) => Err(e),
        Ok(()) => if spec_mode_requires_whitelist(mode) && !spec_whitelisted(whitelist,
            info_hash) {
            Err(ServiceError::TorrentNotWhitelisted)
        } else {
            Ok(())
        },
    }
}

/// Runs the mode's gates for one request.
pub fn authorize(
    mode: TrackerMode,
    keys: &AuthenticationService,
    whitelist: &InMemoryWhitelist,
    key: Option<&[u8]>,
    info_hash: &InfoHash,
    now_secs: u64,
) -> (r: Result<(), ServiceError>)
    requires
        keys.wf(),
    ensures
        r == spec_authorize(mode, keys.keys@, whitelist.hashes@, match key {
            Some(k) => Some(k@),
            None => None,
        }, info_hash@, now_secs),
{
    if mode_requires_auth(mode) {
        match key {
            None => {
                return Err(ServiceError::KeyRequired(http_auth::Error::MissingAuthKey));
            },
            Some(k) => {
                if let Err(e) = keys.authenticate(k, now_secs) {
                    return Err(ServiceError::Authentication(e));
                }
            },
        }
    }
    if mode_requires_whitelist(mode) {
        if !whitelist.contains(info_hash) {
            return Err(ServiceError::TorrentNotWhitelisted);
        }
    }
    Ok(())
}

/// The announce service: gates first, then the swarm mutation and the
/// peer selection, and the announce event of the peer's IP version. A
/// refused request changes nothing.
pub fn announce_service(
    tracker: &mut Tracker,
    keys: &AuthenticationService,
    whitelist: &InMemoryWhitelist,
    key: Option<&[u8]>,
    info_hash: &InfoHash,
    peer: &mut Peer,
    remote_client_ip: &IpAddress,
    peers_wanted: &PeersWanted,
    rotation_offset: usize,
    now_secs: u64,
) -> (r: Result<(AnnounceData, Event), ServiceError>)
    requires
        old(tracker).wf(),
        keys.wf(),
    ensures
        final(tracker).wf(),
        r matches Err(e) ==> {
            &&& Err::<(), ServiceError>(e) == spec_authorize(old(tracker).policy.mode, keys.keys@,
                whitelist.hashes@, match key {
                    Some(k) => Some(k@),
                    None => None,
                }, info_hash@, now_secs)
            &&& *final(tracker) == *old(tracker)
            &&& *final(peer) == *old(peer)
        },
        r is Ok <==> spec_authorize(old(tracker).policy.mode, keys.keys@, whitelist.hashes@,
            match key {
                Some(k) => Some(k@),
                None => None,
            }, info_hash@, now_secs) is Ok,
        r matches Ok((d, event)) ==> {
            &&& *final(peer) == (Peer {
                peer_addr: crate::primitives::SocketAddress {
                    ip: *remote_client_ip,
                    port: old(peer).peer_addr.port,
                },
                ..*old(peer)
            })
            &&& spec_upsert_effect(old(tracker).torrents.torrents@, final(tracker).torrents.torrents@,
                info_hash@, *final(peer), d.stats)
            &&& d.peers@ == spec_select(
                spec_rotated(spec_peers_of(final(tracker).torrents.torrents@, info_hash@),
                    rotation_offset as nat),
                old(peer).peer_id@,
                spec_wanted_limit(*peers_wanted),
            )
            &&& forall|i: int| 0 <= i < d.peers@.len()
                ==> (#[trigger] d.peers@[i]).peer_id@ != old(peer).peer_id@
            &&& d.interval == old(tracker).policy.announce_interval_seconds
            &&& d.interval_min == old(tracker).policy.min_announce_interval_seconds
            &&& (remote_client_ip is V4 ==> event == Event::Tcp4Announce)
            &&& (remote_client_ip is V6 ==> event == Event::Tcp6Announce)
        },
{
    if let Err(e) = authorize(tracker.policy.mode, keys, whitelist, key, info_hash, now_secs) {
        return Err(e);
    }
    let d = tracker.announce(info_hash, peer, remote_client_ip, peers_wanted, rotation_offset);
    let event = announce_event_for_ip_version(remote_client_ip.version());
    Ok((d, event))
}

/// The HTTP scrape service: the swarm counts of each requested
/// torrent, in request order, and the scrape event of the requesting
/// peer's IP version. Each HTTP request also counts as one TCP
/// connection, which the caller reports alongside the returned event.
pub fn invoke(tracker: &Tracker, info_hashes: &Vec<InfoHash>, original_peer_ip: &IpAddress) -> (r:
    (ScrapeData, Event))
    requires
        tracker.wf(),
    ensures
        r.0.files@.len() == info_hashes@.len(),
        forall|i: int| 0 <= i < r.0.files@.len()
            ==> (#[trigger] r.0.files@[i]).0 == info_hashes@[i]
                && r.0.files@[i].1 == spec_metadata_of(tracker.torrents.torrents@,
                    info_hashes@[i]@),
        original_peer_ip is V4 ==> r.1 == Event::Tcp4Scrape,
        original_peer_ip is V6 ==> r.1 == Event::Tcp6Scrape,
{
    let data = tracker.scrape(info_hashes);
    let event = scrape_event_for_ip_version(original_peer_ip.version());
    (data, event)
}

/// The fake scrape service a private tracker answers an
/// unauthenticated peer with: zeroed counts for every requested
/// torrent, leaking nothing about which torrents exist, while the
/// scrape event is still emitted.
pub fn fake(info_hashes: &Vec<InfoHash>, original_peer_ip: &IpAddress) -> (r: (ScrapeData, Event))
    ensures
        r.0.files@.len() == info_hashes@.len(),
        forall|i: int| 0 <= i < r.0.files@.len()
            ==> (#[trigger] r.0.files@[i]).0 == info_hashes@[i]
                && r.0.files@[i].1 == (SwarmMetadata { complete: 0u32, downloaded: 0u32,
                    incomplete: 0u32 }),
        original_peer_ip is V4 ==> r.1 == Event::Tcp4Scrape,
        original_peer_ip is V6 ==> r.1 == Event::Tcp6Scrape,
{
    let data = ScrapeData::zeroed(info_hashes);
    let event = scrape_event_for_ip_version(original_peer_ip.version());
    (data, event)
}

} // verus!
