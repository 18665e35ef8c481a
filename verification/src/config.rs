//! The configuration the core consumes: gate mode, response intervals,
//! peer staleness, and address-resolution policy. The loader that fills
//! it lives outside the core.

use vstd::prelude::*;
use crate::primitives::IpAddress;

verus! {

/// Which gates an announce or scrape must pass.
#[derive(Clone, Copy, Debug, PartialEq, Eq, Structural)]
pub enum TrackerMode {
    /// Anyone may announce any torrent.
    Public,
    /// Only whitelisted torrents are served.
    Listed,
    /// Only requests carrying a valid authentication key are served.
    Private,
    /// Both gates apply; authentication first.
    PrivateListed,
}

/// The tracker's policy knobs, as the core reads them.
#[derive(Clone, Copy, Debug, PartialEq, Eq, Structural)]
pub struct TrackerPolicy {
    pub mode: TrackerMode,
    /// Announce interval hint handed to clients, in seconds.
    pub announce_interval_seconds: u32,
    /// Minimum announce interval hint, in seconds.
    pub min_announce_interval_seconds: u32,
    /// Peers older than this are stale and may be reaped.
    pub peer_timeout_seconds: u64,
    /// Whether the reaper prunes torrents left without peers.
    pub remove_peerless_torrents: bool,
    /// Whether the persistent download counter is kept at all.
    pub persistent_torrent_completed_stat: bool,
    /// Trust the rightmost X-Forwarded-For entry instead of the
    /// observed source address.
    pub on_reverse_proxy: bool,
    /// Lifetime of a UDP connection cookie, in seconds.
    pub connection_cookie_lifetime_seconds: u64,
    /// Per-IP errors tolerated before the ban service drops traffic.
    pub max_connection_id_errors_per_ip: u32,
}

/// Address override for deployments behind NAT: when set, peers that
/// announce from the loopback are published under this address.
#[derive(Clone, Copy, Debug, PartialEq, Eq, Structural)]
pub struct ExternalIp {
    pub configured: bool,
    pub ip: IpAddress,
}

/// Modes that demand an authentication key on every request.
pub open spec fn spec_mode_requires_auth(mode: TrackerMode) -> bool {
    mode == TrackerMode::Private || mode == TrackerMode::PrivateListed
}

pub fn mode_requires_auth(mode: TrackerMode) -> (r: bool)
    ensures
        r == spec_mode_requires_auth(mode),
{
    match mode {
        TrackerMode::Private | TrackerMode::PrivateListed => true,
        _ => false,
    }
}

/// Modes that serve only whitelisted torrents.
pub open spec fn spec_mode_requires_whitelist(mode: TrackerMode) -> bool {
    mode == TrackerMode::Listed || mode == TrackerMode::PrivateListed
}

pub fn mode_requires_whitelist(mode: TrackerMode) -> (r: bool)
    ensures
        r == spec_mode_requires_whitelist(mode),
{
    match mode {
        TrackerMode::Listed | TrackerMode::PrivateListed => true,
        _ => false,
    }
}

impl TrackerPolicy {
    /// A public tracker with the customary defaults.
    pub fn default_public() -> (r: TrackerPolicy)
        ensures
            r.mode == TrackerMode::Public,
            r.announce_interval_seconds == 120u32,
            r.min_announce_interval_seconds == 120u32,
            r.peer_timeout_seconds == 900u64,
            r.connection_cookie_lifetime_seconds == 120u64,
    {
        TrackerPolicy {
            mode: TrackerMode::Public,
            announce_interval_seconds: 120,
            min_announce_interval_seconds: 120,
            peer_timeout_seconds: 900,
            remove_peerless_torrents: false,
            persistent_torrent_completed_stat: false,
            on_reverse_proxy: false,
            connection_cookie_lifetime_seconds: 120,
            max_connection_id_errors_per_ip: 10,
        }
    }
}

} // verus!
