//! The statistics resource exposed by the management API: a flat view
//! of the tracker metrics.

use vstd::prelude::*;
use crate::statistics::TrackerMetrics;

verus! {

/// All the statistics generated by the tracker, flattened for the API.
#[derive(Clone, Copy, Debug, PartialEq, Eq, Structural)]
pub struct Stats {
    /// Total number of torrents.
    pub torrents: u64,
    /// Total number of seeders over all torrents.
    pub seeders: u64,
    /// Total number of peers that ever completed a download.
    pub completed: u64,
    /// Total number of leechers over all torrents.
    pub leechers: u64,
    /// TCP (HTTP tracker) connections from IPv4 peers. The HTTP
    /// tracker has no handshake, so every HTTP request counts here.
    pub tcp4_connections_handled: u64,
    /// TCP announce requests from IPv4 peers.
    pub tcp4_announces_handled: u64,
    /// TCP scrape requests from IPv4 peers.
    pub tcp4_scrapes_handled: u64,
    /// TCP connections from IPv6 peers.
    pub tcp6_connections_handled: u64,
    /// TCP announce requests from IPv6 peers.
    pub tcp6_announces_handled: u64,
    /// TCP scrape requests from IPv6 peers.
    pub tcp6_scrapes_handled: u64,
    /// UDP connection requests from IPv4 peers.
    pub udp4_connections_handled: u64,
    /// UDP announce requests from IPv4 peers.
    pub udp4_announces_handled: u64,
    /// UDP scrape requests from IPv4 peers.
    pub udp4_scrapes_handled: u64,
    /// UDP connection requests from IPv6 peers.
    pub udp6_connections_handled: u64,
    /// UDP announce requests from IPv6 peers.
    pub udp6_announces_handled: u64,
    /// UDP scrape requests from IPv6 peers.
    pub udp6_scrapes_handled: u64,
}

/// What the conversion from a metrics snapshot to the API resource
/// returns: every counter carried over, the aggregate counts renamed
/// (complete to seeders, downloaded to completed, incomplete to
/// leechers).
pub open spec fn spec_stats_from_metrics(metrics: TrackerMetrics) -> Stats {
    Stats {
        torrents: metrics.torrents_metrics.torrents,
        seeders: metrics.torrents_metrics.complete,
        completed: metrics.torrents_metrics.downloaded,
        leechers: metrics.torrents_metrics.incomplete,
        tcp4_connections_handled: metrics.protocol_metrics.tcp4_connections_handled,
        tcp4_announces_handled: metrics.protocol_metrics.tcp4_announces_handled,
        tcp4_scrapes_handled: metrics.protocol_metrics.tcp4_scrapes_handled,
        tcp6_connections_handled: metrics.protocol_metrics.tcp6_connections_handled,
        tcp6_announces_handled: metrics.protocol_metrics.tcp6_announces_handled,
        tcp6_scrapes_handled: metrics.protocol_metrics.tcp6_scrapes_handled,
        udp4_connections_handled: metrics.protocol_metrics.udp4_connections_handled,
        udp4_announces_handled: metrics.protocol_metrics.udp4_announces_handled,
        udp4_scrapes_handled: metrics.protocol_metrics.udp4_scrapes_handled,
        udp6_connections_handled: metrics.protocol_metrics.udp6_connections_handled,
        udp6_announces_handled: metrics.protocol_metrics.udp6_announces_handled,
        udp6_scrapes_handled: metrics.protocol_metrics.udp6_scrapes_handled,
    }
}

impl From<TrackerMetrics> for Stats {
    fn from(metrics: TrackerMetrics) -> (r: Self) {
        Stats {
            torrents: metrics.torrents_metrics.torrents,
            seeders: metrics.torrents_metrics.complete,
            completed: metrics.torrents_metrics.downloaded,
            leechers: metrics.torrents_metrics.incomplete,
            tcp4_connections_handled: metrics.protocol_metrics.tcp4_connections_handled,
            tcp4_announces_handled: metrics.protocol_metrics.tcp4_announces_handled,
            tcp4_scrapes_handled: metrics.protocol_metrics.tcp4_scrapes_handled,
            tcp6_connections_handled: metrics.protocol_metrics.tcp6_connections_handled,
            tcp6_announces_handled: metrics.protocol_metrics.tcp6_announces_handled,
            tcp6_scrapes_handled: metrics.protocol_metrics.tcp6_scrapes_handled,
            udp4_connections_handled: metrics.protocol_metrics.udp4_connections_handled,
            udp4_announces_handled: metrics.protocol_metrics.udp4_announces_handled,
            udp4_scrapes_handled: metrics.protocol_metrics.udp4_scrapes_handled,
            udp6_connections_handled: metrics.protocol_metrics.udp6_connections_handled,
            udp6_announces_handled: metrics.protocol_metrics.udp6_announces_handled,
            udp6_scrapes_handled: metrics.protocol_metrics.udp6_scrapes_handled,
        }
    }
}

impl vstd::std_specs::convert::FromSpecImpl<TrackerMetrics> for Stats {
    open spec fn obeys_from_spec() -> bool {
        true
    }

    open spec fn from_spec(metrics: TrackerMetrics) -> Stats {
        spec_stats_from_metrics(metrics)
    }
}

} // verus!
