//! Primitive value types shared by every component of the tracker core:
//! byte counters, announce events, IP addresses modelled as plain
//! integers, socket addresses and instants on the Unix time line.

use vstd::prelude::*;

verus! {

/// Number of bytes downloaded, uploaded or pending to download (left)
/// as reported by a peer.
#[derive(Clone, Copy, Debug, PartialEq, Eq, Structural)]
pub struct NumberOfBytes(pub i64);

impl NumberOfBytes {
    pub fn new(n: i64) -> (r: Self)
        ensures
            r.0 == n,
    {
        NumberOfBytes(n)
    }
}

/// IP version used by a peer to reach the tracker: IPv4 or IPv6.
#[derive(Clone, Copy, Debug, PartialEq, Eq, Structural)]
pub enum IPVersion {
    IPv4,
    IPv6,
}

/// Duration since the Unix epoch; the tracker's clock readings.
#[derive(Clone, Copy, Debug, PartialEq, Eq, Structural)]
pub struct DurationSinceUnixEpoch {
    pub secs: u64,
    pub nanos: u32,
}

impl DurationSinceUnixEpoch {
    pub fn new(secs: u64, nanos: u32) -> (r: Self)
        requires
            nanos < 1_000_000_000,
        ensures
            r.secs == secs,
            r.nanos == nanos,
    {
        DurationSinceUnixEpoch { secs, nanos }
    }

    pub fn as_secs(&self) -> (r: u64)
        ensures
            r == self.secs,
    {
        self.secs
    }

    /// The duration as whole milliseconds, truncated to 64 bits (the
    /// count wraps past `u64::MAX`): the form in which timestamps
    /// leave the management API.
    pub fn as_millis_truncated(&self) -> (r: u64)
        requires
            self.nanos < 1_000_000_000,
        ensures
            r == (self.secs * 1000 + self.nanos / 1_000_000) % 0x1_0000_0000_0000_0000,
    {
        let ms = (self.nanos / 1_000_000) as u64;
        let wide: u128 = (self.secs as u128) * 1000 + (ms as u128);
        proof {
            assert(wide == self.secs * 1000 + self.nanos / 1_000_000);
        }
        (wide % 0x1_0000_0000_0000_0000u128) as u64
    }
}

/// Event reported by a peer on an announce. `Empty` stands for an
/// announce that names no event at all.
#[derive(Clone, Copy, Debug, PartialEq, Eq, Structural)]
pub enum AnnounceEvent {
    Started,
    Stopped,
    Completed,
    Empty,
}

/// An IP address held as a plain integer: 32 bits for IPv4,
/// 128 bits for IPv6, in network (big-endian) numeric value.
#[derive(Clone, Copy, Debug, PartialEq, Eq, Structural)]
pub enum IpAddress {
    V4(u32),
    V6(u128),
}

impl IpAddress {
    pub open spec fn spec_version(self) -> IPVersion {
        match self {
            IpAddress::V4(_) => IPVersion::IPv4,
            IpAddress::V6(_) => IPVersion::IPv6,
        }
    }

    pub fn version(&self) -> (r: IPVersion)
        ensures
            r == self.spec_version(),
    {
        match self {
            IpAddress::V4(_) => IPVersion::IPv4,
            IpAddress::V6(_) => IPVersion::IPv6,
        }
    }
}

/// A socket address: an IP address together with a port.
#[derive(Clone, Copy, Debug, PartialEq, Eq, Structural)]
pub struct SocketAddress {
    pub ip: IpAddress,
    pub port: u16,
}

/// How many peers an announce asks for: everything the tracker will
/// give, or a specific count.
#[derive(Clone, Copy, Debug, PartialEq, Eq, Structural)]
pub enum PeersWanted {
    All,
    Only(u32),
}

/// Aggregate swarm counts over every torrent the tracker holds.
#[derive(Clone, Copy, Debug, PartialEq, Eq, Structural)]
pub struct TorrentsMetrics {
    /// Total number of seeders over all torrents.
    pub complete: u64,
    /// Total number of lifetime completed downloads over all torrents.
    pub downloaded: u64,
    /// Total number of leechers over all torrents.
    pub incomplete: u64,
    /// Number of torrents.
    pub torrents: u64,
}

} // verus!
