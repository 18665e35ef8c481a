//! A peer as the swarm repository stores it: identity, contact
//! address, reported byte counters, last announce time and event.

use vstd::prelude::*;
use crate::primitives::{AnnounceEvent, DurationSinceUnixEpoch, IpAddress, NumberOfBytes,
    SocketAddress};

verus! {

/// Opaque 20-byte peer identifier chosen by the client; equality is
/// byte-wise.
#[derive(Clone, Copy, Debug, PartialEq, Eq, Hash)]
pub struct PeerId(pub [u8; 20]);

impl PeerId {
    /// The bytes of the identifier, as a mathematical sequence.
    pub open spec fn view(self) -> Seq<u8> {
        self.0@
    }

    pub fn eq_bytes(&self, other: &PeerId) -> (r: bool)
        ensures
            r == (self@ == other@),
    {
        let mut i: usize = 0;
        while i < 20
            invariant
                i <= 20,
                forall|k: int| 0 <= k < i ==> self@[k] == other@[k],
            decreases 20 - i,
        {
            if self.0[i] != other.0[i] {
                assert(self@[i as int] != other@[i as int]);
                return false;
            }
            i = i + 1;
        }
        assert(self@ =~= other@);
        true
    }
}

/// A peer of one torrent's swarm.
#[derive(Clone, Copy, Debug, PartialEq, Eq)]
pub struct Peer {
    /// Identifier the client chose; the key within a swarm entry.
    pub peer_id: PeerId,
    /// The address other peers should contact, as the tracker
    /// resolved it.
    pub peer_addr: SocketAddress,
    /// Time of the last announce.
    pub updated: DurationSinceUnixEpoch,
    /// Bytes uploaded, as reported by the peer.
    pub uploaded: NumberOfBytes,
    /// Bytes downloaded, as reported by the peer.
    pub downloaded: NumberOfBytes,
    /// Bytes still to download; zero marks a seeder.
    pub left: NumberOfBytes,
    /// Event reported with the announce.
    pub event: AnnounceEvent,
}

impl Peer {
    /// A seeder holds the whole torrent: nothing left to download.
    pub open spec fn spec_is_seeder(self) -> bool {
        self.left.0 == 0
    }

    pub fn is_seeder(&self) -> (r: bool)
        ensures
            r == self.spec_is_seeder(),
    {
        self.left.0 == 0
    }

    /// A peer is fresh at `now_secs` when its last announce is at most
    /// `timeout_secs` old; otherwise it is stale and the reaper may
    /// remove it.
    pub open spec fn spec_is_fresh(self, now_secs: u64, timeout_secs: u64) -> bool {
        now_secs <= self.updated.secs + timeout_secs
    }

    pub fn is_fresh(&self, now_secs: u64, timeout_secs: u64) -> (r: bool)
        ensures
            r == self.spec_is_fresh(now_secs, timeout_secs),
    {
        if self.updated.secs >= now_secs {
            true
        } else {
            now_secs - self.updated.secs <= timeout_secs
        }
    }

    /// The IP under which the tracker stored the peer.
    pub fn ip(&self) -> (r: IpAddress)
        ensures
            r == self.peer_addr.ip,
    {
        self.peer_addr.ip
    }
}

} // verus!
