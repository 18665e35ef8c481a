//! The in-memory torrent repository and the tracker core built on it:
//! peer upsert with the persistent download counter, scrape, aggregate
//! metrics, stale-peer reaping and announce orchestration.

use vstd::prelude::*;
use crate::info_hash::InfoHash;
use crate::peer::{Peer, PeerId};
use crate::primitives::{AnnounceEvent, IpAddress, PeersWanted, TorrentsMetrics};
use crate::swarm::{spec_complete, spec_completed_transition, spec_contains_id, spec_incomplete,
    spec_rotated, spec_select, SwarmEntry, SwarmMetadata};

verus! {

/// Hard cap on the number of peers one announce response carries, so
/// a UDP response fits one datagram.
pub const TORRENT_PEERS_LIMIT: usize = 74;

/// A count clamped to the 32-bit wire range.
pub open spec fn clamp32(n: nat) -> u32 {
    if n <= u32::MAX {
        n as u32
    } else {
        u32::MAX
    }
}

/// One more completed download, saturating at the top of `u32`.
pub open spec fn sat_inc32(n: u32) -> u32 {
    if n == u32::MAX {
        u32::MAX
    } else {
        (n + 1) as u32
    }
}

/// One torrent as the repository holds it: the identifier, the swarm,
/// and the persistent count of completed downloads.
pub struct TorrentEntry {
    pub info_hash: InfoHash,
    pub swarm: SwarmEntry,
    pub downloaded: u32,
}

/// True when some entry carries the hash.
pub open spec fn spec_contains_hash(ts: Seq<TorrentEntry>, h: Seq<u8>) -> bool {
    exists|i: int| 0 <= i < ts.len() && ts[i].info_hash@ == h
}

/// Index of the entry carrying the hash (unique under `wf`).
pub open spec fn spec_index_of_hash(ts: Seq<TorrentEntry>, h: Seq<u8>) -> int {
    choose|i: int| 0 <= i < ts.len() && ts[i].info_hash@ == h
}

/// The peers of the torrent under `h`; an unknown torrent has none.
pub open spec fn spec_peers_of(ts: Seq<TorrentEntry>, h: Seq<u8>) -> Seq<Peer> {
    if spec_contains_hash(ts, h) {
        ts[spec_index_of_hash(ts, h)].swarm.peers@
    } else {
        Seq::<Peer>::empty()
    }
}

/// The persistent download counter of the torrent under `h`; an
/// unknown torrent counts zero.
pub open spec fn spec_downloaded_of(ts: Seq<TorrentEntry>, h: Seq<u8>) -> u32 {
    if spec_contains_hash(ts, h) {
        ts[spec_index_of_hash(ts, h)].downloaded
    } else {
        0u32
    }
}

/// The scrape view of the torrent under `h`: live counts from the
/// swarm, the download counter from the entry; all zero when unknown.
pub open spec fn spec_metadata_of(ts: Seq<TorrentEntry>, h: Seq<u8>) -> SwarmMetadata {
    SwarmMetadata {
        complete: clamp32(spec_complete(spec_peers_of(ts, h))),
        downloaded: spec_downloaded_of(ts, h),
        incomplete: clamp32(spec_incomplete(spec_peers_of(ts, h))),
    }
}

/// Everything one peer upsert does to the repository, as a relation
/// between the entries before (`ts0`) and after (`ts1`):
/// the returned metadata is the post-mutation view of the torrent; the
/// persistent download counter grows exactly once on a completed
/// transition and never shrinks for any torrent; torrents under any
/// other hash are untouched; a Stopped event removes exactly the
/// matching peer id and leaves every other peer alone; any other event
/// stores the announced peer under its id and leaves every other peer
/// alone.
pub open spec fn spec_upsert_effect(
    ts0: Seq<TorrentEntry>,
    ts1: Seq<TorrentEntry>,
    h: Seq<u8>,
    peer: Peer,
    stats: SwarmMetadata,
) -> bool {
    &&& stats == spec_metadata_of(ts1, h)
    &&& spec_downloaded_of(ts1, h) == if spec_completed_transition(spec_peers_of(ts0, h), peer) {
        sat_inc32(spec_downloaded_of(ts0, h))
    } else {
        spec_downloaded_of(ts0, h)
    }
    &&& forall|h2: Seq<u8>| spec_downloaded_of(ts1, h2) >= spec_downloaded_of(ts0, h2)
    &&& forall|h2: Seq<u8>| h2 != h ==> spec_peers_of(ts1, h2) == spec_peers_of(ts0, h2)
        && spec_downloaded_of(ts1, h2) == spec_downloaded_of(ts0, h2)
    &&& peer.event == AnnounceEvent::Stopped ==> {
        &&& !spec_contains_id(spec_peers_of(ts1, h), peer.peer_id@)
        &&& forall|p: Peer| p.peer_id@ != peer.peer_id@
            ==> (spec_peers_of(ts1, h).contains(p) <==> spec_peers_of(ts0, h).contains(p))
    }
    &&& peer.event != AnnounceEvent::Stopped ==> {
        &&& spec_peers_of(ts1, h).contains(peer)
        &&& forall|p: Peer| p.peer_id@ != peer.peer_id@
            ==> (spec_peers_of(ts1, h).contains(p) <==> spec_peers_of(ts0, h).contains(p))
        &&& forall|p: Peer| spec_peers_of(ts1, h).contains(p) && p.peer_id@ == peer.peer_id@
            ==> p == peer
    }
}

/// Filtering the empty swarm yields the empty swarm.
pub proof fn lemma_counts_empty()
    ensures
        spec_complete(Seq::<Peer>::empty()) == 0,
        spec_incomplete(Seq::<Peer>::empty()) == 0,
{
    reveal(Seq::filter);
}

/// In-memory, per-torrent swarm store: the map from info-hash to swarm
/// entry, held as a vector of entries with pairwise distinct hashes.
pub struct InMemoryTorrentRepository {
    pub torrents: Vec<TorrentEntry>,
}

impl InMemoryTorrentRepository {
    /// Hashes are pairwise distinct and every swarm is well formed.
    pub open spec fn wf(self) -> bool {
        &&& forall|i: int, j: int|
            0 <= i < j < self.torrents@.len()
                ==> (#[trigger] self.torrents@[i]).info_hash@
                    != (#[trigger] self.torrents@[j]).info_hash@
        &&& forall|i: int|
            0 <= i < self.torrents@.len() ==> (#[trigger] self.torrents@[i]).swarm.wf()
    }

    pub fn new() -> (r: InMemoryTorrentRepository)
        ensures
            r.wf(),
            r.torrents@.len() == 0,
    {
        InMemoryTorrentRepository { torrents: Vec::new() }
    }

    /// Index of the entry carrying `h`, if any.
    fn find_torrent(&self, h: &InfoHash) -> (r: Option<usize>)
        ensures
            r matches Some(i) ==> i < self.torrents@.len()
                && self.torrents@[i as int].info_hash@ == h@
                && spec_contains_hash(self.torrents@, h@),
            r is None ==> !spec_contains_hash(self.torrents@, h@),
    {
        let mut i: usize = 0;
        while i < self.torrents.len()
            invariant
                i <= self.torrents@.len(),
                forall|k: int| 0 <= k < i ==> (#[trigger] self.torrents@[k]).info_hash@ != h@,
            decreases self.torrents@.len() - i,
        {
            if self.torrents[i].info_hash.eq_bytes(h) {
                return Some(i);
            }
            i = i + 1;
        }
        None
    }

    /// The entry at `i` is the one `spec_index_of_hash` picks for its
    /// own hash, and the accessors read it.
    proof fn lemma_at_index(ts: Seq<TorrentEntry>, i: int)
        requires
            0 <= i < ts.len(),
            forall|a: int, b: int|
                0 <= a < b < ts.len()
                    ==> (#[trigger] ts[a]).info_hash@ != (#[trigger] ts[b]).info_hash@,
        ensures
            spec_contains_hash(ts, ts[i].info_hash@),
            spec_index_of_hash(ts, ts[i].info_hash@) == i,
            spec_peers_of(ts, ts[i].info_hash@) == ts[i].swarm.peers@,
            spec_downloaded_of(ts, ts[i].info_hash@) == ts[i].downloaded,
    {
        let h = ts[i].info_hash@;
        assert(spec_contains_hash(ts, h));
        let j = spec_index_of_hash(ts, h);
        if j != i {
            if j < i {
                assert(ts[j].info_hash@ != ts[i].info_hash@);
            } else {
                assert(ts[i].info_hash@ != ts[j].info_hash@);
            }
        }
    }

    /// Inserts, replaces or (on Stopped) removes the peer in the
    /// torrent's swarm and returns the post-mutation metadata. A
    /// completed transition grows the torrent's persistent download
    /// counter exactly once; the counter of every torrent, this one
    /// included, never shrinks. Torrents under any other hash are
    /// untouched.
    pub fn upsert_peer_and_get_stats(&mut self, info_hash: &InfoHash, peer: &Peer) -> (stats:
        SwarmMetadata)
        requires
            old(self).wf(),
        ensures
            final(self).wf(),
            spec_upsert_effect(old(self).torrents@, final(self).torrents@, info_hash@, *peer,
                stats),
    {
        let ghost ts0 = self.torrents@;
        let idx = self.find_torrent(info_hash);
        match idx {
            Some(i) => {
                proof {
                    Self::lemma_at_index(ts0, i as int);
                }
                let mut entry = self.torrents.remove(i);
                let completed = entry.swarm.upsert_peer(*peer);
                if completed {
                    if entry.downloaded < 0xFFFF_FFFFu32 {
                        entry.downloaded = entry.downloaded + 1;
                    }
                }
                let (c, inc) = entry.swarm.counts();
                let stats = SwarmMetadata {
                    complete: c,
                    downloaded: entry.downloaded,
                    incomplete: inc,
                };
                self.torrents.insert(i, entry);
                proof {
                    let ts1 = self.torrents@;
                    assert(ts1 =~= ts0.update(i as int, ts1[i as int]));
                    assert forall|a: int, b: int| 0 <= a < b < ts1.len()
                        implies (#[trigger] ts1[a]).info_hash@
                            != (#[trigger] ts1[b]).info_hash@ by {
                        assert(ts1[a].info_hash@ == ts0[a].info_hash@);
                        assert(ts1[b].info_hash@ == ts0[b].info_hash@);
                        assert(ts0[a].info_hash@ != ts0[b].info_hash@);
                    }
                    Self::lemma_at_index(ts1, i as int);
                    assert forall|h: Seq<u8>| h != info_hash@
                        implies spec_peers_of(ts1, h) == spec_peers_of(ts0, h)
                            && spec_downloaded_of(ts1, h) == spec_downloaded_of(ts0, h) by {
                        Self::lemma_other_hash_unchanged(ts0, ts1, i as int, h);
                    }
                }
                stats
            },
            None => {
                match peer.event {
                    AnnounceEvent::Stopped => {
                        proof {
                            lemma_counts_empty();
                        }
                        SwarmMetadata::zeroed()
                    },
                    _ => {
                        let mut swarm = SwarmEntry::new();
                        let completed = swarm.upsert_peer(*peer);
                        let downloaded: u32 = if completed { 1 } else { 0 };
                        let (c, inc) = swarm.counts();
                        let stats = SwarmMetadata { complete: c, downloaded, incomplete: inc };
                        let entry = TorrentEntry { info_hash: *info_hash, swarm, downloaded };
                        self.torrents.push(entry);
                        proof {
                            let ts1 = self.torrents@;
                            assert(ts1 == ts0.push(ts1[ts0.len() as int]));
                            assert forall|a: int, b: int| 0 <= a < b < ts1.len()
                                implies (#[trigger] ts1[a]).info_hash@
                                    != (#[trigger] ts1[b]).info_hash@ by {
                                if b < ts0.len() {
                                    assert(ts0[a].info_hash@ != ts0[b].info_hash@);
                                } else {
                                    assert(ts1[b].info_hash@ == info_hash@);
                                    if ts1[a].info_hash@ == info_hash@ {
                                        assert(spec_contains_hash(ts0, info_hash@));
                                    }
                                }
                            }
                            Self::lemma_at_index(ts1, ts0.len() as int);
                            assert forall|h: Seq<u8>| h != info_hash@
                                implies spec_peers_of(ts1, h) == spec_peers_of(ts0, h)
                                    && spec_downloaded_of(ts1, h)
                                    == spec_downloaded_of(ts0, h) by {
                                Self::lemma_other_hash_push_unchanged(ts0, ts1, h);
                            }
                            lemma_counts_empty();
                        }
                        stats
                    },
                }
            },
        }
    }

    /// An update at `i` leaves every other hash's view unchanged.
    proof fn lemma_other_hash_unchanged(
        ts0: Seq<TorrentEntry>,
        ts1: Seq<TorrentEntry>,
        i: int,
        h: Seq<u8>,
    )
        requires
            0 <= i < ts0.len(),
            ts1.len() == ts0.len(),
            forall|a: int, b: int|
                0 <= a < b < ts0.len()
                    ==> (#[trigger] ts0[a]).info_hash@ != (#[trigger] ts0[b]).info_hash@,
            forall|k: int| 0 <= k < ts0.len() && k != i ==> ts1[k] == ts0[k],
            forall|k: int|
                0 <= k < ts0.len() ==> (#[trigger] ts1[k]).info_hash@ == ts0[k].info_hash@,
            h != ts0[i].info_hash@,
        ensures
            spec_peers_of(ts1, h) == spec_peers_of(ts0, h),
            spec_downloaded_of(ts1, h) == spec_downloaded_of(ts0, h),
    {
        assert(spec_contains_hash(ts1, h) <==> spec_contains_hash(ts0, h)) by {
            if spec_contains_hash(ts0, h) {
                let j = choose|j: int| 0 <= j < ts0.len() && ts0[j].info_hash@ == h;
                assert(ts1[j].info_hash@ == h);
            }
            if spec_contains_hash(ts1, h) {
                let j = choose|j: int| 0 <= j < ts1.len() && ts1[j].info_hash@ == h;
                assert(ts0[j].info_hash@ == h);
            }
        }
        if spec_contains_hash(ts0, h) {
            let j0 = spec_index_of_hash(ts0, h);
            let j1 = spec_index_of_hash(ts1, h);
            assert(0 <= j0 < ts0.len() && ts0[j0].info_hash@ == h);
            assert(0 <= j1 < ts1.len() && ts1[j1].info_hash@ == h);
            assert(j0 != i);
            assert(j1 != i);
            assert(ts1[j1] == ts0[j1]);
            assert(j0 == j1) by {
                if j0 < j1 {
                    assert(ts0[j0].info_hash@ != ts0[j1].info_hash@);
                } else if j1 < j0 {
                    assert(ts0[j1].info_hash@ != ts0[j0].info_hash@);
                }
            }
        }
    }

    /// Appending a new hash leaves every other hash's view unchanged.
    proof fn lemma_other_hash_push_unchanged(
        ts0: Seq<TorrentEntry>,
        ts1: Seq<TorrentEntry>,
        h: Seq<u8>,
    )
        requires
            ts1.len() == ts0.len() + 1,
            forall|a: int, b: int|
                0 <= a < b < ts0.len()
                    ==> (#[trigger] ts0[a]).info_hash@ != (#[trigger] ts0[b]).info_hash@,
            forall|k: int| 0 <= k < ts0.len() ==> ts1[k] == ts0[k],
            h != ts1[ts0.len() as int].info_hash@,
        ensures
            spec_peers_of(ts1, h) == spec_peers_of(ts0, h),
            spec_downloaded_of(ts1, h) == spec_downloaded_of(ts0, h),
    {
        assert(spec_contains_hash(ts1, h) <==> spec_contains_hash(ts0, h)) by {
            if spec_contains_hash(ts0, h) {
                let j = choose|j: int| 0 <= j < ts0.len() && ts0[j].info_hash@ == h;
                assert(ts1[j].info_hash@ == h);
            }
            if spec_contains_hash(ts1, h) {
                let j = choose|j: int| 0 <= j < ts1.len() && ts1[j].info_hash@ == h;
                assert(j < ts0.len());
                assert(ts0[j].info_hash@ == h);
            }
        }
        if spec_contains_hash(ts0, h) {
            let j0 = spec_index_of_hash(ts0, h);
            let j1 = spec_index_of_hash(ts1, h);
            assert(0 <= j0 < ts0.len() && ts0[j0].info_hash@ == h);
            assert(0 <= j1 < ts1.len() && ts1[j1].info_hash@ == h);
            assert(j1 != ts0.len());
            assert(ts1[j1] == ts0[j1]);
            assert(j0 == j1) by {
                if j0 < j1 {
                    assert(ts0[j0].info_hash@ != ts0[j1].info_hash@);
                } else if j1 < j0 {
                    assert(ts0[j1].info_hash@ != ts0[j0].info_hash@);
                }
            }
        }
    }

    /// The metadata of the torrent under `h`, zeroed when unknown.
    pub fn get_swarm_metadata(&self, h: &InfoHash) -> (r: SwarmMetadata)
        requires
            self.wf(),
        ensures
            r == spec_metadata_of(self.torrents@, h@),
    {
        match self.find_torrent(h) {
            Some(i) => {
                proof {
                    Self::lemma_at_index(self.torrents@, i as int);
                }
                let (c, inc) = self.torrents[i].swarm.counts();
                SwarmMetadata {
                    complete: c,
                    downloaded: self.torrents[i].downloaded,
                    incomplete: inc,
                }
            },
            None => {
                proof {
                    lemma_counts_empty();
                }
                SwarmMetadata::zeroed()
            },
        }
    }

    /// Up to `limit` peers of the torrent under `h`, excluding the
    /// requester, read from the rotation of the swarm chosen by
    /// `offset`. An unknown torrent yields no peers.
    pub fn get_peers_for_peer(
        &self,
        h: &InfoHash,
        requester: &PeerId,
        limit: usize,
        offset: usize,
    ) -> (r: Vec<Peer>)
        requires
            self.wf(),
        ensures
            r@ == spec_select(spec_rotated(spec_peers_of(self.torrents@, h@), offset as nat),
                requester@, limit as nat),
            r@.len() <= limit,
            forall|i: int| 0 <= i < r@.len() ==> (#[trigger] r@[i]).peer_id@ != requester@,
            forall|i: int| 0 <= i < r@.len()
                ==> spec_peers_of(self.torrents@, h@).contains(#[trigger] r@[i]),
    {
        match self.find_torrent(h) {
            Some(i) => {
                proof {
                    Self::lemma_at_index(self.torrents@, i as int);
                }
                self.torrents[i].swarm.get_peers_for_peer(requester, limit, offset)
            },
            None => {
                let r: Vec<Peer> = Vec::new();
                proof {
                    crate::swarm::lemma_select_props(
                        spec_rotated(Seq::<Peer>::empty(), offset as nat),
                        requester@,
                        limit as nat,
                    );
                    assert(r@ =~= spec_select(
                        spec_rotated(spec_peers_of(self.torrents@, h@), offset as nat),
                        requester@,
                        limit as nat,
                    ));
                }
                r
            },
        }
    }

    /// Loads the durable download counters at startup: every persisted
    /// hash the repository does not know yet gets an entry with an
    /// empty swarm and its counter; everything already present is
    /// untouched.
    pub fn import_persistent(&mut self, counters: &Vec<(InfoHash, u32)>)
        requires
            old(self).wf(),
            forall|a: int, b: int|
                0 <= a < b < counters@.len()
                    ==> (#[trigger] counters@[a]).0@ != (#[trigger] counters@[b]).0@,
        ensures
            final(self).wf(),
            final(self).torrents@.len() >= old(self).torrents@.len(),
            forall|k: int| 0 <= k < old(self).torrents@.len()
                ==> #[trigger] final(self).torrents@[k] == old(self).torrents@[k],
            forall|i: int| 0 <= i < counters@.len() ==> {
                &&& spec_contains_hash(final(self).torrents@, (#[trigger] counters@[i]).0@)
                &&& spec_downloaded_of(final(self).torrents@, counters@[i].0@)
                    == if spec_contains_hash(old(self).torrents@, counters@[i].0@) {
                    spec_downloaded_of(old(self).torrents@, counters@[i].0@)
                } else {
                    counters@[i].1
                }
                &&& spec_peers_of(final(self).torrents@, counters@[i].0@)
                    == spec_peers_of(old(self).torrents@, counters@[i].0@)
            },
    {
        let ghost ts0 = self.torrents@;
        let mut i: usize = 0;
        while i < counters.len()
            invariant
                i <= counters@.len(),
                ts0 == old(self).torrents@,
                old(self).wf(),
                self.wf(),
                forall|a: int, b: int|
                    0 <= a < b < counters@.len()
                        ==> (#[trigger] counters@[a]).0@ != (#[trigger] counters@[b]).0@,
                self.torrents@.len() >= ts0.len(),
                forall|k: int| 0 <= k < ts0.len() ==> #[trigger] self.torrents@[k] == ts0[k],
                forall|h: Seq<u8>| spec_contains_hash(self.torrents@, h)
                    ==> spec_contains_hash(ts0, h) || exists|j: int|
                        0 <= j < i && (#[trigger] counters@[j]).0@ == h,
                forall|h: Seq<u8>| spec_contains_hash(ts0, h)
                    ==> spec_peers_of(self.torrents@, h) == spec_peers_of(ts0, h)
                        && spec_downloaded_of(self.torrents@, h) == spec_downloaded_of(ts0, h),
                forall|j: int| 0 <= j < i ==> {
                    &&& spec_contains_hash(self.torrents@, (#[trigger] counters@[j]).0@)
                    &&& spec_downloaded_of(self.torrents@, counters@[j].0@)
                        == if spec_contains_hash(ts0, counters@[j].0@) {
                        spec_downloaded_of(ts0, counters@[j].0@)
                    } else {
                        counters@[j].1
                    }
                    &&& spec_peers_of(self.torrents@, counters@[j].0@)
                        == spec_peers_of(ts0, counters@[j].0@)
                },
            decreases counters@.len() - i,
        {
            let ghost tsb = self.torrents@;
            let h = counters[i].0;
            match self.find_torrent(&h) {
                Some(_) => {
                    proof {
                        // A hash already present was present at the
                        // start: every appended hash came from an
                        // earlier pair, and pairs never share a hash.
                        if !spec_contains_hash(ts0, h@) {
                            let j = choose|j: int| 0 <= j < i && counters@[j].0@ == h@;
                            assert(counters@[j].0@ != counters@[i as int].0@);
                        }
                        assert(spec_contains_hash(ts0, h@));
                        assert(spec_downloaded_of(self.torrents@, h@)
                            == spec_downloaded_of(ts0, h@));
                        assert(spec_peers_of(self.torrents@, h@) == spec_peers_of(ts0, h@));
                    }
                },
                None => {
                    let entry = TorrentEntry {
                        info_hash: h,
                        swarm: SwarmEntry::new(),
                        downloaded: counters[i].1,
                    };
                    self.torrents.push(entry);
                    proof {
                        let ts1 = self.torrents@;
                        assert forall|a: int, b: int| 0 <= a < b < ts1.len()
                            implies (#[trigger] ts1[a]).info_hash@
                                != (#[trigger] ts1[b]).info_hash@ by {
                            if b < tsb.len() {
                                assert(tsb[a].info_hash@ != tsb[b].info_hash@);
                            } else {
                                assert(ts1[b].info_hash@ == h@);
                                if ts1[a].info_hash@ == h@ {
                                    assert(spec_contains_hash(tsb, h@));
                                }
                            }
                        }
                        Self::lemma_at_index(ts1, tsb.len() as int);
                        lemma_counts_empty();
                        assert forall|h2: Seq<u8>| h2 != h@
                            implies spec_peers_of(ts1, h2) == spec_peers_of(tsb, h2)
                                && spec_downloaded_of(ts1, h2)
                                == spec_downloaded_of(tsb, h2) by {
                            Self::lemma_other_hash_push_unchanged(tsb, ts1, h2);
                        }
                        assert(spec_peers_of(ts1, h@) =~= Seq::<crate::peer::Peer>::empty());
                        assert(!spec_contains_hash(ts0, h@)) by {
                            if spec_contains_hash(ts0, h@) {
                                let j = spec_index_of_hash(ts0, h@);
                                assert(tsb[j].info_hash@ == h@);
                            }
                        }
                        assert(spec_peers_of(ts0, h@) == Seq::<crate::peer::Peer>::empty());
                        assert forall|j: int| 0 <= j < i
                            implies spec_contains_hash(ts1, (#[trigger] counters@[j]).0@)
                                && spec_downloaded_of(ts1, counters@[j].0@)
                                == spec_downloaded_of(tsb, counters@[j].0@)
                                && spec_peers_of(ts1, counters@[j].0@)
                                == spec_peers_of(tsb, counters@[j].0@) by {
                            let hj = counters@[j].0@;
                            assert(counters@[j].0@ != counters@[i as int].0@);
                            assert(spec_contains_hash(tsb, hj));
                            let j2 = spec_index_of_hash(tsb, hj);
                            assert(tsb[j2].info_hash@ == hj);
                            assert(ts1[j2].info_hash@ == hj);
                            assert(spec_contains_hash(ts1, hj));
                            Self::lemma_other_hash_push_unchanged(tsb, ts1, hj);
                        }
                    }
                },
            }
            i = i + 1;
        }
    }

    /// The durable download counters as they leave for the store: one
    /// pair per torrent, in repository order.
    pub fn export_persistent(&self) -> (r: Vec<(InfoHash, u32)>)
        ensures
            r@.len() == self.torrents@.len(),
            forall|i: int| 0 <= i < r@.len() ==> #[trigger] r@[i]
                == (self.torrents@[i].info_hash, self.torrents@[i].downloaded),
    {
        let mut out: Vec<(InfoHash, u32)> = Vec::new();
        let mut i: usize = 0;
        while i < self.torrents.len()
            invariant
                i <= self.torrents@.len(),
                out@.len() == i,
                forall|k: int| 0 <= k < i ==> #[trigger] out@[k]
                    == (self.torrents@[k].info_hash, self.torrents@[k].downloaded),
            decreases self.torrents@.len() - i,
        {
            out.push((self.torrents[i].info_hash, self.torrents[i].downloaded));
            i = i + 1;
        }
        out
    }

    /// Scrape: one metadata per requested hash, in request order;
    /// unknown hashes yield zeroed metadata.
    pub fn scrape(&self, info_hashes: &Vec<InfoHash>) -> (r: ScrapeData)
        requires
            self.wf(),
        ensures
            r.files@.len() == info_hashes@.len(),
            forall|i: int| 0 <= i < r.files@.len()
                ==> (#[trigger] r.files@[i]).0 == info_hashes@[i]
                    && r.files@[i].1 == spec_metadata_of(self.torrents@, info_hashes@[i]@),
    {
        let mut files: Vec<(InfoHash, SwarmMetadata)> = Vec::new();
        let mut i: usize = 0;
        while i < info_hashes.len()
            invariant
                i <= info_hashes@.len(),
                self.wf(),
                files@.len() == i,
                forall|k: int| 0 <= k < i ==> (#[trigger] files@[k]).0 == info_hashes@[k]
                    && files@[k].1 == spec_metadata_of(self.torrents@, info_hashes@[k]@),
            decreases info_hashes@.len() - i,
        {
            let h = info_hashes[i];
            let md = self.get_swarm_metadata(&h);
            files.push((h, md));
            i = i + 1;
        }
        ScrapeData { files }
    }

    /// Aggregate counts over every torrent, each sum clamped to `u64`.
    pub fn metrics(&self) -> (r: TorrentsMetrics)
        ensures
            r.torrents == self.torrents@.len(),
            r.complete == clamp64(spec_sum_complete(self.torrents@)),
            r.incomplete == clamp64(spec_sum_incomplete(self.torrents@)),
            r.downloaded == clamp64(spec_sum_downloaded(self.torrents@)),
    {
        let ts = &self.torrents;
        let mut complete: u64 = 0;
        let mut incomplete: u64 = 0;
        let mut downloaded: u64 = 0;
        let mut i: usize = 0;
        while i < ts.len()
            invariant
                i <= ts@.len(),
                complete == clamp64(spec_sum_complete(ts@.take(i as int))),
                incomplete == clamp64(spec_sum_incomplete(ts@.take(i as int))),
                downloaded == clamp64(spec_sum_downloaded(ts@.take(i as int))),
            decreases ts@.len() - i,
        {
            proof {
                assert(ts@.take(i + 1).drop_last() =~= ts@.take(i as int));
                assert(ts@.take(i + 1).last() == ts@[i as int]);
                assert(spec_sum_complete(ts@.take(i + 1)) == spec_sum_complete(ts@.take(i as int))
                    + clamp32(spec_complete(ts@[i as int].swarm.peers@)));
                assert(spec_sum_incomplete(ts@.take(i + 1))
                    == spec_sum_incomplete(ts@.take(i as int))
                    + clamp32(spec_incomplete(ts@[i as int].swarm.peers@)));
                assert(spec_sum_downloaded(ts@.take(i + 1))
                    == spec_sum_downloaded(ts@.take(i as int)) + ts@[i as int].downloaded);
            }
            let (c, inc) = ts[i].swarm.counts();
            complete = sat_add64(complete, c as u64);
            incomplete = sat_add64(incomplete, inc as u64);
            downloaded = sat_add64(downloaded, ts[i].downloaded as u64);
            i = i + 1;
        }
        proof {
            assert(ts@.take(ts@.len() as int) =~= ts@);
        }
        TorrentsMetrics {
            complete,
            downloaded,
            incomplete,
            torrents: ts.len() as u64,
        }
    }

    /// Reaps stale peers from every torrent: each swarm keeps exactly
    /// its fresh peers, in order; hashes and download counters are
    /// untouched.
    pub fn remove_inactive_peers(&mut self, now_secs: u64, timeout_secs: u64)
        requires
            old(self).wf(),
        ensures
            final(self).wf(),
            final(self).torrents@.len() == old(self).torrents@.len(),
            forall|i: int| 0 <= i < old(self).torrents@.len() ==> {
                &&& (#[trigger] final(self).torrents@[i]).info_hash
                    == old(self).torrents@[i].info_hash
                &&& final(self).torrents@[i].downloaded == old(self).torrents@[i].downloaded
                &&& final(self).torrents@[i].swarm.peers@
                    == old(self).torrents@[i].swarm.peers@.filter(
                    crate::swarm::fresh_pred(now_secs, timeout_secs))
            },
    {
        let ghost ts0 = self.torrents@;
        let mut i: usize = 0;
        while i < self.torrents.len()
            invariant
                i <= ts0.len(),
                ts0 == old(self).torrents@,
                old(self).wf(),
                self.torrents@.len() == ts0.len(),
                forall|k: int| i <= k < ts0.len() ==> #[trigger] self.torrents@[k] == ts0[k],
                forall|k: int| 0 <= k < i ==> {
                    &&& (#[trigger] self.torrents@[k]).info_hash == ts0[k].info_hash
                    &&& self.torrents@[k].downloaded == ts0[k].downloaded
                    &&& self.torrents@[k].swarm.peers@ == ts0[k].swarm.peers@.filter(
                        crate::swarm::fresh_pred(now_secs, timeout_secs))
                    &&& self.torrents@[k].swarm.wf()
                },
            decreases ts0.len() - i,
        {
            let ghost tsb = self.torrents@;
            let mut entry = self.torrents.remove(i);
            entry.swarm.remove_inactive_peers(now_secs, timeout_secs);
            self.torrents.insert(i, entry);
            proof {
                assert(self.torrents@ =~= tsb.update(i as int, self.torrents@[i as int]));
            }
            i = i + 1;
        }
        proof {
            assert forall|a: int, b: int| 0 <= a < b < self.torrents@.len()
                implies (#[trigger] self.torrents@[a]).info_hash@
                    != (#[trigger] self.torrents@[b]).info_hash@ by {
                assert(ts0[a].info_hash@ != ts0[b].info_hash@);
            }
        }
    }

    /// Prunes torrents whose swarm holds no peer at all; everything
    /// else stays, in order.
    pub fn remove_peerless_torrents(&mut self)
        requires
            old(self).wf(),
        ensures
            final(self).wf(),
            final(self).torrents@ == old(self).torrents@.filter(nonempty_pred()),
    {
        let ghost ts0 = self.torrents@;
        let mut kept: Vec<TorrentEntry> = Vec::new();
        let ghost mut done: int = 0;
        while self.torrents.len() > 0
            invariant
                0 <= done <= ts0.len(),
                ts0 == old(self).torrents@,
                old(self).wf(),
                self.torrents@ == ts0.skip(done),
                kept@ == ts0.take(done).filter(nonempty_pred()),
                forall|k: int| 0 <= k < kept@.len()
                    ==> exists|j: int| 0 <= j < done && ts0[j] == #[trigger] kept@[k],
            decreases self.torrents@.len(),
        {
            proof {
                assert(ts0.take(done + 1) =~= ts0.take(done).push(ts0[done]));
                crate::swarm::lemma_filter_push(ts0.take(done), ts0[done], nonempty_pred());
                assert(self.torrents@[0] == ts0[done]);
            }
            let entry = self.torrents.remove(0);
            let keep = entry.swarm.peers.len() > 0;
            if keep {
                kept.push(entry);
                proof {
                    assert forall|k: int| 0 <= k < kept@.len()
                        implies exists|j: int| 0 <= j < done + 1 && ts0[j] == #[trigger] kept@[k]
                        by {
                        if k < kept@.len() - 1 {
                            let j = choose|j: int| 0 <= j < done && ts0[j] == kept@[k];
                            assert(0 <= j < done + 1 && ts0[j] == kept@[k]);
                        } else {
                            assert(ts0[done] == kept@[k]);
                        }
                    }
                }
            }
            proof {
                assert(self.torrents@ =~= ts0.skip(done + 1));
                done = done + 1;
            }
        }
        proof {
            assert(ts0.take(done) =~= ts0);
            assert forall|a: int, b: int| 0 <= a < b < kept@.len()
                implies (#[trigger] kept@[a]).info_hash@ != (#[trigger] kept@[b]).info_hash@ by {
                let ja = choose|j: int| 0 <= j < ts0.len() && ts0[j] == kept@[a];
                let jb = choose|j: int| 0 <= j < ts0.len() && ts0[j] == kept@[b];
                if ja == jb {
                    assert(kept@[a] == kept@[b]);
                    crate::swarm::lemma_filter_distinct_positions(ts0, nonempty_pred(), a, b);
                } else if ja < jb {
                    assert(ts0[ja].info_hash@ != ts0[jb].info_hash@);
                } else {
                    assert(ts0[jb].info_hash@ != ts0[ja].info_hash@);
                }
            }
            assert forall|k: int| 0 <= k < kept@.len()
                implies (#[trigger] kept@[k]).swarm.wf() by {
                let j = choose|j: int| 0 <= j < ts0.len() && ts0[j] == kept@[k];
                assert(ts0[j].swarm.wf());
            }
        }
        self.torrents = kept;
    }
}

/// Torrents that still hold at least one peer, as a function value.
pub open spec fn nonempty_pred() -> spec_fn(TorrentEntry) -> bool {
    |t: TorrentEntry| t.swarm.peers@.len() > 0
}

/// A sum clamped to the 64-bit counter range.
pub open spec fn clamp64(n: nat) -> u64 {
    if n <= u64::MAX {
        n as u64
    } else {
        u64::MAX
    }
}

/// Sum of the clamped seeder counts over all entries.
pub open spec fn spec_sum_complete(ts: Seq<TorrentEntry>) -> nat
    decreases ts.len(),
{
    if ts.len() == 0 {
        0nat
    } else {
        (spec_sum_complete(ts.drop_last()) + clamp32(spec_complete(ts.last().swarm.peers@))) as nat
    }
}

/// Sum of the clamped leecher counts over all entries.
pub open spec fn spec_sum_incomplete(ts: Seq<TorrentEntry>) -> nat
    decreases ts.len(),
{
    if ts.len() == 0 {
        0nat
    } else {
        (spec_sum_incomplete(ts.drop_last()) + clamp32(spec_incomplete(ts.last().swarm.peers@))) as nat
    }
}

/// Sum of the persistent download counters over all entries.
pub open spec fn spec_sum_downloaded(ts: Seq<TorrentEntry>) -> nat
    decreases ts.len(),
{
    if ts.len() == 0 {
        0nat
    } else {
        (spec_sum_downloaded(ts.drop_last()) + ts.last().downloaded) as nat
    }
}

/// Saturating 64-bit addition.
fn sat_add64(a: u64, b: u64) -> (r: u64)
    ensures
        r == clamp64((a + b) as nat),
{
    if a > u64::MAX - b {
        u64::MAX
    } else {
        a + b
    }
}

/// What one scrape returns: the metadata of each requested torrent,
/// in request order.
#[derive(Clone, Debug, PartialEq, Eq)]
pub struct ScrapeData {
    pub files: Vec<(InfoHash, SwarmMetadata)>,
}

impl ScrapeData {
    /// A scrape result with no files yet.
    pub fn empty() -> (r: ScrapeData)
        ensures
            r.files@.len() == 0,
    {
        ScrapeData { files: Vec::new() }
    }

    /// Zeroed metadata for every requested hash, in request order: what
    /// a private tracker answers an unauthenticated scrape, leaking
    /// nothing about which torrents exist.
    pub fn zeroed(info_hashes: &Vec<InfoHash>) -> (r: ScrapeData)
        ensures
            r.files@.len() == info_hashes@.len(),
            forall|i: int| 0 <= i < r.files@.len()
                ==> (#[trigger] r.files@[i]).0 == info_hashes@[i]
                    && r.files@[i].1 == (SwarmMetadata { complete: 0u32, downloaded: 0u32,
                        incomplete: 0u32 }),
    {
        let mut files: Vec<(InfoHash, SwarmMetadata)> = Vec::new();
        let mut i: usize = 0;
        while i < info_hashes.len()
            invariant
                i <= info_hashes@.len(),
                files@.len() == i,
                forall|k: int| 0 <= k < i ==> (#[trigger] files@[k]).0 == info_hashes@[k]
                    && files@[k].1 == (SwarmMetadata { complete: 0u32, downloaded: 0u32,
                        incomplete: 0u32 }),
            decreases info_hashes@.len() - i,
        {
            files.push((info_hashes[i], SwarmMetadata::zeroed()));
            i = i + 1;
        }
        ScrapeData { files }
    }

    /// Appends one torrent's metadata.
    pub fn add_file(&mut self, info_hash: &InfoHash, metadata: SwarmMetadata)
        ensures
            final(self).files@ == old(self).files@.push((*info_hash, metadata)),
    {
        self.files.push((*info_hash, metadata));
    }
}

/// What peer selection may hand out at most, for a given request.
pub open spec fn spec_wanted_limit(wanted: PeersWanted) -> nat {
    match wanted {
        PeersWanted::All => TORRENT_PEERS_LIMIT as nat,
        PeersWanted::Only(n) => if n < TORRENT_PEERS_LIMIT as u32 {
            n as nat
        } else {
            TORRENT_PEERS_LIMIT as nat
        },
    }
}

/// What an announce returns: the selected peers, the torrent's
/// post-mutation counts, and the configured interval hints.
pub struct AnnounceData {
    pub peers: Vec<Peer>,
    pub stats: SwarmMetadata,
    pub interval: u32,
    pub interval_min: u32,
}

/// The tracker core: the swarm repository together with the policy it
/// answers under.
pub struct Tracker {
    pub torrents: InMemoryTorrentRepository,
    pub policy: crate::config::TrackerPolicy,
}

impl Tracker {
    pub open spec fn wf(self) -> bool {
        self.torrents.wf()
    }

    pub fn new(policy: crate::config::TrackerPolicy) -> (r: Tracker)
        ensures
            r.wf(),
            r.torrents.torrents@.len() == 0,
            r.policy == policy,
    {
        Tracker { torrents: InMemoryTorrentRepository::new(), policy }
    }

    /// Stores the peer under the tracker-resolved address and returns
    /// the post-mutation metadata; the delegate of every announce.
    pub fn upsert_peer_and_get_stats(&mut self, info_hash: &InfoHash, peer: &Peer) -> (stats:
        SwarmMetadata)
        requires
            old(self).wf(),
        ensures
            final(self).wf(),
            final(self).policy == old(self).policy,
            spec_upsert_effect(old(self).torrents.torrents@, final(self).torrents.torrents@,
                info_hash@, *peer, stats),
    {
        self.torrents.upsert_peer_and_get_stats(info_hash, peer)
    }

    /// A full announce: the peer's contact IP is set to the resolved
    /// client address, the swarm is mutated as `spec_upsert_effect`
    /// says, and up to `numwant` peers come back, never including the
    /// announcing peer itself. `rotation_offset` picks where selection
    /// starts, so the caller can vary it between calls.
    pub fn announce(
        &mut self,
        info_hash: &InfoHash,
        peer: &mut Peer,
        remote_client_ip: &IpAddress,
        peers_wanted: &PeersWanted,
        rotation_offset: usize,
    ) -> (d: AnnounceData)
        requires
            old(self).wf(),
        ensures
            final(self).wf(),
            final(self).policy == old(self).policy,
            *final(peer) == (Peer {
                peer_addr: crate::primitives::SocketAddress {
                    ip: *remote_client_ip,
                    port: old(peer).peer_addr.port,
                },
                ..*old(peer)
            }),
            spec_upsert_effect(old(self).torrents.torrents@, final(self).torrents.torrents@,
                info_hash@, *final(peer), d.stats),
            d.peers@ == spec_select(
                spec_rotated(spec_peers_of(final(self).torrents.torrents@, info_hash@),
                    rotation_offset as nat),
                old(peer).peer_id@,
                spec_wanted_limit(*peers_wanted),
            ),
            forall|i: int| 0 <= i < d.peers@.len()
                ==> (#[trigger] d.peers@[i]).peer_id@ != old(peer).peer_id@,
            d.peers@.len() <= spec_wanted_limit(*peers_wanted),
            d.interval == old(self).policy.announce_interval_seconds,
            d.interval_min == old(self).policy.min_announce_interval_seconds,
    {
        peer.peer_addr = crate::primitives::SocketAddress {
            ip: *remote_client_ip,
            port: peer.peer_addr.port,
        };
        let stats = self.torrents.upsert_peer_and_get_stats(info_hash, peer);
        let limit: usize = match peers_wanted {
            PeersWanted::All => TORRENT_PEERS_LIMIT,
            PeersWanted::Only(n) => {
                if *n < TORRENT_PEERS_LIMIT as u32 {
                    *n as usize
                } else {
                    TORRENT_PEERS_LIMIT
                }
            },
        };
        let peers = self.torrents.get_peers_for_peer(info_hash, &peer.peer_id, limit,
            rotation_offset);
        AnnounceData {
            peers,
            stats,
            interval: self.policy.announce_interval_seconds,
            interval_min: self.policy.min_announce_interval_seconds,
        }
    }

    /// Scrape through the tracker core; request order and cardinality
    /// are preserved, unknown torrents scrape as zeroes.
    pub fn scrape(&self, info_hashes: &Vec<InfoHash>) -> (r: ScrapeData)
        requires
            self.wf(),
        ensures
            r.files@.len() == info_hashes@.len(),
            forall|i: int| 0 <= i < r.files@.len()
                ==> (#[trigger] r.files@[i]).0 == info_hashes@[i]
                    && r.files@[i].1 == spec_metadata_of(self.torrents.torrents@,
                        info_hashes@[i]@),
    {
        self.torrents.scrape(info_hashes)
    }
}

} // verus!
