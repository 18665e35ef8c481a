//! One torrent's swarm: the set of peers keyed by peer id, the
//! seeder/leecher counts derived from it, peer upsert and removal,
//! stale-peer reaping, and peer selection for announce responses.

use vstd::prelude::*;
use crate::peer::{Peer, PeerId};
use crate::primitives::AnnounceEvent;

verus! {

broadcast use vstd::seq_lib::group_seq_lib_default;

/// Scrape view of one torrent: live seeder and leecher counts and the
/// lifetime number of completed downloads.
#[derive(Clone, Copy, Debug, PartialEq, Eq, Structural)]
pub struct SwarmMetadata {
    /// Seeders now in the swarm.
    pub complete: u32,
    /// Lifetime completed downloads; survives restarts.
    pub downloaded: u32,
    /// Leechers now in the swarm.
    pub incomplete: u32,
}

impl SwarmMetadata {
    /// The metadata reported for a torrent the tracker does not know.
    pub fn zeroed() -> (r: SwarmMetadata)
        ensures
            r.complete == 0u32 && r.downloaded == 0u32 && r.incomplete == 0u32,
    {
        SwarmMetadata { complete: 0, downloaded: 0, incomplete: 0 }
    }
}

/// Seeder test as a function value, for filtering.
pub open spec fn seeder_pred() -> spec_fn(Peer) -> bool {
    |p: Peer| p.spec_is_seeder()
}

/// Leecher test as a function value, for filtering.
pub open spec fn leecher_pred() -> spec_fn(Peer) -> bool {
    |p: Peer| !p.spec_is_seeder()
}

/// Peers whose id differs from `id`, as a function value.
pub open spec fn other_pred(id: Seq<u8>) -> spec_fn(Peer) -> bool {
    |p: Peer| p.peer_id@ != id
}

/// Peers fresh at `now_secs` under `timeout_secs`, as a function value.
pub open spec fn fresh_pred(now_secs: u64, timeout_secs: u64) -> spec_fn(Peer) -> bool {
    |p: Peer| p.spec_is_fresh(now_secs, timeout_secs)
}

/// Number of seeders in `s`.
pub open spec fn spec_complete(s: Seq<Peer>) -> nat {
    s.filter(seeder_pred()).len()
}

/// Number of leechers in `s`.
pub open spec fn spec_incomplete(s: Seq<Peer>) -> nat {
    s.filter(leecher_pred()).len()
}

/// Number of peers in `s` whose id differs from `id`.
pub open spec fn spec_count_other(s: Seq<Peer>, id: Seq<u8>) -> nat
    decreases s.len(),
{
    if s.len() == 0 {
        0nat
    } else if s.first().peer_id@ != id {
        1nat + spec_count_other(s.drop_first(), id)
    } else {
        spec_count_other(s.drop_first(), id)
    }
}

/// True when some peer in `s` carries the id.
pub open spec fn spec_contains_id(s: Seq<Peer>, id: Seq<u8>) -> bool {
    exists|i: int| 0 <= i < s.len() && s[i].peer_id@ == id
}

/// True when some peer in `s` carries the id and already holds the
/// whole torrent.
pub open spec fn spec_prev_left_zero(s: Seq<Peer>, id: Seq<u8>) -> bool {
    exists|i: int| 0 <= i < s.len() && s[i].peer_id@ == id && s[i].left.0 == 0
}

/// When an announce must grow the torrent's persistent download
/// counter: the peer reports Completed and its previous record, if
/// any, did not already hold the whole torrent.
pub open spec fn spec_completed_transition(s: Seq<Peer>, peer: Peer) -> bool {
    peer.event == AnnounceEvent::Completed && !spec_prev_left_zero(s, peer.peer_id@)
}

/// Filtering one more element appends it exactly when it passes.
pub proof fn lemma_filter_push<A>(s: Seq<A>, a: A, pred: spec_fn(A) -> bool)
    ensures
        s.push(a).filter(pred) == if pred(a) {
            s.filter(pred).push(a)
        } else {
            s.filter(pred)
        },
{
    assert(s.push(a).drop_last() =~= s);
    assert(s.push(a).last() == a);
    reveal(Seq::filter);
}

/// Every torrent's swarm holds each peer id at most once; seeders and
/// leechers partition the swarm. This is the first testable invariant
/// of the repository: `complete + incomplete` equals the number of
/// peers retained in the entry.
pub proof fn lemma_complete_plus_incomplete(s: Seq<Peer>)
    ensures
        spec_complete(s) + spec_incomplete(s) == s.len(),
    decreases s.len(),
{
    reveal(Seq::filter);
    if s.len() > 0 {
        lemma_complete_plus_incomplete(s.drop_last());
    }
}

/// At steady state — after the reaper has run, when an entry holds
/// exactly its fresh peers — the seeder and leecher counts partition
/// the fresh peers: `complete + incomplete` equals their number.
pub proof fn lemma_steady_state_counts(s: Seq<Peer>, now_secs: u64, timeout_secs: u64)
    ensures
        spec_complete(s.filter(fresh_pred(now_secs, timeout_secs)))
            + spec_incomplete(s.filter(fresh_pred(now_secs, timeout_secs)))
            == s.filter(fresh_pred(now_secs, timeout_secs)).len(),
{
    lemma_complete_plus_incomplete(s.filter(fresh_pred(now_secs, timeout_secs)));
}

/// Peers of one address family, as a function value: the IPv6 peers
/// when `v6` holds, the IPv4 peers otherwise.
pub open spec fn family_pred(v6: bool) -> spec_fn(Peer) -> bool {
    |p: Peer| (p.peer_addr.ip is V6) == v6
}

/// Keeps the peers of one address family, in order: what a compact
/// response may carry, since its records have one fixed size per
/// family.
pub fn peers_of_family(peers: &Vec<Peer>, v6: bool) -> (r: Vec<Peer>)
    ensures
        r@ == peers@.filter(family_pred(v6)),
        forall|i: int| 0 <= i < r@.len() ==> ((#[trigger] r@[i]).peer_addr.ip is V6) == v6,
{
    let mut out: Vec<Peer> = Vec::new();
    let mut i: usize = 0;
    while i < peers.len()
        invariant
            i <= peers@.len(),
            out@ == peers@.take(i as int).filter(family_pred(v6)),
        decreases peers@.len() - i,
    {
        proof {
            assert(peers@.take(i + 1) =~= peers@.take(i as int).push(peers@[i as int]));
            lemma_filter_push(peers@.take(i as int), peers@[i as int], family_pred(v6));
        }
        let p = peers[i];
        let is_v6 = match p.peer_addr.ip {
            crate::primitives::IpAddress::V6(_) => true,
            crate::primitives::IpAddress::V4(_) => false,
        };
        if is_v6 == v6 {
            out.push(p);
        }
        i = i + 1;
    }
    proof {
        assert(peers@.take(peers@.len() as int) =~= peers@);
    }
    out
}

/// A peer list rotated by `offset`: selection starts at a caller-chosen
/// position, so repeated announces need not always see the same front
/// peers.
pub open spec fn spec_rotated(s: Seq<Peer>, offset: nat) -> Seq<Peer> {
    if s.len() == 0 {
        s
    } else {
        let o = (offset % s.len()) as int;
        s.subrange(o, s.len() as int) + s.subrange(0, o)
    }
}

/// What peer selection returns: the first `limit` peers of `s`, in
/// order, whose id differs from `id`.
pub open spec fn spec_select(s: Seq<Peer>, id: Seq<u8>, limit: nat) -> Seq<Peer>
    decreases s.len(),
{
    if s.len() == 0 || limit == 0 {
        Seq::<Peer>::empty()
    } else if s.first().peer_id@ != id {
        seq![s.first()] + spec_select(s.drop_first(), id, (limit - 1) as nat)
    } else {
        spec_select(s.drop_first(), id, limit)
    }
}

/// One step of the selection recursion, spelled out.
proof fn lemma_select_unfold(s: Seq<Peer>, id: Seq<u8>, limit: nat)
    ensures
        s.len() == 0 || limit == 0 ==> spec_select(s, id, limit) == Seq::<Peer>::empty(),
        s.len() > 0 && limit > 0 && s.first().peer_id@ != id ==> spec_select(s, id, limit)
            == seq![s.first()] + spec_select(s.drop_first(), id, (limit - 1) as nat),
        s.len() > 0 && limit > 0 && s.first().peer_id@ == id ==> spec_select(s, id, limit)
            == spec_select(s.drop_first(), id, limit),
{
    reveal_with_fuel(spec_select, 2);
}

/// Selection never includes the requester, never invents a peer, and
/// returns `limit` peers unless fewer others exist.
pub proof fn lemma_select_props(s: Seq<Peer>, id: Seq<u8>, limit: nat)
    ensures
        spec_select(s, id, limit).len() <= limit,
        spec_select(s, id, limit).len() == if limit < spec_count_other(s, id) {
            limit
        } else {
            spec_count_other(s, id)
        },
        forall|i: int| 0 <= i < spec_select(s, id, limit).len()
            ==> (#[trigger] spec_select(s, id, limit)[i]).peer_id@ != id,
        forall|i: int| 0 <= i < spec_select(s, id, limit).len()
            ==> s.contains(#[trigger] spec_select(s, id, limit)[i]),
    decreases s.len(),
{
    if s.len() == 0 || limit == 0 {
    } else {
        let rest = s.drop_first();
        assert(rest.len() < s.len());
        if s.first().peer_id@ != id {
            lemma_select_props(rest, id, (limit - 1) as nat);
            assert forall|i: int| 0 <= i < spec_select(s, id, limit).len()
                implies s.contains(#[trigger] spec_select(s, id, limit)[i]) by {
                let sel = spec_select(s, id, limit);
                if i == 0 {
                    assert(sel[0] == s.first());
                    assert(s[0] == s.first());
                } else {
                    let q = sel[i];
                    assert(q == spec_select(rest, id, (limit - 1) as nat)[i - 1]);
                    assert(rest.contains(q));
                    let j = choose|j: int| 0 <= j < rest.len() && rest[j] == q;
                    assert(s[j + 1] == q);
                }
            }
        } else {
            lemma_select_props(rest, id, limit);
            assert forall|i: int| 0 <= i < spec_select(s, id, limit).len()
                implies s.contains(#[trigger] spec_select(s, id, limit)[i]) by {
                let q = spec_select(s, id, limit)[i];
                assert(rest.contains(q));
                let j = choose|j: int| 0 <= j < rest.len() && rest[j] == q;
                assert(s[j + 1] == q);
            }
        }
    }
}

/// One torrent's swarm entry: a mapping from peer id to peer, held as
/// a vector whose entries carry pairwise distinct ids.
pub struct SwarmEntry {
    pub peers: Vec<Peer>,
}

impl SwarmEntry {
    /// Each peer id appears at most once.
    pub open spec fn wf(self) -> bool {
        forall|i: int, j: int|
            0 <= i < j < self.peers@.len()
                ==> (#[trigger] self.peers@[i]).peer_id@ != (#[trigger] self.peers@[j]).peer_id@
    }

    pub fn new() -> (r: SwarmEntry)
        ensures
            r.wf(),
            r.peers@.len() == 0,
    {
        SwarmEntry { peers: Vec::new() }
    }

    /// Index of the peer carrying `id`, if any.
    fn find_index(&self, id: &PeerId) -> (r: Option<usize>)
        ensures
            r matches Some(i) ==> i < self.peers@.len() && self.peers@[i as int].peer_id@ == id@,
            r is None ==> !spec_contains_id(self.peers@, id@),
    {
        let mut i: usize = 0;
        while i < self.peers.len()
            invariant
                i <= self.peers@.len(),
                forall|k: int| 0 <= k < i ==> (#[trigger] self.peers@[k]).peer_id@ != id@,
            decreases self.peers@.len() - i,
        {
            if self.peers[i].peer_id.eq_bytes(id) {
                return Some(i);
            }
            i = i + 1;
        }
        None
    }

    /// Inserts or replaces the peer under its id; a Stopped event
    /// removes the id instead. Returns whether this announce is a
    /// completed transition, the one case in which the torrent's
    /// persistent download counter must grow.
    ///
    /// A Stopped event removes exactly the matching peer id: every
    /// peer under another id is untouched, in both directions.
    pub fn upsert_peer(&mut self, peer: Peer) -> (completed_transition: bool)
        requires
            old(self).wf(),
        ensures
            final(self).wf(),
            completed_transition == spec_completed_transition(old(self).peers@, peer),
            peer.event == AnnounceEvent::Stopped ==> {
                &&& !spec_contains_id(final(self).peers@, peer.peer_id@)
                &&& forall|p: Peer| p.peer_id@ != peer.peer_id@
                    ==> (final(self).peers@.contains(p) <==> old(self).peers@.contains(p))
                &&& final(self).peers@.len() == if spec_contains_id(old(self).peers@, peer.peer_id@) {
                    old(self).peers@.len() - 1
                } else {
                    old(self).peers@.len() as int
                }
            },
            peer.event != AnnounceEvent::Stopped ==> {
                &&& final(self).peers@.contains(peer)
                &&& forall|p: Peer| p.peer_id@ != peer.peer_id@
                    ==> (final(self).peers@.contains(p) <==> old(self).peers@.contains(p))
                &&& forall|p: Peer| final(self).peers@.contains(p) && p.peer_id@ == peer.peer_id@
                    ==> p == peer
                &&& final(self).peers@.len() == if spec_contains_id(old(self).peers@, peer.peer_id@) {
                    old(self).peers@.len() as int
                } else {
                    old(self).peers@.len() + 1int
                }
            },
    {
        let ghost s0 = self.peers@;
        let idx = self.find_index(&peer.peer_id);
        let completed_transition = match peer.event {
            AnnounceEvent::Completed => {
                match idx {
                    Some(i) => {
                        let prev_seeder = self.peers[i].left.0 == 0;
                        proof {
                            if prev_seeder {
                                assert(spec_prev_left_zero(s0, peer.peer_id@));
                            } else {
                                assert forall|j: int|
                                    0 <= j < s0.len() && s0[j].peer_id@ == peer.peer_id@
                                    implies s0[j].left.0 != 0 by {
                                    if j != i {
                                        assert(s0[j].peer_id@ != s0[i as int].peer_id@);
                                    }
                                }
                            }
                        }
                        !prev_seeder
                    },
                    None => true,
                }
            },
            _ => false,
        };
        match peer.event {
            AnnounceEvent::Stopped => {
                match idx {
                    Some(i) => {
                        self.peers.remove(i);
                        proof {
                            let s1 = self.peers@;
                            assert(s1 =~= s0.subrange(0, i as int)
                                + s0.subrange(i + 1, s0.len() as int));
                            assert forall|j: int| 0 <= j < s1.len()
                                implies (#[trigger] s1[j]).peer_id@ != peer.peer_id@ by {
                                if j < i {
                                    assert(s1[j] == s0[j]);
                                    assert(s0[j].peer_id@ != s0[i as int].peer_id@);
                                } else {
                                    assert(s1[j] == s0[j + 1]);
                                    assert(s0[i as int].peer_id@ != s0[j + 1].peer_id@);
                                }
                            }
                            assert forall|p: Peer| p.peer_id@ != peer.peer_id@
                                implies (s1.contains(p) <==> s0.contains(p)) by {
                                if s1.contains(p) {
                                    let j = choose|j: int| 0 <= j < s1.len() && s1[j] == p;
                                    if j < i {
                                        assert(s0[j] == p);
                                    } else {
                                        assert(s0[j + 1] == p);
                                    }
                                }
                                if s0.contains(p) {
                                    let j = choose|j: int| 0 <= j < s0.len() && s0[j] == p;
                                    assert(j != i);
                                    if j < i {
                                        assert(s1[j] == p);
                                    } else {
                                        assert(s1[j - 1] == p);
                                    }
                                }
                            }
                            assert forall|a: int, b: int| 0 <= a < b < s1.len()
                                implies (#[trigger] s1[a]).peer_id@
                                    != (#[trigger] s1[b]).peer_id@ by {
                                let a0 = if a < i { a } else { a + 1 };
                                let b0 = if b < i { b } else { b + 1 };
                                assert(s1[a] == s0[a0]);
                                assert(s1[b] == s0[b0]);
                            }
                        }
                    },
                    None => {},
                }
            },
            _ => {
                match idx {
                    Some(i) => {
                        self.peers.set(i, peer);
                        proof {
                            let s1 = self.peers@;
                            assert(s1 == s0.update(i as int, peer));
                            assert(s1[i as int] == peer);
                            assert(s1.contains(peer));
                            assert forall|p: Peer| p.peer_id@ != peer.peer_id@
                                implies (s1.contains(p) <==> s0.contains(p)) by {
                                if s1.contains(p) {
                                    let j = choose|j: int| 0 <= j < s1.len() && s1[j] == p;
                                    assert(j != i);
                                    assert(s0[j] == p);
                                }
                                if s0.contains(p) {
                                    let j = choose|j: int| 0 <= j < s0.len() && s0[j] == p;
                                    assert(s0[i as int].peer_id@ == peer.peer_id@);
                                    assert(j != i);
                                    assert(s1[j] == p);
                                }
                            }
                            assert forall|p: Peer| s1.contains(p) && p.peer_id@ == peer.peer_id@
                                implies p == peer by {
                                let j = choose|j: int| 0 <= j < s1.len() && s1[j] == p;
                                if j != i {
                                    assert(s0[j] == p);
                                    assert(s0[j].peer_id@ != s0[i as int].peer_id@);
                                }
                            }
                            assert forall|a: int, b: int| 0 <= a < b < s1.len()
                                implies (#[trigger] s1[a]).peer_id@
                                    != (#[trigger] s1[b]).peer_id@ by {
                                assert(s0[a].peer_id@ != s0[b].peer_id@);
                                assert(s1[a].peer_id@ == s0[a].peer_id@);
                                assert(s1[b].peer_id@ == s0[b].peer_id@);
                            }
                        }
                    },
                    None => {
                        self.peers.push(peer);
                        proof {
                            let s1 = self.peers@;
                            assert(s1 == s0.push(peer));
                            assert(s1[s0.len() as int] == peer);
                            assert(s1.contains(peer));
                            assert forall|p: Peer| p.peer_id@ != peer.peer_id@
                                implies (s1.contains(p) <==> s0.contains(p)) by {
                                if s1.contains(p) {
                                    let j = choose|j: int| 0 <= j < s1.len() && s1[j] == p;
                                    assert(j < s0.len());
                                    assert(s0[j] == p);
                                }
                                if s0.contains(p) {
                                    let j = choose|j: int| 0 <= j < s0.len() && s0[j] == p;
                                    assert(s1[j] == p);
                                }
                            }
                            assert forall|p: Peer| s1.contains(p) && p.peer_id@ == peer.peer_id@
                                implies p == peer by {
                                let j = choose|j: int| 0 <= j < s1.len() && s1[j] == p;
                                if j < s0.len() {
                                    assert(s0[j].peer_id@ == peer.peer_id@);
                                    assert(spec_contains_id(s0, peer.peer_id@));
                                }
                            }
                            assert forall|a: int, b: int| 0 <= a < b < s1.len()
                                implies (#[trigger] s1[a]).peer_id@
                                    != (#[trigger] s1[b]).peer_id@ by {
                                if b < s0.len() {
                                    assert(s0[a].peer_id@ != s0[b].peer_id@);
                                } else {
                                    assert(s1[b] == peer);
                                    assert(s1[a] == s0[a]);
                                    if s0[a].peer_id@ == peer.peer_id@ {
                                        assert(spec_contains_id(s0, peer.peer_id@));
                                    }
                                }
                            }
                        }
                    },
                }
            },
        }
        completed_transition
    }

    /// Live seeder and leecher counts, each clamped to the 32-bit wire
    /// range.
    pub fn counts(&self) -> (r: (u32, u32))
        ensures
            r.0 == if spec_complete(self.peers@) <= u32::MAX {
                spec_complete(self.peers@) as u32
            } else {
                u32::MAX
            },
            r.1 == if spec_incomplete(self.peers@) <= u32::MAX {
                spec_incomplete(self.peers@) as u32
            } else {
                u32::MAX
            },
    {
        let s = &self.peers;
        let mut complete: usize = 0;
        let mut incomplete: usize = 0;
        let mut i: usize = 0;
        while i < s.len()
            invariant
                i <= s@.len(),
                complete == spec_complete(s@.take(i as int)),
                incomplete == spec_incomplete(s@.take(i as int)),
                complete + incomplete == i,
            decreases s@.len() - i,
        {
            proof {
                assert(s@.take(i + 1) =~= s@.take(i as int).push(s@[i as int]));
                lemma_filter_push(s@.take(i as int), s@[i as int], seeder_pred());
                lemma_filter_push(s@.take(i as int), s@[i as int], leecher_pred());
            }
            if s[i].is_seeder() {
                complete = complete + 1;
            } else {
                incomplete = incomplete + 1;
            }
            i = i + 1;
        }
        proof {
            assert(s@.take(s@.len() as int) =~= s@);
        }
        let c32 = if complete > 0xFFFF_FFFFusize { 0xFFFF_FFFFu32 } else { complete as u32 };
        let i32_ = if incomplete > 0xFFFF_FFFFusize { 0xFFFF_FFFFu32 } else { incomplete as u32 };
        (c32, i32_)
    }

    /// Removes every stale peer: what remains is exactly the fresh
    /// ones, in their original order.
    pub fn remove_inactive_peers(&mut self, now_secs: u64, timeout_secs: u64)
        requires
            old(self).wf(),
        ensures
            final(self).wf(),
            final(self).peers@ == old(self).peers@.filter(fresh_pred(now_secs, timeout_secs)),
    {
        let ghost s0 = self.peers@;
        let mut kept: Vec<Peer> = Vec::new();
        let mut i: usize = 0;
        while i < self.peers.len()
            invariant
                i <= s0.len(),
                self.peers@ == s0,
                old(self).wf(),
                s0 == old(self).peers@,
                kept@ == s0.take(i as int).filter(fresh_pred(now_secs, timeout_secs)),
                forall|k: int| 0 <= k < kept@.len()
                    ==> exists|j: int| 0 <= j < i && s0[j] == #[trigger] kept@[k],
            decreases s0.len() - i,
        {
            proof {
                assert(s0.take(i + 1) =~= s0.take(i as int).push(s0[i as int]));
                lemma_filter_push(s0.take(i as int), s0[i as int],
                    fresh_pred(now_secs, timeout_secs));
            }
            let p = self.peers[i];
            if p.is_fresh(now_secs, timeout_secs) {
                kept.push(p);
                proof {
                    assert forall|k: int| 0 <= k < kept@.len()
                        implies exists|j: int| 0 <= j < i + 1 && s0[j] == #[trigger] kept@[k] by {
                        if k < kept@.len() - 1 {
                            let j = choose|j: int| 0 <= j < i && s0[j] == kept@[k];
                            assert(0 <= j < i + 1 && s0[j] == kept@[k]);
                        } else {
                            assert(s0[i as int] == kept@[k]);
                        }
                    }
                }
            }
            i = i + 1;
        }
        proof {
            assert(s0.take(s0.len() as int) =~= s0);
            assert forall|a: int, b: int| 0 <= a < b < kept@.len()
                implies (#[trigger] kept@[a]).peer_id@ != (#[trigger] kept@[b]).peer_id@ by {
                let fs = s0.filter(fresh_pred(now_secs, timeout_secs));
                let ja = choose|j: int| 0 <= j < s0.len() && s0[j] == kept@[a];
                let jb = choose|j: int| 0 <= j < s0.len() && s0[j] == kept@[b];
                if ja == jb {
                    assert(kept@[a] == kept@[b]);
                    lemma_filter_distinct_positions(s0, fresh_pred(now_secs, timeout_secs), a, b);
                } else if ja < jb {
                    assert(s0[ja].peer_id@ != s0[jb].peer_id@);
                } else {
                    assert(s0[jb].peer_id@ != s0[ja].peer_id@);
                }
            }
        }
        self.peers = kept;
    }

    /// Up to `limit` peers for an announce response, excluding the
    /// requester, read from a rotation of the entry chosen by
    /// `offset`.
    pub fn get_peers_for_peer(&self, requester: &PeerId, limit: usize, offset: usize) -> (r: Vec<
        Peer,
    >)
        ensures
            r@ == spec_select(spec_rotated(self.peers@, offset as nat), requester@, limit as nat),
            r@.len() <= limit,
            forall|i: int| 0 <= i < r@.len() ==> (#[trigger] r@[i]).peer_id@ != requester@,
            forall|i: int| 0 <= i < r@.len() ==> self.peers@.contains(#[trigger] r@[i]),
    {
        let ghost id = requester@;
        let n = self.peers.len();
        let mut rot: Vec<Peer> = Vec::new();
        if n == 0 {
            proof {
                lemma_select_props(spec_rotated(self.peers@, offset as nat), id, limit as nat);
            }
            return rot;
        }
        let o = offset % n;
        let mut i: usize = o;
        while i < n
            invariant
                o <= i <= n,
                n == self.peers@.len(),
                rot@ == self.peers@.subrange(o as int, i as int),
            decreases n - i,
        {
            rot.push(self.peers[i]);
            proof {
                assert(self.peers@.subrange(o as int, i + 1)
                    =~= self.peers@.subrange(o as int, i as int).push(self.peers@[i as int]));
            }
            i = i + 1;
        }
        let mut j: usize = 0;
        while j < o
            invariant
                j <= o < n,
                n == self.peers@.len(),
                rot@ == self.peers@.subrange(o as int, n as int)
                    + self.peers@.subrange(0, j as int),
            decreases o - j,
        {
            rot.push(self.peers[j]);
            proof {
                assert(self.peers@.subrange(0, j + 1)
                    =~= self.peers@.subrange(0, j as int).push(self.peers@[j as int]));
                assert(rot@ == self.peers@.subrange(o as int, n as int)
                    + self.peers@.subrange(0, j + 1));
            }
            j = j + 1;
        }
        let ghost grot = spec_rotated(self.peers@, offset as nat);
        proof {
            assert(rot@ == grot);
        }
        let mut result: Vec<Peer> = Vec::new();
        let mut k: usize = 0;
        proof {
            assert(rot@.skip(0) =~= rot@);
            assert(Seq::<Peer>::empty() + spec_select(grot, id, limit as nat)
                =~= spec_select(grot, id, limit as nat));
        }
        while k < rot.len() && result.len() < limit
            invariant
                k <= rot@.len(),
                rot@ == grot,
                id == requester@,
                result@.len() <= limit,
                spec_select(grot, id, limit as nat) == result@
                    + spec_select(rot@.skip(k as int), id, (limit - result@.len()) as nat),
            decreases rot@.len() - k,
        {
            let p = rot[k];
            let ghost rem = rot@.skip(k as int);
            proof {
                assert(rem.len() > 0);
                assert(rem.first() == rot@[k as int]);
                assert(rem.drop_first() =~= rot@.skip(k + 1));
            }
            if !p.peer_id.eq_bytes(requester) {
                proof {
                    let l = (limit - result@.len()) as nat;
                    lemma_select_unfold(rem, id, l);
                    assert(spec_select(rem, id, l) == seq![p]
                        + spec_select(rot@.skip(k + 1), id, (l - 1) as nat));
                    assert(result@ + spec_select(rem, id, l) == result@.push(p)
                        + spec_select(rot@.skip(k + 1), id, (l - 1) as nat)) by {
                        assert(result@ + (seq![p] + spec_select(rot@.skip(k + 1), id, (l - 1) as nat))
                            =~= result@.push(p) + spec_select(rot@.skip(k + 1), id, (l - 1) as nat));
                    }
                }
                result.push(p);
            } else {
                proof {
                    let l = (limit - result@.len()) as nat;
                    lemma_select_unfold(rem, id, l);
                    assert(spec_select(rem, id, l) == spec_select(rot@.skip(k + 1), id, l));
                }
            }
            k = k + 1;
        }
        proof {
            if k == rot@.len() {
                assert(rot@.skip(k as int) =~= Seq::<Peer>::empty());
                assert(spec_select(rot@.skip(k as int), id, (limit - result@.len()) as nat)
                    =~= Seq::<Peer>::empty());
            } else {
                assert(result@.len() == limit);
                assert(spec_select(rot@.skip(k as int), id, 0nat) =~= Seq::<Peer>::empty());
            }
            assert(result@ + Seq::<Peer>::empty() =~= result@);
            lemma_select_props(grot, id, limit as nat);
            assert forall|i2: int| 0 <= i2 < result@.len()
                implies self.peers@.contains(#[trigger] result@[i2]) by {
                assert(grot.contains(result@[i2]));
                let j2 = choose|j2: int| 0 <= j2 < grot.len() && grot[j2] == result@[i2];
                let o2 = (offset as nat % self.peers@.len()) as int;
                if j2 < self.peers@.len() - o2 {
                    assert(self.peers@[j2 + o2] == result@[i2]);
                } else {
                    assert(self.peers@[j2 - (self.peers@.len() - o2)] == result@[i2]);
                }
            }
        }
        result
    }
}

/// Distinct positions of a filtered sequence come from distinct
/// positions of the original.
pub proof fn lemma_filter_distinct_positions<A>(s: Seq<A>, pred: spec_fn(A) -> bool, a: int, b: int)
    requires
        0 <= a < b < s.filter(pred).len(),
    ensures
        s.filter(pred)[a] == s.filter(pred)[b] ==> exists|ja: int, jb: int|
            0 <= ja < jb < s.len() && s[ja] == s.filter(pred)[a] && s[jb] == s.filter(pred)[b],
    decreases s.len(),
{
    reveal(Seq::filter);
    if s.len() == 0 {
    } else {
        let fs = s.filter(pred);
        let fd = s.drop_last().filter(pred);
        if pred(s.last()) {
            if b < fs.len() - 1 {
                lemma_filter_distinct_positions(s.drop_last(), pred, a, b);
                if fs[a] == fs[b] {
                    let (ja, jb) = choose|ja: int, jb: int|
                        0 <= ja < jb < s.drop_last().len() && s.drop_last()[ja] == fd[a]
                            && s.drop_last()[jb] == fd[b];
                    assert(s[ja] == fd[a] && s[jb] == fd[b]);
                }
            } else {
                // b is the appended last element; a lies in the prefix
                if fs[a] == fs[b] {
                    lemma_filter_element_position(s.drop_last(), pred, a);
                    let ja = choose|ja: int|
                        0 <= ja < s.drop_last().len() && s.drop_last()[ja] == fd[a];
                    assert(s[ja] == fs[a]);
                    assert(s[s.len() - 1] == fs[b]);
                }
            }
        } else {
            lemma_filter_distinct_positions(s.drop_last(), pred, a, b);
            if fs[a] == fs[b] {
                let (ja, jb) = choose|ja: int, jb: int|
                    0 <= ja < jb < s.drop_last().len() && s.drop_last()[ja] == fd[a]
                        && s.drop_last()[jb] == fd[b];
                assert(s[ja] == fd[a] && s[jb] == fd[b]);
            }
        }
    }
}

/// Every element of a filtered sequence stands somewhere in the
/// original.
proof fn lemma_filter_element_position<A>(s: Seq<A>, pred: spec_fn(A) -> bool, a: int)
    requires
        0 <= a < s.filter(pred).len(),
    ensures
        exists|j: int| 0 <= j < s.len() && s[j] == s.filter(pred)[a],
    decreases s.len(),
{
    reveal(Seq::filter);
    if s.len() == 0 {
    } else {
        let fs = s.filter(pred);
        let fd = s.drop_last().filter(pred);
        if pred(s.last()) && a == fs.len() - 1 {
            assert(s[s.len() - 1] == fs[a]);
        } else {
            lemma_filter_element_position(s.drop_last(), pred, a);
            let j = choose|j: int| 0 <= j < s.drop_last().len() && s.drop_last()[j] == fd[a];
            assert(s[j] == fs[a]);
        }
    }
}

} // verus!
