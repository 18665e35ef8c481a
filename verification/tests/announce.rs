use torrust_tracker::config::TrackerPolicy;
use torrust_tracker::info_hash::InfoHash;
use torrust_tracker::peer::{Peer, PeerId};
use torrust_tracker::primitives::{AnnounceEvent, DurationSinceUnixEpoch, IpAddress,
    NumberOfBytes, PeersWanted, SocketAddress};
use torrust_tracker::tracker::Tracker;

fn sample_info_hash() -> InfoHash {
    InfoHash::from_hex(b"3b245504cf5f11bbdbe1201cea6a6bf45aee1bc0").unwrap()
}

fn peer(id: &[u8; 20], ip: [u8; 4], port: u16, left: i64, event: AnnounceEvent) -> Peer {
    Peer {
        peer_id: PeerId(*id),
        peer_addr: SocketAddress { ip: IpAddress::V4(u32::from_be_bytes(ip)), port },
        updated: DurationSinceUnixEpoch::new(1_669_397_478_934, 0),
        uploaded: NumberOfBytes::new(0),
        downloaded: NumberOfBytes::new(0),
        left: NumberOfBytes::new(left),
        event,
    }
}

#[test]
fn public_announce_to_a_new_torrent_returns_one_seeder_and_no_peers() {
    let mut tracker = Tracker::new(TrackerPolicy::default_public());
    let h = sample_info_hash();
    let mut p1 = peer(b"-qB00000000000000000", [126, 0, 0, 1], 8080, 0, AnnounceEvent::Started);
    let ip = p1.ip();
    let d = tracker.announce(&h, &mut p1, &ip, &PeersWanted::All, 0);
    assert_eq!(d.stats.complete, 1);
    assert_eq!(d.stats.incomplete, 0);
    assert_eq!(d.stats.downloaded, 0);
    assert!(d.peers.is_empty());
}

#[test]
fn a_second_peer_of_opposite_type_sees_the_first_peer() {
    let mut tracker = Tracker::new(TrackerPolicy::default_public());
    let h = sample_info_hash();
    let mut p1 = peer(b"-qB00000000000000000", [126, 0, 0, 1], 8080, 0, AnnounceEvent::Started);
    let ip1 = p1.ip();
    tracker.announce(&h, &mut p1, &ip1, &PeersWanted::All, 0);

    let mut p2 = peer(b"-qB00000000000000001", [126, 0, 0, 2], 8080, 100, AnnounceEvent::Started);
    let ip2 = p2.ip();
    let d = tracker.announce(&h, &mut p2, &ip2, &PeersWanted::All, 0);
    assert_eq!(d.stats.complete, 1);
    assert_eq!(d.stats.incomplete, 1);
    assert_eq!(d.peers.len(), 1);
    assert_eq!(d.peers[0].peer_addr, SocketAddress {
        ip: IpAddress::V4(u32::from_be_bytes([126, 0, 0, 1])),
        port: 8080,
    });
}

#[test]
fn a_completed_transition_increments_downloaded_exactly_once() {
    let mut tracker = Tracker::new(TrackerPolicy::default_public());
    let h = sample_info_hash();
    let mut p1 = peer(b"-qB00000000000000000", [126, 0, 0, 1], 8080, 0, AnnounceEvent::Started);
    let ip1 = p1.ip();
    tracker.announce(&h, &mut p1, &ip1, &PeersWanted::All, 0);
    let mut p2 = peer(b"-qB00000000000000001", [126, 0, 0, 2], 8080, 100, AnnounceEvent::Started);
    let ip2 = p2.ip();
    tracker.announce(&h, &mut p2, &ip2, &PeersWanted::All, 0);

    // Peer 2 finishes the download.
    let mut p2done = peer(b"-qB00000000000000001", [126, 0, 0, 2], 8080, 0,
        AnnounceEvent::Completed);
    let d = tracker.announce(&h, &mut p2done, &ip2, &PeersWanted::All, 0);
    assert_eq!(d.stats.complete, 2);
    assert_eq!(d.stats.incomplete, 0);
    assert_eq!(d.stats.downloaded, 1);

    // A repeated Completed from the same peer must not count again.
    let mut p2again = peer(b"-qB00000000000000001", [126, 0, 0, 2], 8080, 0,
        AnnounceEvent::Completed);
    let d = tracker.announce(&h, &mut p2again, &ip2, &PeersWanted::All, 0);
    assert_eq!(d.stats.downloaded, 1);
}

#[test]
fn a_stopped_event_removes_exactly_the_matching_peer() {
    let mut tracker = Tracker::new(TrackerPolicy::default_public());
    let h = sample_info_hash();
    let mut p1 = peer(b"-qB00000000000000000", [126, 0, 0, 1], 8080, 0, AnnounceEvent::Started);
    let ip1 = p1.ip();
    tracker.announce(&h, &mut p1, &ip1, &PeersWanted::All, 0);
    let mut p2 = peer(b"-qB00000000000000001", [126, 0, 0, 2], 8080, 100, AnnounceEvent::Started);
    let ip2 = p2.ip();
    tracker.announce(&h, &mut p2, &ip2, &PeersWanted::All, 0);

    let mut p1stop = peer(b"-qB00000000000000000", [126, 0, 0, 1], 8080, 0,
        AnnounceEvent::Stopped);
    let d = tracker.announce(&h, &mut p1stop, &ip1, &PeersWanted::All, 0);
    assert_eq!(d.stats.complete, 0);
    assert_eq!(d.stats.incomplete, 1);

    // The untouched peer is still served to a third party.
    let mut p3 = peer(b"-qB00000000000000002", [126, 0, 0, 3], 8080, 100, AnnounceEvent::Started);
    let ip3 = p3.ip();
    let d = tracker.announce(&h, &mut p3, &ip3, &PeersWanted::All, 0);
    assert_eq!(d.peers.len(), 1);
    assert_eq!(d.peers[0].peer_id, PeerId(*b"-qB00000000000000001"));
}

#[test]
fn peer_selection_never_includes_the_requester_under_any_rotation() {
    let mut tracker = Tracker::new(TrackerPolicy::default_public());
    let h = sample_info_hash();
    let ids: [&[u8; 20]; 4] = [b"-qB00000000000000000", b"-qB00000000000000001",
        b"-qB00000000000000002", b"-qB00000000000000003"];
    for (i, id) in ids.iter().enumerate() {
        let mut p = peer(id, [126, 0, 0, 1 + i as u8], 8080, 100, AnnounceEvent::Started);
        let ip = p.ip();
        tracker.announce(&h, &mut p, &ip, &PeersWanted::All, 0);
    }
    for offset in 0..9 {
        let mut requester = peer(ids[1], [126, 0, 0, 2], 8080, 100, AnnounceEvent::Empty);
        let ip = requester.ip();
        let d = tracker.announce(&h, &mut requester, &ip, &PeersWanted::All, offset);
        assert_eq!(d.peers.len(), 3);
        for q in &d.peers {
            assert_ne!(q.peer_id, PeerId(*ids[1]));
        }
    }
}

#[test]
fn numwant_caps_the_peer_list() {
    let mut tracker = Tracker::new(TrackerPolicy::default_public());
    let h = sample_info_hash();
    let ids: [&[u8; 20]; 4] = [b"-qB00000000000000000", b"-qB00000000000000001",
        b"-qB00000000000000002", b"-qB00000000000000003"];
    for (i, id) in ids.iter().enumerate() {
        let mut p = peer(id, [126, 0, 0, 1 + i as u8], 8080, 100, AnnounceEvent::Started);
        let ip = p.ip();
        tracker.announce(&h, &mut p, &ip, &PeersWanted::All, 0);
    }
    let mut req = peer(b"-qB00000000000000009", [126, 0, 0, 9], 8080, 100, AnnounceEvent::Empty);
    let ip = req.ip();
    let d = tracker.announce(&h, &mut req, &ip, &PeersWanted::Only(2), 0);
    assert_eq!(d.peers.len(), 2);
}

#[test]
fn reaping_removes_only_stale_peers_and_pruning_drops_empty_torrents() {
    let mut tracker = Tracker::new(TrackerPolicy::default_public());
    let h = sample_info_hash();
    let mut fresh = peer(b"-qB00000000000000000", [126, 0, 0, 1], 8080, 0,
        AnnounceEvent::Started);
    fresh.updated = DurationSinceUnixEpoch::new(1_000, 0);
    let ip = fresh.ip();
    tracker.announce(&h, &mut fresh, &ip, &PeersWanted::All, 0);
    let mut stale = peer(b"-qB00000000000000001", [126, 0, 0, 2], 8080, 100,
        AnnounceEvent::Started);
    stale.updated = DurationSinceUnixEpoch::new(10, 0);
    let ip2 = stale.ip();
    tracker.announce(&h, &mut stale, &ip2, &PeersWanted::All, 0);

    tracker.torrents.remove_inactive_peers(1_500, 900);
    let m = tracker.torrents.get_swarm_metadata(&h);
    assert_eq!(m.complete, 1);
    assert_eq!(m.incomplete, 0);

    tracker.torrents.remove_inactive_peers(100_000, 900);
    let m = tracker.torrents.get_swarm_metadata(&h);
    assert_eq!(m.complete, 0);
    assert_eq!(m.incomplete, 0);

    tracker.torrents.remove_peerless_torrents();
    assert_eq!(tracker.torrents.torrents.len(), 0);
}

#[test]
fn metrics_aggregate_over_all_torrents() {
    let mut tracker = Tracker::new(TrackerPolicy::default_public());
    let h1 = sample_info_hash();
    let h2 = InfoHash::from_hex(b"aa00000000000000000000000000000000000000").unwrap();
    let mut p1 = peer(b"-qB00000000000000000", [126, 0, 0, 1], 8080, 0, AnnounceEvent::Started);
    let ip = p1.ip();
    tracker.announce(&h1, &mut p1, &ip, &PeersWanted::All, 0);
    let mut p2 = peer(b"-qB00000000000000001", [126, 0, 0, 2], 8080, 5, AnnounceEvent::Started);
    let ip2 = p2.ip();
    tracker.announce(&h2, &mut p2, &ip2, &PeersWanted::All, 0);
    let m = tracker.torrents.metrics();
    assert_eq!(m.torrents, 2);
    assert_eq!(m.complete, 1);
    assert_eq!(m.incomplete, 1);
    assert_eq!(m.downloaded, 0);
}

#[test]
fn persisted_download_counters_survive_a_round_trip() {
    let mut tracker = Tracker::new(TrackerPolicy::default_public());
    let h1 = sample_info_hash();
    let h2 = InfoHash::from_hex(b"aa00000000000000000000000000000000000000").unwrap();

    // A live torrent with one announce.
    let mut p = peer(b"-qB00000000000000000", [126, 0, 0, 1], 8080, 0, AnnounceEvent::Started);
    let ip = p.ip();
    tracker.announce(&h1, &mut p, &ip, &PeersWanted::All, 0);

    // The store hands back a counter for the live torrent (ignored)
    // and one for a torrent only the store remembers (adopted).
    tracker.torrents.import_persistent(&vec![(h1, 7), (h2, 3)]);
    let m1 = tracker.torrents.get_swarm_metadata(&h1);
    assert_eq!(m1.downloaded, 0);
    let m2 = tracker.torrents.get_swarm_metadata(&h2);
    assert_eq!((m2.complete, m2.downloaded, m2.incomplete), (0, 3, 0));

    // Everything flows back out, one pair per torrent, in order.
    let out = tracker.torrents.export_persistent();
    assert_eq!(out.len(), 2);
    assert_eq!(out[0], (h1, 0));
    assert_eq!(out[1], (h2, 3));
}
