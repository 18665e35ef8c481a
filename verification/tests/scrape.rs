use torrust_tracker::config::TrackerPolicy;
use torrust_tracker::info_hash::InfoHash;
use torrust_tracker::peer::{Peer, PeerId};
use torrust_tracker::primitives::{AnnounceEvent, DurationSinceUnixEpoch, IpAddress,
    NumberOfBytes, PeersWanted, SocketAddress};
use torrust_tracker::swarm::SwarmMetadata;
use torrust_tracker::tracker::Tracker;

fn known_hash() -> InfoHash {
    InfoHash::from_hex(b"3b245504cf5f11bbdbe1201cea6a6bf45aee1bc0").unwrap()
}

fn announce_one_seeder(tracker: &mut Tracker, h: &InfoHash) {
    let mut p = Peer {
        peer_id: PeerId(*b"-qB00000000000000000"),
        peer_addr: SocketAddress {
            ip: IpAddress::V4(u32::from_be_bytes([126, 0, 0, 1])),
            port: 8080,
        },
        updated: DurationSinceUnixEpoch::new(1_669_397_478_934, 0),
        uploaded: NumberOfBytes::new(0),
        downloaded: NumberOfBytes::new(0),
        left: NumberOfBytes::new(0),
        event: AnnounceEvent::Started,
    };
    let ip = p.ip();
    tracker.announce(h, &mut p, &ip, &PeersWanted::All, 0);
}

#[test]
fn scrape_preserves_order_and_cardinality_and_zeroes_the_unknown() {
    let mut tracker = Tracker::new(TrackerPolicy::default_public());
    let known = known_hash();
    announce_one_seeder(&mut tracker, &known);

    let unknown = InfoHash::zeroed();
    let hashes = vec![known, unknown];
    let data = tracker.scrape(&hashes);

    assert_eq!(data.files.len(), 2);
    assert_eq!(data.files[0].0, known);
    assert_eq!(data.files[0].1, SwarmMetadata { complete: 1, downloaded: 0, incomplete: 0 });
    assert_eq!(data.files[1].0, unknown);
    assert_eq!(data.files[1].1, SwarmMetadata { complete: 0, downloaded: 0, incomplete: 0 });

    // The reversed request comes back reversed.
    let reversed = vec![unknown, known];
    let data = tracker.scrape(&reversed);
    assert_eq!(data.files[0].0, unknown);
    assert_eq!(data.files[1].0, known);
}

#[test]
fn an_empty_scrape_returns_an_empty_list() {
    let tracker = Tracker::new(TrackerPolicy::default_public());
    let data = tracker.scrape(&Vec::new());
    assert_eq!(data.files.len(), 0);
}
