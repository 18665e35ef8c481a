use torrust_tracker::config::TrackerPolicy;
use torrust_tracker::http_services::{fake, invoke};
use torrust_tracker::info_hash::InfoHash;
use torrust_tracker::peer::{Peer, PeerId};
use torrust_tracker::primitives::{AnnounceEvent, DurationSinceUnixEpoch, IpAddress,
    NumberOfBytes, PeersWanted, SocketAddress};
use torrust_tracker::statistics::Event;
use torrust_tracker::swarm::SwarmMetadata;
use torrust_tracker::tracker::{ScrapeData, Tracker};

fn public_tracker() -> Tracker {
    Tracker::new(TrackerPolicy::default_public())
}

fn sample_info_hashes() -> Vec<InfoHash> {
    vec![sample_info_hash()]
}

fn sample_info_hash() -> InfoHash {
    InfoHash::from_hex(b"3b245504cf5f11bbdbe1201cea6a6bf45aee1bc0").unwrap()
}

fn sample_peer() -> Peer {
    Peer {
        peer_id: PeerId(*b"-qB00000000000000000"),
        peer_addr: SocketAddress {
            ip: IpAddress::V4(u32::from_be_bytes([126, 0, 0, 1])),
            port: 8080,
        },
        updated: DurationSinceUnixEpoch::new(1_669_397_478_934, 0),
        uploaded: NumberOfBytes::new(0),
        downloaded: NumberOfBytes::new(0),
        left: NumberOfBytes::new(0),
        event: AnnounceEvent::Started,
    }
}

#[test]
fn it_should_return_the_scrape_data_for_a_torrent() {
    let mut tracker = public_tracker();

    let info_hash = sample_info_hash();
    let info_hashes = vec![info_hash];

    // Announce a new peer so the scrape data is not zeroed
    let mut peer = sample_peer();
    let original_peer_ip = peer.ip();
    tracker.announce(&info_hash, &mut peer, &original_peer_ip, &PeersWanted::All, 0);

    let (scrape_data, _event) = invoke(&tracker, &info_hashes, &original_peer_ip);

    let mut expected_scrape_data = ScrapeData::empty();
    expected_scrape_data.add_file(
        &info_hash,
        SwarmMetadata {
            complete: 1,
            downloaded: 0,
            incomplete: 0,
        },
    );

    assert_eq!(scrape_data, expected_scrape_data);
}

#[test]
fn it_should_send_the_tcp_4_scrape_event_when_the_peer_uses_ipv4() {
    let tracker = public_tracker();
    let peer_ip = IpAddress::V4(u32::from_be_bytes([126, 0, 0, 1]));
    let (_data, event) = invoke(&tracker, &sample_info_hashes(), &peer_ip);
    assert_eq!(event, Event::Tcp4Scrape);
}

#[test]
fn it_should_send_the_tcp_6_scrape_event_when_the_peer_uses_ipv6() {
    let tracker = public_tracker();
    let peer_ip = IpAddress::V6(0x6969_6969_6969_6969_6969_6969_6969_6969);
    let (_data, event) = invoke(&tracker, &sample_info_hashes(), &peer_ip);
    assert_eq!(event, Event::Tcp6Scrape);
}

#[test]
fn it_should_always_return_the_zeroed_scrape_data_for_a_torrent() {
    let mut tracker = public_tracker();

    let info_hash = sample_info_hash();
    let info_hashes = vec![info_hash];

    // Announce a new peer so a real scrape would not be zeroed
    let mut peer = sample_peer();
    let original_peer_ip = peer.ip();
    tracker.announce(&info_hash, &mut peer, &original_peer_ip, &PeersWanted::All, 0);

    let (scrape_data, _event) = fake(&info_hashes, &original_peer_ip);

    let expected_scrape_data = ScrapeData::zeroed(&info_hashes);

    assert_eq!(scrape_data, expected_scrape_data);
}

#[test]
fn fake_scrape_sends_the_tcp_4_scrape_event_when_the_peer_uses_ipv4() {
    let peer_ip = IpAddress::V4(u32::from_be_bytes([126, 0, 0, 1]));
    let (_data, event) = fake(&sample_info_hashes(), &peer_ip);
    assert_eq!(event, Event::Tcp4Scrape);
}

#[test]
fn fake_scrape_sends_the_tcp_6_scrape_event_when_the_peer_uses_ipv6() {
    let peer_ip = IpAddress::V6(0x6969_6969_6969_6969_6969_6969_6969_6969);
    let (_data, event) = fake(&sample_info_hashes(), &peer_ip);
    assert_eq!(event, Event::Tcp6Scrape);
}
