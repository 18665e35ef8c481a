use torrust_tracker::config::TrackerPolicy;
use torrust_tracker::cookie;
use torrust_tracker::cookie::CookieError;
use torrust_tracker::info_hash::InfoHash;
use torrust_tracker::primitives::{DurationSinceUnixEpoch, IpAddress, SocketAddress};
use torrust_tracker::tracker::Tracker;
use torrust_tracker::udp_codec::{encode_connect_response, encode_error_response, parse_request,
    ParseError, Request};
use torrust_tracker::banning::BanService;
use torrust_tracker::udp_handler::{handle_announce, handle_connect, handle_packet, handle_scrape,
    UdpAnnounceError};
use torrust_tracker::whitelist::InMemoryWhitelist;

const SECRET: u64 = 0x5EED_0123_4567_89AB;

fn addr(ip: [u8; 4], port: u16) -> SocketAddress {
    SocketAddress { ip: IpAddress::V4(u32::from_be_bytes(ip)), port }
}

fn connect_request_bytes(tx: u32) -> Vec<u8> {
    let mut b = Vec::new();
    b.extend_from_slice(&0x41727101980u64.to_be_bytes());
    b.extend_from_slice(&0u32.to_be_bytes());
    b.extend_from_slice(&tx.to_be_bytes());
    b
}

fn announce_request_bytes(connection_id: u64, tx: u32, info_hash: &[u8; 20], peer_id: &[u8; 20],
    left: u64, event: u32, port: u16) -> Vec<u8> {
    let mut b = Vec::new();
    b.extend_from_slice(&connection_id.to_be_bytes());
    b.extend_from_slice(&1u32.to_be_bytes());
    b.extend_from_slice(&tx.to_be_bytes());
    b.extend_from_slice(info_hash);
    b.extend_from_slice(peer_id);
    b.extend_from_slice(&0u64.to_be_bytes()); // downloaded
    b.extend_from_slice(&left.to_be_bytes());
    b.extend_from_slice(&0u64.to_be_bytes()); // uploaded
    b.extend_from_slice(&event.to_be_bytes());
    b.extend_from_slice(&0u32.to_be_bytes()); // ip
    b.extend_from_slice(&0u32.to_be_bytes()); // key
    b.extend_from_slice(&(-1i32).to_be_bytes()); // num_want
    b.extend_from_slice(&port.to_be_bytes());
    b
}

#[test]
fn the_udp_handshake_binds_the_cookie_to_the_source_address() {
    let mut tracker = Tracker::new(TrackerPolicy::default_public());
    let now = DurationSinceUnixEpoch::new(1_000_000, 0);
    let src = addr([10, 0, 0, 1], 1000);

    // Connect from 10.0.0.1:1000.
    let parsed = parse_request(&connect_request_bytes(0xCAFEBABE)).unwrap();
    let connect = match parsed {
        Request::Connect(c) => c,
        _ => panic!("expected a connect request"),
    };
    assert_eq!(connect.transaction_id, 0xCAFEBABE);
    let (connection_id, _event) = handle_connect(&src, &connect, now.secs, SECRET);

    // The connect response carries action 0, the transaction, the id.
    let resp = encode_connect_response(connect.transaction_id, connection_id);
    assert_eq!(resp.len(), 16);
    assert_eq!(&resp[0..4], &[0, 0, 0, 0]);
    assert_eq!(&resp[4..8], &0xCAFEBABEu32.to_be_bytes());
    assert_eq!(&resp[8..16], &connection_id.to_be_bytes());

    // An announce with that id from the same address succeeds.
    let h = InfoHash::from_hex(b"3b245504cf5f11bbdbe1201cea6a6bf45aee1bc0").unwrap();
    let bytes = announce_request_bytes(connection_id, 7, &h.0, b"-qB00000000000000000", 0, 2,
        8080);
    let req = match parse_request(&bytes).unwrap() {
        Request::Announce(a) => a,
        _ => panic!("expected an announce request"),
    };
    let whitelist = InMemoryWhitelist::new();
    let d = handle_announce(&mut tracker, &whitelist, &req, &src, now, SECRET, 0).unwrap();
    assert_eq!(d.stats.complete, 1);

    // The same id from another address is refused: the cookie is bound
    // to the original source.
    let other = addr([10, 0, 0, 2], 1000);
    match handle_announce(&mut tracker, &whitelist, &req, &other, now, SECRET, 0) {
        Err(e) => assert_eq!(e, UdpAnnounceError::BadCookie(CookieError::InvalidCookie)),
        Ok(_) => panic!("a cookie bound to another address must be refused"),
    }
}

#[test]
fn an_announce_with_a_bad_cookie_changes_no_state() {
    let mut tracker = Tracker::new(TrackerPolicy::default_public());
    let now = DurationSinceUnixEpoch::new(1_000_000, 0);
    let src = addr([10, 0, 0, 1], 1000);
    let h = InfoHash::from_hex(b"3b245504cf5f11bbdbe1201cea6a6bf45aee1bc0").unwrap();
    let bytes = announce_request_bytes(0xDEAD_BEEF_DEAD_BEEF, 7, &h.0, b"-qB00000000000000000",
        0, 2, 8080);
    let req = match parse_request(&bytes).unwrap() {
        Request::Announce(a) => a,
        _ => panic!("expected an announce request"),
    };
    let whitelist = InMemoryWhitelist::new();
    let r = handle_announce(&mut tracker, &whitelist, &req, &src, now, SECRET, 0);
    assert!(r.is_err());
    assert_eq!(tracker.torrents.torrents.len(), 0);
}

#[test]
fn an_expired_cookie_is_told_apart_from_a_forged_one() {
    let now = 1_000_000u64;
    let src = addr([10, 0, 0, 1], 1000);
    let cookie = cookie::make(&src, now, SECRET);
    assert!(cookie::verify(cookie, &src, now + 120, 120, SECRET).is_ok());
    assert_eq!(cookie::verify(cookie, &src, now + 121, 120, SECRET).unwrap_err(),
        CookieError::ExpiredCookie);
    assert_eq!(cookie::verify(cookie, &addr([10, 0, 0, 2], 1000), now + 1, 120, SECRET)
        .unwrap_err(), CookieError::InvalidCookie);
    assert_eq!(cookie::verify(cookie ^ 0x0001_0000_0000_0000, &src, now + 1, 120, SECRET)
        .unwrap_err(), CookieError::InvalidCookie);
}

#[test]
fn scrape_under_a_valid_cookie_returns_the_counts() {
    let mut tracker = Tracker::new(TrackerPolicy::default_public());
    let now = DurationSinceUnixEpoch::new(1_000_000, 0);
    let src = addr([10, 0, 0, 1], 1000);
    let h = InfoHash::from_hex(b"3b245504cf5f11bbdbe1201cea6a6bf45aee1bc0").unwrap();
    let cookie_id = cookie::make(&src, now.secs, SECRET);
    let bytes = announce_request_bytes(cookie_id, 7, &h.0, b"-qB00000000000000000", 0, 2, 8080);
    let req = match parse_request(&bytes).unwrap() {
        Request::Announce(a) => a,
        _ => panic!("expected an announce request"),
    };
    let whitelist = InMemoryWhitelist::new();
    handle_announce(&mut tracker, &whitelist, &req, &src, now, SECRET, 0).unwrap();

    let mut scrape_bytes = Vec::new();
    scrape_bytes.extend_from_slice(&cookie_id.to_be_bytes());
    scrape_bytes.extend_from_slice(&2u32.to_be_bytes());
    scrape_bytes.extend_from_slice(&9u32.to_be_bytes());
    scrape_bytes.extend_from_slice(&h.0);
    scrape_bytes.extend_from_slice(&[0u8; 20]);
    let sreq = match parse_request(&scrape_bytes).unwrap() {
        Request::Scrape(s) => s,
        _ => panic!("expected a scrape request"),
    };
    assert_eq!(sreq.info_hashes.len(), 2);
    let files = handle_scrape(&tracker, &sreq, &src, now, SECRET).unwrap();
    assert_eq!(files.len(), 2);
    assert_eq!((files[0].complete, files[0].downloaded, files[0].incomplete), (1, 0, 0));
    assert_eq!((files[1].complete, files[1].downloaded, files[1].incomplete), (0, 0, 0));
}

#[test]
fn every_malformed_datagram_maps_to_its_parse_error() {
    assert_eq!(parse_request(&[0u8; 15]).unwrap_err(), ParseError::Truncated);

    let mut wrong_magic = connect_request_bytes(1);
    wrong_magic[0] = 0xFF;
    assert_eq!(parse_request(&wrong_magic).unwrap_err(), ParseError::WrongMagic);

    let mut unknown_action = connect_request_bytes(1);
    unknown_action[8..12].copy_from_slice(&9u32.to_be_bytes());
    assert_eq!(parse_request(&unknown_action).unwrap_err(), ParseError::UnknownAction);

    let h = [0u8; 20];
    let short_announce = &announce_request_bytes(1, 2, &h, &h, 0, 2, 1)[0..97];
    assert_eq!(parse_request(short_announce).unwrap_err(), ParseError::Truncated);

    let mut bad_event = announce_request_bytes(1, 2, &h, &h, 0, 2, 1);
    bad_event[80..84].copy_from_slice(&7u32.to_be_bytes());
    assert_eq!(parse_request(&bad_event).unwrap_err(), ParseError::InvalidEvent);

    let mut big_scrape = Vec::new();
    big_scrape.extend_from_slice(&1u64.to_be_bytes());
    big_scrape.extend_from_slice(&2u32.to_be_bytes());
    big_scrape.extend_from_slice(&3u32.to_be_bytes());
    big_scrape.extend_from_slice(&[0u8; 20 * 75]);
    assert_eq!(parse_request(&big_scrape).unwrap_err(), ParseError::TooManyScrapeHashes);
}

#[test]
fn the_error_response_echoes_the_transaction_and_the_message() {
    let r = encode_error_response(0xCAFEBABE, b"bad request");
    let mut expected = Vec::new();
    expected.extend_from_slice(&3u32.to_be_bytes());
    expected.extend_from_slice(&0xCAFEBABEu32.to_be_bytes());
    expected.extend_from_slice(b"bad request");
    assert_eq!(r, expected);
}

#[test]
fn a_signed_counter_read_off_the_wire_keeps_its_value() {
    assert_eq!(torrust_tracker::udp_codec::i64_from_u64(5), 5);
    assert_eq!(torrust_tracker::udp_codec::i64_from_u64(u64::MAX), -1);
    assert_eq!(torrust_tracker::udp_codec::i64_from_u64(i64::MAX as u64), i64::MAX);
    assert_eq!(torrust_tracker::udp_codec::i64_from_u64(1u64 << 63), i64::MIN);
}

#[test]
fn the_packet_dispatcher_gates_drops_and_counts_errors() {
    let mut tracker = Tracker::new(TrackerPolicy::default_public());
    let mut bans = BanService::new(2, 120);
    let whitelist = InMemoryWhitelist::new();
    let now = DurationSinceUnixEpoch::new(1_000_000, 0);
    let src = addr([10, 0, 0, 1], 1000);

    // A connect is answered with the cookie and leaves the tally alone.
    let (reply, event) = handle_packet(&mut tracker, &mut bans, &whitelist,
        &connect_request_bytes(5), &src, now, SECRET, 0);
    let reply = reply.unwrap();
    assert_eq!(&reply[0..4], &[0, 0, 0, 0]);
    assert_eq!(&reply[4..8], &5u32.to_be_bytes());
    let expected_cookie = cookie::make(&src, now.secs, SECRET);
    assert_eq!(&reply[8..16], &expected_cookie.to_be_bytes());
    assert!(event.is_some());
    assert!(!bans.is_banned(&src.ip, now.secs));

    // Garbage is answered with the error action and counted; past the
    // threshold the source is dropped silently.
    for _ in 0..3 {
        let (reply, event) = handle_packet(&mut tracker, &mut bans, &whitelist, &[0u8; 3], &src,
            now, SECRET, 0);
        let reply = reply.unwrap();
        assert_eq!(&reply[0..4], &3u32.to_be_bytes());
        assert_eq!(&reply[4..8], &0u32.to_be_bytes());
        assert_eq!(&reply[8..], b"bad request");
        assert!(event.is_none());
    }
    assert!(bans.is_banned(&src.ip, now.secs));
    let (reply, event) = handle_packet(&mut tracker, &mut bans, &whitelist,
        &connect_request_bytes(5), &src, now, SECRET, 0);
    assert!(reply.is_none());
    assert!(event.is_none());

    // Nothing of all this ever created a torrent.
    assert_eq!(tracker.torrents.torrents.len(), 0);
}

#[test]
fn listed_mode_refuses_udp_announces_for_unlisted_torrents() {
    let mut policy = TrackerPolicy::default_public();
    policy.mode = torrust_tracker::config::TrackerMode::Listed;
    let mut tracker = Tracker::new(policy);
    let mut bans = BanService::new(10, 120);
    let mut whitelist = InMemoryWhitelist::new();
    let now = DurationSinceUnixEpoch::new(1_000_000, 0);
    let src = addr([10, 0, 0, 1], 1000);
    let h = InfoHash::from_hex(b"3b245504cf5f11bbdbe1201cea6a6bf45aee1bc0").unwrap();
    let cookie_id = cookie::make(&src, now.secs, SECRET);
    let bytes = announce_request_bytes(cookie_id, 7, &h.0, b"-qB00000000000000000", 0, 2, 8080);

    // Off the allow-list: an error naming the refusal, the transaction
    // echoed, nothing stored, and the error counted against the sender.
    let (reply, event) = handle_packet(&mut tracker, &mut bans, &whitelist, &bytes, &src, now,
        SECRET, 0);
    let reply = reply.unwrap();
    assert_eq!(&reply[0..4], &3u32.to_be_bytes());
    assert_eq!(&reply[4..8], &7u32.to_be_bytes());
    assert_eq!(&reply[8..], b"torrent not whitelisted");
    assert!(event.is_none());
    assert_eq!(tracker.torrents.torrents.len(), 0);

    // On the allow-list the same announce is served.
    whitelist.add(&h);
    let (reply, event) = handle_packet(&mut tracker, &mut bans, &whitelist, &bytes, &src, now,
        SECRET, 0);
    assert_eq!(&reply.unwrap()[0..4], &1u32.to_be_bytes());
    assert!(event.is_some());
    assert_eq!(tracker.torrents.torrents.len(), 1);
}

#[test]
fn a_bad_cookie_reply_echoes_the_transaction_and_names_the_cookie() {
    let mut tracker = Tracker::new(TrackerPolicy::default_public());
    let mut bans = BanService::new(10, 120);
    let whitelist = InMemoryWhitelist::new();
    let now = DurationSinceUnixEpoch::new(1_000_000, 0);
    let src = addr([10, 0, 0, 1], 1000);
    let h = InfoHash::from_hex(b"3b245504cf5f11bbdbe1201cea6a6bf45aee1bc0").unwrap();
    let bytes = announce_request_bytes(0xDEAD_BEEF_DEAD_BEEF, 0xCAFEBABE, &h.0,
        b"-qB00000000000000000", 0, 2, 8080);
    let (reply, event) = handle_packet(&mut tracker, &mut bans, &whitelist, &bytes, &src, now,
        SECRET, 0);
    let reply = reply.unwrap();
    assert_eq!(&reply[0..4], &3u32.to_be_bytes());
    assert_eq!(&reply[4..8], &0xCAFEBABEu32.to_be_bytes());
    assert_eq!(&reply[8..], b"bad cookie");
    assert!(event.is_none());
    assert_eq!(tracker.torrents.torrents.len(), 0);
}

#[test]
fn a_mixed_family_swarm_never_corrupts_a_compact_reply() {
    let mut tracker = Tracker::new(TrackerPolicy::default_public());
    let mut bans = BanService::new(10, 120);
    let whitelist = InMemoryWhitelist::new();
    let now = DurationSinceUnixEpoch::new(1_000_000, 0);
    let h = InfoHash::from_hex(b"3b245504cf5f11bbdbe1201cea6a6bf45aee1bc0").unwrap();

    // One IPv6 seeder and one IPv4 seeder join the same torrent.
    let v6_src = SocketAddress { ip: IpAddress::V6(0x6969_6969_6969_6969_6969_6969_6969_6969),
        port: 7000 };
    let v6_cookie = cookie::make(&v6_src, now.secs, SECRET);
    let v6_bytes = announce_request_bytes(v6_cookie, 1, &h.0, b"-qB00000000000000006", 0, 2,
        7000);
    let (reply, _) = handle_packet(&mut tracker, &mut bans, &whitelist, &v6_bytes, &v6_src, now,
        SECRET, 0);
    assert!(reply.is_some());

    let v4_src = addr([126, 0, 0, 1], 8080);
    let v4_cookie = cookie::make(&v4_src, now.secs, SECRET);
    let v4_bytes = announce_request_bytes(v4_cookie, 2, &h.0, b"-qB00000000000000004", 0, 2,
        8080);
    let (reply, _) = handle_packet(&mut tracker, &mut bans, &whitelist, &v4_bytes, &v4_src, now,
        SECRET, 0);
    // The first IPv4 peer sees only the IPv6 peer in the swarm, which
    // its reply must not carry: the peer section is empty, not a stub.
    assert_eq!(reply.unwrap().len(), 20);

    // A second IPv4 peer gets exactly the one 6-byte IPv4 record.
    let v4b_src = addr([126, 0, 0, 2], 8081);
    let v4b_cookie = cookie::make(&v4b_src, now.secs, SECRET);
    let v4b_bytes = announce_request_bytes(v4b_cookie, 3, &h.0, b"-qB00000000000000005", 100, 2,
        8081);
    let (reply, _) = handle_packet(&mut tracker, &mut bans, &whitelist, &v4b_bytes, &v4b_src, now,
        SECRET, 0);
    let reply = reply.unwrap();
    assert_eq!(reply.len(), 26);
    assert_eq!(&reply[20..26], &[126, 0, 0, 1, 0x1F, 0x90]);

    // A second IPv6 peer joins; the first is then handed exactly the
    // newcomer's 18-byte IPv6 record and neither IPv4 one.
    let v6b_src = SocketAddress { ip: IpAddress::V6(0x2001_0db8_0000_0000_0000_0000_0000_0001),
        port: 7001 };
    let v6b_cookie = cookie::make(&v6b_src, now.secs, SECRET);
    let v6b_bytes = announce_request_bytes(v6b_cookie, 4, &h.0, b"-qB00000000000000007", 0, 2,
        7001);
    let (reply, _) = handle_packet(&mut tracker, &mut bans, &whitelist, &v6b_bytes, &v6b_src, now,
        SECRET, 0);
    assert!(reply.is_some());

    let v6_again = announce_request_bytes(v6_cookie, 5, &h.0, b"-qB00000000000000006", 0, 0,
        7000);
    let (reply, _) = handle_packet(&mut tracker, &mut bans, &whitelist, &v6_again, &v6_src, now,
        SECRET, 0);
    let reply = reply.unwrap();
    assert_eq!(reply.len(), 20 + 18);
    assert_eq!(&reply[20..36], &0x2001_0db8_0000_0000_0000_0000_0000_0001u128.to_be_bytes());
    assert_eq!(&reply[36..38], &7001u16.to_be_bytes());
}
