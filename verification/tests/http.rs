use torrust_tracker::authentication::{AuthenticationError, AuthenticationService, Key};
use torrust_tracker::config::{ExternalIp, TrackerMode, TrackerPolicy};
use torrust_tracker::http_services::resolve_peer_ip;
use torrust_tracker::http_auth;
use torrust_tracker::http_requests::{parse_announce_query, parse_decimal_u64, parse_event_name,
    parse_query_pairs, parse_scrape_query, percent_decode, QueryError};
use torrust_tracker::http_responses::{announce_body_normal, push_ip_text};
use torrust_tracker::http_responses::{announce_body_compact, error_body, scrape_body};
use torrust_tracker::http_responses::Error as ResponseError;
use torrust_tracker::http_services::{announce_service, authorize, service_failure_reason,
    ServiceError};
use torrust_tracker::info_hash::InfoHash;
use torrust_tracker::peer::{Peer, PeerId};
use torrust_tracker::primitives::{AnnounceEvent, DurationSinceUnixEpoch, IpAddress,
    NumberOfBytes, PeersWanted, SocketAddress};
use torrust_tracker::swarm::SwarmMetadata;
use torrust_tracker::tracker::Tracker;
use torrust_tracker::whitelist::InMemoryWhitelist;

fn sample_info_hash() -> InfoHash {
    InfoHash::from_hex(b"3b245504cf5f11bbdbe1201cea6a6bf45aee1bc0").unwrap()
}

fn sample_peer() -> Peer {
    Peer {
        peer_id: PeerId(*b"-qB00000000000000000"),
        peer_addr: SocketAddress {
            ip: IpAddress::V4(u32::from_be_bytes([126, 0, 0, 1])),
            port: 8080,
        },
        updated: DurationSinceUnixEpoch::new(1_669_397_478_934, 0),
        uploaded: NumberOfBytes::new(0),
        downloaded: NumberOfBytes::new(0),
        left: NumberOfBytes::new(0),
        event: AnnounceEvent::Started,
    }
}

fn private_tracker() -> Tracker {
    let mut policy = TrackerPolicy::default_public();
    policy.mode = TrackerMode::Private;
    Tracker::new(policy)
}

#[test]
fn a_private_announce_without_a_key_fails_with_the_bencoded_reason() {
    let mut tracker = private_tracker();
    let keys = AuthenticationService::new();
    let whitelist = InMemoryWhitelist::new();
    let h = sample_info_hash();
    let mut p = sample_peer();
    let ip = p.ip();

    let r = announce_service(&mut tracker, &keys, &whitelist, None, &h, &mut p, &ip,
        &PeersWanted::All, 0, 1_000);
    let err = match r {
        Err(ServiceError::KeyRequired(e)) => e,
        _ => panic!("expected a missing-key failure"),
    };
    assert_eq!(err, http_auth::Error::MissingAuthKey);
    assert_eq!(tracker.torrents.torrents.len(), 0);

    let response_error = ResponseError::from(err);
    let msg = response_error.failure_reason;
    assert!(msg.starts_with("Authentication error: "));
    let body = error_body(msg.as_bytes());
    let expected = format!("d14:failure reason{}:{}e", msg.len(), msg).into_bytes();
    assert_eq!(body, expected);
}

#[test]
fn the_authentication_gate_tells_its_failures_apart() {
    let mut keys = AuthenticationService::new();
    keys.add_key(Key { value: b"YZSl4lMZupRuOpSRC3krIKR5BPB14nrJ".to_vec(), valid_until: Some(100) })
        .unwrap();

    // Expiry is inclusive: at the deadline the key still works.
    assert!(keys.authenticate(b"YZSl4lMZupRuOpSRC3krIKR5BPB14nrJ", 100).is_ok());
    assert_eq!(keys.authenticate(b"YZSl4lMZupRuOpSRC3krIKR5BPB14nrJ", 101).unwrap_err(),
        AuthenticationError::KeyExpired);
    assert_eq!(keys.authenticate(b"no-key", 1).unwrap_err(), AuthenticationError::Malformed);
    assert_eq!(keys.authenticate(b"YZSl4lMZupRuOpSRC3krIKR5BPB14nrX", 1).unwrap_err(),
        AuthenticationError::UnknownKey);

    // A key without a deadline never expires.
    keys.add_key(Key { value: b"AAAAAlMZupRuOpSRC3krIKR5BPB14nrJ".to_vec(), valid_until: None })
        .unwrap();
    assert!(keys.authenticate(b"AAAAAlMZupRuOpSRC3krIKR5BPB14nrJ", u64::MAX).is_ok());

    // Each failure names its cause for the operator's log.
    assert_eq!(AuthenticationError::Malformed.message(), "invalid key format");
    assert_eq!(AuthenticationError::UnknownKey.message(), "unknown key");
    assert_eq!(AuthenticationError::KeyExpired.message(), "key expired");

    // Revocation is immediate.
    assert!(keys.remove_key(b"AAAAAlMZupRuOpSRC3krIKR5BPB14nrJ"));
    assert_eq!(keys.authenticate(b"AAAAAlMZupRuOpSRC3krIKR5BPB14nrJ", 1).unwrap_err(),
        AuthenticationError::UnknownKey);
}

#[test]
fn listed_mode_refuses_a_torrent_off_the_whitelist() {
    let keys = AuthenticationService::new();
    let mut whitelist = InMemoryWhitelist::new();
    let h = sample_info_hash();
    let other = InfoHash::from_hex(b"aa00000000000000000000000000000000000000").unwrap();
    whitelist.add(&other);

    assert_eq!(authorize(TrackerMode::Listed, &keys, &whitelist, None, &h, 0).unwrap_err(),
        ServiceError::TorrentNotWhitelisted);
    assert!(authorize(TrackerMode::Listed, &keys, &whitelist, None, &other, 0).is_ok());
    assert!(authorize(TrackerMode::Public, &keys, &whitelist, None, &h, 0).is_ok());

    assert!(whitelist.remove(&other));
    assert!(authorize(TrackerMode::Listed, &keys, &whitelist, None, &other, 0).is_err());
}

#[test]
fn the_extracted_key_segment_is_classified_exactly() {
    assert_eq!(http_auth::extract_key(None).unwrap_err(), http_auth::Error::MissingAuthKey);
    assert_eq!(http_auth::extract_key(Some(b"")).unwrap_err(),
        http_auth::Error::CannotExtractKeyParam);
    assert_eq!(http_auth::extract_key(Some(b"too-short")).unwrap_err(),
        http_auth::Error::InvalidKeyFormat);
    assert_eq!(http_auth::extract_key(Some(b"YZSl4lMZupRuOpSRC3krIKR5BPB14nrJ")).unwrap(),
        b"YZSl4lMZupRuOpSRC3krIKR5BPB14nrJ".to_vec());
}

#[test]
fn the_compact_announce_body_is_exact() {
    let peers = vec![Peer {
        peer_id: PeerId(*b"-qB00000000000000000"),
        peer_addr: SocketAddress {
            ip: IpAddress::V4(u32::from_be_bytes([126, 0, 0, 1])),
            port: 8080,
        },
        updated: DurationSinceUnixEpoch::new(0, 0),
        uploaded: NumberOfBytes::new(0),
        downloaded: NumberOfBytes::new(0),
        left: NumberOfBytes::new(0),
        event: AnnounceEvent::Started,
    }];
    let body = announce_body_compact(1, 0, 120, 120, &peers, false);
    let mut expected = b"d8:completei1e10:incompletei0e8:intervali120e12:min intervali120e5:peers6:".to_vec();
    expected.extend_from_slice(&[126, 0, 0, 1, 0x1F, 0x90]);
    expected.push(b'e');
    assert_eq!(body, expected);
}

#[test]
fn the_scrape_body_is_exact() {
    let h = sample_info_hash();
    let files = vec![(h, SwarmMetadata { complete: 1, downloaded: 0, incomplete: 0 })];
    let body = scrape_body(&files);
    let mut expected = b"d5:filesd20:".to_vec();
    expected.extend_from_slice(&h.0);
    expected.extend_from_slice(b"d8:completei1e10:downloadedi0e10:incompletei0eeee");
    assert_eq!(body, expected);
}

#[test]
fn forty_hex_digits_parse_and_anything_else_is_refused() {
    let h = sample_info_hash();
    assert_eq!(h.0[0], 0x3b);
    assert_eq!(h.0[19], 0xc0);
    assert!(InfoHash::from_hex(b"3b245504cf5f11bbdbe1201cea6a6bf45aee1bc").is_none());
    assert!(InfoHash::from_hex(b"zz245504cf5f11bbdbe1201cea6a6bf45aee1bc0").is_none());
}

#[test]
fn url_encoded_values_decode_exactly() {
    assert_eq!(percent_decode(b"%3B%24U%04%cf_%11%bb").unwrap(),
        vec![0x3b, 0x24, b'U', 0x04, 0xcf, b'_', 0x11, 0xbb]);
    assert_eq!(percent_decode(b"plain").unwrap(), b"plain".to_vec());
    assert!(percent_decode(b"broken%4").is_none());
    assert!(percent_decode(b"broken%zz").is_none());

    assert_eq!(parse_decimal_u64(b"0").unwrap(), 0);
    assert_eq!(parse_decimal_u64(b"8080").unwrap(), 8080);
    assert_eq!(parse_decimal_u64(b"18446744073709551615").unwrap(), u64::MAX);
    assert!(parse_decimal_u64(b"18446744073709551616").is_none());
    assert!(parse_decimal_u64(b"").is_none());
    assert!(parse_decimal_u64(b"12x").is_none());

    assert_eq!(parse_event_name(b"").unwrap(), AnnounceEvent::Empty);
    assert_eq!(parse_event_name(b"started").unwrap(), AnnounceEvent::Started);
    assert_eq!(parse_event_name(b"stopped").unwrap(), AnnounceEvent::Stopped);
    assert_eq!(parse_event_name(b"completed").unwrap(), AnnounceEvent::Completed);
    assert!(parse_event_name(b"paused").is_none());
}

#[test]
fn a_whole_announce_url_query_parses_to_its_request() {
    let q = b"info_hash=%3B%24U%04%cf_%11%bb%db%e1%20%1c%ea%6a%6b%f4%5a%ee%1b%c0\
&peer_id=-qB00000000000000000&port=8080&uploaded=0&downloaded=0&left=100\
&event=started&numwant=50&compact=1";
    let pairs = parse_query_pairs(q);
    let a = parse_announce_query(&pairs).unwrap();
    assert_eq!(a.info_hash, sample_info_hash());
    assert_eq!(a.peer_id, PeerId(*b"-qB00000000000000000"));
    assert_eq!(a.port, 8080);
    assert_eq!((a.uploaded, a.downloaded, a.left), (0, 0, 100));
    assert_eq!(a.event, AnnounceEvent::Started);
    assert_eq!(a.numwant, PeersWanted::Only(50));
    assert!(a.compact);

    // The optional parameters have their defaults.
    let pairs = parse_query_pairs(
        b"info_hash=AAAAAAAAAAAAAAAAAAAA&peer_id=-qB00000000000000000&port=1");
    let a = parse_announce_query(&pairs).unwrap();
    assert_eq!((a.uploaded, a.downloaded, a.left), (0, 0, 0));
    assert_eq!(a.event, AnnounceEvent::Empty);
    assert_eq!(a.numwant, PeersWanted::All);
    assert!(a.compact);

    // Each unusable parameter names its refusal.
    let missing = parse_query_pairs(b"peer_id=-qB00000000000000000&port=1");
    assert_eq!(parse_announce_query(&missing).unwrap_err(), QueryError::MissingInfoHash);
    let short = parse_query_pairs(b"info_hash=abc&peer_id=-qB00000000000000000&port=1");
    assert_eq!(parse_announce_query(&short).unwrap_err(), QueryError::InvalidInfoHash);
    let bad_port = parse_query_pairs(
        b"info_hash=AAAAAAAAAAAAAAAAAAAA&peer_id=-qB00000000000000000&port=99999");
    assert_eq!(parse_announce_query(&bad_port).unwrap_err(), QueryError::InvalidPort);
    let bad_compact = parse_query_pairs(
        b"info_hash=AAAAAAAAAAAAAAAAAAAA&peer_id=-qB00000000000000000&port=1&compact=2");
    assert_eq!(parse_announce_query(&bad_compact).unwrap_err(), QueryError::InvalidCompact);
}

#[test]
fn the_non_compact_announce_body_is_exact() {
    let peers = vec![sample_peer()];
    let body = announce_body_normal(1, 0, 120, 120, &peers);
    let expected = b"d8:completei1e10:incompletei0e8:intervali120e12:min intervali120e5:peersl\
d2:ip9:126.0.0.17:peer id20:-qB000000000000000004:porti8080eeee"
        .to_vec();
    assert_eq!(body, expected);

    let mut v6_text = Vec::new();
    push_ip_text(&mut v6_text, &IpAddress::V6(0x6969_6969_6969_6969_0000_0000_0000_0001));
    assert_eq!(v6_text, b"6969:6969:6969:6969:0:0:0:1".to_vec());
}

#[test]
fn store_level_failures_share_one_generic_wire_reason() {
    let unknown = ResponseError::from(AuthenticationError::UnknownKey);
    let expired = ResponseError::from(AuthenticationError::KeyExpired);
    let malformed = ResponseError::from(AuthenticationError::Malformed);
    assert_eq!(unknown.failure_reason, expired.failure_reason);
    assert_eq!(unknown.failure_reason, malformed.failure_reason);
    assert_eq!(unknown.failure_reason,
        "Authentication error: the provided authentication key is not valid");

    // Extraction failures keep their own texts; none says anything
    // about the key store.
    let missing = ResponseError::from(http_auth::Error::MissingAuthKey);
    assert_eq!(missing.failure_reason,
        "Authentication error: Missing authentication key param for private tracker");

    // The whitelist refusal has the wire words of its own.
    assert_eq!(service_failure_reason(&ServiceError::TorrentNotWhitelisted),
        "torrent not whitelisted");
}

#[test]
fn peer_address_resolution_honours_proxy_and_nat_override() {
    let observed = IpAddress::V4(u32::from_be_bytes([126, 0, 0, 1]));
    let proxy_client = IpAddress::V4(u32::from_be_bytes([203, 0, 113, 7]));
    let loopback = IpAddress::V4(u32::from_be_bytes([127, 0, 0, 1]));
    let no_override = ExternalIp { configured: false, ip: observed };
    let public_ip = IpAddress::V4(u32::from_be_bytes([198, 51, 100, 9]));
    let with_override = ExternalIp { configured: true, ip: public_ip };

    assert_eq!(resolve_peer_ip(&observed, None, false, &no_override), Some(observed));
    assert_eq!(resolve_peer_ip(&observed, Some(proxy_client), true, &no_override),
        Some(proxy_client));
    assert_eq!(resolve_peer_ip(&observed, None, true, &no_override), None);
    assert_eq!(resolve_peer_ip(&loopback, None, false, &with_override), Some(public_ip));
    assert_eq!(resolve_peer_ip(&loopback, None, false, &no_override), Some(loopback));
}

#[test]
fn a_scrape_url_names_its_torrents_or_is_refused() {
    let two = parse_query_pairs(
        b"info_hash=%3B%24U%04%cf_%11%bb%db%e1%20%1c%ea%6a%6b%f4%5a%ee%1b%c0\
&info_hash=AAAAAAAAAAAAAAAAAAAA");
    let hashes = parse_scrape_query(&two).unwrap();
    assert_eq!(hashes.len(), 2);
    assert_eq!(hashes[0], sample_info_hash());
    assert_eq!(hashes[1], InfoHash(*b"AAAAAAAAAAAAAAAAAAAA"));

    let none = parse_query_pairs(b"peer_id=-qB00000000000000000");
    assert_eq!(parse_scrape_query(&none).unwrap_err(), QueryError::MissingInfoHash);
    let short = parse_query_pairs(b"info_hash=abc");
    assert_eq!(parse_scrape_query(&short).unwrap_err(), QueryError::InvalidInfoHash);
}
