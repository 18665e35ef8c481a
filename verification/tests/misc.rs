use torrust_tracker::banning::BanService;
use torrust_tracker::lifecycle::{bind_address_readable, lifecycle_step, ServerInput, ServerState};
use torrust_tracker::primitives::{DurationSinceUnixEpoch, IpAddress};

#[test]
fn the_ban_service_drops_traffic_past_the_threshold_until_the_window_elapses() {
    let mut bans = BanService::new(3, 60);
    let ip = IpAddress::V4(u32::from_be_bytes([10, 0, 0, 1]));
    let other = IpAddress::V4(u32::from_be_bytes([10, 0, 0, 2]));

    for _ in 0..3 {
        bans.record_error(&ip, 100);
    }
    assert!(!bans.is_banned(&ip, 110));
    bans.record_error(&ip, 120);
    assert!(bans.is_banned(&ip, 130));
    assert!(!bans.is_banned(&other, 130));

    // The window elapses and traffic flows again.
    assert!(!bans.is_banned(&ip, 100 + 60));

    // An error after the window restarts the count at one.
    bans.record_error(&ip, 300);
    assert!(!bans.is_banned(&ip, 301));

    bans.purge_expired(1_000);
    assert_eq!(bans.records.len(), 0);
}

#[test]
fn the_server_lifecycle_walks_its_states_in_order() {
    let s = ServerState::Stopped;
    let s = lifecycle_step(s, ServerInput::Start);
    assert_eq!(s, ServerState::Starting);
    assert!(!bind_address_readable(s));
    let s = lifecycle_step(s, ServerInput::BindSucceeded);
    assert_eq!(s, ServerState::Running);
    assert!(bind_address_readable(s));
    let s = lifecycle_step(s, ServerInput::Halt);
    assert_eq!(s, ServerState::Stopping);
    let s = lifecycle_step(s, ServerInput::Drained);
    assert_eq!(s, ServerState::Stopped);

    // A halt before the bind still stops the server; stray inputs
    // leave the state alone.
    let s = lifecycle_step(ServerState::Starting, ServerInput::Halt);
    assert_eq!(s, ServerState::Stopping);
    assert_eq!(lifecycle_step(ServerState::Stopped, ServerInput::Drained), ServerState::Stopped);
    assert_eq!(lifecycle_step(ServerState::Running, ServerInput::Start), ServerState::Running);
}

#[test]
fn decimal_and_bencode_forms_are_exact() {
    let mut out = Vec::new();
    torrust_tracker::bencode::push_decimal(&mut out, 0);
    assert_eq!(out, b"0");
    let mut out = Vec::new();
    torrust_tracker::bencode::push_decimal(&mut out, 10_907);
    assert_eq!(out, b"10907");
    let mut out = Vec::new();
    torrust_tracker::bencode::push_decimal(&mut out, u64::MAX);
    assert_eq!(out, b"18446744073709551615");
    let mut out = Vec::new();
    torrust_tracker::bencode::push_bencode_int(&mut out, 120);
    assert_eq!(out, b"i120e");
    let mut out = Vec::new();
    torrust_tracker::bencode::push_bencode_bytes(&mut out, b"spam");
    assert_eq!(out, b"4:spam");
}

#[test]
fn big_endian_fields_round_trip_on_the_wire() {
    let mut out = Vec::new();
    torrust_tracker::udp_codec::push_u32_be(&mut out, 0xCAFEBABE);
    assert_eq!(out, 0xCAFEBABEu32.to_be_bytes().to_vec());
    torrust_tracker::udp_codec::push_u64_be(&mut out, 0x41727101980);
    assert_eq!(&out[4..12], &0x41727101980u64.to_be_bytes());
    assert_eq!(torrust_tracker::udp_codec::read_u32_be(&out, 0), 0xCAFEBABE);
    assert_eq!(torrust_tracker::udp_codec::read_u64_be(&out, 4), 0x41727101980);
    assert_eq!(torrust_tracker::udp_codec::read_u16_be(&out, 4), 0x0000);
}

#[test]
fn durations_flatten_to_whole_milliseconds() {
    assert_eq!(DurationSinceUnixEpoch::new(2, 500_000_000).as_millis_truncated(), 2_500);
    assert_eq!(DurationSinceUnixEpoch::new(0, 999_999).as_millis_truncated(), 0);
    // Past the 64-bit range the count wraps, as a 64-bit truncation does.
    assert_eq!(DurationSinceUnixEpoch::new(u64::MAX, 0).as_millis_truncated(),
        u64::MAX.wrapping_mul(1000));
}
