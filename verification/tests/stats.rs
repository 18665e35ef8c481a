use torrust_tracker::primitives::TorrentsMetrics;
use torrust_tracker::statistics::{Metrics, TrackerMetrics};
use torrust_tracker::stats_resources::Stats;

#[test]
fn stats_resource_should_be_converted_from_tracker_metrics() {
    assert_eq!(
        Stats::from(TrackerMetrics {
            torrents_metrics: TorrentsMetrics {
                complete: 1,
                downloaded: 2,
                incomplete: 3,
                torrents: 4
            },
            protocol_metrics: Metrics {
                tcp4_connections_handled: 5,
                tcp4_announces_handled: 6,
                tcp4_scrapes_handled: 7,
                tcp6_connections_handled: 8,
                tcp6_announces_handled: 9,
                tcp6_scrapes_handled: 10,
                udp4_connections_handled: 11,
                udp4_announces_handled: 12,
                udp4_scrapes_handled: 13,
                udp6_connections_handled: 14,
                udp6_announces_handled: 15,
                udp6_scrapes_handled: 16
            }
        }),
        Stats {
            torrents: 4,
            seeders: 1,
            completed: 2,
            leechers: 3,
            tcp4_connections_handled: 5,
            tcp4_announces_handled: 6,
            tcp4_scrapes_handled: 7,
            tcp6_connections_handled: 8,
            tcp6_announces_handled: 9,
            tcp6_scrapes_handled: 10,
            udp4_connections_handled: 11,
            udp4_announces_handled: 12,
            udp4_scrapes_handled: 13,
            udp6_connections_handled: 14,
            udp6_announces_handled: 15,
            udp6_scrapes_handled: 16
        }
    );
}

#[test]
fn metrics_apply_event_increments_exactly_one_counter() {
    let mut m = Metrics::zeroed();
    m.apply_event(torrust_tracker::statistics::Event::Udp4Announce);
    assert_eq!(m.udp4_announces_handled, 1);
    assert_eq!(m.tcp4_announces_handled, 0);
    assert_eq!(m.udp4_connections_handled, 0);
    m.apply_event(torrust_tracker::statistics::Event::Udp4Announce);
    assert_eq!(m.udp4_announces_handled, 2);
}

#[test]
fn event_bus_drops_when_full_and_counts_the_drop() {
    let mut bus = torrust_tracker::statistics::EventBus::new(2);
    assert!(bus.send(torrust_tracker::statistics::Event::Tcp4Connection));
    assert!(bus.send(torrust_tracker::statistics::Event::Tcp4Announce));
    assert!(!bus.send(torrust_tracker::statistics::Event::Tcp4Scrape));
    assert_eq!(bus.dropped, 1);
    let mut m = Metrics::zeroed();
    bus.drain_into(&mut m);
    assert_eq!(m.tcp4_connections_handled, 1);
    assert_eq!(m.tcp4_announces_handled, 1);
    assert_eq!(m.tcp4_scrapes_handled, 0);
    assert_eq!(bus.queue.len(), 0);
}
