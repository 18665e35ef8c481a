//! Statistics events and counters: one event per handled connection,
//! announce or scrape, tagged with transport and IP version, applied to
//! an in-memory counter repository through a bounded fire-and-forget
//! queue.

use vstd::prelude::*;
use crate::primitives::{IPVersion, TorrentsMetrics};

verus! {

/// Everything the management API reads in one snapshot: the aggregate
/// swarm counts and the protocol counters.
#[derive(Clone, Copy, Debug, PartialEq, Eq, Structural)]
pub struct TrackerMetrics {
    pub torrents_metrics: TorrentsMetrics,
    pub protocol_metrics: Metrics,
}

/// A counter event emitted by the protocol engines.
#[derive(Clone, Copy, Debug, PartialEq, Eq, Structural)]
pub enum Event {
    Tcp4Connection,
    Tcp4Announce,
    Tcp4Scrape,
    Tcp6Connection,
    Tcp6Announce,
    Tcp6Scrape,
    Udp4Connection,
    Udp4Announce,
    Udp4Scrape,
    Udp6Connection,
    Udp6Announce,
    Udp6Scrape,
}

/// Protocol counters kept by the statistics repository, one per event.
#[derive(Clone, Copy, Debug, PartialEq, Eq, Structural)]
pub struct Metrics {
    pub tcp4_connections_handled: u64,
    pub tcp4_announces_handled: u64,
    pub tcp4_scrapes_handled: u64,
    pub tcp6_connections_handled: u64,
    pub tcp6_announces_handled: u64,
    pub tcp6_scrapes_handled: u64,
    pub udp4_connections_handled: u64,
    pub udp4_announces_handled: u64,
    pub udp4_scrapes_handled: u64,
    pub udp6_connections_handled: u64,
    pub udp6_announces_handled: u64,
    pub udp6_scrapes_handled: u64,
}

impl Metrics {
    /// The counter that `event` feeds.
    pub open spec fn spec_counter(self, event: Event) -> u64 {
        match event {
            Event::Tcp4Connection => self.tcp4_connections_handled,
            Event::Tcp4Announce => self.tcp4_announces_handled,
            Event::Tcp4Scrape => self.tcp4_scrapes_handled,
            Event::Tcp6Connection => self.tcp6_connections_handled,
            Event::Tcp6Announce => self.tcp6_announces_handled,
            Event::Tcp6Scrape => self.tcp6_scrapes_handled,
            Event::Udp4Connection => self.udp4_connections_handled,
            Event::Udp4Announce => self.udp4_announces_handled,
            Event::Udp4Scrape => self.udp4_scrapes_handled,
            Event::Udp6Connection => self.udp6_connections_handled,
            Event::Udp6Announce => self.udp6_announces_handled,
            Event::Udp6Scrape => self.udp6_scrapes_handled,
        }
    }

    pub fn zeroed() -> (r: Metrics)
        ensures
            forall|e: Event| r.spec_counter(e) == 0u64,
    {
        Metrics {
            tcp4_connections_handled: 0,
            tcp4_announces_handled: 0,
            tcp4_scrapes_handled: 0,
            tcp6_connections_handled: 0,
            tcp6_announces_handled: 0,
            tcp6_scrapes_handled: 0,
            udp4_connections_handled: 0,
            udp4_announces_handled: 0,
            udp4_scrapes_handled: 0,
            udp6_connections_handled: 0,
            udp6_announces_handled: 0,
            udp6_scrapes_handled: 0,
        }
    }

    /// Applies one event: the matching counter grows by one
    /// (saturating at the top of `u64`), every other counter is
    /// untouched.
    pub fn apply_event(&mut self, event: Event)
        ensures
            *final(self) == spec_apply_one(*old(self), event),
            final(self).spec_counter(event) == if old(self).spec_counter(event) == u64::MAX {
                u64::MAX
            } else {
                (old(self).spec_counter(event) + 1) as u64
            },
            forall|e: Event| e != event ==> final(self).spec_counter(e) == old(self).spec_counter(e),
    {
        match event {
            Event::Tcp4Connection => {
                self.tcp4_connections_handled = saturating_inc(self.tcp4_connections_handled);
            },
            Event::Tcp4Announce => {
                self.tcp4_announces_handled = saturating_inc(self.tcp4_announces_handled);
            },
            Event::Tcp4Scrape => {
                self.tcp4_scrapes_handled = saturating_inc(self.tcp4_scrapes_handled);
            },
            Event::Tcp6Connection => {
                self.tcp6_connections_handled = saturating_inc(self.tcp6_connections_handled);
            },
            Event::Tcp6Announce => {
                self.tcp6_announces_handled = saturating_inc(self.tcp6_announces_handled);
            },
            Event::Tcp6Scrape => {
                self.tcp6_scrapes_handled = saturating_inc(self.tcp6_scrapes_handled);
            },
            Event::Udp4Connection => {
                self.udp4_connections_handled = saturating_inc(self.udp4_connections_handled);
            },
            Event::Udp4Announce => {
                self.udp4_announces_handled = saturating_inc(self.udp4_announces_handled);
            },
            Event::Udp4Scrape => {
                self.udp4_scrapes_handled = saturating_inc(self.udp4_scrapes_handled);
            },
            Event::Udp6Connection => {
                self.udp6_connections_handled = saturating_inc(self.udp6_connections_handled);
            },
            Event::Udp6Announce => {
                self.udp6_announces_handled = saturating_inc(self.udp6_announces_handled);
            },
            Event::Udp6Scrape => {
                self.udp6_scrapes_handled = saturating_inc(self.udp6_scrapes_handled);
            },
        }
    }
}

/// One more handled request, saturating at the top of `u64`.
pub open spec fn spec_sat_inc64(n: u64) -> u64 {
    if n == u64::MAX {
        u64::MAX
    } else {
        (n + 1) as u64
    }
}

/// The counters after one event: the matching counter grown by one
/// (saturating), every other counter untouched.
pub open spec fn spec_apply_one(m: Metrics, e: Event) -> Metrics {
    match e {
        Event::Tcp4Connection => Metrics {
            tcp4_connections_handled: spec_sat_inc64(m.tcp4_connections_handled),
            ..m
        },
        Event::Tcp4Announce => Metrics {
            tcp4_announces_handled: spec_sat_inc64(m.tcp4_announces_handled),
            ..m
        },
        Event::Tcp4Scrape => Metrics {
            tcp4_scrapes_handled: spec_sat_inc64(m.tcp4_scrapes_handled),
            ..m
        },
        Event::Tcp6Connection => Metrics {
            tcp6_connections_handled: spec_sat_inc64(m.tcp6_connections_handled),
            ..m
        },
        Event::Tcp6Announce => Metrics {
            tcp6_announces_handled: spec_sat_inc64(m.tcp6_announces_handled),
            ..m
        },
        Event::Tcp6Scrape => Metrics {
            tcp6_scrapes_handled: spec_sat_inc64(m.tcp6_scrapes_handled),
            ..m
        },
        Event::Udp4Connection => Metrics {
            udp4_connections_handled: spec_sat_inc64(m.udp4_connections_handled),
            ..m
        },
        Event::Udp4Announce => Metrics {
            udp4_announces_handled: spec_sat_inc64(m.udp4_announces_handled),
            ..m
        },
        Event::Udp4Scrape => Metrics {
            udp4_scrapes_handled: spec_sat_inc64(m.udp4_scrapes_handled),
            ..m
        },
        Event::Udp6Connection => Metrics {
            udp6_connections_handled: spec_sat_inc64(m.udp6_connections_handled),
            ..m
        },
        Event::Udp6Announce => Metrics {
            udp6_announces_handled: spec_sat_inc64(m.udp6_announces_handled),
            ..m
        },
        Event::Udp6Scrape => Metrics {
            udp6_scrapes_handled: spec_sat_inc64(m.udp6_scrapes_handled),
            ..m
        },
    }
}

/// The counters after a whole queue of events, applied in arrival
/// order.
pub open spec fn spec_apply_events(m: Metrics, events: Seq<Event>) -> Metrics
    decreases events.len(),
{
    if events.len() == 0 {
        m
    } else {
        spec_apply_one(spec_apply_events(m, events.drop_last()), events.last())
    }
}

fn saturating_inc(n: u64) -> (r: u64)
    ensures
        r == if n == u64::MAX { u64::MAX } else { (n + 1) as u64 },
{
    if n == u64::MAX {
        u64::MAX
    } else {
        n + 1
    }
}

/// The statistics event for a scrape handled by the HTTP tracker,
/// chosen by the IP version of the requesting peer.
pub fn scrape_event_for_ip_version(version: IPVersion) -> (r: Event)
    ensures
        version == IPVersion::IPv4 ==> r == Event::Tcp4Scrape,
        version == IPVersion::IPv6 ==> r == Event::Tcp6Scrape,
{
    match version {
        IPVersion::IPv4 => Event::Tcp4Scrape,
        IPVersion::IPv6 => Event::Tcp6Scrape,
    }
}

/// The statistics event for the TCP connection an HTTP request
/// implies: the HTTP tracker has no handshake, so every request counts
/// one connection.
pub fn connection_event_for_ip_version(version: IPVersion) -> (r: Event)
    ensures
        version == IPVersion::IPv4 ==> r == Event::Tcp4Connection,
        version == IPVersion::IPv6 ==> r == Event::Tcp6Connection,
{
    match version {
        IPVersion::IPv4 => Event::Tcp4Connection,
        IPVersion::IPv6 => Event::Tcp6Connection,
    }
}

/// The statistics event for an announce handled by the HTTP tracker.
pub fn announce_event_for_ip_version(version: IPVersion) -> (r: Event)
    ensures
        version == IPVersion::IPv4 ==> r == Event::Tcp4Announce,
        version == IPVersion::IPv6 ==> r == Event::Tcp6Announce,
{
    match version {
        IPVersion::IPv4 => Event::Tcp4Announce,
        IPVersion::IPv6 => Event::Tcp6Announce,
    }
}

/// Bounded multi-producer queue between the protocol engines and the
/// single consumer that applies events to the counters. A send never
/// blocks: when the queue is full the event is dropped and the drop
/// counter grows instead.
pub struct EventBus {
    pub queue: Vec<Event>,
    pub capacity: usize,
    pub dropped: u64,
}

impl EventBus {
    /// The queue never outgrows its bound.
    pub open spec fn wf(self) -> bool {
        self.queue@.len() <= self.capacity
    }

    pub fn new(capacity: usize) -> (r: EventBus)
        ensures
            r.wf(),
            r.queue@.len() == 0,
            r.capacity == capacity,
            r.dropped == 0u64,
    {
        EventBus { queue: Vec::new(), capacity, dropped: 0 }
    }

    /// Non-blocking send: the event is queued when there is room,
    /// dropped (and counted) when there is none.
    pub fn send(&mut self, event: Event) -> (accepted: bool)
        requires
            old(self).wf(),
        ensures
            final(self).wf(),
            final(self).capacity == old(self).capacity,
            accepted <==> old(self).queue@.len() < old(self).capacity,
            accepted ==> final(self).queue@ == old(self).queue@.push(event)
                && final(self).dropped == old(self).dropped,
            !accepted ==> final(self).queue@ == old(self).queue@
                && final(self).dropped == if old(self).dropped == u64::MAX {
                    u64::MAX
                } else {
                    (old(self).dropped + 1) as u64
                },
    {
        if self.queue.len() < self.capacity {
            self.queue.push(event);
            true
        } else {
            self.dropped = saturating_inc(self.dropped);
            false
        }
    }

    /// The single consumer: applies every queued event to the counters,
    /// in arrival order, and empties the queue.
    pub fn drain_into(&mut self, metrics: &mut Metrics)
        requires
            old(self).wf(),
        ensures
            final(self).wf(),
            final(self).queue@.len() == 0,
            final(self).capacity == old(self).capacity,
            final(self).dropped == old(self).dropped,
            *final(metrics) == spec_apply_events(*old(metrics), old(self).queue@),
    {
        let mut i: usize = 0;
        while i < self.queue.len()
            invariant
                i <= self.queue@.len(),
                self.queue@ == old(self).queue@,
                self.capacity == old(self).capacity,
                self.dropped == old(self).dropped,
                *metrics == spec_apply_events(*old(metrics), self.queue@.take(i as int)),
            decreases self.queue@.len() - i,
        {
            proof {
                assert(self.queue@.take(i + 1).drop_last() =~= self.queue@.take(i as int));
                assert(self.queue@.take(i + 1).last() == self.queue@[i as int]);
            }
            metrics.apply_event(self.queue[i]);
            i = i + 1;
        }
        proof {
            assert(self.queue@.take(self.queue@.len() as int) =~= self.queue@);
        }
        self.queue.clear();
    }
}

} // verus!
