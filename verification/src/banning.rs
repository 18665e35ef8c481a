//! Per-source-IP error banning for the UDP tracker: every parse error
//! or bad cookie counts against the sender; past the threshold inside
//! the window, its datagrams are dropped without an answer until the
//! window elapses.

use vstd::prelude::*;
use crate::primitives::IpAddress;
use crate::tracker::sat_inc32;

verus! {

/// The error tally of one source IP inside the current window.
#[derive(Clone, Copy, Debug, PartialEq, Eq, Structural)]
pub struct BanRecord {
    pub error_count: u32,
    pub window_start: u64,
}

/// True when some record carries the ip.
pub open spec fn spec_contains_ip(rs: Seq<(IpAddress, BanRecord)>, ip: IpAddress) -> bool {
    exists|i: int| 0 <= i < rs.len() && rs[i].0 == ip
}

/// Index of the record carrying the ip (unique under `wf`).
pub open spec fn spec_index_of_ip(rs: Seq<(IpAddress, BanRecord)>, ip: IpAddress) -> int {
    choose|i: int| 0 <= i < rs.len() && rs[i].0 == ip
}

/// The record of one ip; an unseen ip has a clean record.
pub open spec fn spec_record_of(rs: Seq<(IpAddress, BanRecord)>, ip: IpAddress) -> BanRecord {
    if spec_contains_ip(rs, ip) {
        rs[spec_index_of_ip(rs, ip)].1
    } else {
        BanRecord { error_count: 0, window_start: 0 }
    }
}

/// Tracks one `BanRecord` per offending source IP.
pub struct BanService {
    pub records: Vec<(IpAddress, BanRecord)>,
    /// Errors tolerated inside one window before traffic is dropped.
    pub max_errors: u32,
    /// Length of the counting window, in seconds.
    pub window_secs: u64,
}

/// The record an IP holds after one more error: inside a running
/// window the tally grows by one (saturating); a fresh or elapsed
/// window restarts at one.
pub open spec fn spec_record_after_error(
    rs: Seq<(IpAddress, BanRecord)>,
    window_secs: u64,
    ip: IpAddress,
    now_secs: u64,
) -> BanRecord {
    let rec = spec_record_of(rs, ip);
    if spec_contains_ip(rs, ip) && now_secs < rec.window_start + window_secs {
        BanRecord { error_count: sat_inc32(rec.error_count), ..rec }
    } else {
        BanRecord { error_count: 1, window_start: now_secs }
    }
}

/// When a source is banned: its window is still running and its tally
/// exceeds the threshold.
pub open spec fn spec_is_banned(s: BanService, ip: IpAddress, now_secs: u64) -> bool {
    let rec = spec_record_of(s.records@, ip);
    &&& spec_contains_ip(s.records@, ip)
    &&& now_secs < rec.window_start + s.window_secs
    &&& rec.error_count > s.max_errors
}

impl BanService {
    /// Each IP appears at most once.
    pub open spec fn wf(self) -> bool {
        forall|i: int, j: int|
            0 <= i < j < self.records@.len()
                ==> (#[trigger] self.records@[i]).0 != (#[trigger] self.records@[j]).0
    }

    pub fn new(max_errors: u32, window_secs: u64) -> (r: BanService)
        ensures
            r.wf(),
            r.records@.len() == 0,
            r.max_errors == max_errors,
            r.window_secs == window_secs,
    {
        BanService { records: Vec::new(), max_errors, window_secs }
    }

    fn find_ip(&self, ip: &IpAddress) -> (r: Option<usize>)
        ensures
            r matches Some(i) ==> i < self.records@.len() && self.records@[i as int].0 == *ip,
            r is None ==> !spec_contains_ip(self.records@, *ip),
    {
        let mut i: usize = 0;
        while i < self.records.len()
            invariant
                i <= self.records@.len(),
                forall|k: int| 0 <= k < i ==> (#[trigger] self.records@[k]).0 != *ip,
            decreases self.records@.len() - i,
        {
            let here = match (&self.records[i].0, ip) {
                (IpAddress::V4(a), IpAddress::V4(b)) => *a == *b,
                (IpAddress::V6(a), IpAddress::V6(b)) => *a == *b,
                _ => false,
            };
            if here {
                return Some(i);
            }
            i = i + 1;
        }
        None
    }

    proof fn lemma_at_index(rs: Seq<(IpAddress, BanRecord)>, i: int)
        requires
            0 <= i < rs.len(),
            forall|a: int, b: int|
                0 <= a < b < rs.len() ==> (#[trigger] rs[a]).0 != (#[trigger] rs[b]).0,
        ensures
            spec_contains_ip(rs, rs[i].0),
            spec_index_of_ip(rs, rs[i].0) == i,
            spec_record_of(rs, rs[i].0) == rs[i].1,
    {
        assert(spec_contains_ip(rs, rs[i].0));
        let j = spec_index_of_ip(rs, rs[i].0);
        if j != i {
            if j < i {
                assert(rs[j].0 != rs[i].0);
            } else {
                assert(rs[i].0 != rs[j].0);
            }
        }
    }

    /// Whether datagrams from `ip` are dropped right now.
    pub fn is_banned(&self, ip: &IpAddress, now_secs: u64) -> (r: bool)
        requires
            self.wf(),
        ensures
            r == spec_is_banned(*self, *ip, now_secs),
    {
        match self.find_ip(ip) {
            Some(i) => {
                proof {
                    Self::lemma_at_index(self.records@, i as int);
                }
                let rec = self.records[i].1;
                let in_window = if rec.window_start > now_secs {
                    true
                } else {
                    now_secs - rec.window_start < self.window_secs
                };
                in_window && rec.error_count > self.max_errors
            },
            None => false,
        }
    }

    /// Counts one more error from `ip`: inside a running window the
    /// tally grows by one (saturating); a fresh or elapsed window
    /// restarts at one. Every other IP's record is untouched.
    pub fn record_error(&mut self, ip: &IpAddress, now_secs: u64)
        requires
            old(self).wf(),
        ensures
            final(self).wf(),
            final(self).max_errors == old(self).max_errors,
            final(self).window_secs == old(self).window_secs,
            spec_record_of(final(self).records@, *ip) == spec_record_after_error(
                old(self).records@, old(self).window_secs, *ip, now_secs),
            forall|q: IpAddress| q != *ip ==> spec_record_of(final(self).records@, q)
                == spec_record_of(old(self).records@, q),
    {
        let ghost rs0 = self.records@;
        match self.find_ip(ip) {
            Some(i) => {
                proof {
                    Self::lemma_at_index(rs0, i as int);
                }
                let rec = self.records[i].1;
                let in_window = if rec.window_start > now_secs {
                    true
                } else {
                    now_secs - rec.window_start < self.window_secs
                };
                let new_rec = if in_window {
                    BanRecord {
                        error_count: if rec.error_count == 0xFFFF_FFFFu32 {
                            rec.error_count
                        } else {
                            rec.error_count + 1
                        },
                        window_start: rec.window_start,
                    }
                } else {
                    BanRecord { error_count: 1, window_start: now_secs }
                };
                self.records.set(i, (*ip, new_rec));
                proof {
                    let rs1 = self.records@;
                    assert(rs1 == rs0.update(i as int, (*ip, new_rec)));
                    assert forall|a: int, b: int| 0 <= a < b < rs1.len()
                        implies (#[trigger] rs1[a]).0 != (#[trigger] rs1[b]).0 by {
                        assert(rs0[a].0 != rs0[b].0);
                        assert(rs1[a].0 == rs0[a].0);
                        assert(rs1[b].0 == rs0[b].0);
                    }
                    Self::lemma_at_index(rs1, i as int);
                    assert forall|q: IpAddress| q != *ip
                        implies spec_record_of(rs1, q) == spec_record_of(rs0, q) by {
                        Self::lemma_other_ip_unchanged(rs0, rs1, i as int, q);
                    }
                }
            },
            None => {
                self.records.push((*ip, BanRecord { error_count: 1, window_start: now_secs }));
                proof {
                    let rs1 = self.records@;
                    assert forall|a: int, b: int| 0 <= a < b < rs1.len()
                        implies (#[trigger] rs1[a]).0 != (#[trigger] rs1[b]).0 by {
                        if b < rs0.len() {
                            assert(rs0[a].0 != rs0[b].0);
                        } else {
                            if rs1[a].0 == *ip {
                                assert(spec_contains_ip(rs0, *ip));
                            }
                        }
                    }
                    Self::lemma_at_index(rs1, rs0.len() as int);
                    assert forall|q: IpAddress| q != *ip
                        implies spec_record_of(rs1, q) == spec_record_of(rs0, q) by {
                        assert(spec_contains_ip(rs1, q) <==> spec_contains_ip(rs0, q)) by {
                            if spec_contains_ip(rs0, q) {
                                let j = choose|j: int| 0 <= j < rs0.len() && rs0[j].0 == q;
                                assert(rs1[j].0 == q);
                            }
                            if spec_contains_ip(rs1, q) {
                                let j = choose|j: int| 0 <= j < rs1.len() && rs1[j].0 == q;
                                assert(j < rs0.len());
                                assert(rs0[j].0 == q);
                            }
                        }
                        if spec_contains_ip(rs0, q) {
                            let j0 = spec_index_of_ip(rs0, q);
                            let j1 = spec_index_of_ip(rs1, q);
                            assert(0 <= j0 < rs0.len() && rs0[j0].0 == q);
                            assert(0 <= j1 < rs1.len() && rs1[j1].0 == q);
                            assert(j1 != rs0.len());
                            assert(j0 == j1) by {
                                if j0 < j1 {
                                    assert(rs0[j0].0 != rs0[j1].0);
                                } else if j1 < j0 {
                                    assert(rs0[j1].0 != rs0[j0].0);
                                }
                            }
                        }
                    }
                }
            },
        }
    }

    proof fn lemma_other_ip_unchanged(
        rs0: Seq<(IpAddress, BanRecord)>,
        rs1: Seq<(IpAddress, BanRecord)>,
        i: int,
        q: IpAddress,
    )
        requires
            0 <= i < rs0.len(),
            rs1.len() == rs0.len(),
            forall|a: int, b: int|
                0 <= a < b < rs0.len() ==> (#[trigger] rs0[a]).0 != (#[trigger] rs0[b]).0,
            forall|k: int| 0 <= k < rs0.len() && k != i ==> rs1[k] == rs0[k],
            forall|k: int| 0 <= k < rs0.len() ==> (#[trigger] rs1[k]).0 == rs0[k].0,
            q != rs0[i].0,
        ensures
            spec_record_of(rs1, q) == spec_record_of(rs0, q),
    {
        assert(spec_contains_ip(rs1, q) <==> spec_contains_ip(rs0, q)) by {
            if spec_contains_ip(rs0, q) {
                let j = choose|j: int| 0 <= j < rs0.len() && rs0[j].0 == q;
                assert(rs1[j].0 == q);
            }
            if spec_contains_ip(rs1, q) {
                let j = choose|j: int| 0 <= j < rs1.len() && rs1[j].0 == q;
                assert(rs0[j].0 == q);
            }
        }
        if spec_contains_ip(rs0, q) {
            let j0 = spec_index_of_ip(rs0, q);
            let j1 = spec_index_of_ip(rs1, q);
            assert(0 <= j0 < rs0.len() && rs0[j0].0 == q);
            assert(0 <= j1 < rs1.len() && rs1[j1].0 == q);
            assert(j0 != i);
            assert(j1 != i);
            assert(rs1[j1] == rs0[j1]);
            assert(j0 == j1) by {
                if j0 < j1 {
                    assert(rs0[j0].0 != rs0[j1].0);
                } else if j1 < j0 {
                    assert(rs0[j1].0 != rs0[j0].0);
                }
            }
        }
    }

    /// Forgets every record whose window has elapsed.
    pub fn purge_expired(&mut self, now_secs: u64)
        requires
            old(self).wf(),
        ensures
            final(self).wf(),
            final(self).max_errors == old(self).max_errors,
            final(self).window_secs == old(self).window_secs,
            final(self).records@ == old(self).records@.filter(
                spec_window_running(old(self).window_secs, now_secs)),
    {
        let ghost rs0 = self.records@;
        let ghost pred = spec_window_running(self.window_secs, now_secs);
        let mut kept: Vec<(IpAddress, BanRecord)> = Vec::new();
        let mut i: usize = 0;
        while i < self.records.len()
            invariant
                i <= rs0.len(),
                self.records@ == rs0,
                self.window_secs == old(self).window_secs,
                self.max_errors == old(self).max_errors,
                pred == spec_window_running(old(self).window_secs, now_secs),
                old(self).wf(),
                rs0 == old(self).records@,
                kept@ == rs0.take(i as int).filter(pred),
                forall|k: int| 0 <= k < kept@.len()
                    ==> exists|j: int| 0 <= j < i && rs0[j] == #[trigger] kept@[k],
            decreases rs0.len() - i,
        {
            proof {
                assert(rs0.take(i + 1) =~= rs0.take(i as int).push(rs0[i as int]));
                crate::swarm::lemma_filter_push(rs0.take(i as int), rs0[i as int], pred);
            }
            let entry = self.records[i];
            let running = if entry.1.window_start > now_secs {
                true
            } else {
                now_secs - entry.1.window_start < self.window_secs
            };
            if running {
                kept.push(entry);
                proof {
                    assert forall|k: int| 0 <= k < kept@.len()
                        implies exists|j: int| 0 <= j < i + 1 && rs0[j] == #[trigger] kept@[k] by {
                        if k < kept@.len() - 1 {
                            let j = choose|j: int| 0 <= j < i && rs0[j] == kept@[k];
                            assert(0 <= j < i + 1 && rs0[j] == kept@[k]);
                        } else {
                            assert(rs0[i as int] == kept@[k]);
                        }
                    }
                }
            }
            i = i + 1;
        }
        proof {
            assert(rs0.take(rs0.len() as int) =~= rs0);
            assert forall|a: int, b: int| 0 <= a < b < kept@.len()
                implies (#[trigger] kept@[a]).0 != (#[trigger] kept@[b]).0 by {
                let ja = choose|j: int| 0 <= j < rs0.len() && rs0[j] == kept@[a];
                let jb = choose|j: int| 0 <= j < rs0.len() && rs0[j] == kept@[b];
                if ja == jb {
                    assert(kept@[a] == kept@[b]);
                    crate::swarm::lemma_filter_distinct_positions(rs0, pred, a, b);
                } else if ja < jb {
                    assert(rs0[ja].0 != rs0[jb].0);
                } else {
                    assert(rs0[jb].0 != rs0[ja].0);
                }
            }
        }
        self.records = kept;
    }
}

/// Records whose window still runs at `now_secs`, as a function value.
pub open spec fn spec_window_running(window_secs: u64, now_secs: u64) -> spec_fn(
    (IpAddress, BanRecord),
) -> bool {
    |e: (IpAddress, BanRecord)| now_secs < e.1.window_start + window_secs
}

} // verus!
