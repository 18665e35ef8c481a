//! The pieces an HTTP announce or scrape URL is read with: percent
//! decoding for the URL-encoded 20-byte identifiers, decimal parsing
//! for the counters, and the event names.

use vstd::prelude::*;
use crate::info_hash::{spec_hex_digit, spec_hex_pair, InfoHash};
use crate::peer::PeerId;
use crate::primitives::{AnnounceEvent, PeersWanted};

verus! {

/// What percent-decoding yields: every `%xy` with two hexadecimal
/// digits becomes the byte they spell, every other byte stands as it
/// is, and a `%` without two digits spoils the whole value.
pub open spec fn spec_percent_decode(s: Seq<u8>) -> Option<Seq<u8>>
    decreases s.len(),
{
    if s.len() == 0 {
        Some(Seq::<u8>::empty())
    } else if s.first() == 37 {
        if s.len() >= 3 && spec_hex_digit(s[1]) < 16 && spec_hex_digit(s[2]) < 16 {
            match spec_percent_decode(s.skip(3)) {
                Some(rest) => Some(seq![spec_hex_pair(s[1], s[2])] + rest),
                None => None,
            }
        } else {
            None
        }
    } else {
        match spec_percent_decode(s.skip(1)) {
            Some(rest) => Some(seq![s.first()] + rest),
            None => None,
        }
    }
}

/// Decodes one URL-encoded value, as `info_hash` and `peer_id` reach
/// the tracker; `None` exactly on a stray or malformed `%` escape.
pub fn percent_decode(s: &[u8]) -> (r: Option<Vec<u8>>)
    ensures
        r is Some <==> spec_percent_decode(s@) is Some,
        r matches Some(v) ==> Some(v@) == spec_percent_decode(s@),
{
    let mut out: Vec<u8> = Vec::new();
    let mut i: usize = 0;
    proof {
        assert(s@.skip(0) =~= s@);
        assert(out@ + s@.skip(0) =~= s@.skip(0));
    }
    while i < s.len()
        invariant
            i <= s@.len(),
            spec_percent_decode(s@) == match spec_percent_decode(s@.skip(i as int)) {
                Some(rest) => Some(out@ + rest),
                None => None::<Seq<u8>>,
            },
        decreases s@.len() - i,
    {
        let ghost rem = s@.skip(i as int);
        proof {
            assert(rem.len() > 0);
            assert(rem.first() == s@[i as int]);
            assert(rem.skip(1) =~= s@.skip(i + 1));
        }
        let b = s[i];
        if b == 37 {
            if s.len() - i < 3 {
                proof {
                    assert(rem.len() < 3);
                    assert(spec_percent_decode(rem) is None);
                }
                return None;
            }
            proof {
                assert(rem[1] == s@[i + 1] && rem[2] == s@[i + 2]);
                assert(rem.skip(3) =~= s@.skip(i + 3));
            }
            let hi = crate::info_hash::hex_digit(s[i + 1]);
            let lo = crate::info_hash::hex_digit(s[i + 2]);
            if hi == 16 || lo == 16 {
                proof {
                    assert(spec_percent_decode(rem) is None);
                }
                return None;
            }
            let ghost out0 = out@;
            out.push(hi * 16 + lo);
            proof {
                let pair = spec_hex_pair(rem[1], rem[2]);
                assert(out@ == out0.push(pair));
                let tail = spec_percent_decode(s@.skip(i + 3));
                if tail is Some {
                    let rest = choose|rest: Seq<u8>| tail == Some(rest);
                    assert(spec_percent_decode(rem) == Some(seq![pair] + rest));
                    assert(out0 + (seq![pair] + rest) =~= out@ + rest);
                } else {
                    assert(spec_percent_decode(rem) is None);
                }
            }
            i = i + 3;
        } else {
            let ghost out0 = out@;
            out.push(b);
            proof {
                assert(out@ == out0.push(rem.first()));
                let tail = spec_percent_decode(s@.skip(i + 1));
                if tail is Some {
                    let rest = choose|rest: Seq<u8>| tail == Some(rest);
                    assert(spec_percent_decode(rem) == Some(seq![rem.first()] + rest));
                    assert(out0 + (seq![rem.first()] + rest) =~= out@ + rest);
                } else {
                    assert(spec_percent_decode(rem) is None);
                }
            }
            i = i + 1;
        }
    }
    proof {
        assert(s@.skip(s@.len() as int) =~= Seq::<u8>::empty());
        assert(out@ + Seq::<u8>::empty() =~= out@);
    }
    Some(out)
}

/// The number a run of ASCII digits spells, reading left to right.
pub open spec fn spec_decimal_value(s: Seq<u8>) -> nat
    decreases s.len(),
{
    if s.len() == 0 {
        0nat
    } else {
        (spec_decimal_value(s.drop_last()) * 10 + (s.last() - 48)) as nat
    }
}

/// True when `s` is a non-empty run of ASCII digits.
pub open spec fn spec_all_digits(s: Seq<u8>) -> bool {
    s.len() > 0 && forall|i: int| 0 <= i < s.len() ==> 48 <= #[trigger] s[i] <= 57
}

/// Parses the decimal counters of an announce URL (`port`, `uploaded`,
/// `downloaded`, `left`, `numwant`): `Some` exactly for a non-empty
/// all-digit run whose value fits, and then the value it spells.
pub fn parse_decimal_u64(s: &[u8]) -> (r: Option<u64>)
    ensures
        r is Some <==> spec_all_digits(s@) && spec_decimal_value(s@) <= u64::MAX,
        r matches Some(v) ==> v == spec_decimal_value(s@),
{
    if s.len() == 0 {
        return None;
    }
    let mut acc: u64 = 0;
    let mut i: usize = 0;
    while i < s.len()
        invariant
            i <= s@.len(),
            spec_all_digits(s@.take(i as int)) || i == 0,
            acc == spec_decimal_value(s@.take(i as int)),
            spec_decimal_value(s@.take(i as int)) <= u64::MAX,
        decreases s@.len() - i,
    {
        let b = s[i];
        proof {
            assert(s@.take(i + 1).drop_last() =~= s@.take(i as int));
            assert(s@.take(i + 1).last() == s@[i as int]);
        }
        if b < 48 || b > 57 {
            proof {
                assert(!(48 <= s@[i as int] <= 57));
                assert(!spec_all_digits(s@));
            }
            return None;
        }
        let d = (b - 48) as u64;
        if acc > (u64::MAX - d) / 10 {
            proof {
                assert(acc * 10 + d > u64::MAX) by (nonlinear_arith)
                    requires acc > (u64::MAX - d) / 10 && d <= 9;
                if spec_all_digits(s@) {
                    lemma_decimal_value_monotonic(s@, i + 1);
                }
            }
            return None;
        }
        proof {
            assert(acc * 10 + d <= u64::MAX) by (nonlinear_arith)
                requires acc <= (u64::MAX - d) / 10 && d <= 9;
        }
        acc = acc * 10 + d;
        i = i + 1;
    }
    proof {
        assert(s@.take(s@.len() as int) =~= s@);
    }
    Some(acc)
}

/// A longer digit run never spells a smaller number.
proof fn lemma_decimal_value_monotonic(s: Seq<u8>, i: int)
    requires
        0 < i <= s.len(),
        forall|k: int| 0 <= k < s.len() ==> 48 <= #[trigger] s[k],
    ensures
        spec_decimal_value(s) >= spec_decimal_value(s.take(i)),
    decreases s.len() - i,
{
    if i == s.len() {
        assert(s.take(i) =~= s);
    } else {
        lemma_decimal_value_monotonic(s, i + 1);
        assert(s.take(i + 1).drop_last() =~= s.take(i));
        assert(s.take(i + 1).last() == s[i]);
        assert(spec_decimal_value(s.take(i + 1)) >= spec_decimal_value(s.take(i)))
            by (nonlinear_arith)
            requires
                spec_decimal_value(s.take(i + 1)) == spec_decimal_value(s.take(i)) * 10
                    + (s.take(i + 1).last() - 48),
                s.take(i + 1).last() >= 48,
        ;
    }
}

/// The event a name in an announce URL stands for: the empty name is
/// the empty event, any unknown text is refused.
pub open spec fn spec_event_of_name(s: Seq<u8>) -> Option<AnnounceEvent> {
    if s.len() == 0 {
        Some(AnnounceEvent::Empty)
    } else if s == seq![115u8, 116, 97, 114, 116, 101, 100] {
        Some(AnnounceEvent::Started)
    } else if s == seq![115u8, 116, 111, 112, 112, 101, 100] {
        Some(AnnounceEvent::Stopped)
    } else if s == seq![99u8, 111, 109, 112, 108, 101, 116, 101, 100] {
        Some(AnnounceEvent::Completed)
    } else {
        None
    }
}

/// The event named in an announce URL; an absent parameter is the
/// empty name, and any other text is refused.
pub fn parse_event_name(s: &[u8]) -> (r: Option<AnnounceEvent>)
    ensures
        r == spec_event_of_name(s@),
        s@ == Seq::<u8>::empty() ==> r == Some(AnnounceEvent::Empty),
        s@ == seq![115u8, 116, 97, 114, 116, 101, 100] ==> r == Some(AnnounceEvent::Started),
        s@ == seq![115u8, 116, 111, 112, 112, 101, 100] ==> r == Some(AnnounceEvent::Stopped),
        s@ == seq![99u8, 111, 109, 112, 108, 101, 116, 101, 100] ==> r == Some(
            AnnounceEvent::Completed),
        r is None <==> s@.len() > 0 && s@ != seq![115u8, 116, 97, 114, 116, 101, 100]
            && s@ != seq![115u8, 116, 111, 112, 112, 101, 100]
            && s@ != seq![99u8, 111, 109, 112, 108, 101, 116, 101, 100],
{
    let started: [u8; 7] = [115, 116, 97, 114, 116, 101, 100];
    let stopped: [u8; 7] = [115, 116, 111, 112, 112, 101, 100];
    let completed: [u8; 9] = [99, 111, 109, 112, 108, 101, 116, 101, 100];
    proof {
        assert(started@ =~= seq![115u8, 116, 97, 114, 116, 101, 100]);
        assert(stopped@ =~= seq![115u8, 116, 111, 112, 112, 101, 100]);
        assert(completed@ =~= seq![99u8, 111, 109, 112, 108, 101, 116, 101, 100]);
        assert(Seq::<u8>::empty().len() == 0);
    }
    if s.len() == 0 {
        proof {
            assert(s@ =~= Seq::<u8>::empty());
        }
        return Some(AnnounceEvent::Empty);
    }
    if crate::authentication::eq_bytes(s, started.as_slice()) {
        Some(AnnounceEvent::Started)
    } else if crate::authentication::eq_bytes(s, stopped.as_slice()) {
        Some(AnnounceEvent::Stopped)
    } else if crate::authentication::eq_bytes(s, completed.as_slice()) {
        Some(AnnounceEvent::Completed)
    } else {
        None
    }
}


/// Index of the first occurrence of `b` in `s`, or -1.
pub open spec fn spec_find(s: Seq<u8>, b: u8) -> int
    decreases s.len(),
{
    if s.len() == 0 {
        -1
    } else if s.first() == b {
        0
    } else {
        let r = spec_find(s.drop_first(), b);
        if r < 0 {
            -1
        } else {
            r + 1
        }
    }
}

/// A byte at `i` with none of its kind before it is the first.
proof fn lemma_find_at(s: Seq<u8>, b: u8, i: int)
    requires
        0 <= i < s.len(),
        s[i] == b,
        forall|k: int| 0 <= k < i ==> s[k] != b,
    ensures
        spec_find(s, b) == i,
    decreases i,
{
    if i > 0 {
        lemma_find_at(s.drop_first(), b, i - 1);
    }
}

/// No occurrence anywhere means none is found.
proof fn lemma_find_none(s: Seq<u8>, b: u8)
    requires
        forall|k: int| 0 <= k < s.len() ==> s[k] != b,
    ensures
        spec_find(s, b) == -1,
    decreases s.len(),
{
    if s.len() > 0 {
        lemma_find_none(s.drop_first(), b);
    }
}

/// Finds the first occurrence of `b`.
pub fn find_byte(s: &[u8], b: u8) -> (r: Option<usize>)
    ensures
        r matches Some(i) ==> i < s@.len() && s@[i as int] == b && spec_find(s@, b) == i,
        r is None ==> spec_find(s@, b) == -1,
{
    let mut i: usize = 0;
    while i < s.len()
        invariant
            i <= s@.len(),
            forall|k: int| 0 <= k < i ==> s@[k] != b,
        decreases s@.len() - i,
    {
        if s[i] == b {
            proof {
                lemma_find_at(s@, b, i as int);
            }
            return Some(i);
        }
        i = i + 1;
    }
    proof {
        lemma_find_none(s@, b);
    }
    None
}

/// One `key=value` segment of a query string: the key runs to the
/// first `=`, the value follows it; a segment without `=` is a key
/// with an empty value.
pub open spec fn spec_pair_of(seg: Seq<u8>) -> (Seq<u8>, Seq<u8>) {
    let i = spec_find(seg, 61);
    if i < 0 {
        (seg, Seq::<u8>::empty())
    } else {
        (seg.take(i), seg.skip(i + 1))
    }
}

/// The `key=value` pairs of a query string, split at `&`, in order.
pub open spec fn spec_query_pairs(s: Seq<u8>) -> Seq<(Seq<u8>, Seq<u8>)>
    decreases s.len(),
{
    if s.len() == 0 {
        Seq::<(Seq<u8>, Seq<u8>)>::empty()
    } else {
        let i = spec_find(s, 38);
        if 0 <= i < s.len() {
            seq![spec_pair_of(s.take(i))] + spec_query_pairs(s.skip(i + 1))
        } else {
            seq![spec_pair_of(s)]
        }
    }
}

/// The views of a parsed pair list.
pub open spec fn spec_pair_views(v: Seq<(Vec<u8>, Vec<u8>)>) -> Seq<(Seq<u8>, Seq<u8>)> {
    v.map_values(|p: (Vec<u8>, Vec<u8>)| (p.0@, p.1@))
}

fn copy_bytes(s: &[u8]) -> (r: Vec<u8>)
    ensures
        r@ == s@,
{
    let mut v: Vec<u8> = Vec::new();
    crate::bencode::push_bytes(&mut v, s);
    proof {
        assert(v@ =~= s@);
    }
    v
}

/// Splits one segment at its first `=`.
fn split_pair(seg: &[u8]) -> (r: (Vec<u8>, Vec<u8>))
    ensures
        (r.0@, r.1@) == spec_pair_of(seg@),
{
    match find_byte(seg, 61) {
        None => {
            let key = copy_bytes(seg);
            (key, Vec::new())
        },
        Some(i) => {
            let n = seg.len();
            let key = copy_bytes(&seg[0..i]);
            let value = copy_bytes(&seg[i + 1..n]);
            proof {
                assert(key@ =~= seg@.take(i as int));
                assert(value@ =~= seg@.skip(i + 1));
            }
            (key, value)
        },
    }
}

/// Splits a query string into its `key=value` pairs, in order; an
/// empty query has none.
pub fn parse_query_pairs(q: &[u8]) -> (r: Vec<(Vec<u8>, Vec<u8>)>)
    ensures
        spec_pair_views(r@) == spec_query_pairs(q@),
{
    let mut out: Vec<(Vec<u8>, Vec<u8>)> = Vec::new();
    let mut pos: usize = 0;
    proof {
        assert(q@.skip(0) =~= q@);
        assert(spec_pair_views(out@) + spec_query_pairs(q@.skip(0)) =~= spec_query_pairs(q@));
    }
    while pos < q.len()
        invariant
            pos <= q@.len(),
            spec_query_pairs(q@) == spec_pair_views(out@) + spec_query_pairs(q@.skip(pos as int)),
        decreases q@.len() - pos,
    {
        let ghost rem = q@.skip(pos as int);
        let ghost out0 = out@;
        proof {
            assert(rem.len() > 0);
        }
        match find_byte(&q[pos..q.len()], 38) {
            None => {
                let pair = split_pair(&q[pos..q.len()]);
                proof {
                    assert(q@.subrange(pos as int, q@.len() as int) =~= rem);
                }
                out.push(pair);
                proof {
                    assert(spec_query_pairs(rem) == seq![spec_pair_of(rem)]);
                    assert(spec_pair_views(out@)
                        =~= spec_pair_views(out0).push(spec_pair_of(rem)));
                    assert(spec_pair_views(out0) + spec_query_pairs(rem)
                        =~= spec_pair_views(out@));
                    assert(q@.skip(q@.len() as int) =~= Seq::<u8>::empty());
                    assert(spec_pair_views(out@) + spec_query_pairs(q@.skip(q@.len() as int))
                        =~= spec_pair_views(out@));
                }
                pos = q.len();
            },
            Some(i) => {
                proof {
                    assert(q@.subrange(pos as int, q@.len() as int) =~= rem);
                    assert(spec_find(rem, 38) == i);
                    assert(rem[i as int] == 38);
                }
                let pair = split_pair(&q[pos..pos + i]);
                proof {
                    assert(q@.subrange(pos as int, pos + i) =~= rem.take(i as int));
                }
                out.push(pair);
                proof {
                    assert(spec_query_pairs(rem) == seq![spec_pair_of(rem.take(i as int))]
                        + spec_query_pairs(rem.skip(i + 1)));
                    assert(spec_pair_views(out@)
                        =~= spec_pair_views(out0).push(spec_pair_of(rem.take(i as int))));
                    assert(rem.skip(i + 1) =~= q@.skip(pos + i + 1));
                    assert(spec_pair_views(out0) + spec_query_pairs(rem) =~= spec_pair_views(out@)
                        + spec_query_pairs(q@.skip(pos + i + 1)));
                }
                pos = pos + i + 1;
            },
        }
    }
    proof {
        assert(q@.skip(q@.len() as int) =~= Seq::<u8>::empty());
        assert(spec_pair_views(out@) + spec_query_pairs(q@.skip(pos as int))
            =~= spec_pair_views(out@));
    }
    out
}

/// The value of the first pair carrying `key`, if any.
pub open spec fn spec_first_value(pairs: Seq<(Seq<u8>, Seq<u8>)>, key: Seq<u8>) -> Option<Seq<u8>>
    decreases pairs.len(),
{
    if pairs.len() == 0 {
        None
    } else if pairs.first().0 == key {
        Some(pairs.first().1)
    } else {
        spec_first_value(pairs.drop_first(), key)
    }
}

/// Looks up the first value under `key`.
pub fn first_value(pairs: &Vec<(Vec<u8>, Vec<u8>)>, key: &[u8]) -> (r: Option<Vec<u8>>)
    ensures
        match r {
            Some(v) => spec_first_value(spec_pair_views(pairs@), key@) == Some(v@),
            None => spec_first_value(spec_pair_views(pairs@), key@) is None,
        },
{
    let ghost all = spec_pair_views(pairs@);
    let mut i: usize = 0;
    proof {
        assert(all.skip(0) =~= all);
    }
    while i < pairs.len()
        invariant
            i <= pairs@.len(),
            all == spec_pair_views(pairs@),
            spec_first_value(all, key@) == spec_first_value(all.skip(i as int), key@),
        decreases pairs@.len() - i,
    {
        let ghost rem = all.skip(i as int);
        proof {
            assert(rem.len() > 0);
            assert(rem.first() == (pairs@[i as int].0@, pairs@[i as int].1@));
            assert(rem.drop_first() =~= all.skip(i + 1));
        }
        if crate::authentication::eq_bytes(pairs[i].0.as_slice(), key) {
            let v = copy_bytes(pairs[i].1.as_slice());
            proof {
                assert(spec_first_value(rem, key@) == Some(pairs@[i as int].1@));
            }
            return Some(v);
        }
        proof {
            assert(spec_first_value(rem, key@) == spec_first_value(all.skip(i + 1), key@));
        }
        i = i + 1;
    }
    proof {
        assert(all.skip(all.len() as int) =~= Seq::<(Seq<u8>, Seq<u8>)>::empty());
    }
    None
}


/// The query keys of an announce URL, as byte sequences.
pub open spec fn spec_key_info_hash() -> Seq<u8> {
    seq![105u8, 110, 102, 111, 95, 104, 97, 115, 104]
}

pub open spec fn spec_key_peer_id() -> Seq<u8> {
    seq![112u8, 101, 101, 114, 95, 105, 100]
}

pub open spec fn spec_key_port() -> Seq<u8> {
    seq![112u8, 111, 114, 116]
}

pub open spec fn spec_key_uploaded() -> Seq<u8> {
    seq![117u8, 112, 108, 111, 97, 100, 101, 100]
}

pub open spec fn spec_key_downloaded() -> Seq<u8> {
    seq![100u8, 111, 119, 110, 108, 111, 97, 100, 101, 100]
}

pub open spec fn spec_key_left() -> Seq<u8> {
    seq![108u8, 101, 102, 116]
}

pub open spec fn spec_key_event() -> Seq<u8> {
    seq![101u8, 118, 101, 110, 116]
}

pub open spec fn spec_key_numwant() -> Seq<u8> {
    seq![110u8, 117, 109, 119, 97, 110, 116]
}

pub open spec fn spec_key_compact() -> Seq<u8> {
    seq![99u8, 111, 109, 112, 97, 99, 116]
}

/// An announce request as the HTTP query spells it: the identifiers
/// percent-decoded, the counters as numbers, the policy knobs with
/// their defaults (as many peers as the tracker gives; the compact
/// response form).
#[derive(Clone, Copy, Debug, PartialEq, Eq)]
pub struct AnnounceQuery {
    pub info_hash: InfoHash,
    pub peer_id: PeerId,
    pub port: u16,
    pub uploaded: u64,
    pub downloaded: u64,
    pub left: u64,
    pub event: AnnounceEvent,
    pub numwant: PeersWanted,
    pub compact: bool,
}

/// Why an announce URL was refused: a required parameter is missing,
/// or a parameter does not spell a value of its type.
#[derive(Clone, Copy, Debug, PartialEq, Eq, Structural)]
pub enum QueryError {
    MissingInfoHash,
    InvalidInfoHash,
    MissingPeerId,
    InvalidPeerId,
    MissingPort,
    InvalidPort,
    InvalidCounter,
    InvalidEvent,
    InvalidNumwant,
    InvalidCompact,
}

/// Whether an optional counter parameter is well formed: absent, or a
/// digit run whose value fits.
pub open spec fn spec_counter_ok(v: Option<Seq<u8>>) -> bool {
    match v {
        None => true,
        Some(s) => spec_all_digits(s) && spec_decimal_value(s) <= u64::MAX,
    }
}

/// The value of an optional counter parameter; absent counts zero.
pub open spec fn spec_counter_value(v: Option<Seq<u8>>) -> nat {
    match v {
        None => 0nat,
        Some(s) => spec_decimal_value(s),
    }
}

/// The first reason an announce query is refused, in the order the
/// parameters are read: the identifiers, the port, the counters, the
/// event, `numwant`, `compact`. `None` when every parameter is usable.
pub open spec fn spec_announce_query_error(pairs: Seq<(Seq<u8>, Seq<u8>)>) -> Option<QueryError> {
    let ih = spec_first_value(pairs, spec_key_info_hash());
    let pid = spec_first_value(pairs, spec_key_peer_id());
    let port = spec_first_value(pairs, spec_key_port());
    if ih is None {
        Some(QueryError::MissingInfoHash)
    } else if !(spec_percent_decode(ih->0) matches Some(h) && h.len() == 20) {
        Some(QueryError::InvalidInfoHash)
    } else if pid is None {
        Some(QueryError::MissingPeerId)
    } else if !(spec_percent_decode(pid->0) matches Some(p) && p.len() == 20) {
        Some(QueryError::InvalidPeerId)
    } else if port is None {
        Some(QueryError::MissingPort)
    } else if !(spec_all_digits(port->0) && spec_decimal_value(port->0) <= u16::MAX) {
        Some(QueryError::InvalidPort)
    } else if !(spec_counter_ok(spec_first_value(pairs, spec_key_uploaded()))
        && spec_counter_ok(spec_first_value(pairs, spec_key_downloaded()))
        && spec_counter_ok(spec_first_value(pairs, spec_key_left()))) {
        Some(QueryError::InvalidCounter)
    } else if (match spec_first_value(pairs, spec_key_event()) {
        None => false,
        Some(e) => spec_event_of_name(e) is None,
    }) {
        Some(QueryError::InvalidEvent)
    } else if (match spec_first_value(pairs, spec_key_numwant()) {
        None => false,
        Some(n) => !(spec_all_digits(n) && spec_decimal_value(n) <= u32::MAX),
    }) {
        Some(QueryError::InvalidNumwant)
    } else if (match spec_first_value(pairs, spec_key_compact()) {
        None => false,
        Some(c) => c != seq![49u8] && c != seq![48u8],
    }) {
        Some(QueryError::InvalidCompact)
    } else {
        None
    }
}

fn bytes20_of(v: &Vec<u8>) -> (r: [u8; 20])
    requires
        v@.len() == 20,
    ensures
        r@ =~= v@,
{
    let mut arr: [u8; 20] = [0; 20];
    let mut i: usize = 0;
    while i < 20
        invariant
            i <= 20,
            v@.len() == 20,
            forall|k: int| 0 <= k < i ==> arr@[k] == v@[k],
        decreases 20 - i,
    {
        arr[i] = v[i];
        i = i + 1;
    }
    arr
}

/// Reads a whole announce request out of the URL's query pairs:
/// `info_hash` and `peer_id` percent-decoded to their 20 bytes, the
/// port and counters as the numbers they spell, the event by name,
/// `numwant` and `compact` with their defaults when absent. The first
/// unusable parameter names the refusal, exactly as
/// `spec_announce_query_error` orders them.
pub fn parse_announce_query(pairs: &Vec<(Vec<u8>, Vec<u8>)>) -> (r: Result<
    AnnounceQuery,
    QueryError,
>)
    ensures
        r is Err <==> spec_announce_query_error(spec_pair_views(pairs@)) is Some,
        r matches Err(e) ==> Some(e) == spec_announce_query_error(spec_pair_views(pairs@)),
        r matches Ok(a) ==> {
            let ps = spec_pair_views(pairs@);
            &&& Some(a.info_hash@) == spec_percent_decode(spec_first_value(ps,
                spec_key_info_hash())->0)
            &&& Some(a.peer_id@) == spec_percent_decode(spec_first_value(ps, spec_key_peer_id())->0)
            &&& a.port == spec_decimal_value(spec_first_value(ps, spec_key_port())->0)
            &&& a.uploaded == spec_counter_value(spec_first_value(ps, spec_key_uploaded()))
            &&& a.downloaded == spec_counter_value(spec_first_value(ps, spec_key_downloaded()))
            &&& a.left == spec_counter_value(spec_first_value(ps, spec_key_left()))
            &&& Some(a.event) == spec_event_of_name(match spec_first_value(ps, spec_key_event()) {
                None => Seq::<u8>::empty(),
                Some(e) => e,
            })
            &&& a.numwant == (match spec_first_value(ps, spec_key_numwant()) {
                None => PeersWanted::All,
                Some(n) => PeersWanted::Only(spec_decimal_value(n) as u32),
            })
            &&& a.compact == (match spec_first_value(ps, spec_key_compact()) {
                None => true,
                Some(c) => c == seq![49u8],
            })
        },
{
    let key_info_hash: [u8; 9] = [105, 110, 102, 111, 95, 104, 97, 115, 104];
    let key_peer_id: [u8; 7] = [112, 101, 101, 114, 95, 105, 100];
    let key_port: [u8; 4] = [112, 111, 114, 116];
    let key_uploaded: [u8; 8] = [117, 112, 108, 111, 97, 100, 101, 100];
    let key_downloaded: [u8; 10] = [100, 111, 119, 110, 108, 111, 97, 100, 101, 100];
    let key_left: [u8; 4] = [108, 101, 102, 116];
    let key_event: [u8; 5] = [101, 118, 101, 110, 116];
    let key_numwant: [u8; 7] = [110, 117, 109, 119, 97, 110, 116];
    let key_compact: [u8; 7] = [99, 111, 109, 112, 97, 99, 116];
    proof {
        assert(key_info_hash@ =~= spec_key_info_hash());
        assert(key_peer_id@ =~= spec_key_peer_id());
        assert(key_port@ =~= spec_key_port());
        assert(key_uploaded@ =~= spec_key_uploaded());
        assert(key_downloaded@ =~= spec_key_downloaded());
        assert(key_left@ =~= spec_key_left());
        assert(key_event@ =~= spec_key_event());
        assert(key_numwant@ =~= spec_key_numwant());
        assert(key_compact@ =~= spec_key_compact());
    }
    let info_hash = match first_value(pairs, key_info_hash.as_slice()) {
        None => {
            return Err(QueryError::MissingInfoHash);
        },
        Some(raw) => match percent_decode(raw.as_slice()) {
            Some(h) if h.len() == 20 => InfoHash(bytes20_of(&h)),
            _ => {
                return Err(QueryError::InvalidInfoHash);
            },
        },
    };
    let peer_id = match first_value(pairs, key_peer_id.as_slice()) {
        None => {
            return Err(QueryError::MissingPeerId);
        },
        Some(raw) => match percent_decode(raw.as_slice()) {
            Some(p) if p.len() == 20 => PeerId(bytes20_of(&p)),
            _ => {
                return Err(QueryError::InvalidPeerId);
            },
        },
    };
    let port = match first_value(pairs, key_port.as_slice()) {
        None => {
            return Err(QueryError::MissingPort);
        },
        Some(raw) => match parse_decimal_u64(raw.as_slice()) {
            Some(p) if p <= 0xFFFFu64 => p as u16,
            _ => {
                return Err(QueryError::InvalidPort);
            },
        },
    };
    let uploaded = match first_value(pairs, key_uploaded.as_slice()) {
        None => 0u64,
        Some(raw) => match parse_decimal_u64(raw.as_slice()) {
            Some(v) => v,
            None => {
                return Err(QueryError::InvalidCounter);
            },
        },
    };
    let downloaded = match first_value(pairs, key_downloaded.as_slice()) {
        None => 0u64,
        Some(raw) => match parse_decimal_u64(raw.as_slice()) {
            Some(v) => v,
            None => {
                return Err(QueryError::InvalidCounter);
            },
        },
    };
    let left = match first_value(pairs, key_left.as_slice()) {
        None => 0u64,
        Some(raw) => match parse_decimal_u64(raw.as_slice()) {
            Some(v) => v,
            None => {
                return Err(QueryError::InvalidCounter);
            },
        },
    };
    let event = match first_value(pairs, key_event.as_slice()) {
        None => AnnounceEvent::Empty,
        Some(raw) => match parse_event_name(raw.as_slice()) {
            Some(e) => e,
            None => {
                return Err(QueryError::InvalidEvent);
            },
        },
    };
    let numwant = match first_value(pairs, key_numwant.as_slice()) {
        None => PeersWanted::All,
        Some(raw) => match parse_decimal_u64(raw.as_slice()) {
            Some(n) if n <= 0xFFFF_FFFFu64 => PeersWanted::Only(n as u32),
            _ => {
                return Err(QueryError::InvalidNumwant);
            },
        },
    };
    let compact = match first_value(pairs, key_compact.as_slice()) {
        None => true,
        Some(raw) => {
            if raw.len() == 1 && raw[0] == 49 {
                proof {
                    assert(raw@ =~= seq![49u8]);
                }
                true
            } else if raw.len() == 1 && raw[0] == 48 {
                proof {
                    assert(raw@ =~= seq![48u8]);
                    assert(raw@ != seq![49u8]);
                }
                false
            } else {
                proof {
                    assert(raw@ != seq![49u8] && raw@ != seq![48u8]);
                }
                return Err(QueryError::InvalidCompact);
            }
        },
    };
    Ok(AnnounceQuery {
        info_hash,
        peer_id,
        port,
        uploaded,
        downloaded,
        left,
        event,
        numwant,
        compact,
    })
}


/// Pairs carrying `key`, as a function value.
pub open spec fn key_pred(key: Seq<u8>) -> spec_fn((Seq<u8>, Seq<u8>)) -> bool {
    |p: (Seq<u8>, Seq<u8>)| p.0 == key
}

/// The value of a pair, as a function value.
pub open spec fn value_proj() -> spec_fn((Seq<u8>, Seq<u8>)) -> Seq<u8> {
    |p: (Seq<u8>, Seq<u8>)| p.1
}

/// The values of every pair carrying `key`, in order: how the repeated
/// `info_hash` parameters of a scrape URL are read.
pub open spec fn spec_values_of(pairs: Seq<(Seq<u8>, Seq<u8>)>, key: Seq<u8>) -> Seq<Seq<u8>> {
    pairs.filter(key_pred(key)).map_values(value_proj())
}

/// Reads the torrents a scrape URL names: every `info_hash` value
/// percent-decoded to its 20 bytes, in order. A scrape must name at
/// least one torrent, and every named one must decode.
pub fn parse_scrape_query(pairs: &Vec<(Vec<u8>, Vec<u8>)>) -> (r: Result<Vec<InfoHash>, QueryError>)
    ensures
        ({
            let values = spec_values_of(spec_pair_views(pairs@), spec_key_info_hash());
            &&& (r == Result::<Vec<InfoHash>, QueryError>::Err(QueryError::MissingInfoHash)
                <==> values.len() == 0)
            &&& (r is Ok <==> values.len() > 0 && forall|i: int| 0 <= i < values.len()
                ==> (spec_percent_decode(#[trigger] values[i]) matches Some(h) && h.len() == 20))
            &&& (r matches Ok(hs) ==> hs@.len() == values.len() && forall|i: int|
                0 <= i < values.len() ==> Some((#[trigger] hs@[i])@)
                    == spec_percent_decode(values[i]))
        }),
{
    let ghost all = spec_pair_views(pairs@);
    let ghost key = spec_key_info_hash();
    let key_info_hash: [u8; 9] = [105, 110, 102, 111, 95, 104, 97, 115, 104];
    proof {
        assert(key_info_hash@ =~= key);
    }
    let mut hashes: Vec<InfoHash> = Vec::new();
    let mut i: usize = 0;
    proof {
        assert(all.take(0) =~= Seq::<(Seq<u8>, Seq<u8>)>::empty());
        assert(spec_values_of(all.take(0), key) =~= Seq::<Seq<u8>>::empty());
    }
    while i < pairs.len()
        invariant
            i <= pairs@.len(),
            all == spec_pair_views(pairs@),
            key == spec_key_info_hash(),
            key_info_hash@ == key,
            hashes@.len() == spec_values_of(all.take(i as int), key).len(),
            forall|k: int| 0 <= k < hashes@.len() ==> Some((#[trigger] hashes@[k])@)
                == spec_percent_decode(spec_values_of(all.take(i as int), key)[k]),
        decreases pairs@.len() - i,
    {
        proof {
            assert(all.take(i + 1) =~= all.take(i as int).push(all[i as int]));
            crate::swarm::lemma_filter_push(all.take(i as int), all[i as int], key_pred(key));
            if key_pred(key)(all[i as int]) {
                assert(spec_values_of(all.take(i + 1), key)
                    =~= spec_values_of(all.take(i as int), key).push(all[i as int].1));
            } else {
                assert(spec_values_of(all.take(i + 1), key)
                    =~= spec_values_of(all.take(i as int), key));
            }
            assert(all[i as int] == (pairs@[i as int].0@, pairs@[i as int].1@));
        }
        if crate::authentication::eq_bytes(pairs[i].0.as_slice(), key_info_hash.as_slice()) {
            match percent_decode(pairs[i].1.as_slice()) {
                Some(h) if h.len() == 20 => {
                    hashes.push(InfoHash(bytes20_of(&h)));
                },
                _ => {
                    proof {
                        let values = spec_values_of(all, key);
                        let bad = spec_values_of(all.take(i + 1), key).len() - 1;
                        lemma_values_prefix(all, key, i + 1);
                        assert(values[bad] == all[i as int].1);
                        assert(!(spec_percent_decode(values[bad]) matches Some(h)
                            && h.len() == 20));
                    }
                    return Err(QueryError::InvalidInfoHash);
                },
            }
        }
        i = i + 1;
    }
    proof {
        assert(all.take(all.len() as int) =~= all);
        let values = spec_values_of(all, key);
        assert forall|k: int| 0 <= k < values.len()
            implies (spec_percent_decode(#[trigger] values[k]) matches Some(h)
                && h.len() == 20) by {
            assert(Some(hashes@[k]@) == spec_percent_decode(values[k]));
            assert(hashes@[k]@.len() == 20);
        }
    }
    if hashes.len() == 0 {
        return Err(QueryError::MissingInfoHash);
    }
    Ok(hashes)
}

/// The values under a key in a prefix stand, in place, among the
/// values in the whole list.
proof fn lemma_values_prefix(pairs: Seq<(Seq<u8>, Seq<u8>)>, key: Seq<u8>, n: int)
    requires
        0 <= n <= pairs.len(),
    ensures
        spec_values_of(pairs.take(n), key).len() <= spec_values_of(pairs, key).len(),
        forall|k: int| 0 <= k < spec_values_of(pairs.take(n), key).len()
            ==> #[trigger] spec_values_of(pairs, key)[k] == spec_values_of(pairs.take(n), key)[k],
    decreases pairs.len() - n,
{
    if n == pairs.len() {
        assert(pairs.take(n) =~= pairs);
    } else {
        lemma_values_prefix(pairs, key, n + 1);
        assert(pairs.take(n + 1) =~= pairs.take(n).push(pairs[n]));
        crate::swarm::lemma_filter_push(pairs.take(n), pairs[n], key_pred(key));
        if key_pred(key)(pairs[n]) {
            assert(spec_values_of(pairs.take(n + 1), key)
                =~= spec_values_of(pairs.take(n), key).push(pairs[n].1));
        } else {
            assert(spec_values_of(pairs.take(n + 1), key)
                =~= spec_values_of(pairs.take(n), key));
        }
    }
}

} // verus!
