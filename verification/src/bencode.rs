//! The few bencode forms the HTTP tracker emits: decimal numbers,
//! integers (`i…e`) and byte strings (`len:bytes`).

use vstd::prelude::*;

verus! {

/// The ASCII decimal digits of `n`, most significant first, no
/// leading zeros (zero itself is "0").
pub open spec fn spec_decimal(n: nat) -> Seq<u8>
    decreases n,
{
    if n < 10 {
        seq![(48 + n) as u8]
    } else {
        spec_decimal(n / 10).push((48 + n % 10) as u8)
    }
}

/// Appends the decimal digits of `x`.
pub fn push_decimal(out: &mut Vec<u8>, x: u64)
    ensures
        final(out)@ == old(out)@ + spec_decimal(x as nat),
    decreases x,
{
    if x < 10 {
        out.push(48 + x as u8);
        proof {
            assert(final(out)@ =~= old(out)@ + spec_decimal(x as nat));
        }
    } else {
        push_decimal(out, x / 10);
        out.push(48 + (x % 10) as u8);
        proof {
            assert(final(out)@ =~= old(out)@ + spec_decimal(x as nat));
        }
    }
}

/// A bencoded integer: `i`, the decimal digits, `e`.
pub open spec fn spec_bencode_int(n: nat) -> Seq<u8> {
    seq![105u8] + spec_decimal(n) + seq![101u8]
}

/// Appends the bencoding of the integer `x`.
pub fn push_bencode_int(out: &mut Vec<u8>, x: u64)
    ensures
        final(out)@ == old(out)@ + spec_bencode_int(x as nat),
{
    out.push(105);
    push_decimal(out, x);
    out.push(101);
    proof {
        assert(final(out)@ =~= old(out)@ + spec_bencode_int(x as nat));
    }
}

/// A bencoded byte string: the decimal length, `:`, the bytes.
pub open spec fn spec_bencode_bytes(b: Seq<u8>) -> Seq<u8> {
    spec_decimal(b.len()) + seq![58u8] + b
}

/// Appends the bytes of `b` as they stand.
pub fn push_bytes(out: &mut Vec<u8>, b: &[u8])
    ensures
        final(out)@ == old(out)@ + b@,
{
    let ghost start = out@;
    let mut i: usize = 0;
    while i < b.len()
        invariant
            i <= b@.len(),
            out@ == start + b@.take(i as int),
        decreases b@.len() - i,
    {
        out.push(b[i]);
        proof {
            assert(out@ =~= start + b@.take(i + 1));
        }
        i = i + 1;
    }
    proof {
        assert(b@.take(b@.len() as int) =~= b@);
    }
}

/// Appends the bencoding of the byte string `b`.
pub fn push_bencode_bytes(out: &mut Vec<u8>, b: &[u8])
    ensures
        final(out)@ == old(out)@ + spec_bencode_bytes(b@),
{
    push_decimal(out, b.len() as u64);
    out.push(58);
    push_bytes(out, b);
    proof {
        assert(final(out)@ =~= old(out)@ + spec_bencode_bytes(b@));
    }
}

} // verus!
