//! The 20-byte torrent identifier and its textual (hexadecimal) form.

use vstd::prelude::*;

verus! {

/// Opaque 20-byte torrent identifier; equality is byte-wise.
#[derive(Clone, Copy, Debug, PartialEq, Eq, Hash)]
pub struct InfoHash(pub [u8; 20]);

impl InfoHash {
    /// The bytes of the identifier, as a mathematical sequence.
    pub open spec fn view(self) -> Seq<u8> {
        self.0@
    }

    /// Byte-wise equality; the equality the swarm repository keys on.
    pub open spec fn spec_eq_bytes(self, other: InfoHash) -> bool {
        self@ =~= other@
    }

    pub fn eq_bytes(&self, other: &InfoHash) -> (r: bool)
        ensures
            r == self.spec_eq_bytes(*other),
    {
        let mut i: usize = 0;
        while i < 20
            invariant
                i <= 20,
                forall|k: int| 0 <= k < i ==> self@[k] == other@[k],
            decreases 20 - i,
        {
            if self.0[i] != other.0[i] {
                return false;
            }
            i = i + 1;
        }
        assert(self@ =~= other@);
        true
    }
}

/// Value of one lower-case or upper-case hexadecimal digit (ASCII), or
/// 16 when the byte is no hexadecimal digit at all.
pub open spec fn spec_hex_digit(b: u8) -> u8 {
    if 48 <= b <= 57 {
        (b - 48) as u8
    } else if 97 <= b <= 102 {
        (b - 97 + 10) as u8
    } else if 65 <= b <= 70 {
        (b - 65 + 10) as u8
    } else {
        16
    }
}

pub fn hex_digit(b: u8) -> (r: u8)
    ensures
        r == spec_hex_digit(b),
{
    if 48 <= b && b <= 57 {
        b - 48
    } else if 97 <= b && b <= 102 {
        b - 97 + 10
    } else if 65 <= b && b <= 70 {
        b - 65 + 10
    } else {
        16
    }
}

/// The byte encoded by two hexadecimal digits, high digit first.
pub open spec fn spec_hex_pair(hi: u8, lo: u8) -> u8
    recommends
        spec_hex_digit(hi) < 16,
        spec_hex_digit(lo) < 16,
{
    (spec_hex_digit(hi) * 16 + spec_hex_digit(lo)) as u8
}

/// True when every byte of `s` is a hexadecimal digit.
pub open spec fn spec_all_hex(s: Seq<u8>) -> bool {
    forall|i: int| 0 <= i < s.len() ==> spec_hex_digit(#[trigger] s[i]) < 16
}

impl InfoHash {
    /// Parses the 40-character hexadecimal form of an info-hash.
    /// Returns `None` exactly when the text is not 40 hexadecimal
    /// digits.
    pub fn from_hex(text: &[u8]) -> (r: Option<InfoHash>)
        ensures
            r is Some <==> text@.len() == 40 && spec_all_hex(text@),
            r matches Some(h) ==> forall|k: int|
                0 <= k < 20 ==> h@[k] == spec_hex_pair(text@[2 * k], text@[2 * k + 1]),
    {
        if text.len() != 40 {
            return None;
        }
        let mut bytes: [u8; 20] = [0; 20];
        let mut i: usize = 0;
        while i < 20
            invariant
                i <= 20,
                text@.len() == 40,
                forall|k: int| 0 <= k < i ==> spec_hex_digit(#[trigger] text@[2 * k]) < 16,
                forall|k: int| 0 <= k < i ==> spec_hex_digit(#[trigger] text@[2 * k + 1]) < 16,
                forall|k: int|
                    0 <= k < i ==> bytes@[k] == spec_hex_pair(text@[2 * k], text@[2 * k + 1]),
            decreases 20 - i,
        {
            let hi = hex_digit(text[2 * i]);
            let lo = hex_digit(text[2 * i + 1]);
            if hi == 16 || lo == 16 {
                assert(!spec_all_hex(text@)) by {
                    if hi == 16 {
                        assert(spec_hex_digit(text@[2 * (i as int)]) == 16);
                    } else {
                        assert(spec_hex_digit(text@[2 * (i as int) + 1]) == 16);
                    }
                }
                return None;
            }
            bytes[i] = hi * 16 + lo;
            i = i + 1;
        }
        assert(spec_all_hex(text@)) by {
            assert forall|j: int| 0 <= j < 40 implies spec_hex_digit(#[trigger] text@[j]) < 16 by {
                let k = j / 2;
                if j % 2 == 0 {
                    assert(j == 2 * k);
                    assert(spec_hex_digit(text@[2 * k]) < 16);
                } else {
                    assert(j == 2 * k + 1);
                    assert(spec_hex_digit(text@[2 * k + 1]) < 16);
                }
            }
        }
        Some(InfoHash(bytes))
    }

    /// An identifier of twenty zero bytes, the scrape placeholder for
    /// an unknown torrent in examples and tests.
    pub fn zeroed() -> (r: InfoHash)
        ensures
            forall|k: int| 0 <= k < 20 ==> r@[k] == 0u8,
    {
        InfoHash([0; 20])
    }
}

} // verus!
