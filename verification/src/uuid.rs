//! Identifiers of shared buffers.

use vstd::prelude::*;
use vstd::string::StringSliceAdditionalSpecFns;
use crate::bytes::lemma_pow256_mono;
use crate::bytes::lemma_pow256_values;
use crate::bytes::pow256;

verus! {

/// A 128-bit identifier. The sixteen bytes of its text form are held as one
/// number, the first byte in the highest place.
#[derive(Clone, Copy, Debug, PartialEq, Eq, Hash, Structural)]
pub struct Uuid(pub u128);

/// Value of one hexadecimal digit, in either case.
pub open spec fn hex_val(c: u8) -> Option<int> {
    if 48 <= c <= 57 {
        Some(c - 48)
    } else if 97 <= c <= 102 {
        Some(c - 87)
    } else if 65 <= c <= 70 {
        Some(c - 55)
    } else {
        None
    }
}

/// Value of a pair of characters that stands for one byte: two hexadecimal
/// digits, the first in the higher place.
pub open spec fn pair_val(a: u8, b: u8) -> Option<int> {
    match (hex_val(a), hex_val(b)) {
        (Some(x), Some(y)) => Some(16 * x + y),
        _ => None,
    }
}

/// Whether every one of the first `k` pairs of `s` stands for a byte.
pub open spec fn pairs_ok(s: Seq<u8>, k: int) -> bool {
    forall|i: int| 0 <= i < k ==> (#[trigger] pair_val(s[2 * i], s[2 * i + 1])).is_some()
}

/// The number that the first `k` pairs of `s` spell, first pair highest.
pub open spec fn pairs_value(s: Seq<u8>, k: int) -> int
    decreases k,
{
    if k <= 0 {
        0
    } else {
        256 * pairs_value(s, k - 1) + pair_val(s[2 * k - 2], s[2 * k - 1]).unwrap()
    }
}

fn hex_digit(c: u8) -> (r: Option<u8>)
    ensures
        r.is_some() == hex_val(c).is_some(),
        r matches Some(v) ==> v == hex_val(c).unwrap() && v < 16,
{
    if 48 <= c && c <= 57 {
        Some(c - 48)
    } else if 97 <= c && c <= 102 {
        Some(c - 87)
    } else if 65 <= c && c <= 70 {
        Some(c - 55)
    } else {
        None
    }
}

fn hex_pair(a: u8, b: u8) -> (r: Option<u8>)
    ensures
        r.is_some() == pair_val(a, b).is_some(),
        r matches Some(v) ==> v == pair_val(a, b).unwrap(),
{
    match hex_digit(a) {
        Some(x) => match hex_digit(b) {
            Some(y) => Some(16 * x + y),
            None => None,
        },
        None => None,
    }
}

impl Uuid {
    /// Reads the identifier spelled by the bytes `bytes`: thirty-two
    /// hexadecimal digits, each pair one byte. Nothing where the length differs
    /// or a character is no hexadecimal digit.
    pub fn from_hex_bytes(bytes: &[u8]) -> (r: Option<Uuid>)
        ensures
            r.is_some() <==> bytes@.len() == 32 && pairs_ok(bytes@, 16),
            r matches Some(u) ==> u.0 == pairs_value(bytes@, 16),
    {
        if bytes.len() != 32 {
            return None;
        }
        let mut acc: u128 = 0;
        let mut i: usize = 0;
        while i < 16
            invariant
                bytes@.len() == 32,
                0 <= i <= 16,
                pairs_ok(bytes@, i as int),
                acc == pairs_value(bytes@, i as int),
                acc < pow256(i as int),
            decreases 16 - i,
        {
            let v = match hex_pair(bytes[2 * i], bytes[2 * i + 1]) {
                Some(v) => v,
                None => {
                    assert(!pair_val(bytes@[2 * i], bytes@[2 * i + 1]).is_some());
                    return None;
                },
            };
            proof {
                lemma_pow256_mono(i as int, 15);
                lemma_pow256_values();
                assert(pow256(16) == 256 * pow256(15));
            }
            acc = acc * 256 + v as u128;
            i = i + 1;
        }
        Some(Uuid(acc))
    }

    /// Reads an identifier from its text: thirty-two hexadecimal characters.
    pub fn from_hex_string(s: &str) -> (r: Result<Uuid, String>)
        ensures
            r.is_ok() <==> s.spec_bytes().len() == 32 && pairs_ok(s.spec_bytes(), 16),
            r matches Ok(u) ==> u.0 == pairs_value(s.spec_bytes(), 16),
            r matches Err(m) ==> m@ == (if s.spec_bytes().len() != 32 {
                "Invalid UUID length"@
            } else {
                "Invalid hex string"@
            }),
    {
        let bytes = s.as_bytes();
        if bytes.len() != 32 {
            return Err("Invalid UUID length".to_owned());
        }
        match Uuid::from_hex_bytes(bytes) {
            Some(u) => Ok(u),
            None => Err("Invalid hex string".to_owned()),
        }
    }

    /// The identifier with every bit clear.
    pub fn nil() -> (u: Uuid)
        ensures
            u.0 == 0,
    {
        Uuid(0)
    }
}

} // verus!
