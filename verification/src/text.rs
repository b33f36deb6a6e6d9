//! Reading numbers from text, as the keys and settings of the client spell them.

use vstd::prelude::*;

verus! {

/// Value of the character `c` as a digit of base `radix`, for bases up to ten.
pub open spec fn digit_val(c: u8, radix: int) -> Option<int> {
    if 48 <= c && c - 48 < radix {
        Some(c - 48)
    } else {
        None
    }
}

/// Whether every character of `s` is a digit of base `radix`.
pub open spec fn all_digits(s: Seq<u8>, radix: int) -> bool {
    forall|i: int| 0 <= i < s.len() ==> (#[trigger] digit_val(s[i], radix)).is_some()
}

/// The number that the first `k` digits of `s` spell in base `radix`.
pub open spec fn digits_value(s: Seq<u8>, radix: int, k: int) -> int
    decreases k,
{
    if k <= 0 {
        0
    } else {
        digits_value(s, radix, k - 1) * radix + (s[k - 1] - 48)
    }
}

/// The number that `s` spells without a sign: at least one digit of base
/// `radix` and nothing else, with a value of at most `max`.
pub open spec fn parse_unsigned(s: Seq<u8>, radix: int, max: int) -> Option<int> {
    if s.len() == 0 || !all_digits(s, radix) || digits_value(s, radix, s.len() as int) > max {
        None
    } else {
        Some(digits_value(s, radix, s.len() as int))
    }
}

/// The number that `s` spells in base ten, if it lies between `min` and
/// `max`: digits, with a minus sign before them for a negative number.
pub open spec fn parse_signed(s: Seq<u8>, min: int, max: int) -> Option<int> {
    if s.len() > 0 && s[0] == 45 {
        let body = s.skip(1);
        if body.len() == 0 || !all_digits(body, 10) || -digits_value(body, 10, body.len() as int) < min {
            None
        } else {
            Some(-digits_value(body, 10, body.len() as int))
        }
    } else {
        parse_unsigned(s, 10, max)
    }
}

proof fn lemma_digits_mono(s: Seq<u8>, radix: int, a: int, b: int)
    requires
        1 <= radix <= 10,
        0 <= a <= b <= s.len(),
        all_digits(s, radix),
    ensures
        0 <= digits_value(s, radix, a) <= digits_value(s, radix, b),
    decreases b,
{
    if b > 0 {
        if a < b {
            lemma_digits_mono(s, radix, a, b - 1);
        } else {
            lemma_digits_mono(s, radix, a - 1, b - 1);
        }
        assert(digit_val(s[b - 1], radix).is_some());
        let v = digits_value(s, radix, b - 1);
        assert(v * radix >= v) by (nonlinear_arith)
            requires
                v >= 0,
                radix >= 1,
        ;
    }
}

/// Reads the digits `bytes[from..to]` in base `radix`: their value, or
/// nothing where there is none, one is no digit, or the value exceeds `max`.
fn read_digits(bytes: &[u8], from: usize, to: usize, radix: u64, max: u64) -> (r: Option<u64>)
    requires
        from <= to <= bytes@.len(),
        2 <= radix <= 10,
    ensures
        ({
            let body = bytes@.subrange(from as int, to as int);
            &&& r.is_some() <==> body.len() > 0 && all_digits(body, radix as int) && digits_value(
                body,
                radix as int,
                body.len() as int,
            ) <= max
            &&& r matches Some(v) ==> v == digits_value(body, radix as int, body.len() as int)
        }),
{
    let ghost body = bytes@.subrange(from as int, to as int);
    if from == to {
        return None;
    }
    let mut acc: u64 = 0;
    let mut i: usize = from;
    while i < to
        invariant
            from <= i <= to <= bytes@.len(),
            2 <= radix <= 10,
            body == bytes@.subrange(from as int, to as int),
            forall|j: int| 0 <= j < i - from ==> (#[trigger] digit_val(body[j], radix as int)).is_some(),
            acc == digits_value(body, radix as int, i - from),
            acc <= max,
        decreases to - i,
    {
        let c = bytes[i];
        assert(c == body[i - from]);
        if c < 48 || (c - 48) as u64 >= radix {
            assert(!digit_val(body[i - from], radix as int).is_some());
            return None;
        }
        let d: u64 = (c - 48) as u64;
        let ghost next = digits_value(body, radix as int, i - from + 1);
        assert(next == acc * radix + d);
        if d > max {
            proof {
                assert(acc * (radix as int) >= 0) by (nonlinear_arith)
                    requires
                        acc >= 0,
                        radix >= 2,
                ;
                if all_digits(body, radix as int) {
                    lemma_digits_mono(body, radix as int, i - from + 1, body.len() as int);
                }
            }
            return None;
        }
        let ghost room = (max - d) as int;
        let ghost base = radix as int;
        let ghost q = room / base;
        proof {
            vstd::arithmetic::div_mod::lemma_fundamental_div_mod(room, base);
            vstd::arithmetic::div_mod::lemma_mod_bound(room, base);
        }
        if acc > (max - d) / radix {
            proof {
                assert(acc * base + d > max) by (nonlinear_arith)
                    requires
                        acc >= q + 1,
                        room == base * q + room % base,
                        0 <= room % base < base,
                        room == max - d,
                ;
                if all_digits(body, base) {
                    lemma_digits_mono(body, base, i - from + 1, body.len() as int);
                }
            }
            return None;
        }
        proof {
            assert(acc * base + d <= max) by (nonlinear_arith)
                requires
                    0 <= acc <= q,
                    room == base * q + room % base,
                    0 <= room % base < base,
                    room == max - d,
                    base >= 2,
            ;
        }
        acc = acc * radix + d;
        i = i + 1;
    }
    Some(acc)
}

/// Reads `bytes[from..to]` as a number without a sign in base `radix`.
pub fn read_unsigned(bytes: &[u8], from: usize, to: usize, radix: u64, max: u64) -> (r: Option<u64>)
    requires
        from <= to <= bytes@.len(),
        2 <= radix <= 10,
    ensures
        r.is_some() == parse_unsigned(bytes@.subrange(from as int, to as int), radix as int, max as int).is_some(),
        r matches Some(v) ==> v == parse_unsigned(
            bytes@.subrange(from as int, to as int),
            radix as int,
            max as int,
        ).unwrap(),
{
    read_digits(bytes, from, to, radix, max)
}

/// Reads `bytes[from..to]` as a number of 32 bits: digits, after a minus sign or none.
pub fn read_i32(bytes: &[u8], from: usize, to: usize) -> (r: Option<i32>)
    requires
        from <= to <= bytes@.len(),
    ensures
        r.is_some() == parse_signed(bytes@.subrange(from as int, to as int), i32::MIN as int, i32::MAX as int).is_some(),
        r matches Some(v) ==> v == parse_signed(
            bytes@.subrange(from as int, to as int),
            i32::MIN as int,
            i32::MAX as int,
        ).unwrap(),
{
    let ghost s = bytes@.subrange(from as int, to as int);
    if from < to && bytes[from] == 45 {
        assert(s[0] == 45);
        assert(s.skip(1) =~= bytes@.subrange(from + 1, to as int));
        match read_digits(bytes, from + 1, to, 10, 0x8000_0000) {
            Some(v) => Some((-(v as i64)) as i32),
            None => None,
        }
    } else {
        if from < to {
            assert(s[0] == bytes@[from as int]);
        }
        match read_unsigned(bytes, from, to, 10, 0x7fff_ffff) {
            Some(v) => Some(v as i32),
            None => None,
        }
    }
}

/// Reads `bytes[from..to]` as a size in base ten.
pub fn read_usize(bytes: &[u8], from: usize, to: usize) -> (r: Option<usize>)
    requires
        from <= to <= bytes@.len(),
    ensures
        r.is_some() == parse_unsigned(bytes@.subrange(from as int, to as int), 10, usize::MAX as int).is_some(),
        r matches Some(v) ==> v == parse_unsigned(
            bytes@.subrange(from as int, to as int),
            10,
            usize::MAX as int,
        ).unwrap(),
{
    match read_unsigned(bytes, from, to, 10, usize::MAX as u64) {
        Some(v) => Some(v as usize),
        None => None,
    }
}

} // verus!
