//! Numbers as little-endian bytes, as they stand in a shared region.

use vstd::prelude::*;

verus! {

/// 256 to the power of `n`.
pub open spec fn pow256(n: int) -> int
    decreases n,
{
    if n <= 0 {
        1
    } else {
        256 * pow256(n - 1)
    }
}

/// The number that the `n` bytes of `s` from `at` on spell, lowest byte first.
pub open spec fn le_value(s: Seq<u8>, at: int, n: int) -> int
    decreases n,
{
    if n <= 0 {
        0
    } else {
        s[at] + 256 * le_value(s, at + 1, n - 1)
    }
}

/// The lowest `n` bytes of `v`, lowest first.
pub open spec fn le_bytes(v: int, n: int) -> Seq<u8>
    decreases n,
{
    if n <= 0 {
        Seq::empty()
    } else {
        seq![(v % 256) as u8] + le_bytes(v / 256, n - 1)
    }
}

/// The number that the `n` bytes of `s` from `at` on spell, highest byte first.
pub open spec fn be_value(s: Seq<u8>, at: int, n: int) -> int
    decreases n,
{
    if n <= 0 {
        0
    } else {
        256 * be_value(s, at, n - 1) + s[at + n - 1]
    }
}

/// The lowest `n` bytes of `v`, highest first.
pub open spec fn be_bytes(v: int, n: int) -> Seq<u8>
    decreases n,
{
    if n <= 0 {
        Seq::empty()
    } else {
        be_bytes(v / 256, n - 1).push((v % 256) as u8)
    }
}

/// The value of a two's-complement number of `n` bytes that reads `v` without sign.
pub open spec fn signed_of(v: int, n: int) -> int {
    if 2 * v >= pow256(n) {
        v - pow256(n)
    } else {
        v
    }
}

/// How a two's-complement number of `n` bytes reads without sign.
pub open spec fn unsigned_of(v: int, n: int) -> int {
    if v < 0 {
        v + pow256(n)
    } else {
        v
    }
}

pub proof fn lemma_pow256_values()
    ensures
        pow256(0) == 1,
        pow256(1) == 0x100,
        pow256(2) == 0x1_0000,
        pow256(4) == 0x1_0000_0000,
        pow256(8) == 0x1_0000_0000_0000_0000,
        pow256(16) == 0x1_0000_0000_0000_0000_0000_0000_0000_0000,
{
    reveal_with_fuel(pow256, 18);
}

pub proof fn lemma_pow256_step(n: int)
    requires
        n >= 0,
    ensures
        pow256(n + 1) == 256 * pow256(n),
        pow256(n) >= 1,
    decreases n,
{
    if n > 0 {
        lemma_pow256_step(n - 1);
    }
}

/// A little-endian number of `n` bytes is below 256 to the `n`.
pub proof fn lemma_le_value_bound(s: Seq<u8>, at: int, n: int)
    requires
        n >= 0,
    ensures
        0 <= le_value(s, at, n) < pow256(n),
    decreases n,
{
    if n > 0 {
        lemma_le_value_bound(s, at + 1, n - 1);
        lemma_pow256_step(n - 1);
    }
}

/// A big-endian number of `n` bytes is below 256 to the `n`.
pub proof fn lemma_be_value_bound(s: Seq<u8>, at: int, n: int)
    requires
        n >= 0,
    ensures
        0 <= be_value(s, at, n) < pow256(n),
    decreases n,
{
    if n > 0 {
        lemma_be_value_bound(s, at, n - 1);
        lemma_pow256_step(n - 1);
    }
}

/// The value depends on the `n` bytes from `at` on only.
pub proof fn lemma_le_value_frame(a: Seq<u8>, b: Seq<u8>, at: int, at_b: int, n: int)
    requires
        n >= 0,
        forall|i: int| at <= i < at + n ==> #[trigger] a[i] == b[i - at + at_b],
    ensures
        le_value(a, at, n) == le_value(b, at_b, n),
    decreases n,
{
    if n > 0 {
        assert(a[at] == b[at - at + at_b]);
        lemma_le_value_frame(a, b, at + 1, at_b + 1, n - 1);
    }
}

/// The value depends on the `n` bytes from `at` on only.
pub proof fn lemma_be_value_frame(a: Seq<u8>, b: Seq<u8>, at: int, at_b: int, n: int)
    requires
        n >= 0,
        forall|i: int| at <= i < at + n ==> #[trigger] a[i] == b[i - at + at_b],
    ensures
        be_value(a, at, n) == be_value(b, at_b, n),
    decreases n,
{
    if n > 0 {
        assert(a[at + n - 1] == b[at + n - 1 - at + at_b]);
        lemma_be_value_frame(a, b, at, at_b, n - 1);
    }
}

/// Writing a number and reading it back gives the number.
pub proof fn lemma_le_roundtrip(v: int, n: int)
    requires
        n >= 0,
        0 <= v < pow256(n),
    ensures
        le_bytes(v, n).len() == n,
        le_value(le_bytes(v, n), 0, n) == v,
    decreases n,
{
    if n > 0 {
        lemma_pow256_step(n - 1);
        let rest = le_bytes(v / 256, n - 1);
        lemma_le_roundtrip(v / 256, n - 1);
        let all = le_bytes(v, n);
        assert(all[0] == (v % 256) as u8);
        lemma_le_value_frame(all, rest, 1, 0, n - 1);
    }
}

/// Writing a number and reading it back gives the number.
pub proof fn lemma_be_roundtrip(v: int, n: int)
    requires
        n >= 0,
        0 <= v < pow256(n),
    ensures
        be_bytes(v, n).len() == n,
        be_value(be_bytes(v, n), 0, n) == v,
    decreases n,
{
    if n > 0 {
        lemma_pow256_step(n - 1);
        let rest = be_bytes(v / 256, n - 1);
        lemma_be_roundtrip(v / 256, n - 1);
        let all = be_bytes(v, n);
        assert(all[n - 1] == (v % 256) as u8);
        lemma_be_value_frame(all, rest, 0, 0, n - 1);
    }
}

/// Reads the `n` bytes of `buf` from `at` on as a number, lowest byte first.
pub fn read_le(buf: &[u8], at: usize, n: usize) -> (v: u64)
    requires
        n <= 8,
        at + n <= buf@.len(),
    ensures
        v == le_value(buf@, at as int, n as int),
{
    let total = buf.len();
    let mut acc: u64 = 0;
    let mut i: usize = n;
    while i > 0
        invariant
            n <= 8,
            total == buf@.len(),
            at + n <= total,
            0 <= i <= n,
            acc == le_value(buf@, at + i, n - i),
        decreases i,
    {
        proof {
            lemma_le_value_bound(buf@, at + i, n - i);
            lemma_pow256_step(n - i);
            lemma_pow256_values();
            lemma_pow256_mono(n - i + 1, 8);
            assert(acc * 256 + 255 < pow256(n - i + 1));
        }
        i = i - 1;
        acc = acc * 256 + buf[at + i] as u64;
    }
    acc
}

/// Reads the `n` bytes of `buf` from `at` on as a number, highest byte first.
pub fn read_be(buf: &[u8], at: usize, n: usize) -> (v: u128)
    requires
        n <= 16,
        at + n <= buf@.len(),
    ensures
        v == be_value(buf@, at as int, n as int),
{
    let total = buf.len();
    let mut acc: u128 = 0;
    let mut i: usize = 0;
    while i < n
        invariant
            n <= 16,
            total == buf@.len(),
            at + n <= total,
            0 <= i <= n,
            acc == be_value(buf@, at as int, i as int),
        decreases n - i,
    {
        proof {
            lemma_be_value_bound(buf@, at as int, i as int);
            lemma_pow256_step(i as int);
            lemma_pow256_values();
            lemma_pow256_mono(i + 1, 16);
            assert(acc * 256 + 255 < pow256(i + 1));
        }
        acc = acc * 256 + buf[at + i] as u128;
        i = i + 1;
    }
    acc
}

pub proof fn lemma_pow256_mono(a: int, b: int)
    requires
        0 <= a <= b,
    ensures
        1 <= pow256(a) <= pow256(b),
    decreases b,
{
    if a < b {
        lemma_pow256_mono(a, b - 1);
    } else if a > 0 {
        lemma_pow256_mono(a - 1, a - 1);
    }
}

/// Appends the lowest `n` bytes of `v` to `out`, lowest first.
pub fn write_le(out: &mut Vec<u8>, v: u64, n: usize)
    requires
        n <= 8,
    ensures
        final(out)@ == old(out)@ + le_bytes(v as int, n as int),
{
    let mut rest: u64 = v;
    let mut i: usize = 0;
    let ghost mut done: Seq<u8> = Seq::empty();
    proof {
        assert(out@ =~= old(out)@ + done);
    }
    while i < n
        invariant
            0 <= i <= n,
            done.len() == i,
            out@ == old(out)@ + done,
            done + le_bytes(rest as int, n - i) == le_bytes(v as int, n as int),
        decreases n - i,
    {
        let b: u8 = (rest % 256) as u8;
        out.push(b);
        proof {
            let next = done.push(b);
            assert(le_bytes(rest as int, n - i) =~= seq![b] + le_bytes(rest as int / 256, n - i - 1));
            assert(next + le_bytes(rest as int / 256, n - i - 1) =~= done + le_bytes(rest as int, n - i));
            assert(out@ =~= old(out)@ + next);
            done = next;
        }
        rest = rest / 256;
        i = i + 1;
    }
    proof {
        assert(done + le_bytes(rest as int, 0) =~= done);
    }
}

/// Appends the lowest `n` bytes of `v` to `out`, highest first.
pub fn write_be(out: &mut Vec<u8>, v: u128, n: usize)
    requires
        n <= 16,
    ensures
        final(out)@ == old(out)@ + be_bytes(v as int, n as int),
    decreases n,
{
    if n > 0 {
        write_be(out, v / 256, n - 1);
        out.push((v % 256) as u8);
        proof {
            assert(out@ =~= old(out)@ + be_bytes(v as int, n as int));
        }
    } else {
        assert(out@ =~= old(out)@ + be_bytes(v as int, 0));
    }
}

} // verus!
