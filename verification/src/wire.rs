//! The byte layout of a ring in its shared region.
//!
//! The region begins with the four index markers of four bytes each:
//! submission head, submission tail, completion head, completion tail. The
//! request slots follow, then the completion entries, then the submission
//! entries, each array with one element per slot. All numbers stand lowest
//! byte first; a buffer identifier stands as its sixteen bytes.
//!
//! The producer owns the submission head, the completion tail, the request
//! slots and the submission entries; the consumer owns the rest.

use vstd::prelude::*;
use crate::bytes::be_bytes;
use crate::bytes::be_value;
use crate::bytes::le_bytes;
use crate::bytes::le_value;
use crate::bytes::lemma_be_roundtrip;
use crate::bytes::lemma_be_value_bound;
use crate::bytes::lemma_be_value_frame;
use crate::bytes::lemma_le_roundtrip;
use crate::bytes::lemma_le_value_bound;
use crate::bytes::lemma_le_value_frame;
use crate::bytes::lemma_pow256_values;
use crate::bytes::pow256;
use crate::bytes::read_be;
use crate::bytes::read_le;
use crate::bytes::signed_of;
use crate::bytes::unsigned_of;
use crate::bytes::write_be;
use crate::bytes::write_le;
use crate::ring::le_u32;
use crate::ring::read_marker;
use crate::ring::ring_add;
use crate::ring::ring_dist;
use crate::ring::wrap_add;
use crate::ring::wrap_dist;
use crate::ring::IoArgs;
use crate::ring::IoCqe;
use crate::ring::IoRing;
use crate::ring::IoSqe;
use crate::ring::RingView;
use crate::ring::IO_ARGS_SIZE;
use crate::ring::IO_CQE_SIZE;
use crate::ring::IO_SQE_SIZE;
use crate::ring::RING_SLOT_SIZE;
use crate::status::Error;
use crate::status::StatusCode;
use crate::uuid::Uuid;

verus! {

/// Bytes of the four markers.
pub const RING_MARKERS_SIZE: usize = 16;

/// Where request slot `k` begins in a region.
pub open spec fn args_offset(k: int) -> int {
    RING_MARKERS_SIZE + IO_ARGS_SIZE * k
}

/// Where completion entry `k` begins in the region of a ring of `entries` slots.
pub open spec fn cqe_offset(entries: int, k: int) -> int {
    RING_MARKERS_SIZE + IO_ARGS_SIZE * entries + IO_CQE_SIZE * k
}

/// Where submission entry `k` begins in the region of a ring of `entries` slots.
pub open spec fn sqe_offset(entries: int, k: int) -> int {
    RING_MARKERS_SIZE + (IO_ARGS_SIZE + IO_CQE_SIZE) * entries + IO_SQE_SIZE * k
}

/// Bytes of the markers and arrays of a ring of `entries` slots.
pub open spec fn arrays_end(entries: int) -> int {
    RING_MARKERS_SIZE + RING_SLOT_SIZE * entries
}

/// The request descriptor that stands in `s` from `at` on.
pub open spec fn decode_args(s: Seq<u8>, at: int) -> IoArgs {
    IoArgs {
        buf_id: Uuid(be_value(s, at, 16) as u128),
        buf_off: le_value(s, at + 16, 8) as u64,
        file_iid: le_value(s, at + 24, 8) as u64,
        file_off: le_value(s, at + 32, 8) as u64,
        io_len: le_value(s, at + 40, 8) as u64,
        userdata: le_value(s, at + 48, 8) as u64,
    }
}

/// The bytes of a request descriptor.
pub open spec fn encode_args(a: IoArgs) -> Seq<u8> {
    be_bytes(a.buf_id.0 as int, 16) + le_bytes(a.buf_off as int, 8) + le_bytes(a.file_iid as int, 8) + le_bytes(
        a.file_off as int,
        8,
    ) + le_bytes(a.io_len as int, 8) + le_bytes(a.userdata as int, 8)
}

/// The submission entry that stands in `s` from `at` on.
pub open spec fn decode_sqe(s: Seq<u8>, at: int) -> IoSqe {
    IoSqe { index: signed_of(le_value(s, at, 4), 4) as i32, userdata: le_value(s, at + 8, 8) as u64 }
}

/// The bytes of a submission entry: the index, four bytes of padding, the tag.
pub open spec fn encode_sqe(e: IoSqe) -> Seq<u8> {
    le_bytes(unsigned_of(e.index as int, 4), 4) + le_bytes(0, 4) + le_bytes(e.userdata as int, 8)
}

/// The completion entry that stands in `s` from `at` on.
pub open spec fn decode_cqe(s: Seq<u8>, at: int) -> IoCqe {
    IoCqe {
        index: signed_of(le_value(s, at, 4), 4) as i32,
        reserved: signed_of(le_value(s, at + 4, 4), 4) as i32,
        result: signed_of(le_value(s, at + 8, 8), 8) as i64,
        userdata: le_value(s, at + 16, 8) as u64,
    }
}

/// The bytes of a completion entry.
pub open spec fn encode_cqe(e: IoCqe) -> Seq<u8> {
    le_bytes(unsigned_of(e.index as int, 4), 4) + le_bytes(unsigned_of(e.reserved as int, 4), 4) + le_bytes(
        unsigned_of(e.result as int, 8),
        8,
    ) + le_bytes(e.userdata as int, 8)
}

fn signed32(v: u64) -> (r: i32)
    requires
        v < 0x1_0000_0000,
    ensures
        r == signed_of(v as int, 4),
{
    proof {
        lemma_pow256_values();
    }
    if v >= 0x8000_0000 {
        (v as i64 - 0x1_0000_0000) as i32
    } else {
        v as i32
    }
}

fn signed64(v: u64) -> (r: i64)
    ensures
        r == signed_of(v as int, 8),
{
    proof {
        lemma_pow256_values();
    }
    if v >= 0x8000_0000_0000_0000 {
        -((u64::MAX - v) as i64) - 1
    } else {
        v as i64
    }
}

fn unsigned32(v: i32) -> (r: u64)
    ensures
        r == unsigned_of(v as int, 4),
        r < 0x1_0000_0000,
{
    proof {
        lemma_pow256_values();
    }
    if v < 0 {
        (v as i64 + 0x1_0000_0000) as u64
    } else {
        v as u64
    }
}

fn unsigned64(v: i64) -> (r: u64)
    ensures
        r == unsigned_of(v as int, 8),
{
    proof {
        lemma_pow256_values();
    }
    if v < 0 {
        u64::MAX - ((-(v + 1)) as u64)
    } else {
        v as u64
    }
}

impl IoArgs {
    /// Reads the request descriptor that stands in `buf` from `at` on.
    pub fn from_bytes(buf: &[u8], at: usize) -> (a: IoArgs)
        requires
            at + IO_ARGS_SIZE <= buf@.len(),
        ensures
            a == decode_args(buf@, at as int),
    {
        let total = buf.len();
        proof {
            lemma_pow256_values();
            lemma_be_value_bound(buf@, at as int, 16);
            lemma_le_value_bound(buf@, at + 16, 8);
            lemma_le_value_bound(buf@, at + 24, 8);
            lemma_le_value_bound(buf@, at + 32, 8);
            lemma_le_value_bound(buf@, at + 40, 8);
            lemma_le_value_bound(buf@, at + 48, 8);
        }
        IoArgs {
            buf_id: Uuid(read_be(buf, at, 16)),
            buf_off: read_le(buf, at + 16, 8),
            file_iid: read_le(buf, at + 24, 8),
            file_off: read_le(buf, at + 32, 8),
            io_len: read_le(buf, at + 40, 8),
            userdata: read_le(buf, at + 48, 8),
        }
    }

    /// Appends the bytes of the request descriptor to `out`.
    pub fn to_bytes(&self, out: &mut Vec<u8>)
        ensures
            final(out)@ == old(out)@ + encode_args(*self),
    {
        write_be(out, self.buf_id.0, 16);
        write_le(out, self.buf_off, 8);
        write_le(out, self.file_iid, 8);
        write_le(out, self.file_off, 8);
        write_le(out, self.io_len, 8);
        write_le(out, self.userdata, 8);
        proof {
            assert(out@ =~= old(out)@ + encode_args(*self));
        }
    }
}

impl IoSqe {
    /// Reads the submission entry that stands in `buf` from `at` on.
    pub fn from_bytes(buf: &[u8], at: usize) -> (e: IoSqe)
        requires
            at + IO_SQE_SIZE <= buf@.len(),
        ensures
            e == decode_sqe(buf@, at as int),
    {
        let total = buf.len();
        proof {
            lemma_pow256_values();
            lemma_le_value_bound(buf@, at as int, 4);
            lemma_le_value_bound(buf@, at + 8, 8);
        }
        IoSqe { index: signed32(read_le(buf, at, 4)), userdata: read_le(buf, at + 8, 8) }
    }

    /// Appends the bytes of the submission entry to `out`.
    pub fn to_bytes(&self, out: &mut Vec<u8>)
        ensures
            final(out)@ == old(out)@ + encode_sqe(*self),
    {
        write_le(out, unsigned32(self.index), 4);
        write_le(out, 0, 4);
        write_le(out, self.userdata, 8);
        proof {
            assert(out@ =~= old(out)@ + encode_sqe(*self));
        }
    }
}

impl IoCqe {
    /// Reads the completion entry that stands in `buf` from `at` on.
    pub fn from_bytes(buf: &[u8], at: usize) -> (e: IoCqe)
        requires
            at + IO_CQE_SIZE <= buf@.len(),
        ensures
            e == decode_cqe(buf@, at as int),
    {
        let total = buf.len();
        proof {
            lemma_pow256_values();
            lemma_le_value_bound(buf@, at as int, 4);
            lemma_le_value_bound(buf@, at + 4, 4);
            lemma_le_value_bound(buf@, at + 8, 8);
            lemma_le_value_bound(buf@, at + 16, 8);
        }
        IoCqe {
            index: signed32(read_le(buf, at, 4)),
            reserved: signed32(read_le(buf, at + 4, 4)),
            result: signed64(read_le(buf, at + 8, 8)),
            userdata: read_le(buf, at + 16, 8),
        }
    }

    /// Appends the bytes of the completion entry to `out`.
    pub fn to_bytes(&self, out: &mut Vec<u8>)
        ensures
            final(out)@ == old(out)@ + encode_cqe(*self),
    {
        write_le(out, unsigned32(self.index), 4);
        write_le(out, unsigned32(self.reserved), 4);
        write_le(out, unsigned64(self.result), 8);
        write_le(out, self.userdata, 8);
        proof {
            assert(out@ =~= old(out)@ + encode_cqe(*self));
        }
    }
}

proof fn lemma_le_field(whole: Seq<u8>, base: int, off: int, v: int, n: int)
    requires
        0 <= n,
        0 <= v < pow256(n),
        0 <= off,
        forall|i: int| base + off <= i < base + off + n ==> #[trigger] whole[i] == le_bytes(v, n)[i - base - off],
    ensures
        le_value(whole, base + off, n) == v,
{
    lemma_le_roundtrip(v, n);
    lemma_le_value_frame(whole, le_bytes(v, n), base + off, 0, n);
}

/// Round trip. A completion entry that is written and read back is the same
/// entry, wherever in a region its bytes stand.
pub proof fn lemma_cqe_roundtrip(e: IoCqe, s: Seq<u8>, at: int)
    requires
        0 <= at,
        at + IO_CQE_SIZE <= s.len(),
        s.subrange(at, at + IO_CQE_SIZE) == encode_cqe(e),
    ensures
        decode_cqe(s, at) == e,
{
    lemma_pow256_values();
    let enc = encode_cqe(e);
    let a = le_bytes(unsigned_of(e.index as int, 4), 4);
    let b = le_bytes(unsigned_of(e.reserved as int, 4), 4);
    let c = le_bytes(unsigned_of(e.result as int, 8), 8);
    let d = le_bytes(e.userdata as int, 8);
    lemma_le_roundtrip(unsigned_of(e.index as int, 4), 4);
    lemma_le_roundtrip(unsigned_of(e.reserved as int, 4), 4);
    lemma_le_roundtrip(unsigned_of(e.result as int, 8), 8);
    lemma_le_roundtrip(e.userdata as int, 8);
    assert forall|i: int| at <= i < at + 24 implies #[trigger] s[i] == enc[i - at] by {
        assert(s.subrange(at, at + 24)[i - at] == s[i]);
    }
    assert forall|i: int| at <= i < at + 4 implies #[trigger] s[i] == a[i - at - 0] by {
        assert(enc[i - at] == a[i - at]);
    }
    assert forall|i: int| at + 4 <= i < at + 8 implies #[trigger] s[i] == b[i - at - 4] by {
        assert(enc[i - at] == b[i - at - 4]);
    }
    assert forall|i: int| at + 8 <= i < at + 16 implies #[trigger] s[i] == c[i - at - 8] by {
        assert(enc[i - at] == c[i - at - 8]);
    }
    assert forall|i: int| at + 16 <= i < at + 24 implies #[trigger] s[i] == d[i - at - 16] by {
        assert(enc[i - at] == d[i - at - 16]);
    }
    lemma_le_field(s, at, 0, unsigned_of(e.index as int, 4), 4);
    lemma_le_field(s, at, 4, unsigned_of(e.reserved as int, 4), 4);
    lemma_le_field(s, at, 8, unsigned_of(e.result as int, 8), 8);
    lemma_le_field(s, at, 16, e.userdata as int, 8);
}

/// Round trip. A submission entry that is written and read back is the same
/// entry.
pub proof fn lemma_sqe_roundtrip(e: IoSqe, s: Seq<u8>, at: int)
    requires
        0 <= at,
        at + IO_SQE_SIZE <= s.len(),
        s.subrange(at, at + IO_SQE_SIZE) == encode_sqe(e),
    ensures
        decode_sqe(s, at) == e,
{
    lemma_pow256_values();
    let enc = encode_sqe(e);
    let a = le_bytes(unsigned_of(e.index as int, 4), 4);
    let b = le_bytes(0, 4);
    let c = le_bytes(e.userdata as int, 8);
    lemma_le_roundtrip(unsigned_of(e.index as int, 4), 4);
    lemma_le_roundtrip(0, 4);
    lemma_le_roundtrip(e.userdata as int, 8);
    assert forall|i: int| at <= i < at + 16 implies #[trigger] s[i] == enc[i - at] by {
        assert(s.subrange(at, at + 16)[i - at] == s[i]);
    }
    assert forall|i: int| at <= i < at + 4 implies #[trigger] s[i] == a[i - at - 0] by {
        assert(enc[i - at] == a[i - at]);
    }
    assert forall|i: int| at + 8 <= i < at + 16 implies #[trigger] s[i] == c[i - at - 8] by {
        assert(enc[i - at] == c[i - at - 8]);
    }
    lemma_le_field(s, at, 0, unsigned_of(e.index as int, 4), 4);
    lemma_le_field(s, at, 8, e.userdata as int, 8);
}

/// Round trip. A request descriptor that is written and read back is the
/// same descriptor.
pub proof fn lemma_args_roundtrip(e: IoArgs, s: Seq<u8>, at: int)
    requires
        0 <= at,
        at + IO_ARGS_SIZE <= s.len(),
        s.subrange(at, at + IO_ARGS_SIZE) == encode_args(e),
    ensures
        decode_args(s, at) == e,
{
    lemma_pow256_values();
    let enc = encode_args(e);
    let id = be_bytes(e.buf_id.0 as int, 16);
    let a = le_bytes(e.buf_off as int, 8);
    let b = le_bytes(e.file_iid as int, 8);
    let c = le_bytes(e.file_off as int, 8);
    let d = le_bytes(e.io_len as int, 8);
    let f = le_bytes(e.userdata as int, 8);
    lemma_be_roundtrip(e.buf_id.0 as int, 16);
    lemma_le_roundtrip(e.buf_off as int, 8);
    lemma_le_roundtrip(e.file_iid as int, 8);
    lemma_le_roundtrip(e.file_off as int, 8);
    lemma_le_roundtrip(e.io_len as int, 8);
    lemma_le_roundtrip(e.userdata as int, 8);
    assert forall|i: int| at <= i < at + 56 implies #[trigger] s[i] == enc[i - at] by {
        assert(s.subrange(at, at + 56)[i - at] == s[i]);
    }
    assert forall|i: int| at <= i < at + 16 implies #[trigger] s[i] == id[i - at + 0] by {
        assert(enc[i - at] == id[i - at]);
    }
    lemma_be_value_frame(s, id, at, 0, 16);
    assert forall|i: int| at + 16 <= i < at + 24 implies #[trigger] s[i] == a[i - at - 16] by {
        assert(enc[i - at] == a[i - at - 16]);
    }
    assert forall|i: int| at + 24 <= i < at + 32 implies #[trigger] s[i] == b[i - at - 24] by {
        assert(enc[i - at] == b[i - at - 24]);
    }
    assert forall|i: int| at + 32 <= i < at + 40 implies #[trigger] s[i] == c[i - at - 32] by {
        assert(enc[i - at] == c[i - at - 32]);
    }
    assert forall|i: int| at + 40 <= i < at + 48 implies #[trigger] s[i] == d[i - at - 40] by {
        assert(enc[i - at] == d[i - at - 40]);
    }
    assert forall|i: int| at + 48 <= i < at + 56 implies #[trigger] s[i] == f[i - at - 48] by {
        assert(enc[i - at] == f[i - at - 48]);
    }
    lemma_le_field(s, at, 16, e.buf_off as int, 8);
    lemma_le_field(s, at, 24, e.file_iid as int, 8);
    lemma_le_field(s, at, 32, e.file_off as int, 8);
    lemma_le_field(s, at, 40, e.io_len as int, 8);
    lemma_le_field(s, at, 48, e.userdata as int, 8);
}


/// The four bytes of a marker spell the same number in either reading.
pub proof fn lemma_marker_value(s: Seq<u8>, at: int)
    ensures
        le_u32(s, at) == le_value(s, at, 4),
{
    reveal_with_fuel(le_value, 5);
}

/// Entries that the producer has pushed and the ring has not taken over yet.
pub open spec fn pull_count(v: RingView, region: Seq<u8>) -> int {
    ring_dist(v.sqe_head, le_u32(region, 0), v.entries)
}

/// The submission entry that the producer pushed `k` entries behind the
/// ring's submission head.
pub open spec fn pushed_sqe(v: RingView, region: Seq<u8>, k: int) -> IoSqe {
    decode_sqe(region, sqe_offset(v.entries, ring_add(v.sqe_head, k, v.entries)))
}

/// Whether the producer's part of a region is in order: the region holds the
/// arrays, the submission head is a slot, it has not passed the submission
/// tail, and every entry pushed since names a request slot.
pub open spec fn pull_ok(v: RingView, region: Seq<u8>) -> bool {
    &&& region.len() >= arrays_end(v.entries)
    &&& le_u32(region, 0) < v.entries
    &&& v.outstanding() + pull_count(v, region) <= v.entries - 1
    &&& forall|k: int|
        0 <= k < pull_count(v, region) ==> v.index_ok((#[trigger] pushed_sqe(v, region, k)).index as int)
}

/// The ring after it took over the first `k` entries that the producer
/// pushed, each with the request descriptor in the slot it names.
pub open spec fn pulled(v: RingView, region: Seq<u8>, k: int) -> RingView
    decreases k,
{
    if k <= 0 {
        v
    } else {
        let u = pulled(v, region, k - 1);
        let sqe = pushed_sqe(v, region, k - 1);
        RingView {
            args: u.args.update(sqe.index as int, decode_args(region, args_offset(sqe.index as int))),
            ..u.submitted(sqe)
        }
    }
}

/// Takes over what the producer has pushed into the region of the ring since
/// the last time: the submission entries up to the producer's head, each
/// with its request descriptor. Returns their number.
///
/// `InvalidArg`, with nothing taken over, where the producer's part of the
/// region is not in order: the region has been corrupted or the producer
/// breaks the protocol, and the ring must be given up.
pub fn pull_submissions(ring: &mut IoRing, region: &[u8]) -> (r: Result<i32, Error>)
    requires
        old(ring).wf(),
    ensures
        final(ring).wf(),
        final(ring).same_identity(old(ring)),
        r.is_ok() <==> pull_ok(old(ring)@, region@),
        r matches Ok(n) ==> 0 <= n == pull_count(old(ring)@, region@) && final(ring)@ == pulled(
            old(ring)@,
            region@,
            n as int,
        ),
        r matches Err(e) ==> e.code == StatusCode::InvalidArg.spec_code() && final(ring)@ == old(ring)@,
{
    let ghost v0 = ring@;
    let entries = ring.entries();
    let total = region.len();
    proof {
        ring.lemma_wf_bounds();
    }
    if (total as u64) < RING_MARKERS_SIZE as u64 + RING_SLOT_SIZE as u64 * entries as u64 {
        return Err(Error::status(StatusCode::InvalidArg));
    }
    let head = read_marker(region, 0);
    if head >= entries as u32 {
        return Err(Error::status(StatusCode::InvalidArg));
    }
    let start = ring.sqe_head();
    let count = wrap_dist(start, head as i32, entries);
    let outstanding = wrap_dist(ring.sqe_tail(), start, entries);
    if count > entries - 1 - outstanding {
        return Err(Error::status(StatusCode::InvalidArg));
    }
    let base: usize = RING_MARKERS_SIZE + (IO_ARGS_SIZE + IO_CQE_SIZE) * entries as usize;
    let mut k: i32 = 0;
    while k < count
        invariant
            ring.wf(),
            ring@ == v0,
            v0.wf(),
            entries == v0.entries,
            start == v0.sqe_head,
            total == region@.len(),
            total >= arrays_end(v0.entries),
            base == sqe_offset(v0.entries, 0),
            count == pull_count(v0, region@),
            0 <= k <= count < entries,
            forall|j: int| 0 <= j < k ==> v0.index_ok((#[trigger] pushed_sqe(v0, region@, j)).index as int),
        decreases count - k,
    {
        let at = wrap_add(start, k, entries);
        let sqe = IoSqe::from_bytes(region, base + IO_SQE_SIZE * at as usize);
        assert(sqe == pushed_sqe(v0, region@, k as int));
        if sqe.index < 0 || sqe.index >= entries {
            return Err(Error::status(StatusCode::InvalidArg));
        }
        k = k + 1;
    }
    let mut k: i32 = 0;
    while k < count
        invariant
            ring.wf(),
            ring.same_identity(old(ring)),
            v0.wf(),
            v0 == old(ring)@,
            entries == v0.entries,
            start == v0.sqe_head,
            total == region@.len(),
            total >= arrays_end(v0.entries),
            base == sqe_offset(v0.entries, 0),
            count == pull_count(v0, region@),
            v0.outstanding() + count <= v0.entries - 1,
            0 <= k <= count < entries,
            forall|j: int| 0 <= j < count ==> v0.index_ok((#[trigger] pushed_sqe(v0, region@, j)).index as int),
            ring@ == pulled(v0, region@, k as int),
            ring@.entries == v0.entries,
            ring@.sqe_tail == v0.sqe_tail,
            ring@.sqe_head == ring_add(v0.sqe_head, k as int, v0.entries),
        decreases count - k,
    {
        let at = wrap_add(start, k, entries);
        let sqe = IoSqe::from_bytes(region, base + IO_SQE_SIZE * at as usize);
        assert(sqe == pushed_sqe(v0, region@, k as int));
        assert(v0.index_ok(pushed_sqe(v0, region@, k as int).index as int));
        let args = IoArgs::from_bytes(region, RING_MARKERS_SIZE + IO_ARGS_SIZE * sqe.index as usize);
        let ok = ring.submit(sqe.index, args, sqe.userdata);
        assert(ok);
        k = k + 1;
    }
    Ok(count)
}

/// Completions that the producer has drained and the ring has not noted yet.
pub open spec fn drained_count(v: RingView, region: Seq<u8>) -> int {
    ring_dist(v.cqe_tail, le_u32(region, 12), v.entries)
}

/// Whether the producer's completion tail is in order: the region holds the
/// markers, the tail is a slot, and it has not passed the completion head.
pub open spec fn drain_ok(v: RingView, region: Seq<u8>) -> bool {
    &&& region.len() >= RING_MARKERS_SIZE
    &&& le_u32(region, 12) < v.entries
    &&& drained_count(v, region) <= v.cqe_count()
}

/// Notes how far the producer has drained the completions: moves the
/// completion tail to where the producer's marker stands. Returns the number
/// of completions drained since the last time.
///
/// `InvalidArg`, with nothing changed, where the region holds no markers,
/// the marker is no slot, or it has passed the completion head.
pub fn pull_completion_tail(ring: &mut IoRing, region: &[u8]) -> (r: Result<i32, Error>)
    requires
        old(ring).wf(),
    ensures
        final(ring).wf(),
        final(ring).same_identity(old(ring)),
        r.is_ok() <==> drain_ok(old(ring)@, region@),
        r matches Ok(n) ==> 0 <= n == drained_count(old(ring)@, region@) && final(ring)@ == old(
            ring,
        )@.completions_drained(n as int),
        r matches Err(e) ==> e.code == StatusCode::InvalidArg.spec_code() && final(ring)@ == old(ring)@,
{
    let entries = ring.entries();
    proof {
        ring.lemma_wf_bounds();
    }
    if region.len() < RING_MARKERS_SIZE {
        return Err(Error::status(StatusCode::InvalidArg));
    }
    let tail = read_marker(region, 12);
    if tail >= entries as u32 {
        return Err(Error::status(StatusCode::InvalidArg));
    }
    let n = wrap_dist(ring.cqe_tail(), tail as i32, entries);
    if n > ring.cqe_count() {
        return Err(Error::status(StatusCode::InvalidArg));
    }
    let taken = ring.drain_completions(n);
    if n == 0 {
        assert(ring@ == old(ring)@.completions_drained(0));
    }
    Ok(n)
}

/// Sets the bytes of `region` from `at` on to `bytes`.
fn overwrite(region: &mut Vec<u8>, at: usize, bytes: &Vec<u8>)
    requires
        at + bytes@.len() <= old(region)@.len(),
    ensures
        final(region)@.len() == old(region)@.len(),
        forall|i: int| at <= i < at + bytes@.len() ==> #[trigger] final(region)@[i] == bytes@[i - at],
        forall|i: int|
            0 <= i < old(region)@.len() && !(at <= i < at + bytes@.len()) ==> #[trigger] final(region)@[i] == old(
                region,
            )@[i],
{
    let n = bytes.len();
    let total = region.len();
    let mut j: usize = 0;
    while j < n
        invariant
            n == bytes@.len(),
            0 <= j <= n,
            total == old(region)@.len(),
            at + n <= total,
            region@.len() == old(region)@.len(),
            forall|i: int| at <= i < at + j ==> #[trigger] region@[i] == bytes@[i - at],
            forall|i: int|
                0 <= i < old(region)@.len() && !(at <= i < at + j) ==> #[trigger] region@[i] == old(region)@[i],
        decreases n - j,
    {
        region.set(at + j, bytes[j]);
        j = j + 1;
    }
}

/// Whether byte `i` of the region of a ring of `entries` slots is the
/// consumer's to write: a byte of the submission tail, of the completion
/// head or of a completion entry.
pub open spec fn consumer_owned(entries: int, i: int) -> bool {
    4 <= i < 12 || cqe_offset(entries, 0) <= i < cqe_offset(entries, entries)
}

/// Completions that the ring holds and its region does not hold yet: those
/// from the completion head that stands in the region up to the ring's.
pub open spec fn unpublished_count(v: RingView, region: Seq<u8>) -> int {
    ring_dist(le_u32(region, 8), v.cqe_head, v.entries)
}

/// Whether completion slot `k` holds one of those completions.
pub open spec fn is_unpublished(v: RingView, region: Seq<u8>, k: int) -> bool {
    ring_dist(le_u32(region, 8), k, v.entries) < unpublished_count(v, region)
}

/// Whether the ring can be written into the region: the region holds the
/// arrays, the completion head in it is a slot, and it stands between the
/// ring's completion tail and the ring's completion head.
pub open spec fn publish_ok(v: RingView, region: Seq<u8>) -> bool {
    &&& region.len() >= arrays_end(v.entries)
    &&& le_u32(region, 8) < v.entries
    &&& unpublished_count(v, region) <= v.cqe_count()
}

/// Writes the consumer's part of the ring into its region: the completion
/// entries that the region does not hold yet, then the submission tail and
/// the completion head. Everything else is left as it is: the producer's
/// part, and the completion entries that stood in the region before, which
/// the producer may not have read yet.
///
/// Returns `false`, with nothing written, where the region is too short to
/// hold the arrays or its completion head is out of order.
pub fn publish(ring: &IoRing, region: &mut Vec<u8>) -> (ok: bool)
    requires
        ring.wf(),
    ensures
        ok == publish_ok(ring@, old(region)@),
        final(region)@.len() == old(region)@.len(),
        !ok ==> final(region)@ == old(region)@,
        ok ==> {
            &&& le_u32(final(region)@, 4) == ring@.sqe_tail
            &&& le_u32(final(region)@, 8) == ring@.cqe_head
            &&& forall|k: int|
                0 <= k < ring@.entries && is_unpublished(ring@, old(region)@, k) ==> #[trigger] decode_cqe(
                    final(region)@,
                    cqe_offset(ring@.entries, k),
                ) == ring@.cqes[k]
            &&& forall|k: int, i: int|
                0 <= k < ring@.entries && !#[trigger] is_unpublished(ring@, old(region)@, k) && cqe_offset(
                    ring@.entries,
                    k,
                ) <= i < cqe_offset(ring@.entries, k + 1) ==> #[trigger] final(region)@[i] == old(region)@[i]
            &&& forall|i: int|
                0 <= i < old(region)@.len() && !consumer_owned(ring@.entries, i) ==> #[trigger] final(region)@[i]
                    == old(region)@[i]
        },
{
    let entries = ring.entries();
    let total = region.len();
    proof {
        ring.lemma_wf_bounds();
        lemma_pow256_values();
    }
    if (total as u64) < RING_MARKERS_SIZE as u64 + RING_SLOT_SIZE as u64 * entries as u64 {
        return false;
    }
    let from = read_marker(region.as_slice(), 8);
    if from >= entries as u32 {
        return false;
    }
    let start = from as i32;
    let count = wrap_dist(start, ring.cqe_head(), entries);
    if count > ring.cqe_count() {
        return false;
    }
    let base: usize = RING_MARKERS_SIZE + IO_ARGS_SIZE * entries as usize;
    let mut j: i32 = 0;
    while j < count
        invariant
            ring.wf(),
            entries == ring@.entries,
            0 <= start < entries,
            start == le_u32(old(region)@, 8),
            count == unpublished_count(ring@, old(region)@),
            0 <= j <= count < entries,
            total == old(region)@.len(),
            region@.len() == total,
            total >= arrays_end(ring@.entries),
            base == cqe_offset(ring@.entries, 0),
            forall|m: int|
                0 <= m < j ==> #[trigger] decode_cqe(
                    region@,
                    cqe_offset(ring@.entries, ring_add(start as int, m, ring@.entries)),
                ) == ring@.cqes[ring_add(start as int, m, ring@.entries)],
            forall|k: int, i: int|
                0 <= k < ring@.entries && #[trigger] ring_dist(start as int, k, ring@.entries) >= j && cqe_offset(
                    ring@.entries,
                    k,
                ) <= i < cqe_offset(ring@.entries, k + 1) ==> #[trigger] region@[i] == old(region)@[i],
            forall|i: int|
                0 <= i < total && !(cqe_offset(ring@.entries, 0) <= i < cqe_offset(
                    ring@.entries,
                    ring@.entries,
                )) ==> #[trigger] region@[i] == old(region)@[i],
        decreases count - j,
    {
        let at = wrap_add(start, j, entries);
        let cqe = ring.cqe_at(at);
        let mut bytes: Vec<u8> = Vec::new();
        cqe.to_bytes(&mut bytes);
        proof {
            lemma_encode_cqe_len(cqe);
            assert(bytes@ =~= encode_cqe(cqe));
        }
        let place: usize = base + IO_CQE_SIZE * at as usize;
        let ghost before = region@;
        overwrite(region, place, &bytes);
        proof {
            let s = region@;
            let e = ring@.entries;
            assert(ring_dist(start as int, at as int, e) == j);
            assert(s.subrange(place as int, place + IO_CQE_SIZE) =~= encode_cqe(cqe));
            lemma_cqe_roundtrip(cqe, s, place as int);
            assert forall|m: int| 0 <= m < j + 1 implies #[trigger] decode_cqe(
                s,
                cqe_offset(e, ring_add(start as int, m, e)),
            ) == ring@.cqes[ring_add(start as int, m, e)] by {
                if m < j {
                    assert(ring_add(start as int, m, e) != at);
                    lemma_decode_cqe_frame(before, s, cqe_offset(e, ring_add(start as int, m, e)));
                }
            }
            assert forall|k: int, i: int|
                0 <= k < e && #[trigger] ring_dist(start as int, k, e) >= j + 1 && cqe_offset(e, k) <= i
                    < cqe_offset(e, k + 1) implies #[trigger] s[i] == old(region)@[i] by {
                assert(k != at);
                assert(before[i] == old(region)@[i]);
            }
        }
        j = j + 1;
    }
    let ghost written = region@;
    let mut marks: Vec<u8> = Vec::new();
    write_le(&mut marks, ring.sqe_tail() as u64, 4);
    write_le(&mut marks, ring.cqe_head() as u64, 4);
    proof {
        lemma_le_roundtrip(ring@.sqe_tail, 4);
        lemma_le_roundtrip(ring@.cqe_head, 4);
        assert(marks@ =~= le_bytes(ring@.sqe_tail, 4) + le_bytes(ring@.cqe_head, 4));
    }
    overwrite(region, 4, &marks);
    proof {
        let s = region@;
        let e = ring@.entries;
        assert forall|i: int| 4 <= i < 8 implies #[trigger] s[i] == le_bytes(ring@.sqe_tail, 4)[i - 4 - 0] by {
            assert(marks@[i - 4] == le_bytes(ring@.sqe_tail, 4)[i - 4]);
        }
        assert forall|i: int| 8 <= i < 12 implies #[trigger] s[i] == le_bytes(ring@.cqe_head, 4)[i - 4 - 4] by {
            assert(marks@[i - 4] == le_bytes(ring@.cqe_head, 4)[i - 8]);
        }
        lemma_le_field(s, 4, 0, ring@.sqe_tail, 4);
        lemma_le_field(s, 4, 4, ring@.cqe_head, 4);
        lemma_marker_value(s, 4);
        lemma_marker_value(s, 8);
        assert forall|k: int| 0 <= k < e && is_unpublished(ring@, old(region)@, k) implies #[trigger] decode_cqe(
            s,
            cqe_offset(e, k),
        ) == ring@.cqes[k] by {
            let m = ring_dist(start as int, k, e);
            assert(ring_add(start as int, m, e) == k);
            assert(decode_cqe(written, cqe_offset(e, ring_add(start as int, m, e))) == ring@.cqes[ring_add(
                start as int,
                m,
                e,
            )]);
            lemma_decode_cqe_frame(written, s, cqe_offset(e, k));
        }
        assert forall|k: int, i: int|
            0 <= k < e && !#[trigger] is_unpublished(ring@, old(region)@, k) && cqe_offset(e, k) <= i
                < cqe_offset(e, k + 1) implies #[trigger] s[i] == old(region)@[i] by {
            assert(ring_dist(start as int, k, e) >= count);
            assert(written[i] == old(region)@[i]);
        }
    }
    true
}

/// A stretch of the bytes of a region: from `start` up to `end`, which is
/// not part of it.
#[derive(Clone, Copy, Debug, PartialEq, Eq)]
pub struct ByteRange {
    pub start: usize,
    pub end: usize,
}

impl ByteRange {
    pub open spec fn holds(self, i: int) -> bool {
        self.start <= i < self.end
    }
}

/// The two stretches of the region of `ring` that are the consumer's to
/// write, and that `publish` may have changed: the submission tail with the
/// completion head, and the completion entries. Nothing where a region of
/// `region_len` bytes is too short to hold the arrays.
pub fn consumer_ranges(ring: &IoRing, region_len: usize) -> (r: Option<(ByteRange, ByteRange)>)
    requires
        ring.wf(),
    ensures
        r.is_some() == (region_len >= arrays_end(ring@.entries)),
        r matches Some((marks, cqes)) ==> {
            &&& marks == (ByteRange { start: 4, end: 12 })
            &&& cqes.start == cqe_offset(ring@.entries, 0)
            &&& cqes.end == cqe_offset(ring@.entries, ring@.entries)
            &&& cqes.end <= region_len
            &&& forall|i: int| consumer_owned(ring@.entries, i) <==> marks.holds(i) || cqes.holds(i)
        },
{
    let entries = ring.entries();
    proof {
        ring.lemma_wf_bounds();
    }
    if (region_len as u64) < RING_MARKERS_SIZE as u64 + RING_SLOT_SIZE as u64 * entries as u64 {
        return None;
    }
    let start: usize = RING_MARKERS_SIZE + IO_ARGS_SIZE * entries as usize;
    let end: usize = start + IO_CQE_SIZE * entries as usize;
    Some((ByteRange { start: 4, end: 12 }, ByteRange { start, end }))
}

/// A completion entry has `IO_CQE_SIZE` bytes.
pub proof fn lemma_encode_cqe_len(e: IoCqe)
    ensures
        encode_cqe(e).len() == IO_CQE_SIZE,
{
    lemma_pow256_values();
    lemma_le_roundtrip(unsigned_of(e.index as int, 4), 4);
    lemma_le_roundtrip(unsigned_of(e.reserved as int, 4), 4);
    lemma_le_roundtrip(unsigned_of(e.result as int, 8), 8);
    lemma_le_roundtrip(e.userdata as int, 8);
}

/// What is read as a completion entry depends on its bytes only.
pub proof fn lemma_decode_cqe_frame(a: Seq<u8>, b: Seq<u8>, at: int)
    requires
        forall|i: int| at <= i < at + IO_CQE_SIZE ==> #[trigger] a[i] == b[i],
    ensures
        decode_cqe(a, at) == decode_cqe(b, at),
{
    lemma_le_value_frame(a, b, at, at, 4);
    lemma_le_value_frame(a, b, at + 4, at + 4, 4);
    lemma_le_value_frame(a, b, at + 8, at + 8, 8);
    lemma_le_value_frame(a, b, at + 16, at + 16, 8);
}

} // verus!
