//! The submission/completion ring shared between a client and the service.

use vstd::prelude::*;
use std::collections::HashSet;
use std::collections::VecDeque;
use crate::status::ClientAgentCode;
use crate::status::Error;
use crate::status::MetaCode;
use crate::status::StatusCode;
use crate::uuid::Uuid;
use crate::ring_lemmas::lemma_chain_pop;
use crate::ring_lemmas::lemma_chain_push;
use crate::ring_lemmas::lemma_span_len;
use crate::ring_lemmas::lemma_unfinished_bounds;
use crate::ring_lemmas::lemma_unfinished_mark;
use crate::ring_lemmas::lemma_unfinished_pop;
use crate::ring_lemmas::lemma_unfinished_prefix;
use vstd::std_specs::hash::group_hash_axioms;

verus! {

/// Width in bytes of each of the four index markers at the front of a region.
pub const RING_MARKER_SIZE: usize = 4;

/// Bytes that the size of a region sets aside for the four markers and one
/// spare word.
pub const RING_HEADER_SIZE: usize = 24;

/// Bytes of one request descriptor.
pub const IO_ARGS_SIZE: usize = 56;

/// Bytes of one completion entry.
pub const IO_CQE_SIZE: usize = 24;

/// Bytes of one submission entry.
pub const IO_SQE_SIZE: usize = 16;

/// Bytes that one slot takes in the three arrays together.
pub const RING_SLOT_SIZE: usize = 96;

/// Padding that brings the region to a page boundary.
pub const RING_PAGE_SIZE: usize = 4096;

/// A request descriptor: which bytes of which buffer go to or come from
/// which bytes of which file.
#[derive(Clone, Copy, Debug, PartialEq, Eq)]
pub struct IoArgs {
    pub buf_id: Uuid,
    pub buf_off: u64,
    pub file_iid: u64,
    pub file_off: u64,
    pub io_len: u64,
    pub userdata: u64,
}

/// A submission entry: the request slot to serve and the client's tag.
#[derive(Clone, Copy, Debug, PartialEq, Eq)]
pub struct IoSqe {
    pub index: i32,
    pub userdata: u64,
}

/// A completion entry: the request slot served, its result and the tag.
#[derive(Clone, Copy, Debug, PartialEq, Eq)]
pub struct IoCqe {
    pub index: i32,
    pub reserved: i32,
    pub result: i64,
    pub userdata: u64,
}

/// A span: `to_proc` submission entries from `sqe_proc_tail` on, claimed from
/// the ring registered under descriptor `ior`.
#[derive(Clone, Copy, Debug, PartialEq, Eq)]
pub struct IoRingJob {
    pub ior: i32,
    pub sqe_proc_tail: i32,
    pub to_proc: i32,
}

/// Distance walked forward on a ring of `n` slots from `from` to `to`.
pub open spec fn ring_dist(from: int, to: int, n: int) -> int {
    if to >= from {
        to - from
    } else {
        to - from + n
    }
}

/// The slot reached from `at` after `k` steps forward on a ring of `n` slots.
pub open spec fn ring_add(at: int, k: int, n: int) -> int {
    if at + k >= n {
        at + k - n
    } else {
        at + k
    }
}

/// Steps forward on the ring without leaving the range of `i32`.
pub fn wrap_add(at: i32, k: i32, n: i32) -> (r: i32)
    requires
        0 <= at < n,
        0 <= k <= n,
    ensures
        r == ring_add(at as int, k as int, n as int),
        0 <= r < n,
{
    if k >= n - at {
        k - (n - at)
    } else {
        at + k
    }
}

/// Forward distance between two slots.
pub fn wrap_dist(from: i32, to: i32, n: i32) -> (r: i32)
    requires
        0 <= from < n,
        0 <= to < n,
    ensures
        r == ring_dist(from as int, to as int, n as int),
        0 <= r < n,
{
    if to >= from {
        to - from
    } else {
        to - from + n
    }
}


/// Slots that a region of `buf_size` bytes has room for, the reserved one not counted.
pub open spec fn entries_for(buf_size: int) -> int {
    (buf_size - RING_PAGE_SIZE - RING_HEADER_SIZE) / (RING_SLOT_SIZE as int) - 1
}

/// Bytes of the region of a ring that offers `entries` usable slots.
pub open spec fn bytes_for(entries: int) -> int {
    RING_HEADER_SIZE + RING_SLOT_SIZE * (entries + 1) + RING_PAGE_SIZE
}

/// The smallest region that holds a ring.
pub open spec fn min_ring_bytes() -> int {
    bytes_for(0)
}

/// `bytes_for` is the exact inverse of `entries_for`: a region sized for `e`
/// slots yields `e` slots, and the slots of a region of `n` bytes fit in it
/// while one more slot would not.
pub proof fn lemma_sizing_inverse(e: int, n: int)
    requires
        e >= 0,
        n >= min_ring_bytes(),
    ensures
        entries_for(bytes_for(e)) == e,
        entries_for(n) >= 0,
        bytes_for(entries_for(n)) <= n < bytes_for(entries_for(n) + 1),
{
}

/// First entry of the `i`-th of the spans that end at `pending`, the first of
/// which begins at `tail`.
pub open spec fn span_start_of(pending: Seq<i32>, tail: int, i: int) -> int {
    if i == 0 {
        tail
    } else {
        pending[i - 1] as int
    }
}

/// Number of entries of the `i`-th span on a ring of `n` slots.
pub open spec fn span_len_of(pending: Seq<i32>, tail: int, n: int, i: int) -> int {
    ring_dist(span_start_of(pending, tail, i), pending[i] as int, n)
}

/// Entries of those of the first `k` spans whose end is not in `done`.
pub open spec fn unfinished_sum(pending: Seq<i32>, done: Set<i32>, tail: int, n: int, k: int) -> int
    decreases k,
{
    if k <= 0 {
        0
    } else {
        unfinished_sum(pending, done, tail, n, k - 1) + if done.contains(pending[k - 1]) {
            0
        } else {
            span_len_of(pending, tail, n, k - 1)
        }
    }
}

/// Whether the span ends `pending` lie on a ring of `n` slots one after the
/// other, each at least one entry past the one before, counted from `tail`.
pub open spec fn chain_ok(pending: Seq<i32>, tail: int, n: int) -> bool {
    &&& forall|i: int| 0 <= i < pending.len() ==> 0 <= #[trigger] pending[i] < n
    &&& forall|i: int| 0 <= i < pending.len() ==> ring_dist(tail, (#[trigger] pending[i]) as int, n) >= 1
    &&& forall|i: int, j: int|
        0 <= i < j < pending.len() ==> ring_dist(tail, (#[trigger] pending[i]) as int, n) < ring_dist(
            tail,
            (#[trigger] pending[j]) as int,
            n,
        )
}

/// What a ring is, as plain values.
pub struct RingView {
    /// Slot count, the reserved slot included.
    pub entries: int,
    pub io_depth: int,
    pub timeout_ms: int,
    pub sqe_head: int,
    pub sqe_tail: int,
    pub cqe_head: int,
    pub cqe_tail: int,
    /// First submission entry that no span has claimed.
    pub proc_tail: int,
    /// Entries in claimed spans that have not finished.
    pub processing: int,
    /// End of every claimed span the tail has not passed, in claim order.
    pub pending: Seq<i32>,
    /// Ends of the spans that finished before an earlier one.
    pub done: Set<i32>,
    /// When the current deferral began.
    pub last_check: Option<int>,
    pub args: Seq<IoArgs>,
    pub sqes: Seq<IoSqe>,
    pub cqes: Seq<IoCqe>,
}

impl RingView {
    /// Position of slot `x`, counted from the submission tail.
    pub open spec fn rel(self, x: int) -> int {
        ring_dist(self.sqe_tail, x, self.entries)
    }

    /// Submissions that the producer has made and the tail has not passed.
    pub open spec fn outstanding(self) -> int {
        ring_dist(self.sqe_tail, self.sqe_head, self.entries)
    }

    /// Submissions that no span has claimed yet.
    pub open spec fn sqe_count(self) -> int {
        ring_dist(self.proc_tail, self.sqe_head, self.entries)
    }

    /// Completions that the producer has not drained yet.
    pub open spec fn cqe_count(self) -> int {
        ring_dist(self.cqe_tail, self.cqe_head, self.entries)
    }

    /// Entries that can still be claimed with room left for their completions.
    pub open spec fn room(self) -> int {
        self.entries - 1 - self.processing - self.cqe_count()
    }

    /// First entry of the `i`-th pending span.
    pub open spec fn span_start(self, i: int) -> int {
        span_start_of(self.pending, self.sqe_tail, i)
    }

    /// Number of entries of the `i`-th pending span.
    pub open spec fn span_len(self, i: int) -> int {
        span_len_of(self.pending, self.sqe_tail, self.entries, i)
    }

    /// Entries of all pending spans that have not finished.
    pub open spec fn unfinished(self) -> int {
        unfinished_sum(self.pending, self.done, self.sqe_tail, self.entries, self.pending.len() as int)
    }

    pub open spec fn index_ok(self, x: int) -> bool {
        0 <= x < self.entries
    }

    /// Whether each of the `len` submission entries from `start` on names a
    /// request slot.
    pub open spec fn span_slots_ok(self, start: int, len: int) -> bool {
        forall|i: int|
            0 <= i < len ==> self.index_ok((#[trigger] self.sqes[ring_add(start, i, self.entries)]).index as int)
    }

    /// Everything of the invariant but that the first pending span is unfinished.
    pub open spec fn wf_loose(self) -> bool {
        &&& 1 <= self.entries <= i32::MAX
        &&& i32::MIN < self.io_depth <= i32::MAX
        &&& 0 <= self.timeout_ms <= u64::MAX
        &&& self.index_ok(self.sqe_head)
        &&& self.index_ok(self.sqe_tail)
        &&& self.index_ok(self.cqe_head)
        &&& self.index_ok(self.cqe_tail)
        &&& self.index_ok(self.proc_tail)
        &&& chain_ok(self.pending, self.sqe_tail, self.entries)
        &&& self.proc_tail == if self.pending.len() > 0 {
            self.pending.last() as int
        } else {
            self.sqe_tail
        }
        &&& self.rel(self.proc_tail) <= self.rel(self.sqe_head)
        &&& self.done.finite()
        &&& forall|x: i32| #[trigger] self.done.contains(x) ==> self.pending.contains(x)
        &&& self.processing == self.unfinished()
        &&& 0 <= self.processing
        &&& self.processing + self.cqe_count() <= self.entries - 1
        &&& self.args.len() == self.entries
        &&& self.sqes.len() == self.entries
        &&& self.cqes.len() == self.entries
        &&& match self.last_check {
            Some(t) => 0 <= t <= u64::MAX,
            None => true,
        }
    }

    /// The invariant of a ring between operations.
    pub open spec fn wf(self) -> bool {
        &&& self.wf_loose()
        &&& self.pending.len() > 0 ==> !self.done.contains(self.pending[0])
    }
}


impl RingView {
    /// Whether one more submission fits.
    pub open spec fn can_submit(self) -> bool {
        ring_add(self.sqe_head, 1, self.entries) != self.sqe_tail
    }

    /// The ring after the submission entry `sqe` was pushed.
    pub open spec fn submitted(self, sqe: IoSqe) -> RingView {
        RingView {
            sqes: self.sqes.update(self.sqe_head, sqe),
            sqe_head: ring_add(self.sqe_head, 1, self.entries),
            ..self
        }
    }

    /// The ring after the entries `sqes` were pushed one after the other.
    pub open spec fn submitted_all(self, sqes: Seq<IoSqe>) -> RingView
        decreases sqes.len(),
    {
        if sqes.len() == 0 {
            self
        } else {
            self.submitted_all(sqes.drop_last()).submitted(sqes.last())
        }
    }

    /// Whether one more completion fits.
    pub open spec fn can_complete(self) -> bool {
        ring_add(self.cqe_head, 1, self.entries) != self.cqe_tail
    }

    /// The ring after the completion entry `cqe` was pushed.
    pub open spec fn completion_added(self, cqe: IoCqe) -> RingView {
        RingView {
            cqes: self.cqes.update(self.cqe_head, cqe),
            cqe_head: ring_add(self.cqe_head, 1, self.entries),
            ..self
        }
    }

    /// The ring after the producer took `n` completions.
    pub open spec fn completions_drained(self, n: int) -> RingView {
        RingView { cqe_tail: ring_add(self.cqe_tail, n, self.entries), ..self }
    }
}

/// A ring: the indices and arrays of the shared region, and the consumer's
/// record of the spans it has claimed.
pub struct IoRing {
    name: String,
    mount_name: String,
    slot: i32,
    entries: i32,
    io_depth: i32,
    priority: i32,
    timeout_ms: u64,
    for_read: bool,
    flags: u64,
    sqe_head: i32,
    sqe_tail: i32,
    cqe_head: i32,
    cqe_tail: i32,
    ring_section: Vec<IoArgs>,
    cqe_section: Vec<IoCqe>,
    sqe_section: Vec<IoSqe>,
    sqe_proc_tail: i32,
    processing: i32,
    sqe_proc_tails: VecDeque<i32>,
    sqe_done_tails: HashSet<i32>,
    last_check: Option<u64>,
}

impl View for IoRing {
    type V = RingView;

    closed spec fn view(&self) -> RingView {
        RingView {
            entries: self.entries as int,
            io_depth: self.io_depth as int,
            timeout_ms: self.timeout_ms as int,
            sqe_head: self.sqe_head as int,
            sqe_tail: self.sqe_tail as int,
            cqe_head: self.cqe_head as int,
            cqe_tail: self.cqe_tail as int,
            proc_tail: self.sqe_proc_tail as int,
            processing: self.processing as int,
            pending: self.sqe_proc_tails@,
            done: self.sqe_done_tails@,
            last_check: match self.last_check {
                Some(t) => Some(t as int),
                None => None,
            },
            args: self.ring_section@,
            sqes: self.sqe_section@,
            cqes: self.cqe_section@,
        }
    }
}

/// Little-endian value of the four bytes of `bytes` from `at` on.
pub open spec fn le_u32(bytes: Seq<u8>, at: int) -> int {
    bytes[at] + 256 * bytes[at + 1] + 65536 * bytes[at + 2] + 16777216 * bytes[at + 3]
}

/// Reads one index marker.
pub fn read_marker(buf: &[u8], at: usize) -> (v: u32)
    requires
        at + 4 <= buf.len(),
    ensures
        v == le_u32(buf@, at as int),
{
    let b0: u32 = buf[at] as u32;
    let b1: u32 = buf[at + 1] as u32;
    let b2: u32 = buf[at + 2] as u32;
    let b3: u32 = buf[at + 3] as u32;
    b0 + 256 * b1 + 65536 * b2 + 16777216 * b3
}

impl IoRing {
    /// Width in bytes of one index marker.
    pub fn ring_marker_size() -> (n: usize)
        ensures
            n == RING_MARKER_SIZE,
    {
        RING_MARKER_SIZE
    }

    /// Usable slots of a region of `buf_size` bytes.
    pub fn io_ring_entries(buf_size: usize) -> (n: i32)
        requires
            buf_size >= min_ring_bytes(),
            entries_for(buf_size as int) < i32::MAX,
        ensures
            n == entries_for(buf_size as int),
            n >= 0,
    {
        ((buf_size - RING_PAGE_SIZE - RING_HEADER_SIZE) / RING_SLOT_SIZE) as i32 - 1
    }

    /// Usable slots of a region of `buf_size` bytes, or nothing where no ring fits
    /// or the count exceeds what an index can hold.
    pub fn checked_io_ring_entries(buf_size: usize) -> (n: Option<i32>)
        ensures
            n.is_some() <==> buf_size >= min_ring_bytes() && entries_for(buf_size as int) < i32::MAX,
            n matches Some(e) ==> e == entries_for(buf_size as int) && e >= 0,
    {
        if buf_size < RING_PAGE_SIZE + RING_HEADER_SIZE + RING_SLOT_SIZE {
            return None;
        }
        let slots: usize = (buf_size - RING_PAGE_SIZE - RING_HEADER_SIZE) / RING_SLOT_SIZE;
        if slots > 0x7fff_ffff {
            return None;
        }
        Some(slots as i32 - 1)
    }

    /// Bytes of the region that a ring of `entries` usable slots needs.
    pub fn bytes_required(entries: i32) -> (n: usize)
        requires
            entries >= 0,
            bytes_for(entries as int) <= usize::MAX,
        ensures
            n == bytes_for(entries as int),
    {
        RING_HEADER_SIZE + RING_SLOT_SIZE * (entries as usize + 1) + RING_PAGE_SIZE
    }

    /// The invariant that every operation keeps.
    pub closed spec fn wf(&self) -> bool {
        self@.wf()
    }

    pub closed spec fn spec_name(&self) -> Seq<char> {
        self.name@
    }

    pub closed spec fn spec_mount_name(&self) -> Seq<char> {
        self.mount_name@
    }

    pub closed spec fn spec_slot(&self) -> int {
        self.slot as int
    }

    pub closed spec fn spec_priority(&self) -> int {
        self.priority as int
    }

    pub closed spec fn spec_for_read(&self) -> bool {
        self.for_read
    }

    pub closed spec fn spec_flags(&self) -> int {
        self.flags as int
    }

    /// What stays the same over every operation on the ring's contents.
    pub open spec fn same_identity(&self, other: &IoRing) -> bool {
        &&& self.spec_name() == other.spec_name()
        &&& self.spec_mount_name() == other.spec_mount_name()
        &&& self.spec_slot() == other.spec_slot()
        &&& self.spec_priority() == other.spec_priority()
        &&& self.spec_for_read() == other.spec_for_read()
        &&& self.spec_flags() == other.spec_flags()
    }
}


/// A vector of `n` copies of `x`.
fn filled<T: Copy>(n: usize, x: T) -> (v: Vec<T>)
    ensures
        v@ == Seq::new(n as nat, |i: int| x),
{
    let mut v: Vec<T> = Vec::new();
    let mut i: usize = 0;
    while i < n
        invariant
            i <= n,
            v@ == Seq::new(i as nat, |k: int| x),
        decreases n - i,
    {
        v.push(x);
        i = i + 1;
        assert(v@ =~= Seq::new(i as nat, |k: int| x));
    }
    v
}

impl IoArgs {
    pub open spec fn spec_empty() -> IoArgs {
        IoArgs { buf_id: Uuid(0), buf_off: 0, file_iid: 0, file_off: 0, io_len: 0, userdata: 0 }
    }

    /// The descriptor of an unused slot.
    pub fn empty() -> (a: IoArgs)
        ensures
            a == Self::spec_empty(),
    {
        IoArgs { buf_id: Uuid(0), buf_off: 0, file_iid: 0, file_off: 0, io_len: 0, userdata: 0 }
    }
}

impl IoSqe {
    pub open spec fn spec_empty() -> IoSqe {
        IoSqe { index: 0, userdata: 0 }
    }

    /// The submission entry of an unused slot.
    pub fn empty() -> (a: IoSqe)
        ensures
            a == Self::spec_empty(),
    {
        IoSqe { index: 0, userdata: 0 }
    }
}

impl IoCqe {
    pub open spec fn spec_empty() -> IoCqe {
        IoCqe { index: 0, reserved: 0, result: 0, userdata: 0 }
    }

    /// The completion entry of an unused slot.
    pub fn empty() -> (a: IoCqe)
        ensures
            a == Self::spec_empty(),
    {
        IoCqe { index: 0, reserved: 0, result: 0, userdata: 0 }
    }
}

/// What is done next for one request of a span.
#[derive(Clone, Copy, Debug, PartialEq, Eq)]
pub enum RequestStep {
    /// Nothing more: the request ends with this result.
    Finish(i64),
    /// Its reads join the batch.
    Read,
    /// Its writes join the batch, once the write gate of its file is passed.
    Write,
}

/// The result of a request after the lookup of its file and its buffer:
/// the negated `NotFile` code where the file is no regular file, else the
/// negated code with which the lookup of the buffer failed, else the negated
/// `IovShmFail` code where the buffer has no memory behind it, else the
/// result it had.
pub open spec fn lookup_outcome(current: int, is_file: bool, buf: Result<bool, Error>) -> int {
    if !is_file {
        -MetaCode::NotFile.spec_code()
    } else {
        match buf {
            Err(e) => -(e.code as int),
            Ok(mapped) => if mapped {
                current
            } else {
                -ClientAgentCode::IovShmFail.spec_code()
            },
        }
    }
}

/// The step that follows the lookup: a request whose result is negative is
/// finished; another one reads or writes, as its ring does.
pub open spec fn step_after_lookup(current: int, is_file: bool, buf: Result<bool, Error>, for_read: bool) -> RequestStep {
    let r = lookup_outcome(current, is_file, buf);
    if r < 0 {
        RequestStep::Finish(r as i64)
    } else if for_read {
        RequestStep::Read
    } else {
        RequestStep::Write
    }
}

/// Whether a region whose first bytes are `head`, of `size` bytes in all, can
/// back a ring of the given depth: the size gives at least one slot and no
/// more than an index can count, the four markers are there, and each of them
/// is a slot of the ring.
pub open spec fn region_accepted(head: Seq<u8>, size: int, io_depth: int) -> bool {
    &&& size >= min_ring_bytes()
    &&& entries_for(size) < i32::MAX
    &&& head.len() >= 4 * RING_MARKER_SIZE
    &&& io_depth > i32::MIN
    &&& le_u32(head, 0) <= entries_for(size)
    &&& le_u32(head, 4) <= entries_for(size)
    &&& le_u32(head, 8) <= entries_for(size)
    &&& le_u32(head, 12) <= entries_for(size)
}

/// The ring that `IoRing::new` makes of an accepted region.
///
/// The submission tail and the completion markers are the region's. The
/// submission head begins at the tail: the entries that wait in the region
/// between its tail and its head have not been taken over yet, and the first
/// `pull_submissions` brings them in. The completions that wait in the region
/// are counted by the two completion markers and stay where they are.
pub open spec fn region_view(head: Seq<u8>, size: int, io_depth: int, timeout_ms: int) -> RingView {
    RingView {
        entries: entries_for(size) + 1,
        io_depth,
        timeout_ms,
        sqe_head: le_u32(head, 4),
        sqe_tail: le_u32(head, 4),
        cqe_head: le_u32(head, 8),
        cqe_tail: le_u32(head, 12),
        proc_tail: le_u32(head, 4),
        processing: 0,
        pending: Seq::empty(),
        done: Set::empty(),
        last_check: None,
        args: Seq::new((entries_for(size) + 1) as nat, |i: int| IoArgs::spec_empty()),
        sqes: Seq::new((entries_for(size) + 1) as nat, |i: int| IoSqe::spec_empty()),
        cqes: Seq::new((entries_for(size) + 1) as nat, |i: int| IoCqe::spec_empty()),
    }
}

impl IoRing {
    /// Builds the ring that lives in a region of `size` bytes whose first bytes
    /// are `buf`. The submission tail and the completion markers are taken
    /// from `buf`; what waits in the region above the submission tail is left
    /// to the first `pull_submissions`, so the ring begins with nothing to
    /// claim. A region too small or too large, fewer than sixteen bytes of
    /// header, a marker outside the ring or the least depth an `i32` holds
    /// are refused with `InvalidArg`.
    pub fn new(
        name: String,
        for_read: bool,
        buf: &[u8],
        size: usize,
        io_depth: i32,
        priority: i32,
        timeout_ms: u64,
        flags: u64,
    ) -> (r: Result<IoRing, Error>)
        ensures
            r.is_ok() <==> region_accepted(buf@, size as int, io_depth as int),
            r matches Ok(ring) ==> {
                &&& ring.wf()
                &&& ring@ == region_view(buf@, size as int, io_depth as int, timeout_ms as int)
                &&& ring.spec_name() == name@
                &&& ring.spec_mount_name() == Seq::<char>::empty()
                &&& ring.spec_slot() == -1
                &&& ring.spec_priority() == priority
                &&& ring.spec_for_read() == for_read
                &&& ring.spec_flags() == flags
            },
            r matches Err(e) ==> e.code == StatusCode::InvalidArg.spec_code(),
    {
        let slots = match Self::checked_io_ring_entries(size) {
            Some(n) => n,
            None => {
                return Err(Error::status(StatusCode::InvalidArg));
            },
        };
        if buf.len() < 4 * RING_MARKER_SIZE || io_depth == i32::MIN {
            return Err(Error::status(StatusCode::InvalidArg));
        }
        let entries: i32 = slots + 1;
        let sqe_head = read_marker(buf, 0);
        let sqe_tail = read_marker(buf, RING_MARKER_SIZE);
        let cqe_head = read_marker(buf, 2 * RING_MARKER_SIZE);
        let cqe_tail = read_marker(buf, 3 * RING_MARKER_SIZE);
        let limit: u32 = slots as u32;
        if sqe_head > limit || sqe_tail > limit || cqe_head > limit || cqe_tail > limit {
            return Err(Error::status(StatusCode::InvalidArg));
        }
        let ring = IoRing {
            name,
            mount_name: String::new(),
            slot: -1,
            entries,
            io_depth,
            priority,
            timeout_ms,
            for_read,
            flags,
            sqe_head: sqe_tail as i32,
            sqe_tail: sqe_tail as i32,
            cqe_head: cqe_head as i32,
            cqe_tail: cqe_tail as i32,
            ring_section: filled(entries as usize, IoArgs::empty()),
            cqe_section: filled(entries as usize, IoCqe::empty()),
            sqe_section: filled(entries as usize, IoSqe::empty()),
            sqe_proc_tail: sqe_tail as i32,
            processing: 0,
            sqe_proc_tails: VecDeque::new(),
            sqe_done_tails: HashSet::new(),
            last_check: None,
        };
        proof {
            assert(ring@.pending =~= Seq::<i32>::empty());
            assert(ring@.done =~= Set::<i32>::empty());
        }
        Ok(ring)
    }

    /// Slot count of the ring, the reserved slot included.
    pub fn entries(&self) -> (n: i32)
        ensures
            n == self@.entries,
    {
        self.entries
    }

    /// Usable slots: one less than the slot count.
    pub fn slots(&self) -> (n: usize)
        requires
            self.wf(),
        ensures
            n == self@.entries - 1,
    {
        (self.entries - 1) as usize
    }

    pub fn io_depth(&self) -> (n: i32)
        ensures
            n == self@.io_depth,
    {
        self.io_depth
    }

    pub fn timeout_ms(&self) -> (n: u64)
        ensures
            n == self@.timeout_ms,
    {
        self.timeout_ms
    }

    pub fn priority(&self) -> (n: i32)
        ensures
            n == self.spec_priority(),
    {
        self.priority
    }

    pub fn for_read(&self) -> (b: bool)
        ensures
            b == self.spec_for_read(),
    {
        self.for_read
    }

    pub fn flags(&self) -> (n: u64)
        ensures
            n == self.spec_flags(),
    {
        self.flags
    }

    pub fn name(&self) -> (s: &String)
        ensures
            s@ == self.spec_name(),
    {
        &self.name
    }

    pub fn mount_name(&self) -> (s: &String)
        ensures
            s@ == self.spec_mount_name(),
    {
        &self.mount_name
    }

    /// Descriptor under which the ring is registered, or -1.
    pub fn slot(&self) -> (n: i32)
        ensures
            n == self.spec_slot(),
    {
        self.slot
    }

    pub fn sqe_head(&self) -> (n: i32)
        ensures
            n == self@.sqe_head,
    {
        self.sqe_head
    }

    pub fn sqe_tail(&self) -> (n: i32)
        ensures
            n == self@.sqe_tail,
    {
        self.sqe_tail
    }

    pub fn cqe_head(&self) -> (n: i32)
        ensures
            n == self@.cqe_head,
    {
        self.cqe_head
    }

    pub fn cqe_tail(&self) -> (n: i32)
        ensures
            n == self@.cqe_tail,
    {
        self.cqe_tail
    }

    /// The slot count of a sound ring is positive and fits an index.
    pub proof fn lemma_wf_bounds(&self)
        requires
            self.wf(),
        ensures
            self@.wf(),
            1 <= self@.entries <= i32::MAX,
    {
    }

    /// The completion entry in slot `k` of the completion array.
    pub fn cqe_at(&self, k: i32) -> (c: IoCqe)
        requires
            self.wf(),
            0 <= k < self@.entries,
        ensures
            c == self@.cqes[k as int],
    {
        self.cqe_section[k as usize]
    }

    /// Entries in claimed spans that have not finished.
    pub fn processing(&self) -> (n: i32)
        ensures
            n == self@.processing,
    {
        self.processing
    }

    /// Completions that wait for the producer.
    pub fn cqe_count(&self) -> (n: i32)
        requires
            self.wf(),
        ensures
            n == self@.cqe_count(),
            0 <= n < self@.entries,
    {
        wrap_dist(self.cqe_tail, self.cqe_head, self.entries)
    }

    /// Submissions that no span has claimed.
    pub fn sqe_count(&self) -> (n: i32)
        requires
            self.wf(),
        ensures
            n == self@.sqe_count(),
            0 <= n < self@.entries,
    {
        wrap_dist(self.sqe_proc_tail, self.sqe_head, self.entries)
    }

    /// Pushes a submission entry for request slot `idx`. Fails, changing
    /// nothing, exactly when the ring is full. Whether `idx` names a request
    /// slot is not asked here: it is found out when the entry's span is
    /// served.
    pub fn add_sqe(&mut self, idx: i32, userdata: u64) -> (ok: bool)
        requires
            old(self).wf(),
        ensures
            final(self).wf(),
            final(self).same_identity(old(self)),
            ok == old(self)@.can_submit(),
            ok ==> final(self)@ == old(self)@.submitted(IoSqe { index: idx, userdata }),
            !ok ==> final(self)@ == old(self)@,
    {
        let next = wrap_add(self.sqe_head, 1, self.entries);
        if next == self.sqe_tail {
            return false;
        }
        let h = self.sqe_head as usize;
        self.sqe_section.set(h, IoSqe { index: idx, userdata });
        self.sqe_head = next;
        true
    }

    /// Writes `args` into request slot `slot` and pushes a submission entry for
    /// it. Fails, changing nothing, exactly when the ring is full.
    pub fn submit(&mut self, slot: i32, args: IoArgs, tag: u64) -> (ok: bool)
        requires
            old(self).wf(),
            0 <= slot < old(self)@.entries,
        ensures
            final(self).wf(),
            final(self).same_identity(old(self)),
            ok == old(self)@.can_submit(),
            ok ==> final(self)@ == (RingView {
                args: old(self)@.args.update(slot as int, args),
                ..old(self)@.submitted(IoSqe { index: slot, userdata: tag })
            }),
            !ok ==> final(self)@ == old(self)@,
    {
        let next = wrap_add(self.sqe_head, 1, self.entries);
        if next == self.sqe_tail {
            return false;
        }
        self.ring_section.set(slot as usize, args);
        self.add_sqe(slot, tag)
    }

    /// Pushes a completion entry. Fails, changing nothing, exactly when the
    /// completion queue is full.
    pub fn add_cqe(&mut self, idx: i32, res: i64, userdata: u64) -> (ok: bool)
        requires
            old(self).wf(),
        ensures
            final(self).same_identity(old(self)),
            ok == old(self)@.can_complete(),
            ok ==> final(self)@ == old(self)@.completion_added(
                IoCqe { index: idx, reserved: 0, result: res, userdata },
            ),
            !ok ==> final(self)@ == old(self)@,
            old(self)@.processing + old(self)@.cqe_count() < old(self)@.entries - 1 ==> final(self).wf(),
    {
        let next = wrap_add(self.cqe_head, 1, self.entries);
        if next == self.cqe_tail {
            return false;
        }
        let h = self.cqe_head as usize;
        self.cqe_section.set(h, IoCqe { index: idx, reserved: 0, result: res, userdata });
        self.cqe_head = next;
        true
    }

    /// The producer's read of the completions that have arrived: at most `max`
    /// of them, oldest first. The completion tail moves past what was returned.
    pub fn drain_completions(&mut self, max: i32) -> (out: Vec<IoCqe>)
        requires
            old(self).wf(),
        ensures
            final(self).wf(),
            final(self).same_identity(old(self)),
            out@.len() == if max <= 0 {
                0
            } else if max < old(self)@.cqe_count() {
                max as int
            } else {
                old(self)@.cqe_count()
            },
            forall|i: int|
                0 <= i < out@.len() ==> out@[i] == old(self)@.cqes[ring_add(
                    old(self)@.cqe_tail,
                    i,
                    old(self)@.entries,
                )],
            final(self)@ == old(self)@.completions_drained(out@.len() as int),
    {
        let avail = self.cqe_count();
        let n: i32 = if max <= 0 {
            0
        } else if max < avail {
            max
        } else {
            avail
        };
        let mut out: Vec<IoCqe> = Vec::new();
        let mut i: i32 = 0;
        while i < n
            invariant
                self.wf(),
                self@ == old(self)@,
                0 <= i <= n <= self@.cqe_count(),
                out@.len() == i,
                forall|k: int|
                    0 <= k < i ==> out@[k] == self@.cqes[ring_add(self@.cqe_tail, k, self@.entries)],
            decreases n - i,
        {
            let at = wrap_add(self.cqe_tail, i, self.entries);
            out.push(self.cqe_section[at as usize]);
            i = i + 1;
        }
        self.cqe_tail = wrap_add(self.cqe_tail, n, self.entries);
        out
    }
}


impl RingView {
    /// The ring after one more span of `len` entries was claimed.
    pub open spec fn with_span(self, len: int) -> RingView {
        RingView {
            pending: self.pending.push(ring_add(self.proc_tail, len, self.entries) as i32),
            proc_tail: ring_add(self.proc_tail, len, self.entries),
            processing: self.processing + len,
            ..self
        }
    }

    /// Entries open to a claim: submitted, unclaimed, and with room for their
    /// completions.
    pub open spec fn claim_avail(self) -> int {
        if self.sqe_count() < self.room() {
            self.sqe_count()
        } else {
            self.room()
        }
    }

    /// The depth without its sign.
    pub open spec fn claim_depth(self) -> int {
        if self.io_depth < 0 {
            -self.io_depth
        } else {
            self.io_depth
        }
    }

    /// Number of spans of full depth that a claim of at most `max_jobs` spans takes.
    pub open spec fn claim_full(self, max_jobs: int) -> int {
        let d = self.claim_depth();
        let a = self.claim_avail();
        if d == 0 || max_jobs <= 0 || a <= 0 {
            0
        } else if max_jobs < a / d {
            max_jobs
        } else {
            a / d
        }
    }

    /// Entries that are open to a claim but fill no span of full depth.
    pub open spec fn claim_rest(self, max_jobs: int) -> int {
        self.claim_avail() - self.claim_full(max_jobs) * self.claim_depth()
    }

    /// Whether a claim may still take a span shorter than the depth.
    pub open spec fn claim_rest_open(self, max_jobs: int) -> bool {
        &&& 0 < max_jobs
        &&& self.io_depth <= 0
        &&& self.claim_full(max_jobs) < max_jobs
        &&& self.claim_rest(max_jobs) > 0
    }

    /// Whether a deferral that began at `last_check` has lasted the timeout at `now`.
    pub open spec fn deferral_over(self, now: int) -> bool {
        match self.last_check {
            Some(t) => now - t >= self.timeout_ms,
            None => false,
        }
    }

    /// Entries of the short span that a claim at time `now` takes after the
    /// full ones; zero where it takes none.
    pub open spec fn claim_short(self, max_jobs: int, now: int) -> int {
        if !self.claim_rest_open(max_jobs) {
            0
        } else if self.io_depth == 0 || self.timeout_ms == 0 {
            self.claim_rest(max_jobs)
        } else if self.claim_full(max_jobs) == 0 && self.deferral_over(now) {
            self.claim_rest(max_jobs)
        } else {
            0
        }
    }

    /// Number of spans that a claim takes.
    pub open spec fn claim_count(self, max_jobs: int, now: int) -> int {
        self.claim_full(max_jobs) + if self.claim_short(max_jobs, now) > 0 {
            1int
        } else {
            0int
        }
    }

    /// Entries of the `k`-th span that a claim takes.
    pub open spec fn claim_len(self, max_jobs: int, now: int, k: int) -> int {
        if k < self.claim_full(max_jobs) {
            self.claim_depth()
        } else {
            self.claim_short(max_jobs, now)
        }
    }

    /// Entries of all spans that a claim takes.
    pub open spec fn claim_total(self, max_jobs: int, now: int) -> int {
        self.claim_full(max_jobs) * self.claim_depth() + self.claim_short(max_jobs, now)
    }

    /// First entry of the `k`-th span that a claim takes.
    pub open spec fn claim_start(self, k: int) -> int {
        ring_add(self.proc_tail, k * self.claim_depth(), self.entries)
    }

    /// End of the `k`-th span that a claim takes.
    pub open spec fn claim_end(self, max_jobs: int, now: int, k: int) -> int {
        if k < self.claim_full(max_jobs) {
            ring_add(self.proc_tail, (k + 1) * self.claim_depth(), self.entries)
        } else {
            ring_add(self.proc_tail, self.claim_total(max_jobs, now), self.entries)
        }
    }

    /// The deferral timer after a claim at time `now`: cleared by every span
    /// the claim takes, started when a short rest is left waiting, and
    /// otherwise as it was.
    pub open spec fn claim_last_check(self, max_jobs: int, now: int) -> Option<int> {
        if self.io_depth >= 0 || max_jobs <= 0 {
            self.last_check
        } else if self.claim_short(max_jobs, now) > 0 {
            None
        } else if self.claim_rest_open(max_jobs) {
            if self.claim_full(max_jobs) == 0 && self.last_check.is_some() {
                self.last_check
            } else {
                Some(now)
            }
        } else if self.claim_full(max_jobs) > 0 {
            None
        } else {
            self.last_check
        }
    }

    /// The ring after a claim of at most `max_jobs` spans at time `now`.
    pub open spec fn claimed(self, max_jobs: int, now: int) -> RingView {
        RingView {
            pending: self.pending + Seq::new(
                self.claim_count(max_jobs, now) as nat,
                |k: int| self.claim_end(max_jobs, now, k) as i32,
            ),
            proc_tail: ring_add(self.proc_tail, self.claim_total(max_jobs, now), self.entries),
            processing: self.processing + self.claim_total(max_jobs, now),
            last_check: self.claim_last_check(max_jobs, now),
            ..self
        }
    }

    /// Whether `to_proc` entries from `spt` on are a claimed span that has not
    /// finished.
    pub open spec fn is_claimed(self, spt: int, to_proc: int) -> bool {
        &&& 1 <= to_proc < self.entries
        &&& 0 <= spt < self.entries
        &&& exists|j: int|
            0 <= j < self.pending.len() && #[trigger] self.span_start(j) == spt && self.pending[j]
                == ring_add(spt, to_proc, self.entries) && !self.done.contains(self.pending[j])
    }

    /// The completion entry of the `i`-th request of the span that begins at `spt`.
    pub open spec fn completion_of(self, spt: int, res: Seq<i64>, i: int) -> IoCqe {
        let sqe = self.sqes[ring_add(spt, i, self.entries)];
        IoCqe { index: sqe.index, reserved: 0, result: res[i], userdata: sqe.userdata }
    }

    /// The ring after the completions of the span that begins at `spt` were
    /// pushed, one for each result in `res`.
    pub open spec fn with_completions(self, spt: int, res: Seq<i64>) -> RingView {
        RingView {
            cqes: Seq::new(
                self.cqes.len(),
                |k: int|
                    if ring_dist(self.cqe_head, k, self.entries) < res.len() {
                        self.completion_of(spt, res, ring_dist(self.cqe_head, k, self.entries))
                    } else {
                        self.cqes[k]
                    },
            ),
            cqe_head: ring_add(self.cqe_head, res.len() as int, self.entries),
            ..self
        }
    }

    /// The ring after the span that ends at `end`, of `len` entries, was
    /// recorded as finished.
    pub open spec fn marked_done(self, end: i32, len: int) -> RingView {
        RingView { done: self.done.insert(end), processing: self.processing - len, ..self }
    }

    /// The ring after the tail moved past the first pending span.
    pub open spec fn drain_step(self) -> RingView {
        RingView {
            sqe_tail: self.pending[0] as int,
            pending: self.pending.skip(1),
            done: self.done.remove(self.pending[0]),
            ..self
        }
    }

    /// The ring after the tail moved past every finished span in front of the
    /// first unfinished one.
    pub open spec fn drained(self) -> RingView
        decreases self.pending.len(),
    {
        if self.pending.len() > 0 && self.done.contains(self.pending[0]) {
            self.drain_step().drained()
        } else {
            self
        }
    }

    /// The ring after the span of `res.len()` entries from `spt` on finished
    /// with the results `res`.
    pub open spec fn processed(self, spt: int, res: Seq<i64>) -> RingView {
        self.with_completions(spt, res).marked_done(
            ring_add(spt, res.len() as int, self.entries) as i32,
            res.len() as int,
        ).drained()
    }
}

/// One more claimed span keeps the invariant.
pub proof fn lemma_with_span_wf(v: RingView, len: int)
    requires
        v.wf(),
        1 <= len <= v.sqe_count(),
        len <= v.room(),
    ensures
        v.with_span(len).wf(),
        v.with_span(len).sqe_count() == v.sqe_count() - len,
        v.with_span(len).room() == v.room() - len,
        v.with_span(len).span_start(v.pending.len() as int) == v.proc_tail,
{
    let w = v.with_span(len);
    let end = ring_add(v.proc_tail, len, v.entries) as i32;
    let k = v.pending.len() as int;
    lemma_chain_push(v.pending, v.sqe_tail, v.entries, v.proc_tail, end, len);
    lemma_unfinished_prefix(w.pending, v.pending, v.done, v.sqe_tail, v.entries, k);
    assert(!v.done.contains(end)) by {
        if v.done.contains(end) {
            assert(v.pending.contains(end));
        }
    }
    assert forall|x: i32| #[trigger] w.done.contains(x) implies w.pending.contains(x) by {
        assert(v.pending.contains(x));
        let i = choose|i: int| 0 <= i < v.pending.len() && v.pending[i] == x;
        assert(w.pending[i] == x);
    }
    assert(w.pending.last() == end);
    if k > 0 {
        assert(w.pending[0] == v.pending[0]);
    }
}

/// Recording an unfinished span as finished, with its completions pushed,
/// keeps all of the invariant but that the first pending span is unfinished.
pub proof fn lemma_mark_wf(v: RingView, spt: int, res: Seq<i64>)
    requires
        v.wf(),
        v.is_claimed(spt, res.len() as int),
    ensures
        res.len() <= v.processing,
        v.cqe_count() + res.len() <= v.entries - 1,
        v.with_completions(spt, res).marked_done(
            ring_add(spt, res.len() as int, v.entries) as i32,
            res.len() as int,
        ).wf_loose(),
{
    let n = res.len() as int;
    let end = ring_add(spt, n, v.entries) as i32;
    let j = choose|j: int|
        0 <= j < v.pending.len() && #[trigger] v.span_start(j) == spt && v.pending[j] == ring_add(
            spt,
            n,
            v.entries,
        ) && !v.done.contains(v.pending[j]);
    let k = v.pending.len() as int;
    lemma_span_len(v.pending, v.sqe_tail, v.entries, j);
    assert(span_len_of(v.pending, v.sqe_tail, v.entries, j) == n);
    lemma_unfinished_bounds(v.pending, v.done, v.sqe_tail, v.entries, k);
    lemma_unfinished_mark(v.pending, v.done, v.sqe_tail, v.entries, k, j);
    let w = v.with_completions(spt, res).marked_done(end, n);
    assert forall|x: i32| #[trigger] w.done.contains(x) implies w.pending.contains(x) by {
        if x == end {
            assert(v.pending[j] == x);
        } else {
            assert(v.done.contains(x));
        }
    }
}

/// Moving the tail past a finished first span keeps all of the invariant but
/// that the first pending span is unfinished.
pub proof fn lemma_drain_step_wf(v: RingView)
    requires
        v.wf_loose(),
        v.pending.len() > 0,
        v.done.contains(v.pending[0]),
    ensures
        v.drain_step().wf_loose(),
{
    let w = v.drain_step();
    let k = v.pending.len() as int;
    lemma_chain_pop(v.pending, v.sqe_tail, v.entries);
    lemma_unfinished_pop(v.pending, v.done, v.sqe_tail, v.entries, k);
    assert(0 <= v.pending[0] < v.entries);
    assert(ring_dist(v.sqe_tail, v.pending[0] as int, v.entries) >= 1);
    if k > 1 {
        assert(w.pending.last() == v.pending[k - 1]);
        assert(ring_dist(v.sqe_tail, v.pending[0] as int, v.entries) < ring_dist(
            v.sqe_tail,
            v.pending[k - 1] as int,
            v.entries,
        ));
    }
    assert forall|x: i32| #[trigger] w.done.contains(x) implies w.pending.contains(x) by {
        assert(v.pending.contains(x));
        let i = choose|i: int| 0 <= i < v.pending.len() && v.pending[i] == x;
        assert(i >= 1);
        assert(w.pending[i - 1] == x);
    }
}


proof fn lemma_mul_step(i: int, n: int, d: int)
    requires
        0 <= i < n,
        1 <= d,
    ensures
        (i + 1) * d == i * d + d,
        0 <= i * d,
        (i + 1) * d <= n * d,
{
    assert((i + 1) * d == i * d + d) by (nonlinear_arith);
    assert(0 <= i * d) by (nonlinear_arith)
        requires
            0 <= i,
            1 <= d,
    ;
    assert((i + 1) * d <= n * d) by (nonlinear_arith)
        requires
            i + 1 <= n,
            1 <= d,
    ;
}

proof fn lemma_full_spans_fit(a: int, d: int, n: int)
    requires
        0 <= a,
        1 <= d,
        0 <= n <= a / d,
    ensures
        0 <= n * d <= a,
        n == a / d ==> a - n * d < d,
{
    vstd::arithmetic::div_mod::lemma_fundamental_div_mod(a, d);
    vstd::arithmetic::div_mod::lemma_mod_bound(a, d);
    assert(n * d <= (a / d) * d) by (nonlinear_arith)
        requires
            0 <= n <= a / d,
            1 <= d,
    ;
    assert(0 <= n * d) by (nonlinear_arith)
        requires
            0 <= n,
            1 <= d,
    ;
    assert((a / d) * d == d * (a / d)) by (nonlinear_arith);
}

/// The ring with `n` spans of `d` entries claimed, as the full spans of a claim leave it.
pub open spec fn full_spans_claimed(v: RingView, n: int, d: int) -> RingView {
    RingView {
        pending: v.pending + Seq::new(
            n as nat,
            |k: int| ring_add(v.proc_tail, (k + 1) * d, v.entries) as i32,
        ),
        proc_tail: ring_add(v.proc_tail, n * d, v.entries),
        processing: v.processing + n * d,
        ..v
    }
}

proof fn lemma_claim_shape(v0: RingView, mj: int, t: int, v1: RingView, v2: RingView)
    requires
        v0.wf(),
        0 < mj,
        v1 == full_spans_claimed(v0, v0.claim_full(mj), v0.claim_depth()),
        0 <= v0.claim_full(mj) * v0.claim_depth(),
        v0.claim_full(mj) * v0.claim_depth() + v0.claim_short(mj, t) <= v0.claim_avail(),
        v2 == (RingView {
            last_check: v0.claim_last_check(mj, t),
            ..if v0.claim_short(mj, t) > 0 {
                v1.with_span(v0.claim_short(mj, t))
            } else {
                v1
            }
        }),
    ensures
        v2 == v0.claimed(mj, t),
{
    let n = v0.claim_full(mj);
    let d = v0.claim_depth();
    let short = v0.claim_short(mj, t);
    let target = v0.claimed(mj, t);
    let nd = n * d;
    assert(0 <= v0.sqe_count() < v0.entries);
    assert(nd + short < v0.entries);
    if short > 0 {
        assert(ring_add(ring_add(v0.proc_tail, nd, v0.entries), short, v0.entries) == ring_add(
            v0.proc_tail,
            nd + short,
            v0.entries,
        ));
    }
    assert(v2.pending.len() == target.pending.len());
    assert forall|k: int| 0 <= k < v2.pending.len() implies v2.pending[k] == target.pending[k] by {
        let base = v0.pending.len() as int;
        if k >= base {
            let i = k - base;
            if i < n {
                assert(v1.pending[k] == ring_add(v0.proc_tail, (i + 1) * d, v0.entries) as i32);
            }
        }
    }
    assert(v2.pending =~= target.pending);
}

impl IoRing {
    /// Claims the next `len` unclaimed entries as one span.
    fn claim_one(&mut self, len: i32) -> (job: IoRingJob)
        requires
            old(self).wf(),
            1 <= len <= old(self)@.sqe_count(),
            len <= old(self)@.room(),
        ensures
            final(self).wf(),
            final(self).same_identity(old(self)),
            final(self)@ == old(self)@.with_span(len as int),
            job == (IoRingJob {
                ior: old(self).spec_slot() as i32,
                sqe_proc_tail: old(self)@.proc_tail as i32,
                to_proc: len,
            }),
    {
        proof {
            lemma_with_span_wf(self@, len as int);
        }
        let job = IoRingJob { ior: self.slot, sqe_proc_tail: self.sqe_proc_tail, to_proc: len };
        let end = wrap_add(self.sqe_proc_tail, len, self.entries);
        self.sqe_proc_tails.push_back(end);
        self.sqe_proc_tail = end;
        self.processing = self.processing + len;
        job
    }

    /// Claims `n` spans of `d` entries each, one after the other.
    fn claim_full_spans(&mut self, n: i32, d: i32) -> (jobs: Vec<IoRingJob>)
        requires
            old(self).wf(),
            1 <= d,
            0 <= n,
            n * d <= old(self)@.claim_avail(),
        ensures
            final(self).wf(),
            final(self).same_identity(old(self)),
            final(self)@ == (RingView {
                pending: old(self)@.pending + Seq::new(
                    n as nat,
                    |k: int| ring_add(old(self)@.proc_tail, (k + 1) * (d as int), old(self)@.entries) as i32,
                ),
                proc_tail: ring_add(old(self)@.proc_tail, n * d, old(self)@.entries),
                processing: old(self)@.processing + n * d,
                ..old(self)@
            }),
            final(self)@.sqe_count() == old(self)@.sqe_count() - n * d,
            final(self)@.room() == old(self)@.room() - n * d,
            jobs@.len() == n,
            forall|k: int|
                0 <= k < n ==> #[trigger] jobs@[k] == (IoRingJob {
                    ior: old(self).spec_slot() as i32,
                    sqe_proc_tail: ring_add(old(self)@.proc_tail, k * (d as int), old(self)@.entries) as i32,
                    to_proc: d,
                }),
    {
        let ghost v0 = self@;
        let mut jobs: Vec<IoRingJob> = Vec::new();
        let mut i: i32 = 0;
        let mut acc: i32 = 0;
        proof {
            assert(0 * (d as int) == 0) by (nonlinear_arith);
            assert(self@.pending =~= v0.pending + Seq::new(
                0nat,
                |k: int| ring_add(v0.proc_tail, (k + 1) * (d as int), v0.entries) as i32,
            ));
        }
        while i < n
            invariant
                self.wf(),
                self.same_identity(old(self)),
                v0.wf(),
                0 <= i <= n,
                1 <= d,
                acc == i * d,
                n * d <= v0.claim_avail(),
                self@.sqe_count() == v0.sqe_count() - acc,
                self@.room() == v0.room() - acc,
                self@ == (RingView {
                    pending: v0.pending + Seq::new(
                        i as nat,
                        |k: int| ring_add(v0.proc_tail, (k + 1) * (d as int), v0.entries) as i32,
                    ),
                    proc_tail: ring_add(v0.proc_tail, acc as int, v0.entries),
                    processing: v0.processing + acc,
                    ..v0
                }),
                jobs@.len() == i,
                forall|k: int|
                    0 <= k < i ==> #[trigger] jobs@[k] == (IoRingJob {
                        ior: old(self).spec_slot() as i32,
                        sqe_proc_tail: ring_add(v0.proc_tail, k * (d as int), v0.entries) as i32,
                        to_proc: d,
                    }),
            decreases n - i,
        {
            proof {
                lemma_mul_step(i as int, n as int, d as int);
                lemma_with_span_wf(self@, d as int);
            }
            let job = self.claim_one(d);
            jobs.push(job);
            acc = acc + d;
            i = i + 1;
            proof {
                assert(self@.pending =~= v0.pending + Seq::new(
                    i as nat,
                    |k: int| ring_add(v0.proc_tail, (k + 1) * (d as int), v0.entries) as i32,
                ));
            }
        }
        jobs
    }

    /// Claims the next `short` entries as one span where `short` is positive,
    /// and sets the deferral timer.
    fn claim_rest(&mut self, short: i32, timer: Option<u64>) -> (job: Option<IoRingJob>)
        requires
            old(self).wf(),
            0 <= short <= old(self)@.sqe_count(),
            short <= old(self)@.room(),
        ensures
            final(self).wf(),
            final(self).same_identity(old(self)),
            final(self)@ == (RingView {
                last_check: match timer {
                    Some(x) => Some(x as int),
                    None => None,
                },
                ..if short > 0 {
                    old(self)@.with_span(short as int)
                } else {
                    old(self)@
                }
            }),
            job == if short > 0 {
                Some(
                    IoRingJob {
                        ior: old(self).spec_slot() as i32,
                        sqe_proc_tail: old(self)@.proc_tail as i32,
                        to_proc: short,
                    },
                )
            } else {
                None::<IoRingJob>
            },
    {
        let job = if short > 0 {
            Some(self.claim_one(short))
        } else {
            None
        };
        self.last_check = timer;
        job
    }

    /// Claims `n` spans of `d` entries and then, where `short` is positive, one
    /// of `short` entries, and sets the deferral timer.
    fn claim_planned(&mut self, n: i32, d: i32, short: i32, timer: Option<u64>) -> (jobs: Vec<IoRingJob>)
        requires
            old(self).wf(),
            0 <= n,
            0 <= short,
            n >= 1 ==> d >= 1,
            0 <= n * d,
            n * d + short <= old(self)@.claim_avail(),
        ensures
            final(self).wf(),
            final(self).same_identity(old(self)),
            final(self)@ == (RingView {
                last_check: match timer {
                    Some(x) => Some(x as int),
                    None => None,
                },
                ..if short > 0 {
                    full_spans_claimed(old(self)@, n as int, d as int).with_span(short as int)
                } else {
                    full_spans_claimed(old(self)@, n as int, d as int)
                }
            }),
            jobs@.len() == n + if short > 0 {
                1int
            } else {
                0int
            },
            forall|k: int|
                0 <= k < jobs@.len() ==> #[trigger] jobs@[k] == (IoRingJob {
                    ior: old(self).spec_slot() as i32,
                    sqe_proc_tail: ring_add(old(self)@.proc_tail, k * (d as int), old(self)@.entries) as i32,
                    to_proc: if k < n {
                        d
                    } else {
                        short
                    },
                }),
    {
        let ghost v0 = self@;
        let ghost nd = (n as int) * (d as int);
        let mut jobs = if n > 0 {
            self.claim_full_spans(n, d)
        } else {
            proof {
                assert(nd == 0) by (nonlinear_arith)
                    requires
                        n == 0,
                        nd == (n as int) * (d as int),
                ;
                assert(v0.pending =~= v0.pending + Seq::new(
                    0nat,
                    |k: int| ring_add(v0.proc_tail, (k + 1) * (d as int), v0.entries) as i32,
                ));
                assert(self@ == full_spans_claimed(v0, n as int, d as int));
            }
            Vec::new()
        };
        let ghost full = jobs@;
        assert(self@ == full_spans_claimed(v0, n as int, d as int));
        assert(self@.sqe_count() == v0.sqe_count() - nd);
        assert(self@.room() == v0.room() - nd);
        assert(self@.proc_tail == ring_add(v0.proc_tail, nd, v0.entries));
        match self.claim_rest(short, timer) {
            Some(job) => {
                jobs.push(job);
            },
            None => {},
        }
        proof {
            assert forall|k: int| 0 <= k < jobs@.len() implies #[trigger] jobs@[k] == (IoRingJob {
                ior: old(self).spec_slot() as i32,
                sqe_proc_tail: ring_add(v0.proc_tail, k * (d as int), v0.entries) as i32,
                to_proc: if k < n {
                    d
                } else {
                    short
                },
            }) by {
                if k < n {
                    assert(jobs@[k] == full[k]);
                }
            }
        }
        jobs
    }

    /// Works out what a claim takes: the number of full spans, the depth
    /// without its sign, the entries of the short span and the timer after it.
    fn plan_claim(&self, max_jobs: i32, now: u64) -> (plan: (i32, i32, i32, Option<u64>))
        requires
            self.wf(),
            0 < max_jobs,
        ensures
            plan.0 == self@.claim_full(max_jobs as int),
            plan.1 == self@.claim_depth(),
            plan.2 == self@.claim_short(max_jobs as int, now as int),
            match plan.3 {
                Some(x) => Some(x as int),
                None => None,
            } == self@.claim_last_check(max_jobs as int, now as int),
            0 <= plan.0,
            0 <= plan.2,
            plan.0 >= 1 ==> plan.1 >= 1,
            0 <= plan.0 * plan.1,
            plan.0 * plan.1 + plan.2 <= self@.claim_avail(),
    {
        let sqes = self.sqe_count();
        let room = self.entries - 1 - self.processing - self.cqe_count();
        let avail: i32 = if sqes < room {
            sqes
        } else {
            room
        };
        let d: i32 = if self.io_depth < 0 {
            -self.io_depth
        } else {
            self.io_depth
        };
        let n: i32 = if d == 0 || avail <= 0 {
            0
        } else {
            let q = avail / d;
            if max_jobs < q {
                max_jobs
            } else {
                q
            }
        };
        proof {
            if d >= 1 && avail >= 0 {
                lemma_full_spans_fit(avail as int, d as int, n as int);
            } else {
                assert(n * d == 0) by (nonlinear_arith)
                    requires
                        n == 0,
                ;
            }
        }
        let rest = avail - n * d;
        let rest_open = self.io_depth <= 0 && n < max_jobs && rest > 0;
        let over = match self.last_check {
            Some(since) => now >= since && now - since >= self.timeout_ms,
            None => false,
        };
        let short: i32 = if !rest_open {
            0
        } else if self.io_depth == 0 || self.timeout_ms == 0 {
            rest
        } else if n == 0 && over {
            rest
        } else {
            0
        };
        let timer: Option<u64> = if self.io_depth >= 0 {
            self.last_check
        } else if short > 0 {
            None
        } else if rest_open {
            if n == 0 && self.last_check.is_some() {
                self.last_check
            } else {
                Some(now)
            }
        } else if n > 0 {
            None
        } else {
            self.last_check
        };
        (n, d, short, timer)
    }

    /// Claims spans of unclaimed submissions, at most `max_jobs` of them, at
    /// time `now` (milliseconds of a steady clock).
    ///
    /// No more entries are claimed than have room left for their completions.
    /// A positive depth claims spans of exactly that many entries and leaves
    /// a shorter rest alone. Depth zero claims all that is available as one
    /// span. A negative depth claims spans of that many entries and then, if
    /// the claim has not reached `max_jobs`, the shorter rest: at once where
    /// the timeout is zero, else only when nothing but the rest was available
    /// and a deferral that began at an earlier claim has lasted the timeout.
    pub fn jobs_to_proc(&mut self, max_jobs: i32, now: u64) -> (jobs: Vec<IoRingJob>)
        requires
            old(self).wf(),
        ensures
            final(self).wf(),
            final(self).same_identity(old(self)),
            final(self)@ == old(self)@.claimed(max_jobs as int, now as int),
            jobs@.len() == old(self)@.claim_count(max_jobs as int, now as int),
            forall|k: int|
                0 <= k < jobs@.len() ==> #[trigger] jobs@[k] == (IoRingJob {
                    ior: old(self).spec_slot() as i32,
                    sqe_proc_tail: old(self)@.claim_start(k) as i32,
                    to_proc: old(self)@.claim_len(max_jobs as int, now as int, k) as i32,
                }),
            forall|k: int|
                0 <= k < jobs@.len() ==> final(self)@.is_claimed(
                    (#[trigger] jobs@[k]).sqe_proc_tail as int,
                    jobs@[k].to_proc as int,
                ),
            forall|s: int, len: int| #[trigger] old(self)@.is_claimed(s, len) ==> final(self)@.is_claimed(s, len),
    {
        let ghost v0 = self@;
        let ghost mj = max_jobs as int;
        let ghost t = now as int;
        if max_jobs <= 0 {
            proof {
                assert(v0.claimed(mj, t).pending =~= v0.pending);
                assert(0 * v0.claim_depth() == 0) by (nonlinear_arith);
                assert(v0.claimed(mj, t) == v0);
            }
            return Vec::new();
        }
        let (n, d, short, timer) = self.plan_claim(max_jobs, now);
        let jobs = self.claim_planned(n, d, short, timer);
        proof {
            lemma_claim_shape(v0, mj, t, full_spans_claimed(v0, n as int, d as int), self@);
            crate::ring_order::lemma_claim_keeps(v0, mj, t);
            assert forall|k: int| 0 <= k < jobs@.len() implies self@.is_claimed(
                (#[trigger] jobs@[k]).sqe_proc_tail as int,
                jobs@[k].to_proc as int,
            ) by {
                crate::ring_order::lemma_claimed_spans(v0, mj, t, k);
                crate::ring_order::lemma_claim_in_range(v0, mj, t, k);
            }
        }
        jobs
    }

    /// Whether `to_proc` entries from `spt` on are a span that was claimed from
    /// this ring and has not finished.
    pub fn owns_span(&self, spt: i32, to_proc: i32) -> (b: bool)
        requires
            self.wf(),
        ensures
            b == self@.is_claimed(spt as int, to_proc as int),
    {
        broadcast use group_hash_axioms;

        if to_proc < 1 || to_proc >= self.entries || spt < 0 || spt >= self.entries {
            return false;
        }
        let end = wrap_add(spt, to_proc, self.entries);
        let n = self.sqe_proc_tails.len();
        let mut start = self.sqe_tail;
        let mut j: usize = 0;
        while j < n
            invariant
                self.wf(),
                n == self@.pending.len(),
                0 <= j <= n,
                1 <= to_proc < self@.entries,
                0 <= spt < self@.entries,
                start == self@.span_start(j as int),
                end == ring_add(spt as int, to_proc as int, self@.entries),
                forall|i: int|
                    0 <= i < j ==> !(#[trigger] self@.span_start(i) == spt && self@.pending[i] == end
                        && !self@.done.contains(self@.pending[i])),
            decreases n - j,
        {
            let e = self.sqe_proc_tails[j];
            if start == spt && e == end && !self.sqe_done_tails.contains(&e) {
                assert(self@.span_start(j as int) == spt && self@.pending[j as int] == end
                    && !self@.done.contains(self@.pending[j as int]));
                return true;
            }
            start = e;
            j = j + 1;
        }
        false
    }

    /// Finishes the span of `to_proc` entries from `spt` on: pushes one
    /// completion per entry, carrying the entry's request slot and tag and the
    /// result in `res`, and moves the submission tail past every span that has
    /// finished with none unfinished in front of it. A span that finishes
    /// behind an unfinished one is remembered and leaves the tail where it is.
    pub fn process(&mut self, spt: i32, to_proc: i32, res: &Vec<i64>)
        requires
            old(self).wf(),
            old(self)@.is_claimed(spt as int, to_proc as int),
            res@.len() == to_proc,
        ensures
            final(self).wf(),
            final(self).same_identity(old(self)),
            final(self)@ == old(self)@.processed(spt as int, res@),
            forall|s: int, len: int|
                #[trigger] old(self)@.is_claimed(s, len) && s != spt ==> final(self)@.is_claimed(s, len),
    {
        broadcast use group_hash_axioms;

        let ghost v0 = self@;
        proof {
            lemma_mark_wf(v0, spt as int, res@);
            crate::ring_order::lemma_tail_order(v0, spt as int, res@);
        }
        let ch = self.cqe_head;
        let mut i: i32 = 0;
        proof {
            assert(v0.cqes =~= Seq::new(
                v0.cqes.len(),
                |k: int|
                    if ring_dist(v0.cqe_head, k, v0.entries) < 0 {
                        v0.completion_of(spt as int, res@, ring_dist(v0.cqe_head, k, v0.entries))
                    } else {
                        v0.cqes[k]
                    },
            ));
        }
        while i < to_proc
            invariant
                0 <= i <= to_proc,
                res@.len() == to_proc,
                v0.wf(),
                v0.is_claimed(spt as int, to_proc as int),
                v0.cqe_count() + to_proc <= v0.entries - 1,
                ch == v0.cqe_head,
                self.same_identity(old(self)),
                self@ == (RingView {
                    cqes: Seq::new(
                        v0.cqes.len(),
                        |k: int|
                            if ring_dist(v0.cqe_head, k, v0.entries) < i {
                                v0.completion_of(spt as int, res@, ring_dist(v0.cqe_head, k, v0.entries))
                            } else {
                                v0.cqes[k]
                            },
                    ),
                    ..v0
                }),
            decreases to_proc - i,
        {
            let at = wrap_add(spt, i, self.entries);
            let sqe = self.sqe_section[at as usize];
            let to = wrap_add(ch, i, self.entries);
            self.cqe_section.set(
                to as usize,
                IoCqe { index: sqe.index, reserved: 0, result: res[i as usize], userdata: sqe.userdata },
            );
            i = i + 1;
            proof {
                assert(self@.cqes =~= Seq::new(
                    v0.cqes.len(),
                    |k: int|
                        if ring_dist(v0.cqe_head, k, v0.entries) < i {
                            v0.completion_of(spt as int, res@, ring_dist(v0.cqe_head, k, v0.entries))
                        } else {
                            v0.cqes[k]
                        },
                ));
            }
        }
        self.cqe_head = wrap_add(ch, to_proc, self.entries);
        self.processing = self.processing - to_proc;
        let end = wrap_add(spt, to_proc, self.entries);
        self.sqe_done_tails.insert(end);
        let ghost marked = v0.with_completions(spt as int, res@).marked_done(end, to_proc as int);
        assert(self@ == marked);
        loop
            invariant
                self.same_identity(old(self)),
                self@.wf_loose(),
                self@.drained() == marked.drained(),
            ensures
                self@.wf(),
                self@ == marked.drained(),
            decreases self@.pending.len(),
        {
            if self.sqe_proc_tails.len() == 0 {
                break ;
            }
            let first = self.sqe_proc_tails[0];
            if !self.sqe_done_tails.contains(&first) {
                break ;
            }
            proof {
                lemma_drain_step_wf(self@);
            }
            let ghost before = self@;
            self.sqe_done_tails.remove(&first);
            self.sqe_proc_tails.pop_front();
            self.sqe_tail = first;
            proof {
                assert(self@.pending =~= before.pending.skip(1));
                assert(self@ == before.drain_step());
            }
        }
    }

    /// The requests of a claimed span, in submission order: each submission
    /// entry with the descriptor in the request slot it names. Nothing where
    /// an entry of the span names no request slot: the ring has been
    /// corrupted and must be given up.
    pub fn span_requests(&self, spt: i32, to_proc: i32) -> (r: Option<Vec<(IoSqe, IoArgs)>>)
        requires
            self.wf(),
            0 <= spt < self@.entries,
            0 <= to_proc < self@.entries,
        ensures
            r.is_some() <==> self@.span_slots_ok(spt as int, to_proc as int),
            r matches Some(out) ==> {
                &&& out@.len() == to_proc
                &&& forall|i: int|
                    0 <= i < to_proc ==> {
                        let sqe = self@.sqes[ring_add(spt as int, i, self@.entries)];
                        #[trigger] out@[i] == (sqe, self@.args[sqe.index as int])
                    }
            },
    {
        let mut out: Vec<(IoSqe, IoArgs)> = Vec::new();
        let mut i: i32 = 0;
        while i < to_proc
            invariant
                self.wf(),
                0 <= spt < self@.entries,
                0 <= i <= to_proc < self@.entries,
                out@.len() == i,
                forall|k: int|
                    0 <= k < i ==> self@.index_ok(
                        (#[trigger] self@.sqes[ring_add(spt as int, k, self@.entries)]).index as int,
                    ),
                forall|k: int|
                    0 <= k < i ==> {
                        let sqe = self@.sqes[ring_add(spt as int, k, self@.entries)];
                        #[trigger] out@[k] == (sqe, self@.args[sqe.index as int])
                    },
            decreases to_proc - i,
        {
            let at = wrap_add(spt, i, self.entries);
            let sqe = self.sqe_section[at as usize];
            if sqe.index < 0 || sqe.index >= self.entries {
                assert(!self@.index_ok(self@.sqes[ring_add(spt as int, i as int, self@.entries)].index as int));
                return None;
            }
            let args = self.ring_section[sqe.index as usize];
            out.push((sqe, args));
            i = i + 1;
        }
        Some(out)
    }

    /// The results that a span of `to_proc` entries starts from: zero for
    /// each, or for each the negated `ReadOnlyMode` code where the ring
    /// carries writes and the user's configuration forbids them.
    pub fn initial_results(&self, to_proc: i32, readonly: bool) -> (res: Vec<i64>)
        requires
            0 <= to_proc,
        ensures
            res@.len() == to_proc,
            forall|i: int|
                0 <= i < to_proc ==> #[trigger] res@[i] == if !self.spec_for_read() && readonly {
                    -StatusCode::ReadOnlyMode.spec_code()
                } else {
                    0
                },
    {
        let first: i64 = if !self.for_read && readonly {
            -(StatusCode::ReadOnlyMode.code() as i64)
        } else {
            0
        };
        filled(to_proc as usize, first)
    }

    /// Whether the requests of a span of this ring are served at all: those
    /// of a ring that carries writes are not where the user's configuration
    /// forbids writes.
    pub fn serves(&self, readonly: bool) -> (b: bool)
        ensures
            b == (self.spec_for_read() || !readonly),
    {
        self.for_read || !readonly
    }

    /// The result that a request gets before any of its chunks is touched,
    /// once its file and its buffer have been looked up: the negated
    /// `NotFile` code where the file is no regular file or does not exist,
    /// else the negated code with which the lookup of the buffer failed,
    /// else the negated `IovShmFail` code where the buffer has no memory
    /// behind it, else the result it had.
    pub fn lookup_result(current: i64, is_file: bool, buf: Result<bool, Error>) -> (r: i64)
        ensures
            r == lookup_outcome(current as int, is_file, buf),
    {
        if !is_file {
            return -(MetaCode::NotFile.code() as i64);
        }
        match buf {
            Err(e) => -(e.code as i64),
            Ok(mapped) => if mapped {
                current
            } else {
                -(ClientAgentCode::IovShmFail.code() as i64)
            },
        }
    }

    /// What is done next for a request whose file and buffer have been
    /// looked up, on a ring that carries reads or one that carries writes.
    pub fn request_step(current: i64, is_file: bool, buf: Result<bool, Error>, for_read: bool) -> (s: RequestStep)
        ensures
            s == step_after_lookup(current as int, is_file, buf, for_read),
    {
        let r = Self::lookup_result(current, is_file, buf);
        if r < 0 {
            RequestStep::Finish(r)
        } else if for_read {
            RequestStep::Read
        } else {
            RequestStep::Write
        }
    }

    /// Records the descriptor under which the ring is registered and the
    /// mount it serves.
    pub fn register(&mut self, slot: i32, mount_name: String)
        requires
            old(self).wf(),
        ensures
            final(self).wf(),
            final(self)@ == old(self)@,
            final(self).spec_slot() == slot,
            final(self).spec_mount_name() == mount_name@,
            final(self).spec_name() == old(self).spec_name(),
            final(self).spec_priority() == old(self).spec_priority(),
            final(self).spec_for_read() == old(self).spec_for_read(),
            final(self).spec_flags() == old(self).spec_flags(),
    {
        self.slot = slot;
        self.mount_name = mount_name;
    }
}

} // verus!
