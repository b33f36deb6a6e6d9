//! Folding the outcomes of per-chunk operations into one result per request.

use vstd::prelude::*;
use crate::status::ClientAgentCode;
use crate::status::Error;
use crate::status::StorageClientCode;

verus! {

/// How one chunk operation ended: the bytes it moved, or why it failed.
#[derive(Clone, Copy, Debug, PartialEq, Eq)]
pub struct IOResult {
    pub length_info: Result<usize, Error>,
}

/// What the reduction reads of a chunk operation.
pub struct IoView {
    /// Index of the request that the operation belongs to.
    pub user_ctx: int,
    /// Bytes that were asked for.
    pub length: int,
    pub result: Result<usize, Error>,
}

/// A chunk operation, as far as the reduction is concerned.
pub trait IO {
    spec fn io_view(&self) -> IoView;

    /// Index of the request that the operation belongs to.
    fn user_ctx(&self) -> (r: usize)
        ensures
            r == self.io_view().user_ctx,
    ;

    /// Bytes that were asked for.
    fn length(&self) -> (r: usize)
        ensures
            r == self.io_view().length,
    ;

    /// How the operation ended.
    fn result(&self) -> (r: IOResult)
        ensures
            r.length_info == self.io_view().result,
    ;
}

/// The outcomes of the operations `ios`, in order.
pub open spec fn io_views<I: IO>(ios: Seq<I>) -> Seq<IoView> {
    Seq::new(ios.len(), |i: int| ios[i].io_view())
}

/// Bytes that an operation reports.
pub open spec fn io_len(io: IoView) -> int {
    match io.result {
        Ok(n) => n as int,
        Err(_) => 0,
    }
}

/// Whether the outcome is a read of a chunk that does not exist.
pub open spec fn is_missing_chunk(io: IoView, read: bool) -> bool {
    read && match io.result {
        Ok(_) => false,
        Err(e) => e.code == StorageClientCode::ChunkNotFound.spec_code(),
    }
}

/// The reduction after some of the operations.
pub struct ReduceState {
    /// Running result of every request.
    pub res: Seq<i64>,
    /// For every operation, the byte of its destination from which on zeros
    /// are to stand.
    pub fill: Seq<usize>,
    /// Bytes of the gap that is open at the end of the current request.
    pub gap: int,
    /// Operation at which the open gap began.
    pub from: int,
    /// Request of the operation seen last.
    pub last: int,
}

/// The state before any operation: nothing to fill, no gap.
pub open spec fn reduce_init(ios: Seq<IoView>, res: Seq<i64>) -> ReduceState {
    ReduceState { res, fill: Seq::new(ios.len(), |i: int| ios[i].length as usize), gap: 0, from: 0, last: -1 }
}

/// `fill` with the operations from `from` up to `k` filled from the end of
/// what they reported.
pub open spec fn fill_marked(fill: Seq<usize>, ios: Seq<IoView>, from: int, k: int) -> Seq<usize> {
    Seq::new(
        fill.len(),
        |i: int|
            if from <= i < k {
                io_len(ios[i]) as usize
            } else {
                fill[i]
            },
    )
}

/// The state after an operation that moved no bytes and is no failure: its
/// whole length joins the gap.
pub open spec fn reduce_widen(s: ReduceState, k: int, io: IoView) -> ReduceState {
    ReduceState {
        gap: s.gap + io.length,
        from: if s.gap == 0 {
            k
        } else {
            s.from
        },
        ..s
    }
}

/// The state after the `k`-th operation.
///
/// A request whose result is negative stays as it is. A failure makes the
/// result the negated code. A read of a chunk that does not exist counts as
/// an operation that moved nothing. Bytes that arrive behind a gap close it:
/// for a read that allows holes the gap is counted and marked for filling,
/// otherwise the result becomes the negated `HoleInIoOutcome` code. What an
/// operation moved is added; what it fell short of opens or widens the gap.
pub open spec fn reduce_step(s: ReduceState, ios: Seq<IoView>, k: int, read: bool, allow_holes: bool) -> ReduceState {
    let io = ios[k];
    let idx = io.user_ctx;
    let base = if idx != s.last {
        ReduceState { gap: 0, from: k, last: idx, ..s }
    } else {
        s
    };
    let r = s.res[idx];
    if r < 0 {
        base
    } else {
        match io.result {
            Ok(n) => {
                if n > 0 && base.gap > 0 && !(read && allow_holes) {
                    ReduceState {
                        res: s.res.update(idx, (-ClientAgentCode::HoleInIoOutcome.spec_code()) as i64),
                        ..base
                    }
                } else {
                    let closing = n > 0 && base.gap > 0;
                    let r1 = if closing {
                        r + base.gap
                    } else {
                        r as int
                    };
                    let gap1 = if closing {
                        0
                    } else {
                        base.gap
                    };
                    ReduceState {
                        res: s.res.update(idx, (r1 + n) as i64),
                        fill: if closing {
                            fill_marked(s.fill, ios, base.from, k)
                        } else {
                            s.fill
                        },
                        gap: if n < io.length {
                            gap1 + io.length - n
                        } else {
                            gap1
                        },
                        from: if n < io.length && gap1 == 0 {
                            k
                        } else {
                            base.from
                        },
                        last: idx,
                    }
                }
            },
            Err(e) => {
                if is_missing_chunk(io, read) {
                    reduce_widen(base, k, io)
                } else {
                    ReduceState { res: s.res.update(idx, (-e.code) as i64), ..base }
                }
            },
        }
    }
}

/// The state after the first `k` operations.
pub open spec fn reduce_upto(ios: Seq<IoView>, res: Seq<i64>, read: bool, allow_holes: bool, k: int) -> ReduceState
    decreases k,
{
    if k <= 0 {
        reduce_init(ios, res)
    } else {
        reduce_step(reduce_upto(ios, res, read, allow_holes, k - 1), ios, k - 1, read, allow_holes)
    }
}

/// The state after all operations.
pub open spec fn reduced(ios: Seq<IoView>, res: Seq<i64>, read: bool, allow_holes: bool) -> ReduceState {
    reduce_upto(ios, res, read, allow_holes, ios.len() as int)
}

/// The larger of what an operation asked for and what it reports.
pub open spec fn io_weight(io: IoView) -> int {
    if io_len(io) > io.length {
        io_len(io)
    } else {
        io.length
    }
}

/// Sum of the weights of the first `k` operations.
pub open spec fn weight_upto(ios: Seq<IoView>, k: int) -> int
    decreases k,
{
    if k <= 0 {
        0
    } else {
        weight_upto(ios, k - 1) + io_weight(ios[k - 1])
    }
}

/// Whether the code of a failure is one: codes are positive, so that the
/// negated code in a result slot is told from a length by its sign.
pub open spec fn code_ok(result: Result<usize, Error>) -> bool {
    match result {
        Ok(_) => true,
        Err(e) => e.code > 0,
    }
}

/// Whether every operation names a request and reports a length or the code
/// of a failure, and no running result can leave the range of a result slot:
/// every starting result, and 2^31, stay within range when all that the
/// operations asked for or report is added.
pub open spec fn reduce_fits(ios: Seq<IoView>, res: Seq<i64>) -> bool {
    &&& forall|i: int| 0 <= i < ios.len() ==> 0 <= (#[trigger] ios[i]).user_ctx < res.len()
    &&& forall|i: int| 0 <= i < ios.len() ==> 0 <= (#[trigger] ios[i]).length <= usize::MAX
    &&& forall|i: int| 0 <= i < ios.len() ==> code_ok((#[trigger] ios[i]).result)
    &&& 0x8000_0000 + weight_upto(ios, ios.len() as int) <= i64::MAX
    &&& forall|j: int| 0 <= j < res.len() ==> #[trigger] res[j] + weight_upto(ios, ios.len() as int) <= i64::MAX
}

proof fn lemma_weight_nonneg(ios: Seq<IoView>, a: int)
    requires
        0 <= a <= ios.len(),
        forall|i: int| 0 <= i < ios.len() ==> 0 <= (#[trigger] ios[i]).length,
    ensures
        0 <= weight_upto(ios, a),
    decreases a,
{
    if a > 0 {
        lemma_weight_nonneg(ios, a - 1);
    }
}

proof fn lemma_weight_mono(ios: Seq<IoView>, a: int, b: int)
    requires
        0 <= a <= b <= ios.len(),
        forall|i: int| 0 <= i < ios.len() ==> 0 <= (#[trigger] ios[i]).length,
    ensures
        0 <= weight_upto(ios, a) <= weight_upto(ios, b),
    decreases b - a,
{
    lemma_weight_nonneg(ios, a);
    if a < b {
        lemma_weight_mono(ios, a, b - 1);
    }
}

/// What stays in range over the whole reduction.
pub open spec fn reduce_bounded(s: ReduceState, ios: Seq<IoView>, res: Seq<i64>, k: int) -> bool {
    &&& s.res.len() == res.len()
    &&& s.fill.len() == ios.len()
    &&& 0 <= s.gap <= weight_upto(ios, k)
    &&& 0 <= s.from <= k
    &&& -1 <= s.last < res.len()
    &&& s.gap > 0 ==> s.from < k && 0 <= s.last
    &&& forall|j: int|
        0 <= j < res.len() ==> -0x8000_0000 <= #[trigger] s.res[j] || s.res[j] == res[j]
    &&& forall|j: int|
        0 <= j < res.len() ==> #[trigger] s.res[j] + (if j == s.last {
            s.gap
        } else {
            0
        }) <= weight_upto(ios, k) + 0x8000_0000 || s.res[j] + (if j == s.last {
            s.gap
        } else {
            0
        }) <= weight_upto(ios, k) + res[j]
}

/// Every state of a reduction that fits stays in range.
pub proof fn lemma_reduce_bounded(ios: Seq<IoView>, res: Seq<i64>, read: bool, allow_holes: bool, k: int)
    requires
        reduce_fits(ios, res),
        0 <= k <= ios.len(),
    ensures
        reduce_bounded(reduce_upto(ios, res, read, allow_holes, k), ios, res, k),
    decreases k,
{
    if k > 0 {
        lemma_reduce_bounded(ios, res, read, allow_holes, k - 1);
        lemma_weight_mono(ios, k - 1, k);
        lemma_weight_mono(ios, k, ios.len() as int);
        let s = reduce_upto(ios, res, read, allow_holes, k - 1);
        let t = reduce_step(s, ios, k - 1, read, allow_holes);
        let io = ios[k - 1];
        assert(0 <= io.user_ctx < res.len());
        assert(0 <= io.length);
        assert(weight_upto(ios, k) == weight_upto(ios, k - 1) + io_weight(io));
        assert(reduce_bounded(t, ios, res, k));
    }
}

/// The result of every request after the operations `ios`, folded in order
/// onto the starting results in `res`; and, for every operation, the byte of
/// its destination from which on zeros are to stand (its length where
/// nothing is to be filled).
pub fn concat_io_res<I: IO>(read: bool, res: &mut Vec<i64>, ios: &Vec<I>, allow_holes: bool) -> (fill: Vec<usize>)
    requires
        reduce_fits(io_views(ios@), old(res)@),
    ensures
        final(res)@ == reduced(io_views(ios@), old(res)@, read, allow_holes).res,
        fill@ == reduced(io_views(ios@), old(res)@, read, allow_holes).fill,
{
    let ghost views = io_views(ios@);
    let ghost res0 = res@;
    let n = ios.len();
    let mut fill: Vec<usize> = Vec::new();
    let mut i: usize = 0;
    while i < n
        invariant
            n == ios@.len(),
            views == io_views(ios@),
            0 <= i <= n,
            fill@ == Seq::new(i as nat, |j: int| views[j].length as usize),
        decreases n - i,
    {
        fill.push(ios[i].length());
        i = i + 1;
        assert(fill@ =~= Seq::new(i as nat, |j: int| views[j].length as usize));
    }
    assert(fill@ =~= reduce_init(views, res0).fill);
    let mut gap: i64 = 0;
    let mut from: usize = 0;
    let mut last: Option<usize> = None;
    let mut k: usize = 0;
    while k < n
        invariant
            n == ios@.len(),
            views == io_views(ios@),
            reduce_fits(views, res0),
            0 <= k <= n,
            reduce_upto(views, res0, read, allow_holes, k as int) == (ReduceState {
                res: res@,
                fill: fill@,
                gap: gap as int,
                from: from as int,
                last: match last {
                    Some(x) => x as int,
                    None => -1,
                },
            }),
        decreases n - k,
    {
        let ghost s = reduce_upto(views, res0, read, allow_holes, k as int);
        let ghost t = reduce_step(s, views, k as int, read, allow_holes);
        proof {
            lemma_reduce_bounded(views, res0, read, allow_holes, k as int);
            lemma_reduce_bounded(views, res0, read, allow_holes, k as int + 1);
            lemma_weight_mono(views, k as int, n as int);
            lemma_weight_mono(views, k as int + 1, n as int);
            assert(views[k as int] == ios@[k as int].io_view());
        }
        let idx = ios[k].user_ctx();
        let len = ios[k].length();
        let outcome = ios[k].result();
        let same = match last {
            Some(x) => x == idx,
            None => false,
        };
        if !same {
            gap = 0;
            from = k;
        }
        last = Some(idx);
        let r = res[idx];
        if r >= 0 {
            match outcome.length_info {
                Ok(moved) => {
                    if moved > 0 && gap > 0 && !(read && allow_holes) {
                        res.set(idx, -(ClientAgentCode::HoleInIoOutcome.code() as i64));
                    } else {
                        let mut total: i64 = r;
                        if moved > 0 && gap > 0 {
                            let mut j: usize = from;
                            while j < k
                                invariant
                                    n == ios@.len(),
                                    views == io_views(ios@),
                                    from <= j <= k < n,
                                    fill@.len() == n,
                                    fill@ == fill_marked(s.fill, views, from as int, j as int),
                                decreases k - j,
                            {
                                let got = match ios[j].result().length_info {
                                    Ok(m) => m,
                                    Err(_) => 0,
                                };
                                proof {
                                    assert(views[j as int] == ios@[j as int].io_view());
                                }
                                fill.set(j, got);
                                j = j + 1;
                                assert(fill@ =~= fill_marked(s.fill, views, from as int, j as int));
                            }
                            total = total + gap;
                            gap = 0;
                        }
                        res.set(idx, total + moved as i64);
                        if moved < len {
                            if gap == 0 {
                                from = k;
                            }
                            gap = gap + (len - moved) as i64;
                        }
                    }
                },
                Err(e) => {
                    if read && e.code == StorageClientCode::ChunkNotFound.code() {
                        if gap == 0 {
                            from = k;
                        }
                        gap = gap + len as i64;
                    } else {
                        res.set(idx, -(e.code as i64));
                    }
                },
            }
        }
        k = k + 1;
        proof {
            assert(res@ =~= t.res);
            assert(fill@ =~= t.fill);
        }
    }
    fill
}


/// Sum of what the first `k` operations asked for.
pub open spec fn length_upto(ios: Seq<IoView>, k: int) -> int
    decreases k,
{
    if k <= 0 {
        0
    } else {
        length_upto(ios, k - 1) + ios[k - 1].length
    }
}

/// Whether the outcome is a failure that ends its request.
pub open spec fn is_failure(io: IoView, read: bool) -> bool {
    match io.result {
        Ok(_) => false,
        Err(_) => !is_missing_chunk(io, read),
    }
}

/// Sum. Where all operations belong to one request that has not failed, and
/// each moved exactly what it was asked for, the result of the request is its
/// starting result and the sum of the lengths; no other result changes and
/// nothing is to be filled.
pub proof fn lemma_reduce_sum(ios: Seq<IoView>, res: Seq<i64>, read: bool, allow_holes: bool, idx: int, k: int)
    requires
        reduce_fits(ios, res),
        0 <= k <= ios.len(),
        0 <= idx < res.len(),
        res[idx] >= 0,
        forall|i: int| 0 <= i < k ==> (#[trigger] ios[i]).user_ctx == idx,
        forall|i: int| 0 <= i < k ==> (#[trigger] ios[i]).result == Ok::<usize, Error>(ios[i].length as usize),
    ensures
        reduce_upto(ios, res, read, allow_holes, k).res == res.update(
            idx,
            (res[idx] + length_upto(ios, k)) as i64,
        ),
        reduce_upto(ios, res, read, allow_holes, k).gap == 0,
        reduce_upto(ios, res, read, allow_holes, k).fill == reduce_init(ios, res).fill,
        length_upto(ios, k) == weight_upto(ios, k),
    decreases k,
{
    if k > 0 {
        lemma_reduce_sum(ios, res, read, allow_holes, idx, k - 1);
        lemma_weight_mono(ios, k, ios.len() as int);
        lemma_weight_mono(ios, k - 1, k);
        let s = reduce_upto(ios, res, read, allow_holes, k - 1);
        let t = reduce_step(s, ios, k - 1, read, allow_holes);
        assert(0 <= ios[k - 1].length <= usize::MAX);
        assert(ios[k - 1].user_ctx == idx);
        assert(t.res =~= res.update(idx, (res[idx] + length_upto(ios, k)) as i64));
    } else {
        assert(res =~= res.update(idx, res[idx]));
    }
}

/// Sum of what those of the first `k` operations asked for that belong to
/// request `idx`.
pub open spec fn length_of(ios: Seq<IoView>, idx: int, k: int) -> int
    decreases k,
{
    if k <= 0 {
        0
    } else {
        length_of(ios, idx, k - 1) + if ios[k - 1].user_ctx == idx {
            ios[k - 1].length
        } else {
            0
        }
    }
}

proof fn lemma_length_of_bound(ios: Seq<IoView>, idx: int, k: int)
    requires
        0 <= k <= ios.len(),
        forall|i: int| 0 <= i < ios.len() ==> 0 <= (#[trigger] ios[i]).length,
    ensures
        0 <= length_of(ios, idx, k) <= weight_upto(ios, k),
    decreases k,
{
    if k > 0 {
        lemma_length_of_bound(ios, idx, k - 1);
        assert(0 <= ios[k - 1].length);
    }
}

/// Sums. Where the operations belong to any number of requests, in any
/// order, none of which has failed, and each operation moved exactly what it
/// was asked for, the result of every request is its starting result and the
/// sum of the lengths of its own operations; nothing is to be filled.
pub proof fn lemma_reduce_sums(ios: Seq<IoView>, res: Seq<i64>, read: bool, allow_holes: bool, k: int)
    requires
        reduce_fits(ios, res),
        0 <= k <= ios.len(),
        forall|i: int| 0 <= i < k ==> res[(#[trigger] ios[i]).user_ctx] >= 0,
        forall|i: int| 0 <= i < k ==> (#[trigger] ios[i]).result == Ok::<usize, Error>(ios[i].length as usize),
    ensures
        reduce_upto(ios, res, read, allow_holes, k).res.len() == res.len(),
        forall|j: int|
            0 <= j < res.len() ==> #[trigger] reduce_upto(ios, res, read, allow_holes, k).res[j] == res[j]
                + length_of(ios, j, k),
        reduce_upto(ios, res, read, allow_holes, k).gap == 0,
        reduce_upto(ios, res, read, allow_holes, k).fill == reduce_init(ios, res).fill,
    decreases k,
{
    if k > 0 {
        lemma_reduce_sums(ios, res, read, allow_holes, k - 1);
        lemma_weight_mono(ios, k, ios.len() as int);
        let s = reduce_upto(ios, res, read, allow_holes, k - 1);
        let t = reduce_step(s, ios, k - 1, read, allow_holes);
        let io = ios[k - 1];
        let idx = io.user_ctx;
        assert(0 <= idx < res.len());
        assert(0 <= io.length <= usize::MAX);
        assert(res[idx] >= 0);
        lemma_length_of_bound(ios, idx, k - 1);
        lemma_length_of_bound(ios, idx, k);
        assert(s.res[idx] == res[idx] + length_of(ios, idx, k - 1));
        assert(res[idx] + weight_upto(ios, ios.len() as int) <= i64::MAX);
        assert(t.res == s.res.update(idx, (s.res[idx] + io.length) as i64));
        assert forall|j: int| 0 <= j < res.len() implies #[trigger] t.res[j] == res[j] + length_of(ios, j, k) by {
            if j != idx {
                assert(t.res[j] == s.res[j]);
            }
        }
    }
}

/// A missing chunk is no failure. In a read that allows holes, a request
/// that has not failed and whose operations each report a length or a chunk
/// that does not exist never gets a negative result, whatever the operations
/// of other requests report.
pub proof fn lemma_reduce_missing_chunk(ios: Seq<IoView>, res: Seq<i64>, idx: int, k: int)
    requires
        reduce_fits(ios, res),
        0 <= k <= ios.len(),
        0 <= idx < res.len(),
        res[idx] >= 0,
        forall|i: int|
            0 <= i < k && (#[trigger] ios[i]).user_ctx == idx ==> ios[i].result is Ok || is_missing_chunk(
                ios[i],
                true,
            ),
    ensures
        reduce_upto(ios, res, true, true, k).res[idx] >= 0,
    decreases k,
{
    if k > 0 {
        lemma_reduce_missing_chunk(ios, res, idx, k - 1);
        lemma_reduce_bounded(ios, res, true, true, k - 1);
        lemma_weight_mono(ios, k, ios.len() as int);
        lemma_weight_mono(ios, k - 1, k);
        let s = reduce_upto(ios, res, true, true, k - 1);
        let t = reduce_step(s, ios, k - 1, true, true);
        let io = ios[k - 1];
        assert(0 <= io.user_ctx < res.len());
        assert(0 <= io.length <= usize::MAX);
        assert(weight_upto(ios, k) == weight_upto(ios, k - 1) + io_weight(io));
        if io.user_ctx != idx {
            assert(t.res[idx] == s.res[idx]);
        } else {
            assert(io.result is Ok || is_missing_chunk(io, true));
            assert(res[idx] + weight_upto(ios, ios.len() as int) <= i64::MAX);
            assert(t.res[idx] >= 0);
        }
    }
}

/// Stickiness. The result of a request that is negative after `k`
/// operations is what it is in the end: later operations leave it alone.
pub proof fn lemma_reduce_sticky(
    ios: Seq<IoView>,
    res: Seq<i64>,
    read: bool,
    allow_holes: bool,
    idx: int,
    k: int,
    m: int,
)
    requires
        reduce_fits(ios, res),
        0 <= k <= m <= ios.len(),
        0 <= idx < res.len(),
        reduce_upto(ios, res, read, allow_holes, k).res[idx] < 0,
    ensures
        reduce_upto(ios, res, read, allow_holes, m).res[idx] == reduce_upto(
            ios,
            res,
            read,
            allow_holes,
            k,
        ).res[idx],
    decreases m - k,
{
    if k < m {
        lemma_reduce_sticky(ios, res, read, allow_holes, idx, k, m - 1);
        lemma_reduce_bounded(ios, res, read, allow_holes, m - 1);
        assert(0 <= ios[m - 1].user_ctx < res.len());
    }
}

/// Failure. An operation that fails, of a request that has not failed
/// before, makes the result of the request the negated code, and that is the
/// result in the end.
pub proof fn lemma_reduce_failure(ios: Seq<IoView>, res: Seq<i64>, read: bool, allow_holes: bool, k: int)
    requires
        reduce_fits(ios, res),
        0 <= k < ios.len(),
        is_failure(ios[k], read),
        reduce_upto(ios, res, read, allow_holes, k).res[ios[k].user_ctx] >= 0,
    ensures
        reduced(ios, res, read, allow_holes).res[ios[k].user_ctx] == -ios[k].result->Err_0.code,
{
    lemma_reduce_bounded(ios, res, read, allow_holes, k);
    assert(0 <= ios[k].user_ctx < res.len());
    let t = reduce_upto(ios, res, read, allow_holes, k + 1);
    assert(t.res[ios[k].user_ctx] == -ios[k].result->Err_0.code);
    lemma_reduce_sticky(ios, res, read, allow_holes, ios[k].user_ctx, k + 1, ios.len() as int);
}

/// Holes. In a read that allows holes, bytes that arrive right behind an
/// operation of the same request that fell short, or whose chunk does not
/// exist, close the gap: the result counts the whole length of the short
/// operation as well as the bytes that arrived, and the short operation's
/// destination is filled with zeros from the end of what it reported.
pub proof fn lemma_reduce_hole(ios: Seq<IoView>, res: Seq<i64>, k: int)
    requires
        reduce_fits(ios, res),
        0 <= k,
        k + 1 < ios.len(),
        ios[k].user_ctx == ios[k + 1].user_ctx,
        reduce_upto(ios, res, true, true, k).res[ios[k].user_ctx] >= 0,
        !is_failure(ios[k], true),
        io_len(ios[k]) < ios[k].length,
        ios[k].result is Ok || is_missing_chunk(ios[k], true),
        ios[k + 1].result is Ok,
        io_len(ios[k + 1]) > 0,
    ensures
        ({
            let before = reduce_upto(ios, res, true, true, k);
            let after = reduce_upto(ios, res, true, true, k + 2);
            let idx = ios[k].user_ctx;
            let open = if before.last == idx {
                before.gap
            } else {
                0
            };
            &&& after.res[idx] == before.res[idx] + open + ios[k].length + io_len(ios[k + 1])
            &&& after.fill[k] == io_len(ios[k])
        }),
{
    lemma_reduce_bounded(ios, res, true, true, k);
    lemma_reduce_bounded(ios, res, true, true, k + 1);
    lemma_reduce_bounded(ios, res, true, true, k + 2);
    lemma_weight_mono(ios, k + 2, ios.len() as int);
    lemma_weight_mono(ios, k + 1, k + 2);
    lemma_weight_mono(ios, k, k + 1);
    let before = reduce_upto(ios, res, true, true, k);
    let mid = reduce_upto(ios, res, true, true, k + 1);
    let after = reduce_upto(ios, res, true, true, k + 2);
    let idx = ios[k].user_ctx;
    assert(0 <= idx < res.len());
    assert(mid == reduce_step(before, ios, k, true, true));
    assert(after == reduce_step(mid, ios, k + 1, true, true));
    assert(mid.gap > 0);
    assert(mid.from <= k);
}


/// Whether the operations `ios` can be folded onto the results `res`: each
/// names a result slot, every failure carries a positive code, and every
/// running result stays in range.
pub fn fits<I: IO>(res: &Vec<i64>, ios: &Vec<I>) -> (b: bool)
    ensures
        b == reduce_fits(io_views(ios@), res@),
{
    let ghost views = io_views(ios@);
    let n = ios.len();
    let slots = res.len();
    let mut total: i64 = 0;
    let mut k: usize = 0;
    while k < n
        invariant
            n == ios@.len(),
            slots == res@.len(),
            views == io_views(ios@),
            0 <= k <= n,
            total == weight_upto(views, k as int),
            0 <= total,
            forall|i: int| 0 <= i < k ==> 0 <= (#[trigger] views[i]).user_ctx < slots,
            forall|i: int| 0 <= i < k ==> 0 <= (#[trigger] views[i]).length <= usize::MAX,
            forall|i: int| 0 <= i < k ==> code_ok((#[trigger] views[i]).result),
        decreases n - k,
    {
        proof {
            assert(views[k as int] == ios@[k as int].io_view());
        }
        if ios[k].user_ctx() >= slots {
            return false;
        }
        let len = ios[k].length();
        let moved = match ios[k].result().length_info {
            Ok(m) => m,
            Err(e) => {
                if e.code <= 0 {
                    assert(!code_ok(views[k as int].result));
                    return false;
                }
                0
            },
        };
        let w: usize = if moved > len {
            moved
        } else {
            len
        };
        if w as u64 > (i64::MAX - total) as u64 {
            proof {
                if reduce_fits(views, res@) {
                    lemma_weight_mono(views, k as int + 1, n as int);
                }
            }
            return false;
        }
        total = total + w as i64;
        k = k + 1;
    }
    if 0x8000_0000 > i64::MAX - total {
        return false;
    }
    let mut j: usize = 0;
    while j < slots
        invariant
            slots == res@.len(),
            0 <= j <= slots,
            0 <= total,
            n == views.len(),
            views == io_views(ios@),
            total == weight_upto(views, n as int),
            forall|i: int| 0 <= i < j ==> #[trigger] res@[i] + total <= i64::MAX,
        decreases slots - j,
    {
        if res[j] > i64::MAX - total {
            assert(res@[j as int] + weight_upto(views, views.len() as int) > i64::MAX);
            return false;
        }
        j = j + 1;
    }
    true
}

} // verus!
