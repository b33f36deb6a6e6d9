//! What holds of every ring: how many submissions it takes, that claimed
//! spans never overlap, and that the submission tail follows claim order.

use vstd::prelude::*;
use crate::ring::chain_ok;
use crate::ring::ring_add;
use crate::ring::ring_dist;
use crate::ring::span_start_of;
use crate::ring::IoSqe;
use crate::ring::RingView;
use crate::ring::lemma_drain_step_wf;
use crate::ring::lemma_mark_wf;
use crate::ring_lemmas::lemma_chain_distinct;
use crate::ring_lemmas::lemma_span_len;

verus! {

/// Capacity. A ring of `entries` slots holds at most `entries - 1`
/// outstanding submissions: from a ring with `k` outstanding, every one of up
/// to `entries - 1 - k` successive submissions with no completion in between
/// succeeds, and after exactly that many the next one fails.
pub proof fn lemma_capacity(v: RingView, sqes: Seq<IoSqe>)
    requires
        v.wf(),
        sqes.len() <= v.entries - 1 - v.outstanding(),
    ensures
        v.submitted_all(sqes).wf(),
        v.submitted_all(sqes).sqe_tail == v.sqe_tail,
        v.submitted_all(sqes).entries == v.entries,
        v.submitted_all(sqes).outstanding() == v.outstanding() + sqes.len(),
        v.submitted_all(sqes).can_submit() <==> sqes.len() < v.entries - 1 - v.outstanding(),
        v.can_submit() <==> v.outstanding() < v.entries - 1,
    decreases sqes.len(),
{
    if sqes.len() > 0 {
        let init = sqes.drop_last();
        lemma_capacity(v, init);
        let u = v.submitted_all(init);
        assert(u.can_submit());
        let w = u.submitted(sqes.last());
        assert(w.wf());
    }
}

/// Capacity of an empty ring. Of `entries` submissions into a ring of
/// `entries` slots that holds none, with no completion in between, the first
/// `entries - 1` succeed, one after the other, and the last one fails.
pub proof fn lemma_capacity_from_empty(v: RingView, sqes: Seq<IoSqe>)
    requires
        v.wf(),
        v.sqe_head == v.sqe_tail,
        sqes.len() == v.entries,
    ensures
        forall|k: int| 0 <= k < v.entries - 1 ==> #[trigger] v.submitted_all(sqes.take(k)).can_submit(),
        !v.submitted_all(sqes.take(v.entries - 1)).can_submit(),
        v.submitted_all(sqes.take(v.entries - 1)).outstanding() == v.entries - 1,
{
    assert(v.outstanding() == 0);
    assert forall|k: int| 0 <= k <= v.entries - 1 implies (#[trigger] v.submitted_all(sqes.take(k)).can_submit()
        <==> k < v.entries - 1) && v.submitted_all(sqes.take(k)).outstanding() == k by {
        lemma_capacity(v, sqes.take(k));
    }
}

/// No overlap. Two different pending spans of a ring share no entry: the
/// `a`-th entry of one is never the `b`-th entry of the other.
pub proof fn lemma_spans_disjoint(v: RingView, i: int, j: int, a: int, b: int)
    requires
        v.wf(),
        0 <= i < j < v.pending.len(),
        0 <= a < v.span_len(i),
        0 <= b < v.span_len(j),
    ensures
        ring_add(v.span_start(i), a, v.entries) != ring_add(v.span_start(j), b, v.entries),
{
    lemma_span_len(v.pending, v.sqe_tail, v.entries, i);
    lemma_span_len(v.pending, v.sqe_tail, v.entries, j);
    let n = v.entries;
    let t = v.sqe_tail;
    let si = v.span_start(i);
    let sj = v.span_start(j);
    assert(0 <= v.pending[i] < n);
    assert(0 <= v.pending[j] < n);
    assert(0 <= v.pending[j - 1] < n);
    if i > 0 {
        assert(0 <= v.pending[i - 1] < n);
    }
    if i < j - 1 {
        assert(ring_dist(t, v.pending[i] as int, n) < ring_dist(t, v.pending[j - 1] as int, n));
    }
    assert(ring_dist(t, si, n) + a < ring_dist(t, v.pending[i] as int, n));
    assert(ring_dist(t, v.pending[i] as int, n) <= ring_dist(t, sj, n));
    assert(ring_dist(t, sj, n) + b < ring_dist(t, v.pending[j] as int, n));
    assert(ring_dist(t, ring_add(si, a, n), n) == ring_dist(t, si, n) + a);
    assert(ring_dist(t, ring_add(sj, b, n), n) == ring_dist(t, sj, n) + b);
}

/// Every span that a claim takes is, in the ring after the claim, a pending
/// span that has not finished, with the first entry and the length that the
/// claim reports for it.
pub proof fn lemma_claimed_spans(v: RingView, max_jobs: int, now: int, k: int)
    requires
        v.wf(),
        0 <= k < v.claim_count(max_jobs, now),
    ensures
        v.claimed(max_jobs, now).is_claimed(v.claim_start(k), v.claim_len(max_jobs, now, k)),
        v.claimed(max_jobs, now).span_start(v.pending.len() + k) == v.claim_start(k),
        v.claimed(max_jobs, now).pending[v.pending.len() + k] == ring_add(
            v.claim_start(k),
            v.claim_len(max_jobs, now, k),
            v.entries,
        ),
{
    let w = v.claimed(max_jobs, now);
    let n = v.claim_full(max_jobs);
    let d = v.claim_depth();
    let short = v.claim_short(max_jobs, now);
    let a = v.claim_avail();
    let base = v.pending.len() as int;
    assert(0 <= v.sqe_count() < v.entries);
    if n > 0 {
        vstd::arithmetic::div_mod::lemma_fundamental_div_mod(a, d);
        vstd::arithmetic::div_mod::lemma_mod_bound(a, d);
        assert(n * d <= (a / d) * d) by (nonlinear_arith)
            requires
                0 <= n <= a / d,
                1 <= d,
        ;
        assert((a / d) * d == d * (a / d)) by (nonlinear_arith);
    } else {
        assert(n * d == 0) by (nonlinear_arith)
            requires
                n == 0,
        ;
    }
    assert(0 <= k * d && (k < n ==> (k + 1) * d <= n * d) && (k + 1) * d == k * d + d && (k == n ==> k
        * d == n * d)) by (nonlinear_arith)
        requires
            0 <= k <= n,
            0 <= d,
    ;
    let start = v.claim_start(k);
    let len = v.claim_len(max_jobs, now, k);
    assert(w.pending[base + k] == v.claim_end(max_jobs, now, k) as i32);
    if k > 0 {
        assert(w.pending[base + k - 1] == v.claim_end(max_jobs, now, k - 1) as i32);
        assert(k * d == (k - 1 + 1) * d);
    } else if base > 0 {
        assert(w.pending[base - 1] == v.pending[base - 1]);
    }
    assert(w.span_start(base + k) == start);
    assert(!w.done.contains(w.pending[base + k])) by {
        if v.done.contains(w.pending[base + k]) {
            let x = w.pending[base + k];
            assert(v.pending.contains(x));
            let i = choose|i: int| 0 <= i < v.pending.len() && v.pending[i] == x;
            assert(ring_dist(v.sqe_tail, v.pending[i] as int, v.entries) <= ring_dist(
                v.sqe_tail,
                v.proc_tail,
                v.entries,
            )) by {
                if i < base - 1 {
                    assert(ring_dist(v.sqe_tail, v.pending[i] as int, v.entries) < ring_dist(
                        v.sqe_tail,
                        v.pending[base - 1] as int,
                        v.entries,
                    ));
                }
            }
        }
    }
}

/// The first entry and the length of a span that a claim takes fit the
/// indices of the ring.
pub proof fn lemma_claim_in_range(v: RingView, max_jobs: int, now: int, k: int)
    requires
        v.wf(),
        0 <= k < v.claim_count(max_jobs, now),
    ensures
        0 <= v.claim_start(k) < v.entries,
        1 <= v.claim_len(max_jobs, now, k) < v.entries,
{
    lemma_claimed_spans(v, max_jobs, now, k);
}

/// A claim leaves every span that was claimed before claimed.
pub proof fn lemma_claim_keeps(v: RingView, max_jobs: int, now: int)
    requires
        v.wf(),
    ensures
        forall|s: int, len: int| #[trigger] v.is_claimed(s, len) ==> v.claimed(max_jobs, now).is_claimed(s, len),
{
    let w = v.claimed(max_jobs, now);
    assert forall|s: int, len: int| #[trigger] v.is_claimed(s, len) implies w.is_claimed(s, len) by {
        let i = choose|i: int|
            0 <= i < v.pending.len() && #[trigger] v.span_start(i) == s && v.pending[i] == ring_add(
                s,
                len,
                v.entries,
            ) && !v.done.contains(v.pending[i]);
        assert(w.pending[i] == v.pending[i]);
        if i > 0 {
            assert(w.pending[i - 1] == v.pending[i - 1]);
        }
        assert(w.span_start(i) == s);
    }
}

/// Where the tail stands after `u` has been drained: past the first `n` spans,
/// all of them finished, and in front of an unfinished one or of nothing.
pub proof fn lemma_drained(u: RingView) -> (n: int)
    requires
        u.wf_loose(),
    ensures
        0 <= n <= u.pending.len(),
        forall|i: int| 0 <= i < n ==> u.done.contains(#[trigger] u.pending[i]),
        n < u.pending.len() ==> !u.done.contains(u.pending[n]),
        u.drained().wf(),
        u.drained().pending == u.pending.skip(n),
        u.drained().sqe_tail == span_start_of(u.pending, u.sqe_tail, n),
        forall|x: i32|
            #[trigger] u.drained().done.contains(x) <==> u.done.contains(x) && u.pending.skip(n).contains(x),
        u.drained() == (RingView {
            sqe_tail: u.drained().sqe_tail,
            pending: u.drained().pending,
            done: u.drained().done,
            ..u
        }),
    decreases u.pending.len(),
{
    if u.pending.len() > 0 && u.done.contains(u.pending[0]) {
        let u1 = u.drain_step();
        lemma_drain_step_wf(u);
        let m = lemma_drained(u1);
        let w = u1.drained();
        assert(u.pending.skip(1).skip(m) =~= u.pending.skip(m + 1));
        assert forall|i: int| 0 <= i < m + 1 implies u.done.contains(#[trigger] u.pending[i]) by {
            if i > 0 {
                assert(u1.pending[i - 1] == u.pending[i]);
                assert(u1.done.contains(u1.pending[i - 1]));
            }
        }
        if m + 1 < u.pending.len() {
            assert(u1.pending[m] == u.pending[m + 1]);
            lemma_chain_distinct(u.pending, u.sqe_tail, u.entries, m + 1, 0);
        }
        if m > 0 {
            assert(u1.pending[m - 1] == u.pending[m]);
        }
        assert forall|x: i32| #[trigger] w.done.contains(x) <==> u.done.contains(x) && u.pending.skip(
            m + 1,
        ).contains(x) by {
            if u.done.contains(x) && u.pending.skip(m + 1).contains(x) {
                let rest = u.pending.skip(m + 1);
                let i = choose|i: int| 0 <= i < rest.len() && rest[i] == x;
                lemma_chain_distinct(u.pending, u.sqe_tail, u.entries, m + 1 + i, 0);
                assert(u.pending[m + 1 + i] == x);
            }
        }
        m + 1
    } else {
        assert(u.pending.skip(0) =~= u.pending);
        assert forall|x: i32| #[trigger] u.done.contains(x) implies u.pending.skip(0).contains(x) by {
            assert(u.pending.contains(x));
        }
        0
    }
}

proof fn lemma_claim_survives(v: RingView, w: RingView, n: int, end: i32, s: int, len: int)
    requires
        chain_ok(v.pending, v.sqe_tail, v.entries),
        0 <= n <= v.pending.len(),
        w.entries == v.entries,
        w.pending == v.pending.skip(n),
        w.sqe_tail == span_start_of(v.pending, v.sqe_tail, n),
        forall|i: int| 0 <= i < n ==> v.done.contains(#[trigger] v.pending[i]) || v.pending[i] == end,
        forall|x: i32| #[trigger] w.done.contains(x) ==> v.done.contains(x) || x == end,
        v.is_claimed(s, len),
        ring_add(s, len, v.entries) != end,
    ensures
        w.is_claimed(s, len),
{
    let i = choose|i: int|
        0 <= i < v.pending.len() && #[trigger] v.span_start(i) == s && v.pending[i] == ring_add(
            s,
            len,
            v.entries,
        ) && !v.done.contains(v.pending[i]);
    assert(i >= n);
    assert(w.pending[i - n] == v.pending[i]);
    if i > n {
        assert(w.pending[i - n - 1] == v.pending[i - 1]);
    }
    assert(w.span_start(i - n) == s);
}

/// Order. When a claimed span finishes, in whatever order the spans of a
/// ring finish, the submission tail moves only past spans that have all
/// finished: it never passes an unfinished span. A span that finishes behind
/// an unfinished one leaves the tail and the pending spans as they are, and
/// every other unfinished span stays claimed.
pub proof fn lemma_tail_order(v: RingView, spt: int, res: Seq<i64>) -> (n: int)
    requires
        v.wf(),
        v.is_claimed(spt, res.len() as int),
    ensures
        v.processed(spt, res).wf(),
        0 <= n <= v.pending.len(),
        v.processed(spt, res).pending == v.pending.skip(n),
        v.processed(spt, res).sqe_tail == span_start_of(v.pending, v.sqe_tail, n),
        forall|i: int|
            0 <= i < n ==> v.done.contains(#[trigger] v.pending[i]) || v.pending[i] == ring_add(
                spt,
                res.len() as int,
                v.entries,
            ),
        spt != v.sqe_tail ==> n == 0,
        forall|s: int, len: int|
            #[trigger] v.is_claimed(s, len) && s != spt ==> v.processed(spt, res).is_claimed(s, len),
{
    let end = ring_add(spt, res.len() as int, v.entries) as i32;
    lemma_mark_wf(v, spt, res);
    let u = v.with_completions(spt, res).marked_done(end, res.len() as int);
    let n = lemma_drained(u);
    let w = u.drained();
    assert(w == v.processed(spt, res));
    assert(u.pending == v.pending);
    assert(u.sqe_tail == v.sqe_tail);
    let j = choose|j: int|
        0 <= j < v.pending.len() && #[trigger] v.span_start(j) == spt && v.pending[j] == ring_add(
            spt,
            res.len() as int,
            v.entries,
        ) && !v.done.contains(v.pending[j]);
    if spt != v.sqe_tail {
        assert(j > 0);
        lemma_chain_distinct(v.pending, v.sqe_tail, v.entries, j, 0);
        assert(!u.done.contains(u.pending[0]));
    }
    assert forall|i: int| 0 <= i < n implies v.done.contains(#[trigger] v.pending[i]) || v.pending[i]
        == end by {
        assert(u.done.contains(u.pending[i]));
    }
    assert forall|x: i32| #[trigger] w.done.contains(x) implies v.done.contains(x) || x == end by {
        assert(u.done.contains(x));
    }
    assert forall|s: int, len: int| #[trigger] v.is_claimed(s, len) && s != spt implies w.is_claimed(
        s,
        len,
    ) by {
        let i = choose|i: int|
            0 <= i < v.pending.len() && #[trigger] v.span_start(i) == s && v.pending[i] == ring_add(
                s,
                len,
                v.entries,
            ) && !v.done.contains(v.pending[i]);
        assert(i != j);
        lemma_chain_distinct(v.pending, v.sqe_tail, v.entries, i, j);
        lemma_claim_survives(v, w, n, end, s, len);
    }
    n
}

} // verus!
