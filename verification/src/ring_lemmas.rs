//! Facts about the chain of pending spans that the ring operations rest on.

use vstd::prelude::*;
use crate::ring::chain_ok;
use crate::ring::ring_dist;
use crate::ring::span_len_of;
use crate::ring::span_start_of;
use crate::ring::unfinished_sum;

verus! {

/// The ends of a chain are pairwise distinct.
pub proof fn lemma_chain_distinct(pending: Seq<i32>, tail: int, n: int, i: int, j: int)
    requires
        chain_ok(pending, tail, n),
        0 <= i < pending.len(),
        0 <= j < pending.len(),
        i != j,
    ensures
        pending[i] != pending[j],
{
    if i < j {
        assert(ring_dist(tail, pending[i] as int, n) < ring_dist(tail, pending[j] as int, n));
    } else {
        assert(ring_dist(tail, pending[j] as int, n) < ring_dist(tail, pending[i] as int, n));
    }
}

/// A span of a chain has as many entries as its end lies past its start.
pub proof fn lemma_span_len(pending: Seq<i32>, tail: int, n: int, i: int)
    requires
        chain_ok(pending, tail, n),
        0 <= tail < n,
        0 <= i < pending.len(),
    ensures
        span_len_of(pending, tail, n, i) == ring_dist(tail, pending[i] as int, n) - ring_dist(
            tail,
            span_start_of(pending, tail, i),
            n,
        ),
        span_len_of(pending, tail, n, i) >= 1,
{
    if i > 0 {
        assert(ring_dist(tail, pending[i - 1] as int, n) < ring_dist(tail, pending[i] as int, n));
        assert(0 <= pending[i - 1] < n);
    }
    assert(0 <= pending[i] < n);
    assert(ring_dist(tail, pending[i] as int, n) >= 1);
}

/// The unfinished entries of the first `k` spans are no more than the entries
/// of those spans, and no fewer than those of any unfinished span among them.
pub proof fn lemma_unfinished_bounds(pending: Seq<i32>, done: Set<i32>, tail: int, n: int, k: int)
    requires
        chain_ok(pending, tail, n),
        0 <= tail < n,
        0 <= k <= pending.len(),
    ensures
        0 <= unfinished_sum(pending, done, tail, n, k),
        unfinished_sum(pending, done, tail, n, k) <= ring_dist(tail, span_start_of(pending, tail, k), n),
        forall|j: int|
            0 <= j < k && !done.contains(pending[j]) ==> unfinished_sum(pending, done, tail, n, k)
                >= #[trigger] span_len_of(pending, tail, n, j),
    decreases k,
{
    if k > 0 {
        lemma_unfinished_bounds(pending, done, tail, n, k - 1);
        lemma_span_len(pending, tail, n, k - 1);
    }
}

/// The sum over the first `k` spans looks at the first `k` ends only.
pub proof fn lemma_unfinished_prefix(first: Seq<i32>, second: Seq<i32>, done: Set<i32>, tail: int, n: int, k: int)
    requires
        0 <= k <= first.len(),
        k <= second.len(),
        forall|i: int| 0 <= i < k ==> first[i] == second[i],
    ensures
        unfinished_sum(first, done, tail, n, k) == unfinished_sum(second, done, tail, n, k),
    decreases k,
{
    if k > 0 {
        lemma_unfinished_prefix(first, second, done, tail, n, k - 1);
    }
}

/// Marking an unfinished span as done takes its entries out of the sum.
pub proof fn lemma_unfinished_mark(pending: Seq<i32>, done: Set<i32>, tail: int, n: int, k: int, j: int)
    requires
        chain_ok(pending, tail, n),
        0 <= j < pending.len(),
        !done.contains(pending[j]),
        0 <= k <= pending.len(),
    ensures
        unfinished_sum(pending, done.insert(pending[j]), tail, n, k) == unfinished_sum(
            pending,
            done,
            tail,
            n,
            k,
        ) - if j < k {
            span_len_of(pending, tail, n, j)
        } else {
            0
        },
    decreases k,
{
    if k > 0 {
        lemma_unfinished_mark(pending, done, tail, n, k - 1, j);
        if k - 1 != j {
            lemma_chain_distinct(pending, tail, n, k - 1, j);
        }
    }
}

/// Dropping a finished first span, and moving the tail to its end, leaves the
/// sum as it was.
pub proof fn lemma_unfinished_pop(pending: Seq<i32>, done: Set<i32>, tail: int, n: int, k: int)
    requires
        chain_ok(pending, tail, n),
        pending.len() >= 1,
        done.contains(pending[0]),
        1 <= k <= pending.len(),
    ensures
        unfinished_sum(pending, done, tail, n, k) == unfinished_sum(
            pending.skip(1),
            done.remove(pending[0]),
            pending[0] as int,
            n,
            k - 1,
        ),
    decreases k,
{
    if k > 1 {
        lemma_unfinished_pop(pending, done, tail, n, k - 1);
        lemma_chain_distinct(pending, tail, n, k - 1, 0);
        assert(pending.skip(1)[k - 2] == pending[k - 1]);
        if k > 2 {
            assert(pending.skip(1)[k - 3] == pending[k - 2]);
        }
    } else {
        assert(unfinished_sum(pending, done, tail, n, 0) == 0);
        assert(unfinished_sum(pending.skip(1), done.remove(pending[0]), pending[0] as int, n, 0) == 0);
    }
}

/// The chain that is left when the tail moves to the end of the first span.
pub proof fn lemma_chain_pop(pending: Seq<i32>, tail: int, n: int)
    requires
        chain_ok(pending, tail, n),
        0 <= tail < n,
        pending.len() >= 1,
    ensures
        chain_ok(pending.skip(1), pending[0] as int, n),
        forall|i: int|
            1 <= i < pending.len() ==> ring_dist(pending[0] as int, #[trigger] pending[i] as int, n)
                == ring_dist(tail, pending[i] as int, n) - ring_dist(tail, pending[0] as int, n),
{
    let rest = pending.skip(1);
    let t2 = pending[0] as int;
    assert(0 <= pending[0] < n);
    assert forall|i: int| 1 <= i < pending.len() implies ring_dist(t2, #[trigger] pending[i] as int, n)
        == ring_dist(tail, pending[i] as int, n) - ring_dist(tail, t2, n) by {
        assert(ring_dist(tail, pending[0] as int, n) < ring_dist(tail, pending[i] as int, n));
        assert(0 <= pending[i] < n);
    }
    assert forall|i: int| 0 <= i < rest.len() implies 0 <= #[trigger] rest[i] < n by {
        assert(rest[i] == pending[i + 1]);
    }
    assert forall|i: int| 0 <= i < rest.len() implies ring_dist(t2, (#[trigger] rest[i]) as int, n)
        >= 1 by {
        assert(rest[i] == pending[i + 1]);
    }
    assert forall|i: int, j: int| 0 <= i < j < rest.len() implies ring_dist(
        t2,
        (#[trigger] rest[i]) as int,
        n,
    ) < ring_dist(t2, (#[trigger] rest[j]) as int, n) by {
        assert(rest[i] == pending[i + 1]);
        assert(rest[j] == pending[j + 1]);
        assert(ring_dist(tail, pending[i + 1] as int, n) < ring_dist(tail, pending[j + 1] as int, n));
    }
}

/// The chain that results when one more span of `len` entries is claimed.
pub proof fn lemma_chain_push(pending: Seq<i32>, tail: int, n: int, proc_tail: int, end: i32, len: int)
    requires
        chain_ok(pending, tail, n),
        0 <= tail < n,
        0 <= proc_tail < n,
        proc_tail == span_start_of(pending, tail, pending.len() as int),
        1 <= len,
        ring_dist(tail, proc_tail, n) + len < n,
        end == crate::ring::ring_add(proc_tail, len, n),
    ensures
        chain_ok(pending.push(end), tail, n),
        ring_dist(tail, end as int, n) == ring_dist(tail, proc_tail, n) + len,
        span_len_of(pending.push(end), tail, n, pending.len() as int) == len,
        forall|i: int| 0 <= i < pending.len() ==> pending[i] != end,
{
    let ext = pending.push(end);
    assert(ring_dist(tail, end as int, n) == ring_dist(tail, proc_tail, n) + len);
    assert forall|i: int| 0 <= i < pending.len() implies ring_dist(tail, #[trigger] pending[i] as int, n)
        <= ring_dist(tail, proc_tail, n) by {
        if i < pending.len() - 1 {
            assert(ring_dist(tail, pending[i] as int, n) < ring_dist(
                tail,
                pending[pending.len() - 1] as int,
                n,
            ));
        }
    }
    assert forall|i: int| 0 <= i < ext.len() implies 0 <= #[trigger] ext[i] < n by {
        if i < pending.len() {
            assert(ext[i] == pending[i]);
        }
    }
    assert forall|i: int| 0 <= i < ext.len() implies ring_dist(tail, (#[trigger] ext[i]) as int, n)
        >= 1 by {
        if i < pending.len() {
            assert(ext[i] == pending[i]);
        }
    }
    assert forall|i: int, j: int| 0 <= i < j < ext.len() implies ring_dist(
        tail,
        (#[trigger] ext[i]) as int,
        n,
    ) < ring_dist(tail, (#[trigger] ext[j]) as int, n) by {
        assert(ext[i] == pending[i]);
        if j < pending.len() {
            assert(ext[j] == pending[j]);
        }
    }
    assert forall|i: int| 0 <= i < pending.len() implies pending[i] != end by {
        assert(ring_dist(tail, pending[i] as int, n) <= ring_dist(tail, proc_tail, n));
    }
}

} // verus!
