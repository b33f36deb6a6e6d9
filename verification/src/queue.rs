//! Bounded dispatch queues, one per priority class, and the order in which a
//! worker looks into them.

use vstd::prelude::*;
use std::collections::VecDeque;
use crate::ring::IoRingJob;
use crate::table::claim_limit;
use crate::table::place_swept;
use crate::table::sweep_jobs;
use crate::table::IoRingTable;

verus! {

/// A first-in first-out queue that holds at most `cap` items.
pub struct BoundedQueue<T> {
    items: VecDeque<T>,
    cap: usize,
}

impl<T> View for BoundedQueue<T> {
    type V = Seq<T>;

    closed spec fn view(&self) -> Seq<T> {
        self.items@
    }
}

impl<T> BoundedQueue<T> {
    /// The bound.
    pub closed spec fn spec_capacity(&self) -> int {
        self.cap as int
    }

    /// The queue never holds more than its bound.
    pub closed spec fn wf(&self) -> bool {
        self.items@.len() <= self.cap
    }

    /// An empty queue that holds at most `cap` items.
    pub fn new(cap: usize) -> (q: BoundedQueue<T>)
        ensures
            q.wf(),
            q@ == Seq::<T>::empty(),
            q.spec_capacity() == cap,
    {
        BoundedQueue { items: VecDeque::new(), cap }
    }

    pub fn capacity(&self) -> (n: usize)
        ensures
            n == self.spec_capacity(),
    {
        self.cap
    }

    pub fn len(&self) -> (n: usize)
        requires
            self.wf(),
        ensures
            n == self@.len(),
            n <= self.spec_capacity(),
    {
        self.items.len()
    }

    pub fn is_empty(&self) -> (b: bool)
        ensures
            b == (self@.len() == 0),
    {
        self.items.len() == 0
    }

    pub fn is_full(&self) -> (b: bool)
        requires
            self.wf(),
        ensures
            b == (self@.len() == self.spec_capacity()),
    {
        self.items.len() >= self.cap
    }

    /// Items that still fit.
    pub fn room(&self) -> (n: usize)
        requires
            self.wf(),
        ensures
            n == self.spec_capacity() - self@.len(),
    {
        self.cap - self.items.len()
    }

    /// Appends `item`, or hands it back where the queue is full.
    pub fn push(&mut self, item: T) -> (back: Option<T>)
        requires
            old(self).wf(),
        ensures
            final(self).wf(),
            final(self).spec_capacity() == old(self).spec_capacity(),
            back.is_some() == (old(self)@.len() == old(self).spec_capacity()),
            back matches Some(x) ==> x == item && final(self)@ == old(self)@,
            back.is_none() ==> final(self)@ == old(self)@.push(item),
    {
        if self.items.len() >= self.cap {
            return Some(item);
        }
        self.items.push_back(item);
        None
    }

    /// Takes the oldest item, if there is one.
    pub fn pop(&mut self) -> (item: Option<T>)
        requires
            old(self).wf(),
        ensures
            final(self).wf(),
            final(self).spec_capacity() == old(self).spec_capacity(),
            item.is_some() == (old(self)@.len() > 0),
            item matches Some(x) ==> x == old(self)@[0] && final(self)@ == old(self)@.skip(1),
            item.is_none() ==> final(self)@ == old(self)@,
    {
        let item = self.items.pop_front();
        proof {
            if item.is_some() {
                assert(self.items@ =~= old(self).items@.skip(1));
            }
        }
        item
    }
}

/// A worker's place in the priority order: the class it is assigned to, and
/// whether it looks into the classes above its own first.
///
/// Class 0 is the highest. A worker that has just served a class above its
/// own looks next into its own class and those below before it looks above
/// again; once it has served its own class or one below, it looks from the
/// top again.
#[derive(Clone, Copy, Debug, PartialEq, Eq, Structural)]
pub struct WorkerState {
    pub prio: usize,
    pub check_higher: bool,
}

/// The class that a worker looks into at step `i` of a round over `levels`
/// classes.
pub open spec fn attempt_at(w: WorkerState, levels: int, i: int) -> int {
    if w.check_higher {
        i
    } else if w.prio + i < levels {
        w.prio + i
    } else {
        w.prio + i - levels
    }
}

impl WorkerState {
    /// A worker of class `prio` that looks from the top first.
    pub fn new(prio: usize) -> (w: WorkerState)
        ensures
            w == (WorkerState { prio, check_higher: true }),
    {
        WorkerState { prio, check_higher: true }
    }

    /// The classes in the order in which the worker looks into them in one
    /// round: from the top down, or from its own class down and then from the
    /// top to the class above its own.
    pub fn attempt_order(&self, levels: usize) -> (order: Vec<usize>)
        requires
            self.prio < levels,
        ensures
            order@.len() == levels,
            forall|i: int| 0 <= i < levels ==> #[trigger] order@[i] == attempt_at(*self, levels as int, i),
    {
        let mut order: Vec<usize> = Vec::new();
        let mut i: usize = 0;
        while i < levels
            invariant
                self.prio < levels,
                0 <= i <= levels,
                order@.len() == i,
                forall|j: int| 0 <= j < i ==> #[trigger] order@[j] == attempt_at(*self, levels as int, j),
            decreases levels - i,
        {
            let level: usize = if self.check_higher {
                i
            } else if i < levels - self.prio {
                self.prio + i
            } else {
                i - (levels - self.prio)
            };
            order.push(level);
            i = i + 1;
        }
        order
    }

    /// The worker after it served an item of class `level`.
    pub open spec fn spec_served(self, level: int) -> WorkerState {
        WorkerState { prio: self.prio, check_higher: level >= self.prio }
    }

    /// Notes that the worker served an item of class `level`.
    pub fn served(&mut self, level: usize)
        ensures
            *final(self) == old(self).spec_served(level as int),
    {
        self.check_higher = level >= self.prio;
    }
}

/// Fairness of a round. Every class is looked into exactly once; and a
/// worker that has just served a class above its own looks into its own class
/// first and into no class above its own before all those at or below it.
pub proof fn lemma_attempt_round(w: WorkerState, levels: int, level: int)
    requires
        0 <= w.prio < levels,
        0 <= level < levels,
    ensures
        exists|i: int| 0 <= i < levels && #[trigger] attempt_at(w, levels, i) == level,
        forall|i: int, j: int|
            0 <= i < j < levels ==> #[trigger] attempt_at(w, levels, i) != #[trigger] attempt_at(w, levels, j),
        !w.check_higher ==> attempt_at(w, levels, 0) == w.prio,
        !w.check_higher ==> forall|i: int, j: int|
            0 <= i < levels && 0 <= j < levels && #[trigger] attempt_at(w, levels, i) < w.prio && w.prio
                <= #[trigger] attempt_at(w, levels, j) ==> j < i,
{
    if w.check_higher {
        assert(attempt_at(w, levels, level) == level);
    } else if level >= w.prio {
        assert(attempt_at(w, levels, level - w.prio) == level);
    } else {
        assert(attempt_at(w, levels, level + levels - w.prio) == level);
    }
}

/// The dispatch queues of all priority classes, the highest first.
pub struct MultiPrioQueue {
    queues: Vec<BoundedQueue<IoRingJob>>,
}

impl MultiPrioQueue {
    /// The queued spans of every class.
    pub closed spec fn view(&self) -> Seq<Seq<IoRingJob>> {
        Seq::new(self.queues@.len(), |i: int| self.queues@[i]@)
    }

    /// The bound of every queue.
    pub closed spec fn spec_queue_size(&self) -> int {
        self.queues@[0].spec_capacity()
    }

    pub closed spec fn wf(&self) -> bool {
        forall|i: int|
            0 <= i < self.queues@.len() ==> (#[trigger] self.queues@[i]).wf() && self.queues@[i].spec_capacity()
                == self.queues@[0].spec_capacity()
    }

    /// `prio_count` empty queues that hold at most `queue_size` spans each.
    pub fn new(queue_size: usize, prio_count: usize) -> (m: MultiPrioQueue)
        ensures
            m.wf(),
            m.view() == Seq::new(prio_count as nat, |i: int| Seq::<IoRingJob>::empty()),
            prio_count > 0 ==> m.spec_queue_size() == queue_size,
    {
        let mut queues: Vec<BoundedQueue<IoRingJob>> = Vec::new();
        let mut i: usize = 0;
        while i < prio_count
            invariant
                0 <= i <= prio_count,
                queues@.len() == i,
                forall|j: int|
                    0 <= j < i ==> (#[trigger] queues@[j]).wf() && queues@[j].spec_capacity() == queue_size
                        && queues@[j]@ == Seq::<IoRingJob>::empty(),
            decreases prio_count - i,
        {
            queues.push(BoundedQueue::new(queue_size));
            i = i + 1;
        }
        let m = MultiPrioQueue { queues };
        assert(m.view() =~= Seq::new(prio_count as nat, |i: int| Seq::<IoRingJob>::empty()));
        m
    }

    /// Number of priority classes.
    pub fn levels(&self) -> (n: usize)
        ensures
            n == self.view().len(),
    {
        self.queues.len()
    }

    /// Spans that still fit into the queue of class `prio`.
    pub fn room(&self, prio: usize) -> (n: usize)
        requires
            self.wf(),
            prio < self.view().len(),
        ensures
            n == self.spec_queue_size() - self.view()[prio as int].len(),
    {
        self.queues[prio].room()
    }

    /// Queues `job` in class `prio`, or hands it back where the class does
    /// not exist or its queue is full.
    pub fn push(&mut self, prio: usize, job: IoRingJob) -> (back: Option<IoRingJob>)
        requires
            old(self).wf(),
        ensures
            final(self).wf(),
            final(self).view().len() == old(self).view().len(),
            back.is_some() == (prio >= old(self).view().len() || old(self).view()[prio as int].len()
                == old(self).spec_queue_size()),
            back matches Some(x) ==> x == job && final(self).view() == old(self).view(),
            back.is_none() ==> final(self).view() == old(self).view().update(
                prio as int,
                old(self).view()[prio as int].push(job),
            ),
            final(self).view().len() > 0 ==> final(self).spec_queue_size() == old(self).spec_queue_size(),
    {
        if prio >= self.queues.len() {
            return Some(job);
        }
        let mut q: BoundedQueue<IoRingJob> = BoundedQueue::new(0);
        self.queues.set_and_swap(prio, &mut q);
        let back = q.push(job);
        self.queues.set_and_swap(prio, &mut q);
        proof {
            if back.is_none() {
                assert(self.view() =~= old(self).view().update(
                    prio as int,
                    old(self).view()[prio as int].push(job),
                ));
            } else {
                assert(self.view() =~= old(self).view());
            }
        }
        back
    }

    /// Takes the oldest span of class `prio`, if the class exists and its
    /// queue is not empty.
    pub fn pop(&mut self, prio: usize) -> (job: Option<IoRingJob>)
        requires
            old(self).wf(),
        ensures
            final(self).wf(),
            final(self).view().len() == old(self).view().len(),
            job.is_some() == (prio < old(self).view().len() && old(self).view()[prio as int].len() > 0),
            job matches Some(x) ==> x == old(self).view()[prio as int][0] && final(self).view() == old(
                self,
            ).view().update(prio as int, old(self).view()[prio as int].skip(1)),
            job.is_none() ==> final(self).view() == old(self).view(),
            final(self).view().len() > 0 ==> final(self).spec_queue_size() == old(self).spec_queue_size(),
    {
        if prio >= self.queues.len() {
            return None;
        }
        let mut q: BoundedQueue<IoRingJob> = BoundedQueue::new(0);
        self.queues.set_and_swap(prio, &mut q);
        let job = q.pop();
        self.queues.set_and_swap(prio, &mut q);
        proof {
            if job.is_some() {
                assert(self.view() =~= old(self).view().update(
                    prio as int,
                    old(self).view()[prio as int].skip(1),
                ));
            } else {
                assert(self.view() =~= old(self).view());
            }
        }
        job
    }

    /// One sweep of the poller of class `prio` over the rings of `table`, into
    /// the queue of the class: see `IoRingTable::sweep`. Nothing is claimed
    /// where the class does not exist.
    pub fn sweep(&mut self, prio: usize, table: &mut IoRingTable, max_jobs: i32, now: u64) -> (count: usize)
        requires
            old(self).wf(),
            old(table).wf(),
        ensures
            final(self).wf(),
            final(table).wf(),
            final(self).view().len() == old(self).view().len(),
            final(table).view().len() == old(table).view().len(),
            final(self).view().len() > 0 ==> final(self).spec_queue_size() == old(self).spec_queue_size(),
            prio >= old(self).view().len() || prio > i32::MAX ==> count == 0 && final(self).view() == old(
                self,
            ).view() && final(table).view() == old(table).view(),
            prio < old(self).view().len() && prio <= i32::MAX ==> {
                let room = old(self).spec_queue_size() - old(self).view()[prio as int].len();
                let jobs = sweep_jobs(
                    old(table).view(),
                    prio as int,
                    max_jobs as int,
                    now as int,
                    room,
                    old(table).view().len() as int,
                );
                &&& count == jobs.len()
                &&& final(self).view() == old(self).view().update(prio as int, old(self).view()[prio as int] + jobs)
                &&& forall|i: int|
                    0 <= i < old(table).view().len() ==> place_swept(
                        old(table).view()[i],
                        #[trigger] final(table).view()[i],
                        prio as int,
                        claim_limit(
                            max_jobs as int,
                            room - sweep_jobs(
                                old(table).view(),
                                prio as int,
                                max_jobs as int,
                                now as int,
                                room,
                                i,
                            ).len(),
                        ),
                        now as int,
                    )
            },
    {
        if prio >= self.queues.len() || prio > 0x7fff_ffff {
            return 0;
        }
        let mut q: BoundedQueue<IoRingJob> = BoundedQueue::new(0);
        self.queues.set_and_swap(prio, &mut q);
        let count = table.sweep(prio as i32, max_jobs, now, &mut q);
        self.queues.set_and_swap(prio, &mut q);
        proof {
            let room = old(self).spec_queue_size() - old(self).view()[prio as int].len();
            let jobs = sweep_jobs(
                old(table).view(),
                prio as int,
                max_jobs as int,
                now as int,
                room,
                old(table).view().len() as int,
            );
            assert(self.view() =~= old(self).view().update(prio as int, old(self).view()[prio as int] + jobs));
        }
        count
    }

    /// The span that the worker serves next without waiting: the oldest of
    /// the first class, in the worker's order, that has one. The worker
    /// remembers the class it served.
    pub fn next_job(&mut self, worker: &mut WorkerState) -> (found: Option<(usize, IoRingJob)>)
        requires
            old(self).wf(),
            old(worker).prio < old(self).view().len(),
        ensures
            final(self).wf(),
            final(self).view().len() == old(self).view().len(),
            final(worker).prio == old(worker).prio,
            found.is_none() <==> (forall|c: int|
                0 <= c < old(self).view().len() ==> (#[trigger] old(self).view()[c]).len() == 0),
            match found {
                Some((level, job)) => {
                    &&& exists|i: int|
                        0 <= i < old(self).view().len() && level == #[trigger] attempt_at(
                            *old(worker),
                            old(self).view().len() as int,
                            i,
                        ) && forall|j: int|
                            0 <= j < i ==> old(self).view()[#[trigger] attempt_at(
                                *old(worker),
                                old(self).view().len() as int,
                                j,
                            )].len() == 0
                    &&& old(self).view()[level as int].len() > 0
                    &&& job == old(self).view()[level as int][0]
                    &&& final(self).view() == old(self).view().update(
                        level as int,
                        old(self).view()[level as int].skip(1),
                    )
                    &&& *final(worker) == old(worker).spec_served(level as int)
                },
                None => {
                    &&& forall|c: int| 0 <= c < old(self).view().len() ==> (#[trigger] old(self).view()[c]).len() == 0
                    &&& final(self).view() == old(self).view()
                    &&& *final(worker) == *old(worker)
                },
            },
    {
        let levels = self.queues.len();
        let order = worker.attempt_order(levels);
        let mut i: usize = 0;
        while i < levels
            invariant
                levels == self.view().len(),
                old(worker).prio < levels,
                *worker == *old(worker),
                self.wf(),
                self.view() == old(self).view(),
                0 <= i <= levels,
                order@.len() == levels,
                forall|j: int| 0 <= j < levels ==> #[trigger] order@[j] == attempt_at(*worker, levels as int, j),
                forall|j: int|
                    0 <= j < i ==> self.view()[#[trigger] attempt_at(*worker, levels as int, j)].len() == 0,
            decreases levels - i,
        {
            let level = order[i];
            assert(level == attempt_at(*worker, levels as int, i as int));
            match self.pop(level) {
                Some(job) => {
                    worker.served(level);
                    return Some((level, job));
                },
                None => {},
            }
            i = i + 1;
        }
        proof {
            assert forall|c: int| 0 <= c < levels implies (#[trigger] self.view()[c]).len() == 0 by {
                lemma_attempt_round(*worker, levels as int, c);
                let k = choose|k: int| 0 <= k < levels && #[trigger] attempt_at(*worker, levels as int, k) == c;
                assert(self.view()[attempt_at(*worker, levels as int, k)].len() == 0);
            }
        }
        None
    }
}

} // verus!
