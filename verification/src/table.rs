//! The registry of the rings that clients have opened.

use vstd::prelude::*;
use crate::iov::IorAttrs;
use crate::queue::BoundedQueue;
use crate::ring::region_accepted;
use crate::wire::drain_ok;
use crate::ring::region_view;
use crate::ring::IoArgs;
use crate::ring::IoCqe;
use crate::ring::IoRing;
use crate::ring::IoRingJob;
use crate::ring::IoSqe;
use crate::ring::RingView;
use crate::status::ClientAgentCode;
use crate::status::Error;
use crate::status::MetaCode;
use crate::status::StatusCode;
use crate::wire::drained_count;
use crate::wire::pull_completion_tail;
use crate::wire::pull_count;
use crate::wire::pull_ok;
use crate::wire::pull_submissions;
use crate::wire::pulled;

verus! {

/// The rings that are open, each under a descriptor: its place in the table.
pub struct IoRingTable {
    io_rings: Vec<Option<IoRing>>,
}

/// Lowest free place of `rings` at or behind `i`, or their number.
pub open spec fn free_from(rings: Seq<Option<IoRing>>, i: int) -> int
    decreases rings.len() - i,
{
    if i >= rings.len() {
        rings.len() as int
    } else if rings[i].is_none() {
        i
    } else {
        free_from(rings, i + 1)
    }
}

/// The descriptor that the next ring gets, if there is one: the lowest free
/// place that a descriptor can name.
pub open spec fn next_descriptor(rings: Seq<Option<IoRing>>) -> Option<int> {
    if free_from(rings, 0) < rings.len() && free_from(rings, 0) <= i32::MAX {
        Some(free_from(rings, 0))
    } else {
        None
    }
}

/// The smaller of the spans that one claim may take and the spans that still
/// fit into the queue.
pub open spec fn claim_limit(max_jobs: int, room: int) -> int {
    if max_jobs < room {
        max_jobs
    } else {
        room
    }
}

/// The spans that a claim of at most `max_jobs` spans at time `now` takes
/// from the ring.
pub open spec fn claim_jobs(ring: IoRing, max_jobs: int, now: int) -> Seq<IoRingJob> {
    Seq::new(
        ring@.claim_count(max_jobs, now) as nat,
        |j: int|
            IoRingJob {
                ior: ring.spec_slot() as i32,
                sqe_proc_tail: ring@.claim_start(j) as i32,
                to_proc: ring@.claim_len(max_jobs, now, j) as i32,
            },
    )
}

/// The spans that a sweep of class `prio` takes from what stands in one place
/// of the table.
pub open spec fn place_jobs(place: Option<IoRing>, prio: int, max_jobs: int, now: int) -> Seq<IoRingJob> {
    match place {
        Some(ring) => if ring.spec_priority() == prio {
            claim_jobs(ring, max_jobs, now)
        } else {
            Seq::empty()
        },
        None => Seq::empty(),
    }
}

/// The spans that a sweep of class `prio` takes from the first `k` places,
/// in the order of the places. A ring may give up to `max_jobs` spans, and
/// no more than fit into a queue with `room` places left when the sweep began.
pub open spec fn sweep_jobs(
    rings: Seq<Option<IoRing>>,
    prio: int,
    max_jobs: int,
    now: int,
    room: int,
    k: int,
) -> Seq<IoRingJob>
    decreases k,
{
    if k <= 0 {
        Seq::empty()
    } else {
        let before = sweep_jobs(rings, prio, max_jobs, now, room, k - 1);
        before + place_jobs(rings[k - 1], prio, claim_limit(max_jobs, room - before.len()), now)
    }
}

/// Whether `after` is what a sweep of class `prio` leaves of the place `before`.
pub open spec fn place_swept(
    before: Option<IoRing>,
    after: Option<IoRing>,
    prio: int,
    max_jobs: int,
    now: int,
) -> bool {
    match before {
        Some(ring) => if ring.spec_priority() == prio {
            &&& after.is_some()
            &&& after->Some_0.wf()
            &&& after->Some_0.same_identity(&ring)
            &&& after->Some_0@ == ring@.claimed(max_jobs, now)
        } else {
            after == before
        },
        None => after.is_none(),
    }
}

/// Taking submissions over leaves the completion queue as it is.
pub proof fn lemma_pulled_frame(v: RingView, region: Seq<u8>, k: int)
    requires
        0 <= k,
    ensures
        pulled(v, region, k).entries == v.entries,
        pulled(v, region, k).cqe_head == v.cqe_head,
        pulled(v, region, k).cqe_tail == v.cqe_tail,
        pulled(v, region, k).cqes == v.cqes,
    decreases k,
{
    if k > 0 {
        lemma_pulled_frame(v, region, k - 1);
    }
}

impl IoRingTable {
    /// What stands in every place.
    pub closed spec fn view(&self) -> Seq<Option<IoRing>> {
        self.io_rings@
    }

    /// Every ring is sound and knows its descriptor.
    pub open spec fn wf(&self) -> bool {
        forall|i: int|
            0 <= i < self.view().len() ==> ((#[trigger] self.view()[i]) matches Some(ring) ==> ring.wf()
                && ring.spec_slot() == i)
    }

    /// A table with `cap` places, all free.
    pub fn new(cap: usize) -> (t: IoRingTable)
        ensures
            t.wf(),
            t.view() == Seq::new(cap as nat, |i: int| None::<IoRing>),
    {
        let mut io_rings: Vec<Option<IoRing>> = Vec::new();
        let mut i: usize = 0;
        while i < cap
            invariant
                0 <= i <= cap,
                io_rings@ == Seq::new(i as nat, |j: int| None::<IoRing>),
            decreases cap - i,
        {
            io_rings.push(None);
            i = i + 1;
            assert(io_rings@ =~= Seq::new(i as nat, |j: int| None::<IoRing>));
        }
        IoRingTable { io_rings }
    }

    /// Number of places.
    pub fn capacity(&self) -> (n: usize)
        ensures
            n == self.view().len(),
    {
        self.io_rings.len()
    }

    /// The lowest free place, if a descriptor can name one.
    fn find_free(&self) -> (r: Option<usize>)
        ensures
            match r {
                Some(i) => next_descriptor(self.view()) == Some(i as int),
                None => next_descriptor(self.view()).is_none(),
            },
    {
        let n = self.io_rings.len();
        let mut i: usize = 0;
        while i < n && self.io_rings[i].is_some()
            invariant
                n == self.view().len(),
                0 <= i <= n,
                free_from(self.view(), i as int) == free_from(self.view(), 0),
            decreases n - i,
        {
            i = i + 1;
        }
        if i < n && i <= 0x7fff_ffff {
            Some(i)
        } else {
            None
        }
    }

    /// Opens the ring that lives in a region of `size` bytes whose first
    /// bytes are `buf`, and registers it under the lowest free descriptor.
    ///
    /// `TooManyOpenFiles` where no descriptor is free; `InvalidArg` where the
    /// region cannot back a ring. Nothing changes then.
    pub fn add_io_ring(
        &mut self,
        mount_name: String,
        name: String,
        for_read: bool,
        buf: &[u8],
        size: usize,
        io_depth: i32,
        attrs: IorAttrs,
    ) -> (r: Result<i32, Error>)
        requires
            old(self).wf(),
        ensures
            final(self).wf(),
            r.is_ok() <==> next_descriptor(old(self).view()).is_some() && region_accepted(
                buf@,
                size as int,
                io_depth as int,
            ),
            r matches Ok(idx) ==> {
                &&& Some(idx as int) == next_descriptor(old(self).view())
                &&& final(self).view().len() == old(self).view().len()
                &&& forall|i: int|
                    0 <= i < old(self).view().len() && i != idx ==> final(self).view()[i] == old(
                        self,
                    ).view()[i]
                &&& final(self).view()[idx as int] matches Some(ring) && {
                    &&& ring@ == region_view(buf@, size as int, io_depth as int, attrs.timeout_ms as int)
                    &&& ring.spec_name() == name@
                    &&& ring.spec_mount_name() == mount_name@
                    &&& ring.spec_priority() == attrs.priority
                    &&& ring.spec_for_read() == for_read
                    &&& ring.spec_flags() == attrs.flags
                }
            },
            r matches Err(e) ==> {
                &&& final(self).view() == old(self).view()
                &&& e.code == if next_descriptor(old(self).view()).is_none() {
                    ClientAgentCode::TooManyOpenFiles.spec_code()
                } else {
                    StatusCode::InvalidArg.spec_code()
                }
            },
    {
        let idx = match self.find_free() {
            Some(i) => i,
            None => {
                return Err(Error::agent(ClientAgentCode::TooManyOpenFiles));
            },
        };
        let mut ring = match IoRing::new(
            name,
            for_read,
            buf,
            size,
            io_depth,
            attrs.priority,
            attrs.timeout_ms,
            attrs.flags,
        ) {
            Ok(ring) => ring,
            Err(e) => {
                return Err(e);
            },
        };
        ring.register(idx as i32, mount_name);
        self.io_rings.set(idx, Some(ring));
        Ok(idx as i32)
    }

    /// Closes the ring under descriptor `idx`, if there is one.
    pub fn remove_io_ring(&mut self, idx: i32)
        requires
            old(self).wf(),
        ensures
            final(self).wf(),
            final(self).view() == if 0 <= idx < old(self).view().len() {
                old(self).view().update(idx as int, None)
            } else {
                old(self).view()
            },
    {
        if idx >= 0 && (idx as usize) < self.io_rings.len() {
            self.io_rings.set(idx as usize, None);
        }
    }

    /// Whether a ring is open under descriptor `idx`.
    pub fn is_open(&self, idx: i32) -> (b: bool)
        ensures
            b == (0 <= idx < self.view().len() && self.view()[idx as int].is_some()),
    {
        idx >= 0 && (idx as usize) < self.io_rings.len() && self.io_rings[idx as usize].is_some()
    }

    /// The priority class of the ring under descriptor `idx`.
    pub fn priority_of(&self, idx: i32) -> (p: Option<i32>)
        ensures
            p.is_some() == (0 <= idx < self.view().len() && self.view()[idx as int].is_some()),
            p matches Some(v) ==> v == self.view()[idx as int]->Some_0.spec_priority(),
    {
        if idx >= 0 && (idx as usize) < self.io_rings.len() {
            match &self.io_rings[idx as usize] {
                Some(ring) => Some(ring.priority()),
                None => None,
            }
        } else {
            None
        }
    }

    /// The ring under descriptor `idx`, if one is open.
    pub fn ring(&self, idx: i32) -> (r: Option<&IoRing>)
        ensures
            r.is_some() == (0 <= idx < self.view().len() && self.view()[idx as int].is_some()),
            r matches Some(ring) ==> Some(*ring) == self.view()[idx as int],
    {
        if idx >= 0 && (idx as usize) < self.io_rings.len() {
            self.io_rings[idx as usize].as_ref()
        } else {
            None
        }
    }

    /// Takes over, on the ring under descriptor `idx`, what the producer has
    /// pushed into `region` since the last time, and notes how far the
    /// producer has drained the completions. Returns the number of entries
    /// taken over; where it is positive, the pollers of the ring's class are
    /// to be woken.
    ///
    /// Succeeds exactly where a ring is open under `idx`, the producer's
    /// submissions are in order and so is its completion tail. `NotFound`
    /// where no ring is open under `idx`. `InvalidArg` where the producer's
    /// part of the region is not in order: the ring must be given up. Nothing
    /// changes then, but that the entries have been taken over where only the
    /// completion tail is out of order.
    pub fn pull(&mut self, idx: i32, region: &[u8]) -> (r: Result<i32, Error>)
        requires
            old(self).wf(),
        ensures
            final(self).wf(),
            final(self).view().len() == old(self).view().len(),
            forall|i: int|
                0 <= i < old(self).view().len() && i != idx ==> final(self).view()[i] == old(self).view()[i],
            r.is_ok() <==> {
                &&& 0 <= idx < old(self).view().len()
                &&& old(self).view()[idx as int] matches Some(before)
                &&& pull_ok(before@, region@)
                &&& drain_ok(before@, region@)
            },
            match r {
                Ok(n) => {
                    &&& 0 <= idx < old(self).view().len()
                    &&& old(self).view()[idx as int] matches Some(before)
                    &&& final(self).view()[idx as int] matches Some(after)
                    &&& pull_ok(before@, region@)
                    &&& n == pull_count(before@, region@)
                    &&& after.same_identity(&before)
                    &&& drained_count(pulled(before@, region@, n as int), region@) <= before@.cqe_count()
                    &&& after@ == pulled(before@, region@, n as int).completions_drained(
                        drained_count(pulled(before@, region@, n as int), region@),
                    )
                },
                Err(e) => {
                    if 0 <= idx < old(self).view().len() && old(self).view()[idx as int].is_some() {
                        &&& e.code == StatusCode::InvalidArg.spec_code()
                        &&& final(self).view()[idx as int] matches Some(after)
                        &&& after.same_identity(&old(self).view()[idx as int]->Some_0)
                        &&& after@ == if pull_ok(old(self).view()[idx as int]->Some_0@, region@) {
                            pulled(
                                old(self).view()[idx as int]->Some_0@,
                                region@,
                                pull_count(old(self).view()[idx as int]->Some_0@, region@),
                            )
                        } else {
                            old(self).view()[idx as int]->Some_0@
                        }
                    } else {
                        e.code == MetaCode::NotFound.spec_code() && final(self).view() == old(self).view()
                    }
                },
            },
    {
        if !self.is_open(idx) {
            return Err(Error::meta(MetaCode::NotFound));
        }
        let at = idx as usize;
        let mut place: Option<IoRing> = None;
        self.io_rings.set_and_swap(at, &mut place);
        let mut ring = place.unwrap();
        let ghost before = ring;
        let pushed = pull_submissions(&mut ring, region);
        let r = match pushed {
            Ok(n) => {
                proof {
                    lemma_pulled_frame(before@, region@, n as int);
                }
                match pull_completion_tail(&mut ring, region) {
                    Ok(_) => Ok(n),
                    Err(e) => Err(e),
                }
            },
            Err(e) => Err(e),
        };
        self.io_rings.set(at, Some(ring));
        r
    }

    /// Submits, on the ring under descriptor `idx`, the request `args` in
    /// request slot `slot` with the tag `tag`.
    ///
    /// `Ok(true)` where the entry was pushed, and the pollers of the ring's
    /// class are to be woken; `Ok(false)`, with nothing changed, where the
    /// ring is full. `NotFound` where no ring is open under `idx`;
    /// `InvalidArg` where the ring has no such request slot.
    pub fn submit(&mut self, idx: i32, slot: i32, args: IoArgs, tag: u64) -> (r: Result<bool, Error>)
        requires
            old(self).wf(),
        ensures
            final(self).wf(),
            final(self).view().len() == old(self).view().len(),
            forall|i: int|
                0 <= i < old(self).view().len() && i != idx ==> final(self).view()[i] == old(self).view()[i],
            r.is_ok() <==> {
                &&& 0 <= idx < old(self).view().len()
                &&& old(self).view()[idx as int] matches Some(before)
                &&& 0 <= slot < before@.entries
            },
            match r {
                Ok(pushed) => {
                    &&& 0 <= idx < old(self).view().len()
                    &&& old(self).view()[idx as int] matches Some(before)
                    &&& final(self).view()[idx as int] matches Some(after)
                    &&& 0 <= slot < before@.entries
                    &&& pushed == before@.can_submit()
                    &&& after.same_identity(&before)
                    &&& after@ == if pushed {
                        RingView {
                            args: before@.args.update(slot as int, args),
                            ..before@.submitted(IoSqe { index: slot, userdata: tag })
                        }
                    } else {
                        before@
                    }
                },
                Err(e) => {
                    &&& final(self).view() == old(self).view()
                    &&& if 0 <= idx < old(self).view().len() && old(self).view()[idx as int].is_some() {
                        &&& e.code == StatusCode::InvalidArg.spec_code()
                        &&& !(0 <= slot < old(self).view()[idx as int]->Some_0@.entries)
                    } else {
                        e.code == MetaCode::NotFound.spec_code()
                    }
                },
            },
    {
        if !self.is_open(idx) {
            return Err(Error::meta(MetaCode::NotFound));
        }
        let at = idx as usize;
        let mut place: Option<IoRing> = None;
        self.io_rings.set_and_swap(at, &mut place);
        let mut ring = place.unwrap();
        if slot < 0 || slot >= ring.entries() {
            self.io_rings.set(at, Some(ring));
            assert(self.view() =~= old(self).view());
            return Err(Error::status(StatusCode::InvalidArg));
        }
        let pushed = ring.submit(slot, args, tag);
        self.io_rings.set(at, Some(ring));
        Ok(pushed)
    }

    /// One sweep of the poller of class `prio`: claims spans from every ring
    /// of the class, in the order of the descriptors, and queues them. A ring
    /// gives at most `max_jobs` spans, and no more than still fit into the
    /// queue. Returns the number of spans queued; where it is zero, the
    /// poller waits for the wake signal of its class.
    pub fn sweep(&mut self, prio: i32, max_jobs: i32, now: u64, queue: &mut BoundedQueue<IoRingJob>) -> (count:
        usize)
        requires
            old(self).wf(),
            old(queue).wf(),
        ensures
            final(self).wf(),
            final(queue).wf(),
            final(queue).spec_capacity() == old(queue).spec_capacity(),
            final(self).view().len() == old(self).view().len(),
            final(queue)@ == old(queue)@ + sweep_jobs(
                old(self).view(),
                prio as int,
                max_jobs as int,
                now as int,
                old(queue).spec_capacity() - old(queue)@.len(),
                old(self).view().len() as int,
            ),
            count == final(queue)@.len() - old(queue)@.len(),
            forall|i: int|
                0 <= i < old(self).view().len() ==> place_swept(
                    old(self).view()[i],
                    #[trigger] final(self).view()[i],
                    prio as int,
                    claim_limit(
                        max_jobs as int,
                        old(queue).spec_capacity() - old(queue)@.len() - sweep_jobs(
                            old(self).view(),
                            prio as int,
                            max_jobs as int,
                            now as int,
                            old(queue).spec_capacity() - old(queue)@.len(),
                            i,
                        ).len(),
                    ),
                    now as int,
                ),
    {
        let ghost rings0 = self.view();
        let ghost room0 = old(queue).spec_capacity() - old(queue)@.len();
        let ghost q0 = old(queue)@;
        let n = self.io_rings.len();
        let cap = queue.capacity();
        let mut count: usize = 0;
        let mut i: usize = 0;
        while i < n
            invariant
                cap == old(queue).spec_capacity(),
                n == rings0.len(),
                rings0 == old(self).view(),
                q0 == old(queue)@,
                room0 == old(queue).spec_capacity() - q0.len(),
                0 <= i <= n,
                self.wf(),
                queue.wf(),
                queue.spec_capacity() == old(queue).spec_capacity(),
                self.view().len() == n,
                queue@ == q0 + sweep_jobs(rings0, prio as int, max_jobs as int, now as int, room0, i as int),
                count == queue@.len() - q0.len(),
                forall|j: int| i <= j < n ==> #[trigger] self.view()[j] == rings0[j],
                forall|j: int|
                    0 <= j < i ==> place_swept(
                        rings0[j],
                        #[trigger] self.view()[j],
                        prio as int,
                        claim_limit(
                            max_jobs as int,
                            room0 - sweep_jobs(rings0, prio as int, max_jobs as int, now as int, room0, j).len(),
                        ),
                        now as int,
                    ),
            decreases n - i,
        {
            let ghost before_jobs = sweep_jobs(rings0, prio as int, max_jobs as int, now as int, room0, i as int);
            let room = queue.room();
            let limit: i32 = if max_jobs <= 0 || (max_jobs as usize) < room {
                max_jobs
            } else {
                room as i32
            };
            assert(limit == claim_limit(max_jobs as int, room0 - before_jobs.len()));
            let of_class = match &self.io_rings[i] {
                Some(ring) => ring.priority() == prio,
                None => false,
            };
            if of_class {
                let mut place: Option<IoRing> = None;
                self.io_rings.set_and_swap(i, &mut place);
                let mut ring = place.unwrap();
                let ghost ring0 = ring;
                let jobs = ring.jobs_to_proc(limit, now);
                proof {
                    assert(jobs@ =~= claim_jobs(ring0, limit as int, now as int));
                }
                let m = jobs.len();
                let mut j: usize = 0;
                while j < m
                    invariant
                        cap == old(queue).spec_capacity(),
                        m == jobs@.len(),
                        0 <= j <= m,
                        queue.wf(),
                        queue.spec_capacity() == old(queue).spec_capacity(),
                        q0 == old(queue)@,
                        room0 == old(queue).spec_capacity() - q0.len(),
                        m <= room0 - before_jobs.len(),
                        queue@ == q0 + before_jobs + jobs@.take(j as int),
                        count == q0.len() + before_jobs.len() + j - q0.len(),
                    decreases m - j,
                {
                    let back = queue.push(jobs[j]);
                    assert(back.is_none());
                    count = count + 1;
                    j = j + 1;
                    assert(queue@ =~= q0 + before_jobs + jobs@.take(j as int));
                }
                assert(jobs@.take(m as int) =~= jobs@);
                self.io_rings.set(i, Some(ring));
                proof {
                    assert(queue@ =~= q0 + (before_jobs + jobs@));
                }
            }
            i = i + 1;
        }
        count
    }

    /// Finishes the span `job` with the results `res`, on the ring it was
    /// claimed from. Returns `false`, with nothing changed, where the span is
    /// not a claimed, unfinished span of an open ring or the results are not
    /// one for each of its entries: the caller has lost track of its spans
    /// and must give the ring up.
    pub fn process(&mut self, job: &IoRingJob, res: &Vec<i64>) -> (done: bool)
        requires
            old(self).wf(),
        ensures
            final(self).wf(),
            final(self).view().len() == old(self).view().len(),
            forall|i: int|
                0 <= i < old(self).view().len() && i != job.ior ==> final(self).view()[i] == old(self).view()[i],
            done == (0 <= job.ior < old(self).view().len() && res@.len() == job.to_proc && (old(
                self,
            ).view()[job.ior as int] matches Some(ring) && ring@.is_claimed(
                job.sqe_proc_tail as int,
                job.to_proc as int,
            ))),
            done ==> {
                &&& final(self).view()[job.ior as int] matches Some(after)
                &&& after.same_identity(&old(self).view()[job.ior as int]->Some_0)
                &&& after@ == old(self).view()[job.ior as int]->Some_0@.processed(
                    job.sqe_proc_tail as int,
                    res@,
                )
            },
            !done ==> final(self).view() == old(self).view(),
    {
        if !self.is_open(job.ior) {
            return false;
        }
        let at = job.ior as usize;
        let owned = match &self.io_rings[at] {
            Some(ring) => ring.owns_span(job.sqe_proc_tail, job.to_proc),
            None => false,
        };
        if !owned || res.len() != job.to_proc as usize {
            return false;
        }
        let mut place: Option<IoRing> = None;
        self.io_rings.set_and_swap(at, &mut place);
        let mut ring = place.unwrap();
        ring.process(job.sqe_proc_tail, job.to_proc, res);
        self.io_rings.set(at, Some(ring));
        true
    }

    /// The producer's read of at most `max` completions of the ring under
    /// descriptor `idx`; none where no ring is open under it.
    pub fn drain_completions(&mut self, idx: i32, max: i32) -> (out: Vec<IoCqe>)
        requires
            old(self).wf(),
        ensures
            final(self).wf(),
            final(self).view().len() == old(self).view().len(),
            forall|i: int|
                0 <= i < old(self).view().len() && i != idx ==> final(self).view()[i] == old(self).view()[i],
            0 <= idx < old(self).view().len() && old(self).view()[idx as int].is_some() ==> {
                let before = old(self).view()[idx as int]->Some_0;
                &&& final(self).view()[idx as int] matches Some(after)
                &&& after.same_identity(&before)
                &&& after@ == before@.completions_drained(out@.len() as int)
                &&& out@.len() == if max <= 0 {
                    0
                } else if max < before@.cqe_count() {
                    max as int
                } else {
                    before@.cqe_count()
                }
                &&& forall|i: int|
                    0 <= i < out@.len() ==> out@[i] == before@.cqes[crate::ring::ring_add(
                        before@.cqe_tail,
                        i,
                        before@.entries,
                    )]
            },
            !(0 <= idx < old(self).view().len() && old(self).view()[idx as int].is_some()) ==> out@.len() == 0
                && final(self).view() == old(self).view(),
    {
        if !self.is_open(idx) {
            return Vec::new();
        }
        let at = idx as usize;
        let mut place: Option<IoRing> = None;
        self.io_rings.set_and_swap(at, &mut place);
        let mut ring = place.unwrap();
        let out = ring.drain_completions(max);
        self.io_rings.set(at, Some(ring));
        out
    }
}

} // verus!
