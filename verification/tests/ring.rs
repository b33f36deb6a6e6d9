use usrbio::ring::IoArgs;
use usrbio::ring::IoCqe;
use usrbio::ring::IoRing;
use usrbio::ring::RequestStep;
use usrbio::status::Error;
use usrbio::ring::IoRingJob;
use usrbio::ring::IoSqe;
use usrbio::ring::wrap_add;
use usrbio::ring::wrap_dist;
use usrbio::status::StatusCode;
use usrbio::uuid::Uuid;

fn header(sqe_head: u32, sqe_tail: u32, cqe_head: u32, cqe_tail: u32) -> Vec<u8> {
    let mut buf = Vec::new();
    for v in [sqe_head, sqe_tail, cqe_head, cqe_tail] {
        buf.extend_from_slice(&v.to_le_bytes());
    }
    buf
}

fn ring(entries: i32, io_depth: i32, timeout_ms: u64) -> IoRing {
    let size = IoRing::bytes_required(entries - 1);
    let buf = header(0, 0, 0, 0);
    match IoRing::new("test".to_string(), true, &buf, size, io_depth, 1, timeout_ms, 0) {
        Ok(r) => r,
        Err(e) => panic!("ring refused: {:?}", e),
    }
}

fn submit_n(r: &mut IoRing, from: i32, n: i32) {
    for i in from..from + n {
        let slot = i % r.entries();
        assert!(r.add_sqe(slot, 100 + i as u64));
    }
}

#[test]
fn sizing_is_exact() {
    assert_eq!(IoRing::ring_marker_size(), 4);
    assert_eq!(IoRing::bytes_required(0), 4216);
    assert_eq!(IoRing::bytes_required(7), 24 + 96 * 8 + 4096);
    assert_eq!(IoRing::io_ring_entries(4216), 0);
    assert_eq!(IoRing::io_ring_entries(4216 + 95), 0);
    assert_eq!(IoRing::io_ring_entries(4216 + 96), 1);
    for e in [0, 1, 7, 63, 1000] {
        assert_eq!(IoRing::io_ring_entries(IoRing::bytes_required(e)), e);
    }
    assert_eq!(IoRing::checked_io_ring_entries(4215), None);
    assert_eq!(IoRing::checked_io_ring_entries(0), None);
    assert_eq!(IoRing::checked_io_ring_entries(4216), Some(0));
    assert_eq!(IoRing::checked_io_ring_entries(1 << 20), Some(((1 << 20) - 4120) / 96 - 1));
}

#[test]
fn new_reads_the_markers() {
    let size = IoRing::bytes_required(7);
    let buf = header(5, 2, 3, 1);
    let mut r = match IoRing::new("r".to_string(), false, &buf, size, -4, 2, 250, 0b101) {
        Ok(r) => r,
        Err(e) => panic!("ring refused: {:?}", e),
    };
    assert_eq!(r.entries(), 8);
    assert_eq!(r.slots(), 7);
    assert_eq!(r.sqe_tail(), 2);
    assert_eq!(r.sqe_head(), 2);
    assert_eq!(r.cqe_head(), 3);
    assert_eq!(r.cqe_tail(), 1);
    assert_eq!(r.sqe_count(), 0);
    assert_eq!(r.cqe_count(), 2);
    assert!(r.jobs_to_proc(4, 0).is_empty());
    assert_eq!(r.processing(), 0);
    assert_eq!(r.io_depth(), -4);
    assert_eq!(r.priority(), 2);
    assert_eq!(r.timeout_ms(), 250);
    assert_eq!(r.flags(), 5);
    assert_eq!(r.for_read(), false);
    assert_eq!(r.name(), "r");
    assert_eq!(r.mount_name(), "");
    assert_eq!(r.slot(), -1);
}

#[test]
fn new_refuses_bad_regions() {
    let good = header(0, 0, 0, 0);
    let size = IoRing::bytes_required(7);
    let code = StatusCode::InvalidArg.code();
    let refused = |buf: &[u8], size: usize, depth: i32| -> bool {
        match IoRing::new("r".to_string(), true, buf, size, depth, 1, 0, 0) {
            Ok(_) => false,
            Err(e) => e.code() == code,
        }
    };
    assert!(!refused(&good, size, 4));
    assert!(refused(&good, 4215, 4));
    assert!(refused(&good[..15], size, 4));
    assert!(refused(&good, size, i32::MIN));
    assert!(refused(&header(8, 0, 0, 0), size, 4));
    assert!(refused(&header(0, 8, 0, 0), size, 4));
    assert!(refused(&header(0, 0, 8, 0), size, 4));
    assert!(refused(&header(0, 0, 0, 8), size, 4));
    assert!(refused(&header(0, 0, 0, 0x8000_0000), size, 4));
    assert!(!refused(&header(7, 7, 7, 7), size, 4));
    assert!(!refused(&header(2, 2, 0, 0), size, 4));
    assert!(!refused(&header(2, 0, 0, 0), size, 4));
    assert!(!refused(&header(5, 2, 3, 3), size, 4));
    assert!(!refused(&header(5, 5, 3, 1), size, 4));
    assert!(!refused(&header(0, 0, 0, 1), size, 4));
    assert!(!refused(&header(1, 0, 0, 0), 4888, 4));
}

#[test]
fn capacity_is_one_less_than_the_slots() {
    let mut r = ring(8, 4, 0);
    for i in 0..7 {
        assert!(r.add_sqe(i, i as u64), "submission {} must succeed", i);
    }
    assert!(!r.add_sqe(7, 7));
    assert!(!r.add_sqe(0, 0));
    assert_eq!(r.sqe_head(), 7);
    assert_eq!(r.sqe_tail(), 0);
    assert_eq!(r.sqe_count(), 7);
}

#[test]
fn capacity_of_the_smallest_ring() {
    let mut r = ring(1, 0, 0);
    assert!(!r.add_sqe(0, 0));
    let mut r = ring(2, 0, 0);
    assert!(r.add_sqe(1, 9));
    assert!(!r.add_sqe(0, 9));
}

#[test]
fn submit_writes_the_request_slot() {
    let mut r = ring(8, 0, 0);
    let args = IoArgs { buf_id: Uuid(7), buf_off: 16, file_iid: 42, file_off: 4096, io_len: 512, userdata: 99 };
    assert!(r.submit(3, args, 99));
    let jobs = r.jobs_to_proc(4, 0);
    assert_eq!(jobs, vec![IoRingJob { ior: -1, sqe_proc_tail: 0, to_proc: 1 }]);
    let reqs = r.span_requests(0, 1).unwrap();
    assert_eq!(reqs, vec![(IoSqe { index: 3, userdata: 99 }, args)]);
}

#[test]
fn fixed_depth_claims_whole_spans_only() {
    let mut r = ring(8, 4, 0);
    submit_n(&mut r, 0, 5);
    let jobs = r.jobs_to_proc(32, 0);
    assert_eq!(jobs, vec![IoRingJob { ior: -1, sqe_proc_tail: 0, to_proc: 4 }]);
    assert_eq!(r.processing(), 4);
    assert_eq!(r.sqe_count(), 1);
    assert_eq!(r.jobs_to_proc(32, 0), vec![]);
    submit_n(&mut r, 5, 1);
    assert_eq!(r.jobs_to_proc(32, 0), vec![]);
    r.process(0, 4, &vec![1, 2, 3, 4]);
    assert_eq!(r.sqe_tail(), 4);
    assert_eq!(r.cqe_count(), 4);
    assert_eq!(r.jobs_to_proc(32, 0), vec![]);
    assert_eq!(r.drain_completions(8).len(), 4);
    assert_eq!(r.jobs_to_proc(32, 0), vec![]);
    submit_n(&mut r, 6, 2);
    assert_eq!(r.jobs_to_proc(32, 0), vec![IoRingJob { ior: -1, sqe_proc_tail: 4, to_proc: 4 }]);
}

#[test]
fn fixed_depth_is_capped_by_completion_room() {
    let mut r = ring(8, 2, 0);
    submit_n(&mut r, 0, 7);
    let jobs = r.jobs_to_proc(32, 0);
    assert_eq!(jobs.len(), 3);
    assert_eq!(jobs[2], IoRingJob { ior: -1, sqe_proc_tail: 4, to_proc: 2 });
    r.process(0, 2, &vec![0, 0]);
    r.process(2, 2, &vec![0, 0]);
    r.process(4, 2, &vec![0, 0]);
    assert_eq!(r.sqe_tail(), 6);
    assert_eq!(r.cqe_count(), 6);
    submit_n(&mut r, 7, 3);
    assert_eq!(r.sqe_count(), 4);
    assert_eq!(r.jobs_to_proc(32, 0), vec![]);
    assert_eq!(r.drain_completions(1).len(), 1);
    assert_eq!(r.jobs_to_proc(32, 0), vec![IoRingJob { ior: -1, sqe_proc_tail: 6, to_proc: 2 }]);
}

#[test]
fn max_jobs_bounds_a_claim() {
    let mut r = ring(16, 2, 0);
    submit_n(&mut r, 0, 9);
    assert_eq!(r.jobs_to_proc(0, 0), vec![]);
    assert_eq!(r.jobs_to_proc(-3, 0), vec![]);
    let jobs = r.jobs_to_proc(3, 0);
    assert_eq!(
        jobs,
        vec![
            IoRingJob { ior: -1, sqe_proc_tail: 0, to_proc: 2 },
            IoRingJob { ior: -1, sqe_proc_tail: 2, to_proc: 2 },
            IoRingJob { ior: -1, sqe_proc_tail: 4, to_proc: 2 },
        ]
    );
    assert_eq!(r.jobs_to_proc(3, 0), vec![IoRingJob { ior: -1, sqe_proc_tail: 6, to_proc: 2 }]);
}

#[test]
fn zero_depth_claims_everything_at_once() {
    let mut r = ring(8, 0, 0);
    submit_n(&mut r, 0, 5);
    assert_eq!(r.jobs_to_proc(32, 0), vec![IoRingJob { ior: -1, sqe_proc_tail: 0, to_proc: 5 }]);
    assert_eq!(r.jobs_to_proc(32, 0), vec![]);
    submit_n(&mut r, 5, 2);
    assert_eq!(r.jobs_to_proc(32, 0), vec![IoRingJob { ior: -1, sqe_proc_tail: 5, to_proc: 2 }]);
    r.process(0, 5, &vec![0; 5]);
    submit_n(&mut r, 7, 3);
    assert_eq!(r.sqe_count(), 3);
    assert_eq!(r.jobs_to_proc(32, 0), vec![]);
    r.drain_completions(2);
    assert_eq!(r.jobs_to_proc(32, 0), vec![IoRingJob { ior: -1, sqe_proc_tail: 7, to_proc: 2 }]);
}

#[test]
fn negative_depth_without_timeout_flushes_the_rest() {
    let mut r = ring(16, -4, 0);
    submit_n(&mut r, 0, 6);
    assert_eq!(
        r.jobs_to_proc(32, 0),
        vec![
            IoRingJob { ior: -1, sqe_proc_tail: 0, to_proc: 4 },
            IoRingJob { ior: -1, sqe_proc_tail: 4, to_proc: 2 },
        ]
    );
    submit_n(&mut r, 6, 9);
    assert_eq!(r.jobs_to_proc(1, 0), vec![IoRingJob { ior: -1, sqe_proc_tail: 6, to_proc: 4 }]);
}

#[test]
fn negative_depth_defers_a_short_claim_until_the_timeout() {
    let mut r = ring(16, -4, 100);
    submit_n(&mut r, 0, 2);
    assert_eq!(r.jobs_to_proc(32, 1000), vec![]);
    assert_eq!(r.jobs_to_proc(32, 1050), vec![]);
    assert_eq!(r.jobs_to_proc(32, 1099), vec![]);
    assert_eq!(r.jobs_to_proc(32, 1100), vec![IoRingJob { ior: -1, sqe_proc_tail: 0, to_proc: 2 }]);
    submit_n(&mut r, 2, 5);
    assert_eq!(r.jobs_to_proc(32, 1200), vec![IoRingJob { ior: -1, sqe_proc_tail: 2, to_proc: 4 }]);
    assert_eq!(r.jobs_to_proc(32, 1250), vec![]);
    assert_eq!(r.jobs_to_proc(32, 1300), vec![IoRingJob { ior: -1, sqe_proc_tail: 6, to_proc: 1 }]);
}

#[test]
fn negative_depth_ends_the_deferral_when_the_depth_accumulates() {
    let mut r = ring(16, -4, 100);
    submit_n(&mut r, 0, 3);
    assert_eq!(r.jobs_to_proc(32, 10), vec![]);
    submit_n(&mut r, 3, 1);
    assert_eq!(r.jobs_to_proc(32, 20), vec![IoRingJob { ior: -1, sqe_proc_tail: 0, to_proc: 4 }]);
    submit_n(&mut r, 4, 1);
    assert_eq!(r.jobs_to_proc(32, 500), vec![]);
    assert_eq!(r.jobs_to_proc(32, 599), vec![]);
    assert_eq!(r.jobs_to_proc(32, 600), vec![IoRingJob { ior: -1, sqe_proc_tail: 4, to_proc: 1 }]);
}

#[test]
fn tail_follows_submission_order() {
    let mut r = ring(16, 2, 0);
    submit_n(&mut r, 0, 6);
    let jobs = r.jobs_to_proc(8, 0);
    assert_eq!(jobs.len(), 3);
    assert!(r.owns_span(4, 2));
    r.process(4, 2, &vec![30, 31]);
    assert_eq!(r.sqe_tail(), 0);
    assert!(!r.owns_span(4, 2));
    assert!(r.owns_span(0, 2));
    assert!(r.owns_span(2, 2));
    r.process(2, 2, &vec![20, 21]);
    assert_eq!(r.sqe_tail(), 0);
    assert_eq!(r.processing(), 2);
    r.process(0, 2, &vec![10, 11]);
    assert_eq!(r.sqe_tail(), 6);
    assert_eq!(r.processing(), 0);
    assert!(!r.owns_span(0, 2));
    let done = r.drain_completions(16);
    assert_eq!(
        done,
        vec![
            IoCqe { index: 4, reserved: 0, result: 30, userdata: 104 },
            IoCqe { index: 5, reserved: 0, result: 31, userdata: 105 },
            IoCqe { index: 2, reserved: 0, result: 20, userdata: 102 },
            IoCqe { index: 3, reserved: 0, result: 21, userdata: 103 },
            IoCqe { index: 0, reserved: 0, result: 10, userdata: 100 },
            IoCqe { index: 1, reserved: 0, result: 11, userdata: 101 },
        ]
    );
}

#[test]
fn tail_stops_in_front_of_an_unfinished_span() {
    let mut r = ring(16, 1, 0);
    submit_n(&mut r, 0, 4);
    assert_eq!(r.jobs_to_proc(8, 0).len(), 4);
    r.process(1, 1, &vec![0]);
    r.process(3, 1, &vec![0]);
    assert_eq!(r.sqe_tail(), 0);
    r.process(0, 1, &vec![0]);
    assert_eq!(r.sqe_tail(), 2);
    r.process(2, 1, &vec![0]);
    assert_eq!(r.sqe_tail(), 4);
}

#[test]
fn claimed_spans_share_no_entry() {
    let mut r = ring(8, -3, 0);
    submit_n(&mut r, 0, 5);
    let mut jobs = r.jobs_to_proc(8, 0);
    r.process(0, 3, &vec![0; 3]);
    r.drain_completions(8);
    submit_n(&mut r, 5, 5);
    jobs.extend(r.jobs_to_proc(8, 0));
    let live: Vec<IoRingJob> = jobs.into_iter().filter(|j| r.owns_span(j.sqe_proc_tail, j.to_proc)).collect();
    assert_eq!(live.len(), 3);
    let mut seen = vec![false; 8];
    for j in &live {
        for k in 0..j.to_proc {
            let at = wrap_add(j.sqe_proc_tail, k, 8) as usize;
            assert!(!seen[at], "entry {} claimed twice", at);
            seen[at] = true;
        }
    }
}

#[test]
fn owns_span_rejects_what_was_not_claimed() {
    let mut r = ring(8, 2, 0);
    submit_n(&mut r, 0, 4);
    assert!(!r.owns_span(0, 2));
    r.jobs_to_proc(8, 0);
    assert!(r.owns_span(0, 2));
    assert!(r.owns_span(2, 2));
    assert!(!r.owns_span(0, 4));
    assert!(!r.owns_span(1, 1));
    assert!(!r.owns_span(0, 0));
    assert!(!r.owns_span(-1, 2));
    assert!(!r.owns_span(8, 2));
    assert!(!r.owns_span(0, 8));
}

#[test]
fn drain_completions_takes_the_oldest_first() {
    let mut r = ring(8, 0, 0);
    assert!(r.add_cqe(1, -5, 11));
    assert!(r.add_cqe(2, 7, 12));
    assert!(r.add_cqe(3, 9, 13));
    assert_eq!(r.cqe_count(), 3);
    assert_eq!(r.drain_completions(0), vec![]);
    assert_eq!(r.drain_completions(-1), vec![]);
    assert_eq!(r.drain_completions(2), vec![
        IoCqe { index: 1, reserved: 0, result: -5, userdata: 11 },
        IoCqe { index: 2, reserved: 0, result: 7, userdata: 12 },
    ]);
    assert_eq!(r.cqe_tail(), 2);
    assert_eq!(r.drain_completions(5), vec![IoCqe { index: 3, reserved: 0, result: 9, userdata: 13 }]);
    assert_eq!(r.cqe_count(), 0);
}

#[test]
fn completion_queue_is_full_at_one_less_than_the_slots() {
    let mut r = ring(4, 0, 0);
    assert!(r.add_cqe(0, 0, 0));
    assert!(r.add_cqe(0, 0, 0));
    assert!(r.add_cqe(0, 0, 0));
    assert!(!r.add_cqe(0, 0, 0));
    assert_eq!(r.cqe_count(), 3);
}

#[test]
fn indices_wrap_around() {
    assert_eq!(wrap_add(6, 3, 8), 1);
    assert_eq!(wrap_add(0, 8, 8), 0);
    assert_eq!(wrap_add(7, 0, 8), 7);
    assert_eq!(wrap_dist(6, 1, 8), 3);
    assert_eq!(wrap_dist(1, 6, 8), 5);
    assert_eq!(wrap_dist(3, 3, 8), 0);
    let mut r = ring(4, 0, 0);
    for round in 0..10 {
        submit_n(&mut r, round * 3, 3);
        let jobs = r.jobs_to_proc(1, 0);
        assert_eq!(jobs.len(), 1);
        assert_eq!(jobs[0].to_proc, 3);
        assert_eq!(jobs[0].sqe_proc_tail, (round * 3) % 4);
        r.process(jobs[0].sqe_proc_tail, 3, &vec![1, 2, 3]);
        assert_eq!(r.drain_completions(3).len(), 3);
    }
}

#[test]
fn initial_results_honour_read_only() {
    let size = IoRing::bytes_required(7);
    let buf = header(0, 0, 0, 0);
    let w = match IoRing::new("w".to_string(), false, &buf, size, 0, 1, 0, 0) {
        Ok(r) => r,
        Err(e) => panic!("ring refused: {:?}", e),
    };
    let r = ring(8, 0, 0);
    assert_eq!(w.initial_results(3, true), vec![-2, -2, -2]);
    assert_eq!(w.initial_results(3, false), vec![0, 0, 0]);
    assert_eq!(r.initial_results(2, true), vec![0, 0]);
    assert_eq!(r.initial_results(0, true), Vec::<i64>::new());
}

#[test]
fn a_depth_larger_than_the_ring_claims_nothing() {
    let mut r = ring(8, 8, 0);
    submit_n(&mut r, 0, 7);
    assert_eq!(r.jobs_to_proc(4, 0), vec![]);
    let mut r = ring(8, i32::MAX, 0);
    submit_n(&mut r, 0, 7);
    assert_eq!(r.jobs_to_proc(i32::MAX, 0), vec![]);
    let mut r = ring(8, -i32::MAX, 0);
    submit_n(&mut r, 0, 7);
    assert_eq!(r.jobs_to_proc(i32::MAX, 0), vec![IoRingJob { ior: -1, sqe_proc_tail: 0, to_proc: 7 }]);
}

#[test]
fn a_depth_of_one_claims_entry_by_entry() {
    let mut r = ring(8, -1, 50);
    submit_n(&mut r, 0, 3);
    let jobs = r.jobs_to_proc(2, 0);
    assert_eq!(
        jobs,
        vec![IoRingJob { ior: -1, sqe_proc_tail: 0, to_proc: 1 }, IoRingJob { ior: -1, sqe_proc_tail: 1, to_proc: 1 }]
    );
    assert_eq!(r.jobs_to_proc(2, 0), vec![IoRingJob { ior: -1, sqe_proc_tail: 2, to_proc: 1 }]);
    assert_eq!(r.jobs_to_proc(2, 0), vec![]);
}

#[test]
fn a_clock_that_stands_still_keeps_the_deferral() {
    let mut r = ring(8, -4, 10);
    submit_n(&mut r, 0, 1);
    assert_eq!(r.jobs_to_proc(4, 100), vec![]);
    assert_eq!(r.jobs_to_proc(4, 100), vec![]);
    assert_eq!(r.jobs_to_proc(4, 50), vec![]);
    assert_eq!(r.jobs_to_proc(4, 109), vec![]);
    assert_eq!(r.jobs_to_proc(4, u64::MAX), vec![IoRingJob { ior: -1, sqe_proc_tail: 0, to_proc: 1 }]);
}

#[test]
fn a_ring_without_a_usable_slot_does_nothing() {
    let mut r = ring(1, 0, 0);
    assert_eq!(r.entries(), 1);
    assert_eq!(r.slots(), 0);
    assert_eq!(r.jobs_to_proc(4, 0), vec![]);
    assert_eq!(r.drain_completions(4), vec![]);
    assert!(!r.add_cqe(0, 0, 0));
    assert!(!r.owns_span(0, 1));
}

#[test]
fn a_ring_of_writes_serves_nothing_where_writes_are_forbidden() {
    let size = IoRing::bytes_required(7);
    let w = match IoRing::new("w".to_string(), false, &header(0, 0, 0, 0), size, 0, 1, 0, 0) {
        Ok(r) => r,
        Err(e) => panic!("ring refused: {:?}", e),
    };
    let r = ring(8, 0, 0);
    assert!(w.serves(false));
    assert!(!w.serves(true));
    assert!(r.serves(false));
    assert!(r.serves(true));
}

#[test]
fn the_lookup_decides_what_a_request_does_next() {
    let lost = Err(Error { code: 6001 });
    assert_eq!(IoRing::lookup_result(0, true, Ok(true)), 0);
    assert_eq!(IoRing::lookup_result(7, true, Ok(true)), 7);
    assert_eq!(IoRing::lookup_result(0, false, Ok(true)), -3003);
    assert_eq!(IoRing::lookup_result(0, false, lost), -3003);
    assert_eq!(IoRing::lookup_result(0, true, lost), -6001);
    assert_eq!(IoRing::lookup_result(0, true, Ok(false)), -6003);
    assert_eq!(IoRing::request_step(0, true, Ok(true), true), RequestStep::Read);
    assert_eq!(IoRing::request_step(0, true, Ok(true), false), RequestStep::Write);
    assert_eq!(IoRing::request_step(5, true, Ok(true), false), RequestStep::Write);
    assert_eq!(IoRing::request_step(-2, true, Ok(true), false), RequestStep::Finish(-2));
    assert_eq!(IoRing::request_step(0, false, Ok(true), true), RequestStep::Finish(-3003));
    assert_eq!(IoRing::request_step(0, true, lost, true), RequestStep::Finish(-6001));
    assert_eq!(IoRing::request_step(0, true, Ok(false), false), RequestStep::Finish(-6003));
}

#[test]
fn any_index_can_be_submitted_and_is_found_out_when_served() {
    let mut r = ring(8, 0, 0);
    assert!(r.add_sqe(3, 1));
    assert!(r.add_sqe(8, 2));
    assert!(r.add_sqe(-1, 3));
    assert!(r.add_sqe(i32::MAX, 4));
    assert!(r.add_sqe(0, 5));
    assert!(r.add_sqe(7, 6));
    assert!(r.add_sqe(i32::MIN, 7));
    assert!(!r.add_sqe(0, 8));
    assert_eq!(r.sqe_count(), 7);
    assert_eq!(r.jobs_to_proc(1, 0).len(), 1);
    assert!(r.span_requests(0, 1).is_some());
    assert!(r.span_requests(0, 2).is_none());
    assert!(r.span_requests(1, 1).is_none());
    assert!(r.span_requests(2, 1).is_none());
    assert!(r.span_requests(3, 1).is_none());
    assert_eq!(r.span_requests(4, 2).map(|v| v.len()), Some(2));
    assert!(r.span_requests(4, 3).is_none());
    assert_eq!(r.span_requests(5, 0), Some(vec![]));
    r.process(0, 7, &vec![0, -1, -1, -1, 0, 0, -1]);
    let done = r.drain_completions(7);
    assert_eq!(done.iter().map(|c| c.index).collect::<Vec<i32>>(), vec![3, 8, -1, i32::MAX, 0, 7, i32::MIN]);
}
