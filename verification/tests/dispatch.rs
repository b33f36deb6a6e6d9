use usrbio::clients::max_threads;
use usrbio::clients::mount_name_ok;
use usrbio::clients::worker_threads;
use usrbio::clients::ClientSetup;
use usrbio::clients::FuseClients;
use usrbio::iov::IorAttrs;
use usrbio::iov_table::DirEntry;
use usrbio::layout::Inode;
use usrbio::layout::InodeId;
use usrbio::rcinode::Dropped;
use usrbio::queue::BoundedQueue;
use usrbio::queue::MultiPrioQueue;
use usrbio::queue::WorkerState;
use usrbio::ring::IoArgs;
use usrbio::ring::IoCqe;
use usrbio::ring::IoRing;
use usrbio::ring::IoRingJob;
use usrbio::status::Error;
use usrbio::table::IoRingTable;
use usrbio::uuid::Uuid;

fn job(ior: i32, spt: i32, n: i32) -> IoRingJob {
    IoRingJob { ior, sqe_proc_tail: spt, to_proc: n }
}

#[test]
fn bounded_queue_is_first_in_first_out() {
    let mut q: BoundedQueue<u32> = BoundedQueue::new(2);
    assert_eq!(q.capacity(), 2);
    assert!(q.is_empty());
    assert!(!q.is_full());
    assert_eq!(q.room(), 2);
    assert_eq!(q.pop(), None);
    assert_eq!(q.push(1), None);
    assert_eq!(q.push(2), None);
    assert!(q.is_full());
    assert_eq!(q.len(), 2);
    assert_eq!(q.push(3), Some(3));
    assert_eq!(q.len(), 2);
    assert_eq!(q.pop(), Some(1));
    assert_eq!(q.room(), 1);
    assert_eq!(q.push(4), None);
    assert_eq!(q.pop(), Some(2));
    assert_eq!(q.pop(), Some(4));
    assert_eq!(q.pop(), None);
    let mut none: BoundedQueue<u32> = BoundedQueue::new(0);
    assert!(none.is_full() && none.is_empty());
    assert_eq!(none.push(1), Some(1));
}

#[test]
fn worker_looks_from_the_top_or_from_its_own_class() {
    let mut w = WorkerState::new(1);
    assert_eq!(w, WorkerState { prio: 1, check_higher: true });
    assert_eq!(w.attempt_order(3), vec![0, 1, 2]);
    w.served(0);
    assert!(!w.check_higher);
    assert_eq!(w.attempt_order(3), vec![1, 2, 0]);
    w.served(2);
    assert!(w.check_higher);
    w.served(0);
    w.served(1);
    assert!(w.check_higher);
    let mut low = WorkerState::new(2);
    low.served(1);
    assert_eq!(low.attempt_order(3), vec![2, 0, 1]);
    assert_eq!(low.attempt_order(5), vec![2, 3, 4, 0, 1]);
    let mut high = WorkerState::new(0);
    high.served(0);
    assert_eq!(high.attempt_order(3), vec![0, 1, 2]);
    high.check_higher = false;
    assert_eq!(high.attempt_order(3), vec![0, 1, 2]);
}

#[test]
fn worker_serves_higher_classes_without_starving_its_own() {
    let mut m = MultiPrioQueue::new(4, 3);
    assert_eq!(m.levels(), 3);
    assert_eq!(m.room(1), 4);
    for i in 0..3 {
        assert_eq!(m.push(0, job(0, i, 1)), None);
        assert_eq!(m.push(1, job(1, i, 1)), None);
    }
    assert_eq!(m.push(2, job(2, 0, 1)), None);
    assert_eq!(m.push(3, job(3, 0, 1)), Some(job(3, 0, 1)));
    let mut w = WorkerState::new(1);
    let served: Vec<(usize, i32)> = (0..7).map(|_| m.next_job(&mut w).map(|(l, j)| (l, j.sqe_proc_tail)).unwrap()).collect();
    assert_eq!(served, vec![(0, 0), (1, 0), (0, 1), (1, 1), (0, 2), (1, 2), (2, 0)]);
    assert_eq!(m.next_job(&mut w), None);
    assert_eq!(w, WorkerState { prio: 1, check_higher: true });
    assert_eq!(m.pop(0), None);
    assert_eq!(m.pop(9), None);
}

#[test]
fn a_full_queue_hands_the_span_back() {
    let mut m = MultiPrioQueue::new(1, 2);
    assert_eq!(m.push(1, job(0, 0, 1)), None);
    assert_eq!(m.push(1, job(0, 1, 1)), Some(job(0, 1, 1)));
    assert_eq!(m.room(1), 0);
    assert_eq!(m.room(0), 1);
    assert_eq!(m.pop(1), Some(job(0, 0, 1)));
    let none = MultiPrioQueue::new(5, 0);
    assert_eq!(none.levels(), 0);
}

fn attrs(priority: i32) -> IorAttrs {
    IorAttrs { timeout_ms: 0, flags: 0, priority }
}

fn open(t: &mut IoRingTable, name: &str, depth: i32, priority: i32) -> i32 {
    let size = IoRing::bytes_required(7);
    match t.add_io_ring("/mnt".to_string(), name.to_string(), true, &[0u8; 16], size, depth, attrs(priority)) {
        Ok(idx) => idx,
        Err(e) => panic!("refused: {:?}", e),
    }
}

fn args(len: u64) -> IoArgs {
    IoArgs { buf_id: Uuid(1), buf_off: 0, file_iid: 2, file_off: 0, io_len: len, userdata: 0 }
}

#[test]
fn table_hands_out_the_lowest_free_descriptor() {
    let mut t = IoRingTable::new(2);
    assert_eq!(t.capacity(), 2);
    assert!(!t.is_open(0));
    assert_eq!(open(&mut t, "a", 0, 1), 0);
    assert_eq!(open(&mut t, "b", 0, 2), 1);
    let size = IoRing::bytes_required(7);
    let full = t.add_io_ring("/mnt".to_string(), "c".to_string(), true, &[0u8; 16], size, 0, attrs(1));
    assert_eq!(full.unwrap_err().code(), 6002);
    t.remove_io_ring(0);
    t.remove_io_ring(5);
    t.remove_io_ring(-1);
    assert!(!t.is_open(0));
    assert!(t.is_open(1));
    assert_eq!(t.priority_of(1), Some(2));
    assert_eq!(t.priority_of(0), None);
    let bad = t.add_io_ring("/mnt".to_string(), "c".to_string(), true, &[0u8; 16], 100, 0, attrs(1));
    assert_eq!(bad.unwrap_err().code(), 1);
    assert!(!t.is_open(0));
    assert_eq!(open(&mut t, "c", 0, 0), 0);
    assert_eq!(t.priority_of(0), Some(0));
}

#[test]
fn table_submits_to_open_rings() {
    let mut t = IoRingTable::new(2);
    open(&mut t, "a", 0, 1);
    assert_eq!(t.submit(0, 3, args(8), 77), Ok(true));
    assert_eq!(t.submit(1, 3, args(8), 77).unwrap_err().code(), 3001);
    assert_eq!(t.submit(-1, 3, args(8), 77).unwrap_err().code(), 3001);
    assert_eq!(t.submit(0, 8, args(8), 77).unwrap_err().code(), 1);
    assert_eq!(t.submit(0, -1, args(8), 77).unwrap_err().code(), 1);
    for i in 0..6 {
        assert_eq!(t.submit(0, i, args(8), 77), Ok(true));
    }
    assert_eq!(t.submit(0, 0, args(8), 77), Ok(false));
}

#[test]
fn sweep_claims_from_the_rings_of_one_class() {
    let mut t = IoRingTable::new(4);
    open(&mut t, "n0", 2, 1);
    open(&mut t, "h", 2, 0);
    open(&mut t, "n2", 0, 1);
    for i in 0..5 {
        assert_eq!(t.submit(0, i, args(1), i as u64), Ok(true));
        assert_eq!(t.submit(1, i, args(1), i as u64), Ok(true));
        assert_eq!(t.submit(2, i, args(1), i as u64), Ok(true));
    }
    let mut q: BoundedQueue<IoRingJob> = BoundedQueue::new(8);
    assert_eq!(t.sweep(1, 32, 0, &mut q), 3);
    assert_eq!(q.pop(), Some(job(0, 0, 2)));
    assert_eq!(q.pop(), Some(job(0, 2, 2)));
    assert_eq!(q.pop(), Some(job(2, 0, 5)));
    assert_eq!(q.pop(), None);
    assert_eq!(t.sweep(1, 32, 0, &mut q), 0);
    assert_eq!(t.sweep(2, 32, 0, &mut q), 0);
    assert_eq!(t.sweep(0, 1, 0, &mut q), 1);
    assert_eq!(t.sweep(0, 1, 0, &mut q), 1);
    assert_eq!(t.sweep(0, 1, 0, &mut q), 0);
    assert_eq!(q.pop(), Some(job(1, 0, 2)));
    assert_eq!(q.pop(), Some(job(1, 2, 2)));
}

#[test]
fn sweep_stops_at_the_bound_of_the_queue() {
    let mut t = IoRingTable::new(3);
    open(&mut t, "a", 1, 1);
    open(&mut t, "b", 1, 1);
    for i in 0..4 {
        assert_eq!(t.submit(0, i, args(1), 0), Ok(true));
        assert_eq!(t.submit(1, i, args(1), 0), Ok(true));
    }
    let mut q: BoundedQueue<IoRingJob> = BoundedQueue::new(5);
    assert_eq!(t.sweep(1, 3, 0, &mut q), 5);
    assert!(q.is_full());
    let got: Vec<IoRingJob> = (0..5).map(|_| q.pop().unwrap()).collect();
    assert_eq!(got, vec![job(0, 0, 1), job(0, 1, 1), job(0, 2, 1), job(1, 0, 1), job(1, 1, 1)]);
    assert_eq!(t.sweep(1, 3, 0, &mut q), 3);
    let got: Vec<IoRingJob> = (0..3).map(|_| q.pop().unwrap()).collect();
    assert_eq!(got, vec![job(0, 3, 1), job(1, 2, 1), job(1, 3, 1)]);
}

#[test]
fn table_finishes_spans_and_rejects_strangers() {
    let mut t = IoRingTable::new(2);
    open(&mut t, "a", 2, 1);
    for i in 0..4 {
        assert_eq!(t.submit(0, 3 - i, args(1), 40 + i as u64), Ok(true));
    }
    let mut q: BoundedQueue<IoRingJob> = BoundedQueue::new(8);
    assert_eq!(t.sweep(1, 8, 0, &mut q), 2);
    let first = q.pop().unwrap();
    let second = q.pop().unwrap();
    assert!(!t.process(&job(1, 0, 2), &vec![0, 0]));
    assert!(!t.process(&job(0, 1, 2), &vec![0, 0]));
    assert!(!t.process(&first, &vec![0]));
    assert!(t.process(&second, &vec![7, -3001]));
    assert!(!t.process(&second, &vec![7, -3001]));
    assert_eq!(t.drain_completions(1, 8), vec![]);
    assert_eq!(
        t.drain_completions(0, 8),
        vec![
            IoCqe { index: 1, reserved: 0, result: 7, userdata: 42 },
            IoCqe { index: 0, reserved: 0, result: -3001, userdata: 43 },
        ]
    );
    assert!(t.process(&first, &vec![1, 2]));
    assert_eq!(t.drain_completions(0, 1), vec![IoCqe { index: 3, reserved: 0, result: 1, userdata: 40 }]);
}

#[test]
fn worker_threads_follow_the_cores() {
    assert_eq!(worker_threads(256, 0), 256);
    assert_eq!(worker_threads(256, 1), 1);
    assert_eq!(worker_threads(256, 2), 1);
    assert_eq!(worker_threads(256, 3), 2);
    assert_eq!(worker_threads(256, 64), 32);
    assert_eq!(worker_threads(256, 511), 256);
    assert_eq!(worker_threads(256, 513), 256);
    assert_eq!(worker_threads(16, 64), 16);
    assert_eq!(worker_threads(-5, 64), -5);
    assert_eq!(worker_threads(i32::MAX, usize::MAX), i32::MAX);
    let n = max_threads(256);
    assert!(n <= 256);
    assert!(n >= 1);
    assert_eq!(max_threads(0), 0);
    assert_eq!(max_threads(-1), -1);
}

#[test]
fn mount_names_are_short() {
    assert!(mount_name_ok(""));
    assert!(mount_name_ok("0123456789012345678901234567890"));
    assert!(!mount_name_ok("01234567890123456789012345678901"));
    assert!(!mount_name_ok("ééééééééééééééééé"));
}

fn setup(cluster: &str) -> ClientSetup {
    ClientSetup {
        cluster_id: cluster.to_string(),
        remount_prefix: Some("/remount".to_string()),
        enable_writeback_cache: true,
        memset_before_read: true,
        max_idle_threads: 10,
        max_threads: 1,
        iov_limit: 5,
        io_jobq_size: 9,
    }
}

#[test]
fn clients_take_the_settings_over() {
    let mut c = FuseClients::new();
    assert_eq!(c.iors.capacity(), 0);
    assert_eq!(c.iojqs.levels(), 0);
    assert_eq!(c.iov_mountpoint(), "");
    assert!(c.init(&setup("stage"), "/mnt/3fs", "secret".to_string()));
    assert_eq!(c.fuse_mount, "stage");
    assert_eq!(c.fuse_mountpoint, "/mnt/3fs");
    assert_eq!(c.fuse_remount_pref, Some("/remount".to_string()));
    assert_eq!(c.iov_mountpoint(), "/remount");
    assert_eq!(c.fuse_token, "secret");
    assert!(c.enable_writeback_cache);
    assert!(c.memset_before_read);
    assert_eq!(c.max_idle_threads, 10);
    assert_eq!(c.max_threads, 1);
    assert_eq!(c.iovs.capacity(), 5);
    assert_eq!(c.iovs.mount_name(), "/remount");
    assert_eq!(c.iors.capacity(), 5);
    assert_eq!(c.iojqs.levels(), 3);
    assert_eq!(c.iojqs.room(2), 9);
    assert!(!c.cancel_ios);
    c.stop();
    assert!(c.cancel_ios);
    assert_eq!(c.fuse_token, "secret");
}

#[test]
fn clients_refuse_a_long_mount_name() {
    let mut c = FuseClients::new();
    let long = "c".repeat(32);
    assert!(!c.init(&setup(&long), "/mnt/3fs", "secret".to_string()));
    assert_eq!(c.fuse_mount, long);
    assert_eq!(c.fuse_mountpoint, "");
    assert_eq!(c.fuse_token, "");
    assert_eq!(c.iors.capacity(), 0);
    assert_eq!(c.max_threads, 0);
}

#[test]
fn the_queue_of_a_class_sweeps_the_table() {
    let mut t = IoRingTable::new(4);
    open(&mut t, "a", 1, 1);
    open(&mut t, "b", 1, 2);
    for i in 0..3 {
        assert_eq!(t.submit(0, i, args(1), 0), Ok(true));
        assert_eq!(t.submit(1, i, args(1), 0), Ok(true));
    }
    let mut m = MultiPrioQueue::new(2, 3);
    assert_eq!(m.sweep(3, &mut t, 8, 0), 0);
    assert_eq!(m.sweep(0, &mut t, 8, 0), 0);
    assert_eq!(m.sweep(1, &mut t, 8, 0), 2);
    assert_eq!(m.sweep(1, &mut t, 8, 0), 0);
    assert_eq!(m.sweep(2, &mut t, 1, 0), 1);
    assert_eq!(m.room(1), 0);
    assert_eq!(m.room(2), 1);
    let mut w = WorkerState::new(2);
    assert_eq!(m.next_job(&mut w), Some((1, job(0, 0, 1))));
    assert_eq!(m.next_job(&mut w), Some((2, job(1, 0, 1))));
    assert_eq!(m.next_job(&mut w), Some((1, job(0, 1, 1))));
    assert_eq!(m.next_job(&mut w), None);
    assert_eq!(t.ring(0).map(|r| r.processing()), Some(2));
    assert_eq!(t.ring(1).map(|r| r.sqe_count()), Some(2));
    assert!(t.ring(2).is_none());
    assert!(t.ring(-1).is_none());
}

#[test]
fn the_table_pulls_from_a_region() {
    let mut t = IoRingTable::new(2);
    open(&mut t, "a", 0, 1);
    let mut region = vec![0u8; 16 + 96 * 8];
    region[0] = 2;
    region[16 + 80 * 8] = 3;
    region[16 + 80 * 8 + 16] = 4;
    assert_eq!(t.pull(0, &region), Ok(2));
    assert_eq!(t.pull(0, &region), Ok(0));
    assert_eq!(t.pull(1, &region).unwrap_err().code(), 3001);
    assert_eq!(t.ring(0).map(|r| r.sqe_head()), Some(2));
    region[12] = 1;
    assert_eq!(t.pull(0, &region).unwrap_err().code(), 1);
    region[12] = 0;
    region[0] = 9;
    assert_eq!(t.pull(0, &region).unwrap_err().code(), 1);
    assert_eq!(t.ring(0).map(|r| r.sqe_head()), Some(2));
}

#[test]
fn lookups_decide_the_first_result() {
    assert_eq!(IoRing::lookup_result(0, true, Ok(true)), 0);
    assert_eq!(IoRing::lookup_result(-2, true, Ok(true)), -2);
    assert_eq!(IoRing::lookup_result(0, false, Ok(true)), -3003);
    assert_eq!(IoRing::lookup_result(0, false, Err(Error { code: 9 })), -3003);
    assert_eq!(IoRing::lookup_result(0, true, Err(Error { code: 9 })), -9);
    assert_eq!(IoRing::lookup_result(0, true, Ok(false)), -6003);
}

#[test]
fn clients_count_the_references_to_inodes() {
    let mut c = FuseClients::new();
    let inode = Inode { id: InodeId(3), file: None };
    assert_eq!(c.get_inode(3), None);
    c.add_entry(inode);
    c.add_entry(inode);
    assert_eq!(c.get_inode(3).map(|r| r.refcount), Some(2));
    assert_eq!(c.remove_entry(3, 3), Dropped::TooFew);
    assert_eq!(c.remove_entry(3, 2), Dropped::Forgotten);
    assert_eq!(c.remove_entry(3, 1), Dropped::Unknown);
    assert_eq!(InodeId::get_conf(), InodeId(0x1000_0000));
    assert_eq!(InodeId::set_conf(), InodeId(0x2000_0000));
    let entry = DirEntry::new(InodeId(9), "n".to_string());
    assert_eq!(entry.name, "n");
    assert_eq!(entry.inode_id, InodeId(9));
}
