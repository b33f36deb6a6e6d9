use usrbio::bytes::read_be;
use usrbio::bytes::read_le;
use usrbio::bytes::write_be;
use usrbio::bytes::write_le;
use usrbio::ring::read_marker;
use usrbio::ring::IoArgs;
use usrbio::ring::IoCqe;
use usrbio::ring::IoRing;
use usrbio::ring::IoRingJob;
use usrbio::ring::IoSqe;
use usrbio::uuid::Uuid;
use usrbio::iov::IorAttrs;
use usrbio::table::IoRingTable;
use usrbio::wire::consumer_ranges;
use usrbio::wire::publish;
use usrbio::wire::ByteRange;
use usrbio::wire::pull_completion_tail;
use usrbio::wire::pull_submissions;

const ENTRIES: usize = 8;
const ARGS: usize = 16;
const CQES: usize = 16 + 56 * ENTRIES;
const SQES: usize = 16 + 80 * ENTRIES;
const END: usize = 16 + 96 * ENTRIES;

fn put(region: &mut Vec<u8>, at: usize, bytes: &[u8]) {
    region[at..at + bytes.len()].copy_from_slice(bytes);
}

fn args(n: u64) -> IoArgs {
    IoArgs {
        buf_id: Uuid(0x00112233445566778899aabbccddeeff + n as u128),
        buf_off: 16 * n,
        file_iid: 1000 + n,
        file_off: 4096 * n,
        io_len: 512 + n,
        userdata: 0xdead_0000 + n,
    }
}

fn ring() -> IoRing {
    let size = IoRing::bytes_required(ENTRIES as i32 - 1);
    match IoRing::new("w".to_string(), true, &[0u8; 16], size, 0, 1, 0, 0) {
        Ok(r) => r,
        Err(e) => panic!("ring refused: {:?}", e),
    }
}

fn producer_pushes(region: &mut Vec<u8>, position: usize, slot: i32, tag: u64) {
    let mut bytes = Vec::new();
    args(slot as u64).to_bytes(&mut bytes);
    put(region, ARGS + 56 * slot as usize, &bytes);
    let mut bytes = Vec::new();
    IoSqe { index: slot, userdata: tag }.to_bytes(&mut bytes);
    put(region, SQES + 16 * position, &bytes);
    put(region, 0, &((position as u32 + 1) % ENTRIES as u32).to_le_bytes());
}

#[test]
fn numbers_stand_lowest_byte_first() {
    let mut out = vec![9];
    write_le(&mut out, 0x0102030405060708, 8);
    assert_eq!(out, vec![9, 8, 7, 6, 5, 4, 3, 2, 1]);
    let mut out = Vec::new();
    write_le(&mut out, 0x0102030405060708, 3);
    assert_eq!(out, vec![8, 7, 6]);
    write_le(&mut out, 5, 0);
    assert_eq!(out, vec![8, 7, 6]);
    assert_eq!(read_le(&[9, 8, 7, 6, 5, 4, 3, 2, 1], 1, 8), 0x0102030405060708);
    assert_eq!(read_le(&[0xff; 8], 0, 8), u64::MAX);
    assert_eq!(read_le(&[1, 2, 3], 1, 2), 0x0302);
    assert_eq!(read_le(&[1, 2, 3], 3, 0), 0);
    assert_eq!(read_marker(&[0, 0x78, 0x56, 0x34, 0x12], 1), 0x12345678);
    let mut out = Vec::new();
    write_be(&mut out, 0x0102, 4);
    assert_eq!(out, vec![0, 0, 1, 2]);
    assert_eq!(read_be(&[0xff; 16], 0, 16), u128::MAX);
    assert_eq!(read_be(&[7, 1, 2], 1, 2), 0x0102);
}

#[test]
fn entries_have_their_layout() {
    let mut out = Vec::new();
    IoCqe { index: 1, reserved: 0, result: -2, userdata: 0x0102030405060708 }.to_bytes(&mut out);
    assert_eq!(
        out,
        vec![1, 0, 0, 0, 0, 0, 0, 0, 0xfe, 0xff, 0xff, 0xff, 0xff, 0xff, 0xff, 0xff, 8, 7, 6, 5, 4, 3, 2, 1]
    );
    let mut out = Vec::new();
    IoSqe { index: -1, userdata: 0x11 }.to_bytes(&mut out);
    assert_eq!(out, vec![0xff, 0xff, 0xff, 0xff, 0, 0, 0, 0, 0x11, 0, 0, 0, 0, 0, 0, 0]);
    let mut out = Vec::new();
    args(0).to_bytes(&mut out);
    assert_eq!(out.len(), 56);
    assert_eq!(
        &out[..16],
        &[0x00, 0x11, 0x22, 0x33, 0x44, 0x55, 0x66, 0x77, 0x88, 0x99, 0xaa, 0xbb, 0xcc, 0xdd, 0xee, 0xff]
    );
    assert_eq!(&out[24..32], &1000u64.to_le_bytes());
    assert_eq!(&out[40..48], &512u64.to_le_bytes());
    assert_eq!(&out[48..56], &0xdead_0000u64.to_le_bytes());
}

#[test]
fn entries_read_back_as_written() {
    let cqes = [
        IoCqe { index: 0, reserved: 0, result: 0, userdata: 0 },
        IoCqe { index: i32::MAX, reserved: i32::MIN, result: i64::MIN, userdata: u64::MAX },
        IoCqe { index: -1, reserved: -1, result: i64::MAX, userdata: 1 },
        IoCqe { index: 7, reserved: 0, result: -3001, userdata: 42 },
    ];
    for c in cqes {
        let mut out = vec![0xee; 5];
        c.to_bytes(&mut out);
        assert_eq!(out.len(), 29);
        assert_eq!(IoCqe::from_bytes(&out, 5), c);
    }
    for e in [IoSqe { index: 0, userdata: 0 }, IoSqe { index: i32::MIN, userdata: u64::MAX }] {
        let mut out = vec![0xee; 3];
        e.to_bytes(&mut out);
        assert_eq!(out.len(), 19);
        assert_eq!(IoSqe::from_bytes(&out, 3), e);
    }
    let big = IoArgs {
        buf_id: Uuid(u128::MAX),
        buf_off: u64::MAX,
        file_iid: u64::MAX,
        file_off: u64::MAX,
        io_len: u64::MAX,
        userdata: u64::MAX,
    };
    for a in [args(0), args(5), big] {
        let mut out = vec![0xee; 1];
        a.to_bytes(&mut out);
        assert_eq!(out.len(), 57);
        assert_eq!(IoArgs::from_bytes(&out, 1), a);
    }
}

#[test]
fn a_ring_takes_over_what_the_producer_pushed() {
    let mut region = vec![0u8; END];
    let mut r = ring();
    assert_eq!(pull_submissions(&mut r, &region), Ok(0));
    producer_pushes(&mut region, 0, 3, 70);
    producer_pushes(&mut region, 1, 5, 71);
    assert_eq!(pull_submissions(&mut r, &region), Ok(2));
    assert_eq!(r.sqe_head(), 2);
    assert_eq!(pull_submissions(&mut r, &region), Ok(0));
    assert_eq!(r.jobs_to_proc(4, 0), vec![IoRingJob { ior: -1, sqe_proc_tail: 0, to_proc: 2 }]);
    assert_eq!(
        r.span_requests(0, 2),
        Some(vec![(IoSqe { index: 3, userdata: 70 }, args(3)), (IoSqe { index: 5, userdata: 71 }, args(5))])
    );
    producer_pushes(&mut region, 2, 0, 72);
    assert_eq!(pull_submissions(&mut r, &region), Ok(1));
    assert_eq!(r.sqe_count(), 1);
}

#[test]
fn a_corrupted_region_is_refused() {
    let mut r = ring();
    assert_eq!(pull_submissions(&mut r, &vec![0u8; END - 1]).unwrap_err().code(), 1);
    let mut region = vec![0u8; END];
    put(&mut region, 0, &8u32.to_le_bytes());
    assert_eq!(pull_submissions(&mut r, &region).unwrap_err().code(), 1);
    let mut region = vec![0u8; END];
    producer_pushes(&mut region, 0, 3, 70);
    put(&mut region, SQES, &8u32.to_le_bytes());
    assert_eq!(pull_submissions(&mut r, &region).unwrap_err().code(), 1);
    put(&mut region, SQES, &(-1i32).to_le_bytes());
    assert_eq!(pull_submissions(&mut r, &region).unwrap_err().code(), 1);
    assert_eq!(r.sqe_head(), 0);
    put(&mut region, SQES, &7u32.to_le_bytes());
    assert_eq!(pull_submissions(&mut r, &region), Ok(1));
    let mut region = vec![0u8; END];
    for i in 0..6 {
        producer_pushes(&mut region, 1 + i, 0, 0);
    }
    assert_eq!(read_marker(&region, 0), 7);
    assert_eq!(pull_submissions(&mut r, &region), Ok(6));
    put(&mut region, 0, &0u32.to_le_bytes());
    assert_eq!(pull_submissions(&mut r, &region).unwrap_err().code(), 1);
    put(&mut region, 0, &3u32.to_le_bytes());
    assert_eq!(pull_submissions(&mut r, &region).unwrap_err().code(), 1);
    assert_eq!(r.sqe_head(), 7);
    assert_eq!(r.sqe_count(), 7);
    assert_eq!(r.sqe_tail(), 0);
}

#[test]
fn a_ring_publishes_its_completions() {
    let mut region = vec![0x5a; END + 10];
    put(&mut region, 0, &[0u8; 16]);
    let mut r = ring();
    producer_pushes(&mut region, 0, 3, 70);
    producer_pushes(&mut region, 1, 5, 71);
    producer_pushes(&mut region, 2, 6, 72);
    assert_eq!(pull_submissions(&mut r, &region), Ok(3));
    assert_eq!(r.jobs_to_proc(4, 0).len(), 1);
    r.process(0, 3, &vec![10, -3003, 30]);
    let before = region.clone();
    assert!(publish(&r, &mut region));
    assert_eq!(read_marker(&region, 0), 3);
    assert_eq!(read_marker(&region, 4), 3);
    assert_eq!(read_marker(&region, 8), 3);
    assert_eq!(read_marker(&region, 12), 0);
    assert_eq!(IoCqe::from_bytes(&region, CQES), IoCqe { index: 3, reserved: 0, result: 10, userdata: 70 });
    assert_eq!(IoCqe::from_bytes(&region, CQES + 24), IoCqe { index: 5, reserved: 0, result: -3003, userdata: 71 });
    assert_eq!(IoCqe::from_bytes(&region, CQES + 48), IoCqe { index: 6, reserved: 0, result: 30, userdata: 72 });
    assert_eq!(&region[CQES + 72..], &before[CQES + 72..]);
    assert_eq!(&region[..4], &before[..4]);
    assert_eq!(&region[12..CQES], &before[12..CQES]);
    let mut short = vec![1u8; END - 1];
    assert!(!publish(&r, &mut short));
    assert_eq!(short, vec![1u8; END - 1]);
}

#[test]
fn a_ring_notes_what_the_producer_drained() {
    let mut region = vec![0u8; END];
    let mut r = ring();
    assert!(r.add_cqe(1, 1, 1));
    assert!(r.add_cqe(2, 2, 2));
    assert!(r.add_cqe(3, 3, 3));
    assert_eq!(pull_completion_tail(&mut r, &region), Ok(0));
    put(&mut region, 12, &2u32.to_le_bytes());
    assert_eq!(pull_completion_tail(&mut r, &region), Ok(2));
    assert_eq!(r.cqe_tail(), 2);
    assert_eq!(r.cqe_count(), 1);
    assert_eq!(pull_completion_tail(&mut r, &region), Ok(0));
    put(&mut region, 12, &4u32.to_le_bytes());
    assert_eq!(pull_completion_tail(&mut r, &region).unwrap_err().code(), 1);
    put(&mut region, 12, &1u32.to_le_bytes());
    assert_eq!(pull_completion_tail(&mut r, &region).unwrap_err().code(), 1);
    put(&mut region, 12, &8u32.to_le_bytes());
    assert_eq!(pull_completion_tail(&mut r, &region).unwrap_err().code(), 1);
    assert_eq!(pull_completion_tail(&mut r, &region[..15]).unwrap_err().code(), 1);
    assert_eq!(r.cqe_tail(), 2);
    put(&mut region, 12, &3u32.to_le_bytes());
    assert_eq!(pull_completion_tail(&mut r, &region), Ok(1));
    assert_eq!(r.cqe_count(), 0);
}

#[test]
fn the_consumer_writes_two_stretches_of_the_region() {
    let r = ring();
    assert_eq!(
        consumer_ranges(&r, END),
        Some((ByteRange { start: 4, end: 12 }, ByteRange { start: CQES, end: SQES }))
    );
    assert_eq!(consumer_ranges(&r, END + 4096).map(|(_, cqes)| cqes), Some(ByteRange { start: 464, end: 656 }));
    assert_eq!(consumer_ranges(&r, END - 1), None);
    assert_eq!(consumer_ranges(&r, 0), None);
}

#[test]
fn publishing_changes_the_consumer_stretches_only() {
    let mut region = vec![0x5a; END];
    put(&mut region, 0, &[0u8; 16]);
    let mut r = ring();
    producer_pushes(&mut region, 0, 3, 70);
    assert_eq!(pull_submissions(&mut r, &region), Ok(1));
    assert_eq!(r.jobs_to_proc(1, 0).len(), 1);
    r.process(0, 1, &vec![-1]);
    let before = region.clone();
    assert!(publish(&r, &mut region));
    let (marks, cqes) = consumer_ranges(&r, region.len()).unwrap();
    for i in 0..region.len() {
        let owned = (marks.start <= i && i < marks.end) || (cqes.start <= i && i < cqes.end);
        assert!(owned || region[i] == before[i], "byte {}", i);
    }
    assert_ne!(region, before);
}

#[test]
fn a_table_pulls_while_the_region_is_in_order() {
    let size = IoRing::bytes_required(ENTRIES as i32 - 1);
    let mut table = IoRingTable::new(2);
    let attrs = IorAttrs { timeout_ms: 0, flags: 0, priority: 1 };
    let idx = table.add_io_ring(String::new(), "w".to_string(), true, &[0u8; 16], size, 0, attrs).unwrap();
    let mut region = vec![0u8; END];
    assert_eq!(table.pull(idx, &region), Ok(0));
    producer_pushes(&mut region, 0, 3, 70);
    producer_pushes(&mut region, 1, 5, 71);
    assert_eq!(table.pull(idx, &region), Ok(2));
    assert_eq!(table.pull(idx, &region), Ok(0));
    assert_eq!(table.pull(idx + 1, &region).unwrap_err().code(), 3001);
    assert_eq!(table.pull(-1, &region).unwrap_err().code(), 3001);
    assert_eq!(table.pull(idx, &region[..END - 1]).unwrap_err().code(), 1);
    let mut bad = region.clone();
    put(&mut bad, 12, &1u32.to_le_bytes());
    assert_eq!(table.pull(idx, &bad).unwrap_err().code(), 1);
    let mut bad = region.clone();
    put(&mut bad, 0, &8u32.to_le_bytes());
    assert_eq!(table.pull(idx, &bad).unwrap_err().code(), 1);
    assert_eq!(table.pull(idx, &region), Ok(0));
    assert_eq!(table.ring(idx).map(|r| r.sqe_count()), Some(2));
}

#[test]
fn a_ring_opens_on_a_region_in_use() {
    let size = IoRing::bytes_required(ENTRIES as i32 - 1);
    let mut region = vec![0u8; END];
    put(&mut region, 4, &6u32.to_le_bytes());
    producer_pushes(&mut region, 6, 3, 70);
    producer_pushes(&mut region, 7, 5, 71);
    producer_pushes(&mut region, 0, 1, 72);
    assert_eq!(read_marker(&region, 0), 1);
    let waiting = IoCqe { index: 4, reserved: 0, result: 99, userdata: 7 };
    let mut bytes = Vec::new();
    waiting.to_bytes(&mut bytes);
    put(&mut region, CQES + 24 * 2, &bytes);
    put(&mut region, 8, &3u32.to_le_bytes());
    put(&mut region, 12, &2u32.to_le_bytes());

    let mut table = IoRingTable::new(1);
    let attrs = IorAttrs { timeout_ms: 0, flags: 0, priority: 1 };
    let idx = table.add_io_ring(String::new(), "w".to_string(), true, &region[..16], size, 0, attrs);
    assert_eq!(idx, Ok(0));

    let mut r = match IoRing::new("w".to_string(), true, &region[..16], size, 0, 1, 0, 0) {
        Ok(r) => r,
        Err(e) => panic!("ring refused: {:?}", e),
    };
    assert_eq!((r.sqe_tail(), r.sqe_head(), r.sqe_count()), (6, 6, 0));
    assert_eq!((r.cqe_tail(), r.cqe_head(), r.cqe_count()), (2, 3, 1));
    assert!(r.jobs_to_proc(4, 0).is_empty());
    assert_eq!(pull_submissions(&mut r, &region), Ok(3));
    assert_eq!((r.sqe_tail(), r.sqe_head(), r.sqe_count()), (6, 1, 3));
    assert_eq!(r.jobs_to_proc(4, 0), vec![IoRingJob { ior: -1, sqe_proc_tail: 6, to_proc: 3 }]);
    assert_eq!(
        r.span_requests(6, 3),
        Some(vec![
            (IoSqe { index: 3, userdata: 70 }, args(3)),
            (IoSqe { index: 5, userdata: 71 }, args(5)),
            (IoSqe { index: 1, userdata: 72 }, args(1)),
        ])
    );
    r.process(6, 3, &vec![10, 20, 30]);
    assert_eq!((r.cqe_tail(), r.cqe_head(), r.cqe_count()), (2, 6, 4));
    let before = region.clone();
    assert!(publish(&r, &mut region));
    assert_eq!(read_marker(&region, 4), 1);
    assert_eq!(read_marker(&region, 8), 6);
    assert_eq!(IoCqe::from_bytes(&region, CQES + 24 * 2), waiting);
    assert_eq!(IoCqe::from_bytes(&region, CQES + 24 * 3), IoCqe { index: 3, reserved: 0, result: 10, userdata: 70 });
    assert_eq!(IoCqe::from_bytes(&region, CQES + 24 * 4), IoCqe { index: 5, reserved: 0, result: 20, userdata: 71 });
    assert_eq!(IoCqe::from_bytes(&region, CQES + 24 * 5), IoCqe { index: 1, reserved: 0, result: 30, userdata: 72 });
    assert_eq!(&region[CQES..CQES + 24 * 3], &before[CQES..CQES + 24 * 3]);
    assert_eq!(&region[CQES + 24 * 6..], &before[CQES + 24 * 6..]);
    assert_eq!(&region[12..CQES], &before[12..CQES]);
    let again = region.clone();
    assert!(publish(&r, &mut region));
    assert_eq!(region, again);
}

#[test]
fn a_region_with_its_completion_head_out_of_order_is_not_written() {
    let mut r = ring();
    assert!(r.add_cqe(1, 1, 1));
    assert!(r.add_cqe(2, 2, 2));
    let mut region = vec![0u8; END];
    put(&mut region, 8, &3u32.to_le_bytes());
    let before = region.clone();
    assert!(!publish(&r, &mut region));
    assert_eq!(region, before);
    put(&mut region, 8, &8u32.to_le_bytes());
    let before = region.clone();
    assert!(!publish(&r, &mut region));
    assert_eq!(region, before);
    put(&mut region, 8, &1u32.to_le_bytes());
    assert!(publish(&r, &mut region));
    assert_eq!(read_marker(&region, 8), 2);
    assert_eq!(IoCqe::from_bytes(&region, CQES), IoCqe { index: 0, reserved: 0, result: 0, userdata: 0 });
    assert_eq!(IoCqe::from_bytes(&region, CQES + 24), IoCqe { index: 2, reserved: 0, result: 2, userdata: 2 });
}
