use usrbio::layout::ChainId;
use usrbio::layout::ChunkId;
use usrbio::layout::File;
use usrbio::layout::FileLayout;
use usrbio::layout::Inode;
use usrbio::layout::InodeId;
use usrbio::layout::RoutingInfo;
use usrbio::piov::PioV;
use usrbio::piov::StorageClient;
use usrbio::piov::TruncateChunkOp;
use usrbio::reduce::IOResult;
use usrbio::status::Error;
use usrbio::status::Void;

fn client() -> StorageClient {
    StorageClient { routing: Some(RoutingInfo { chains: vec![ChainId(1), ChainId(2), ChainId(3)] }) }
}

fn file(id: u64, chunk_size: usize) -> Inode {
    Inode { id: InodeId(id), file: Some(File { layout: FileLayout { chunk_size, stripe_size: 2 } }) }
}

fn piov(lim: usize, slots: usize) -> PioV {
    match PioV::new(client(), lim, vec![0; slots]) {
        Ok(p) => p,
        Err(e) => panic!("refused: {:?}", e),
    }
}

fn ok(n: usize) -> IOResult {
    IOResult { length_info: Ok(n) }
}

fn failed(code: i32) -> IOResult {
    IOResult { length_info: Err(Error { code }) }
}

#[test]
fn storage_client_hands_out_its_routing() {
    let c = client();
    assert_eq!(c.get_mgmtd_client(), &c);
    assert_eq!(c.get_routing_info(), c.routing);
    let none = StorageClient { routing: None };
    assert_eq!(none.get_routing_info(), None);
    assert!(PioV::new(none, 0, vec![0]).is_err());
    let empty = StorageClient { routing: Some(RoutingInfo { chains: vec![] }) };
    assert_eq!(PioV::new(empty, 0, vec![0]).err(), Some(Error { code: 1 }));
}

#[test]
fn storage_client_prepares_operations() {
    let c = client();
    let r = c.create_read_io(ChainId(2), ChunkId { inode: 4, index: 5 }, 6, 3, 9, 1);
    assert_eq!(r.chain, ChainId(2));
    assert_eq!(r.chunk, ChunkId { inode: 4, index: 5 });
    assert_eq!((r.offset, r.length, r.buf_off, r.user_ctx), (6, 3, 9, 1));
    assert_eq!(r.result, ok(3));
    assert_eq!(r.data, vec![0, 0, 0]);
    let w = c.create_write_io(ChainId(3), ChunkId { inode: 4, index: 0 }, 1, 2, 64, 7, vec![8, 9], 0);
    assert_eq!((w.offset, w.length, w.chunk_size, w.buf_off, w.user_ctx), (1, 2, 64, 7, 0));
    assert_eq!(w.result, ok(2));
    assert_eq!(w.data, vec![8, 9]);
}

#[test]
fn add_read_cuts_the_range_into_chunk_reads() {
    let mut p = piov(0, 2);
    assert_eq!(p.add_read(1, &file(7, 100), 1, 250, 200), Ok(Void));
    assert_eq!(p.res, vec![0, 0]);
    let got: Vec<(u32, u64, usize, usize, usize, usize)> =
        p.rios.iter().map(|r| (r.chain.0, r.chunk.index, r.offset, r.length, r.buf_off, r.user_ctx)).collect();
    assert_eq!(got, vec![(2, 2, 50, 50, 0, 1), (3, 3, 0, 100, 50, 1), (2, 4, 0, 50, 150, 1)]);
    assert!(p.rios.iter().all(|r| r.chunk.inode == 7 && r.data == vec![0u8; r.length] && r.result == ok(r.length)));
}

#[test]
fn add_read_honours_the_chunk_size_limit() {
    let mut p = piov(64, 1);
    assert_eq!(p.add_read(0, &file(7, 100), 0, 90, 120), Ok(Void));
    let got: Vec<(usize, usize, usize)> = p.rios.iter().map(|r| (r.offset, r.length, r.buf_off)).collect();
    assert_eq!(got, vec![(90, 10, 0), (0, 64, 10), (64, 36, 74), (0, 10, 110)]);
}

#[test]
fn add_read_of_what_is_no_file() {
    let mut p = piov(0, 2);
    let dir = Inode { id: InodeId(3), file: None };
    assert_eq!(p.add_read(1, &dir, 0, 0, 64), Ok(Void));
    assert_eq!(p.res, vec![0, -3003]);
    assert!(p.rios.is_empty());
}

#[test]
fn add_read_refusals_change_nothing() {
    let mut p = piov(0, 2);
    assert_eq!(p.add_read(2, &file(7, 100), 0, 0, 10), Err(Error { code: 1 }));
    assert_eq!(p.add_read(0, &file(7, 0), 0, 0, 10), Err(Error { code: 1 }));
    assert_eq!(p.add_read(0, &file(7, 100), 0, u64::MAX, 1), Err(Error { code: 1 }));
    assert!(p.rios.is_empty());
    assert_eq!(p.res, vec![0, 0]);
    assert_eq!(p.add_read(0, &file(7, 100), 0, u64::MAX - 1, 1), Ok(Void));
    assert_eq!(p.rios.len(), 1);
}

#[test]
fn reads_and_writes_do_not_mix() {
    let mut p = piov(0, 2);
    assert_eq!(p.add_write(0, &file(7, 100), 0, 0, 4, &[1, 2, 3, 4]), Ok(Void));
    assert_eq!(p.add_read(1, &file(7, 100), 0, 0, 4), Err(Error { code: 1 }));
    assert!(p.rios.is_empty());
    let mut p = piov(0, 2);
    assert_eq!(p.add_read(0, &file(7, 100), 0, 0, 4), Ok(Void));
    assert_eq!(p.add_write(1, &file(7, 100), 0, 0, 4, &[1, 2, 3, 4]), Err(Error { code: 1 }));
    assert!(p.wios.is_empty());
    assert!(p.potential_lens.is_empty());
}

#[test]
fn add_write_carries_the_bytes_and_raises_the_length_hint() {
    let mut p = piov(0, 2);
    let bytes: Vec<u8> = (0..20).collect();
    assert_eq!(p.add_write(0, &file(7, 8), 0, 5, 12, &bytes), Ok(Void));
    let got: Vec<(u64, usize, usize, usize, usize, Vec<u8>)> =
        p.wios.iter().map(|w| (w.chunk.index, w.offset, w.length, w.chunk_size, w.buf_off, w.data.clone())).collect();
    assert_eq!(
        got,
        vec![
            (0, 5, 3, 8, 0, vec![0, 1, 2]),
            (1, 0, 8, 8, 3, vec![3, 4, 5, 6, 7, 8, 9, 10]),
            (2, 0, 1, 8, 11, vec![11]),
        ]
    );
    assert_eq!(p.potential_lens.get(&7), Some(&17));
    assert_eq!(p.add_write(1, &file(7, 8), 0, 0, 4, &bytes), Ok(Void));
    assert_eq!(p.potential_lens.get(&7), Some(&17));
    assert_eq!(p.add_write(1, &file(7, 8), 0, 30, 4, &bytes), Ok(Void));
    assert_eq!(p.potential_lens.get(&7), Some(&34));
    assert_eq!(p.add_write(1, &file(9, 8), 0, 2, 0, &bytes), Ok(Void));
    assert_eq!(p.potential_lens.get(&9), None);
    assert_eq!(p.add_write(1, &file(9, 8), 0, 0, 21, &bytes), Err(Error { code: 1 }));
    let dir = Inode { id: InodeId(3), file: None };
    assert_eq!(p.add_write(1, &dir, 0, 0, 21, &bytes), Ok(Void));
    assert_eq!(p.res, vec![0, -3003]);
}

#[test]
fn a_write_past_the_known_length_is_confirmed() {
    let mut p = piov(0, 1);
    let f = file(7, 8);
    assert!(!p.must_confirm_length(f.id, 1000));
    assert!(p.check_write_off(&f, 1000, 0));
    assert_eq!(p.add_write(0, &f, 0, 0, 10, &[0; 10]), Ok(Void));
    assert!(!p.must_confirm_length(f.id, 10));
    assert!(p.must_confirm_length(f.id, 11));
    assert!(p.check_write_off(&f, 10, 0));
    assert!(!p.check_write_off(&f, 11, 10));
    assert!(p.check_write_off(&f, 11, 11));
    assert!(p.check_write_off(&file(8, 8), 11, 0));
}

#[test]
fn failed_truncations_fail_their_requests_only() {
    let mut p = piov(0, 3);
    let f = file(7, 4);
    assert_eq!(p.add_write(0, &f, 0, 0, 8, &[0; 8]), Ok(Void));
    assert_eq!(p.add_write(1, &f, 0, 8, 4, &[1; 4]), Ok(Void));
    assert_eq!(p.add_write(2, &f, 0, 12, 8, &[2; 8]), Ok(Void));
    assert_eq!(p.wios.len(), 5);
    let failed_ops = vec![
        TruncateChunkOp { user_ctx: 1, result: failed(55) },
        TruncateChunkOp { user_ctx: 0, result: ok(0) },
        TruncateChunkOp { user_ctx: 9, result: failed(66) },
        TruncateChunkOp { user_ctx: 1, result: failed(77) },
    ];
    p.fail_truncated(&failed_ops);
    assert_eq!(p.res, vec![0, -77, 0]);
    let left: Vec<(usize, usize)> = p.wios.iter().map(|w| (w.user_ctx, w.buf_off)).collect();
    assert_eq!(left, vec![(0, 0), (0, 4), (2, 0), (2, 4)]);
    assert_eq!(p.wios[2].data, vec![2; 4]);
    assert_eq!(p.execute_write(&vec![ok(4), ok(4), ok(4), failed(5)]), Ok(Void));
    assert!(p.finish_io(false));
    assert_eq!(p.res, vec![8, -77, -5]);
}

#[test]
fn finish_io_folds_reads_and_fills_holes() {
    let mut p = piov(0, 2);
    let f = file(7, 4);
    assert_eq!(p.add_read(0, &f, 0, 0, 12), Ok(Void));
    assert_eq!(p.add_read(1, &f, 0, 0, 8), Ok(Void));
    assert_eq!(p.execute_read(&vec![(ok(4), vec![1; 4])]), Err(Error { code: 1 }));
    let answers = vec![
        (ok(2), vec![1, 1, 9, 9]),
        (failed(5001), vec![9; 4]),
        (ok(4), vec![3; 4]),
        (ok(4), vec![4; 4]),
        (ok(1), vec![5, 9, 9, 9]),
    ];
    assert_eq!(p.execute_read(&answers), Ok(Void));
    assert!(p.finish_io(true));
    assert_eq!(p.res, vec![12, 5]);
    let data: Vec<Vec<u8>> = p.rios.iter().map(|r| r.data.clone()).collect();
    assert_eq!(data, vec![vec![1, 1, 0, 0], vec![0; 4], vec![3; 4], vec![4; 4], vec![5, 9, 9, 9]]);
    assert_eq!(p.rios[1].result, failed(5001));
}

#[test]
fn finish_io_without_holes_allowed() {
    let mut p = piov(0, 1);
    assert_eq!(p.add_read(0, &file(7, 4), 0, 0, 8), Ok(Void));
    assert_eq!(p.execute_read(&vec![(ok(2), vec![1, 1, 9, 9]), (ok(4), vec![3; 4])]), Ok(Void));
    assert!(p.finish_io(false));
    assert_eq!(p.res, vec![-6001]);
    assert_eq!(p.rios[0].data, vec![1, 1, 9, 9]);
}

#[test]
fn finish_io_refuses_results_out_of_range() {
    let mut p = match PioV::new(client(), 0, vec![i64::MAX - 3]) {
        Ok(p) => p,
        Err(e) => panic!("refused: {:?}", e),
    };
    assert_eq!(p.add_read(0, &file(7, 4), 0, 0, 4), Ok(Void));
    assert!(!p.finish_io(true));
    assert_eq!(p.res, vec![i64::MAX - 3]);
    let mut p = match PioV::new(client(), 0, vec![i64::MAX - 4]) {
        Ok(p) => p,
        Err(e) => panic!("refused: {:?}", e),
    };
    assert_eq!(p.add_read(0, &file(7, 4), 0, 0, 4), Ok(Void));
    assert!(p.finish_io(true));
    assert_eq!(p.res, vec![i64::MAX]);
}

#[test]
fn a_request_can_be_ended_before_its_chunks_are_touched() {
    let mut p = piov(0, 3);
    assert!(p.finish_request(1, -3003));
    assert!(p.fail_request(2, 6003));
    assert!(!p.finish_request(3, -1));
    assert!(!p.fail_request(3, 1));
    assert_eq!(p.res, vec![0, -3003, -6003]);
    assert!(p.fail_request(1, 0));
    assert_eq!(p.res, vec![0, 0, -6003]);
}

#[test]
fn reads_of_failed_requests_deliver_nothing() {
    let mut p = piov(0, 2);
    let f = file(1, 16);
    assert_eq!(p.add_read(0, &f, 0, 0, 16), Ok(Void));
    assert_eq!(p.add_read(1, &f, 0, 0, 16), Ok(Void));
    assert!(p.fail_request(1, 6003));
    assert!(p.delivers(0));
    assert!(!p.delivers(1));
    assert!(!p.delivers(2));
}

#[test]
fn finish_io_refuses_a_failure_without_a_positive_code() {
    let mut p = piov(0, 1);
    assert_eq!(p.add_read(0, &file(7, 4), 0, 0, 4), Ok(Void));
    assert_eq!(p.execute_read(&vec![(failed(0), vec![0; 4])]), Ok(Void));
    assert!(!p.finish_io(true));
    assert_eq!(p.res, vec![0]);
    assert_eq!(p.execute_read(&vec![(failed(5002), vec![0; 4])]), Ok(Void));
    assert!(p.finish_io(true));
    assert_eq!(p.res, vec![-5002]);
}
