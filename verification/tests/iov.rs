use usrbio::iov::parse_key;
use usrbio::iov::parse_key_bytes;
use usrbio::iov::IorAttrs;
use usrbio::iov::IovAttrs;
use usrbio::iov::KeyError;
use usrbio::iov_table::iov_iid_start;
use usrbio::iov_table::lookup_sem;
use usrbio::iov_table::sem_name;
use usrbio::iov_table::Acl;
use usrbio::iov_table::IovTable;
use usrbio::iov_table::ShmBuf;
use usrbio::layout::InodeId;
use usrbio::piov::MetaUserInfo;
use usrbio::text::read_i32;
use usrbio::text::read_unsigned;
use usrbio::text::read_usize;
use usrbio::uuid::Uuid;

const ID: &str = "00112233445566778899aabbccddeeff";
const ID_VALUE: u128 = 0x00112233445566778899aabbccddeeff;

fn key(rest: &str) -> String {
    format!("{}{}", ID, rest)
}

fn plain() -> IovAttrs {
    IovAttrs { id: Uuid(ID_VALUE), block_size: 0, is_io_ring: false, for_read: true, io_depth: 0, iora: None }
}

#[test]
fn uuid_from_hex() {
    assert_eq!(Uuid::from_hex_string(ID), Ok(Uuid(ID_VALUE)));
    assert_eq!(Uuid::from_hex_string("00112233445566778899AABBCCDDEEFF"), Ok(Uuid(ID_VALUE)));
    assert_eq!(Uuid::from_hex_string("ffffffffffffffffffffffffffffffff"), Ok(Uuid(u128::MAX)));
    assert_eq!(Uuid::from_hex_string("00000000000000000000000000000000"), Ok(Uuid::nil()));
    assert_eq!(Uuid::from_hex_string("10000000000000000000000000000000"), Ok(Uuid(1u128 << 124)));
    assert_eq!(Uuid::from_hex_string("+1000000000000000000000000000000"), Err("Invalid hex string".to_string()));
    assert_eq!(Uuid::from_hex_string("+0+0+0+0+0+0+0+0+0+0+0+0+0+0+0+0"), Err("Invalid hex string".to_string()));
    assert_eq!(Uuid::from_hex_string(""), Err("Invalid UUID length".to_string()));
    assert_eq!(Uuid::from_hex_string(&ID[..31]), Err("Invalid UUID length".to_string()));
    assert_eq!(Uuid::from_hex_string(&format!("{}0", ID)), Err("Invalid UUID length".to_string()));
    assert_eq!(Uuid::from_hex_string("0011223344556677-899aabbccddeeff"), Err("Invalid hex string".to_string()));
    assert_eq!(Uuid::from_hex_string("0+112233445566778899aabbccddeeff"), Err("Invalid hex string".to_string()));
    assert_eq!(Uuid::from_hex_string("g0112233445566778899aabbccddeeff"), Err("Invalid hex string".to_string()));
    assert_eq!(Uuid::from_hex_bytes(ID.as_bytes()), Some(Uuid(ID_VALUE)));
    assert_eq!(Uuid::from_hex_bytes(b"xx"), None);
}

#[test]
fn numbers_from_text() {
    let t = b"x+123y";
    assert_eq!(read_unsigned(t, 1, 5, 10, 1000), None);
    assert_eq!(read_unsigned(t, 2, 5, 10, 1000), Some(123));
    assert_eq!(read_unsigned(t, 2, 5, 10, 122), None);
    assert_eq!(read_unsigned(t, 2, 5, 10, 123), Some(123));
    assert_eq!(read_unsigned(t, 1, 2, 10, 1000), None);
    assert_eq!(read_unsigned(t, 2, 2, 10, 1000), None);
    assert_eq!(read_unsigned(t, 2, 6, 10, 1000), None);
    assert_eq!(read_unsigned(b"0000000000000000000000000000007", 0, 31, 10, 7), Some(7));
    assert_eq!(read_unsigned(b"1012", 0, 3, 2, u64::MAX), Some(5));
    assert_eq!(read_unsigned(b"1012", 0, 4, 2, u64::MAX), None);
    assert_eq!(read_unsigned(b"18446744073709551615", 0, 20, 10, u64::MAX), Some(u64::MAX));
    assert_eq!(read_unsigned(b"18446744073709551616", 0, 20, 10, u64::MAX), None);
    assert_eq!(read_unsigned(b"9", 0, 1, 10, 0), None);
    assert_eq!(read_unsigned(b"0", 0, 1, 10, 0), Some(0));
    assert_eq!(read_i32(b"-2147483648", 0, 11), Some(i32::MIN));
    assert_eq!(read_i32(b"-2147483649", 0, 11), None);
    assert_eq!(read_i32(b"2147483647", 0, 10), Some(i32::MAX));
    assert_eq!(read_i32(b"+2147483647", 0, 11), None);
    assert_eq!(read_i32(b"2147483648", 0, 10), None);
    assert_eq!(read_i32(b"-0", 0, 2), Some(0));
    assert_eq!(read_i32(b"-", 0, 1), None);
    assert_eq!(read_i32(b"+", 0, 1), None);
    assert_eq!(read_i32(b"-+1", 0, 3), None);
    assert_eq!(read_i32(b"", 0, 0), None);
    assert_eq!(read_usize(b"4096", 0, 4), Some(4096));
    assert_eq!(read_usize(b"-1", 0, 2), None);
}

#[test]
fn key_of_a_plain_buffer() {
    assert_eq!(parse_key(ID), Ok(plain()));
    assert_eq!(parse_key(&key(".b4096")), Ok(IovAttrs { block_size: 4096, ..plain() }));
    assert_eq!(parse_key(&key(".")), Ok(plain()));
    assert_eq!(parse_key(&key("..b1.")), Ok(IovAttrs { block_size: 1, ..plain() }));
    assert_eq!(parse_key(&key(".x99.zz")), Ok(plain()));
    assert_eq!(parse_key(&key(".b1.b2")), Ok(IovAttrs { block_size: 2, ..plain() }));
    assert_eq!(parse_key_bytes(key(".b7").as_bytes()), Ok(IovAttrs { block_size: 7, ..plain() }));
}

#[test]
fn key_of_a_ring() {
    let full = parse_key(&key(".b512.r-4.t250.f101.ph"));
    assert_eq!(
        full,
        Ok(IovAttrs {
            id: Uuid(ID_VALUE),
            block_size: 512,
            is_io_ring: true,
            for_read: true,
            io_depth: -4,
            iora: Some(IorAttrs { timeout_ms: 250, flags: 5, priority: 0 }),
        })
    );
    assert_eq!(
        parse_key(&key(".w8")),
        Ok(IovAttrs { is_io_ring: true, for_read: false, io_depth: 8, ..plain() })
    );
    assert_eq!(parse_key(&key(".w8")).map(|a| a.ring_attrs()), Ok(IorAttrs { timeout_ms: 0, flags: 0, priority: 1 }));
    assert_eq!(IorAttrs::new(), IorAttrs { timeout_ms: 0, flags: 0, priority: 1 });
    let ring = IovAttrs { is_io_ring: true, for_read: true, io_depth: 0, ..plain() };
    let with = |a: IorAttrs| Ok(IovAttrs { iora: Some(a), ..ring });
    assert_eq!(parse_key(&key(".r0.p")), with(IorAttrs { timeout_ms: 0, flags: 0, priority: 1 }));
    assert_eq!(parse_key(&key(".r0.pn")), with(IorAttrs { timeout_ms: 0, flags: 0, priority: 1 }));
    assert_eq!(parse_key(&key(".r0.pl")), with(IorAttrs { timeout_ms: 0, flags: 0, priority: 2 }));
    assert_eq!(parse_key(&key(".r0.plow")), with(IorAttrs { timeout_ms: 0, flags: 0, priority: 2 }));
    assert_eq!(parse_key(&key(".pl.r0")), with(IorAttrs { timeout_ms: 0, flags: 0, priority: 2 }));
    assert_eq!(parse_key(&key(".r0.t0")), with(IorAttrs { timeout_ms: 0, flags: 0, priority: 1 }));
    assert_eq!(parse_key(&key(".r0.ph.t9.pl")), with(IorAttrs { timeout_ms: 9, flags: 0, priority: 2 }));
    assert_eq!(
        parse_key(&key(".r0.f1111111111111111111111111111111111111111111111111111111111111111")),
        with(IorAttrs { timeout_ms: 0, flags: u64::MAX, priority: 1 })
    );
    assert_eq!(
        parse_key(&key(".r5.w-2147483648")),
        Ok(IovAttrs { is_io_ring: true, for_read: false, io_depth: i32::MIN, ..plain() })
    );
}

#[test]
fn keys_that_are_refused() {
    assert_eq!(parse_key(""), Err(KeyError::UuidLength));
    assert_eq!(parse_key(".b1"), Err(KeyError::UuidLength));
    assert_eq!(parse_key(&format!("{}0.b1", ID)), Err(KeyError::UuidLength));
    assert_eq!(parse_key(&format!("{}.b1", &ID[..31])), Err(KeyError::UuidLength));
    assert_eq!(parse_key("0011223344556677_899aabbccddeeff.b1"), Err(KeyError::UuidDigit));
    assert_eq!(parse_key(&key(".b")), Err(KeyError::BlockSize));
    assert_eq!(parse_key(&key(".b0")), Err(KeyError::BlockSize));
    assert_eq!(parse_key(&key(".b-1")), Err(KeyError::BlockSize));
    assert_eq!(parse_key(&key(".b+7")), Err(KeyError::BlockSize));
    assert_eq!(parse_key(&key(".r+4")), Err(KeyError::IoDepth));
    assert_eq!(parse_key(&key(".r1.t+5")), Err(KeyError::Timeout));
    assert_eq!(parse_key(&key(".r1.f+1")), Err(KeyError::Flags));
    assert_eq!(parse_key("+0112233445566778899aabbccddeeff.b1"), Err(KeyError::UuidDigit));
    assert_eq!(parse_key(&key(".b12k")), Err(KeyError::BlockSize));
    assert_eq!(parse_key(&key(".b99999999999999999999999")), Err(KeyError::BlockSize));
    assert_eq!(parse_key(&key(".r")), Err(KeyError::IoDepth));
    assert_eq!(parse_key(&key(".w2147483648")), Err(KeyError::IoDepth));
    assert_eq!(parse_key(&key(".r1.t-1")), Err(KeyError::Timeout));
    assert_eq!(parse_key(&key(".r1.t")), Err(KeyError::Timeout));
    assert_eq!(parse_key(&key(".r1.t2147483648")), Err(KeyError::Timeout));
    assert_eq!(parse_key(&key(".r1.f2")), Err(KeyError::Flags));
    assert_eq!(parse_key(&key(".r1.f")), Err(KeyError::Flags));
    assert_eq!(
        parse_key(&key(".r1.f10000000000000000000000000000000000000000000000000000000000000000")),
        Err(KeyError::Flags)
    );
    assert_eq!(parse_key(&key(".r1.px")), Err(KeyError::Priority));
    assert_eq!(parse_key(&key(".t5")), Err(KeyError::RingAttrsOnBuffer));
    assert_eq!(parse_key(&key(".f1")), Err(KeyError::RingAttrsOnBuffer));
    assert_eq!(parse_key(&key(".p")), Err(KeyError::RingAttrsOnBuffer));
    assert_eq!(parse_key(&key(".b0.t-1")), Err(KeyError::BlockSize));
    assert_eq!(parse_key(&key(".t-1.b0")), Err(KeyError::Timeout));
    assert_eq!(parse_key(&key(".é")), Ok(plain()));
    assert_eq!(parse_key(&key(".pé.r1")), Err(KeyError::Priority));
}

#[test]
fn key_errors_have_a_code_and_a_message() {
    let all = [
        (KeyError::UuidLength, "Invalid UUID length"),
        (KeyError::UuidDigit, "Invalid hex string"),
        (KeyError::BlockSize, "invalid block size set in shm key"),
        (KeyError::IoDepth, "invalid io depth set in shm key"),
        (KeyError::Timeout, "invalid timeout set in shm key"),
        (KeyError::Flags, "invalid flags set in shm key"),
        (KeyError::Priority, "invalid priority set in shm key"),
        (KeyError::RingAttrsOnBuffer, "ioring attrs set for non-ioring"),
    ];
    for (e, text) in all {
        assert_eq!(e.code(), 1);
        assert_eq!(e.message(), text);
    }
}

#[test]
fn semaphores_of_the_classes() {
    assert_eq!(sem_name(0), "submit-ios.ph");
    assert_eq!(sem_name(1), "submit-ios");
    assert_eq!(sem_name(2), "submit-ios.pl");
    assert_eq!(sem_name(7), "submit-ios");
    let sem = lookup_sem(2);
    assert_eq!(sem.id, InodeId(0x1000));
    assert_eq!(sem.data.symlink.path, "/dev/shm/sem.submit-ios.pl");
    assert_eq!(sem.data.acl, Acl { uid: 0, gid: 0, permission: 0o666 });
    assert_eq!(lookup_sem(0).data.symlink.path, "/dev/shm/sem.submit-ios.ph");
    assert_eq!(lookup_sem(1).data.symlink.path, "/dev/shm/sem.submit-ios");
    assert_eq!(iov_iid_start(), 0);
}

#[test]
fn inode_ids_of_buffers() {
    assert_eq!(InodeId::iov_dir(), InodeId(0x1000));
    assert_eq!(InodeId::iov(0), InodeId(0x1000));
    assert_eq!(InodeId::iov(1), InodeId(0xfff));
    assert_eq!(InodeId::iov(0x1000), InodeId(0));
    assert_eq!(InodeId::iov(0x1001), InodeId(u64::MAX));
    assert_eq!(InodeId::iov(i32::MAX), InodeId(0x1000u64.wrapping_sub(i32::MAX as u64)));
    assert_eq!(InodeId(77).u64(), 77);
    for d in [0, 1, 0x1000, 0x1001, 123456, i32::MAX] {
        assert_eq!(IovTable::iov_desc(InodeId::iov(d)), Some(d));
    }
    assert_eq!(IovTable::iov_desc(InodeId(0x1001)), None);
    assert_eq!(IovTable::iov_desc(InodeId(1 << 40)), None);
    assert_eq!(IovTable::iov_desc(InodeId(0x1000u64.wrapping_sub(i32::MAX as u64 + 1))), None);
}

fn user(uid: u32) -> MetaUserInfo {
    MetaUserInfo { uid, gid: uid + 100 }
}

#[test]
fn shm_buf_starts_unbound() {
    let b = ShmBuf::new("/x".to_string(), 0, 4096, 512, Uuid(3));
    assert_eq!(
        b,
        ShmBuf {
            path: "/x".to_string(),
            size: 4096,
            block_size: 512,
            id: Uuid(3),
            key: String::new(),
            user: 0,
            pid: 0,
            is_io_ring: false,
            for_read: true,
            io_depth: 0,
            iora: None,
        }
    );
}

#[test]
fn iov_table_registers_and_finds_buffers() {
    let mut t = IovTable::new();
    assert_eq!(t.capacity(), 0);
    assert_eq!(t.add_iov(ID, "/a".to_string(), true, 100, 1, &user(1)).unwrap_err().code(), 6002);
    t.init("/mnt/3fs", 2);
    assert_eq!(t.mount_name(), "/mnt/3fs");
    assert_eq!(t.capacity(), 2);
    let k1 = key(".b64.r4.t10");
    let k2 = "ffffffffffffffffffffffffffffffff".to_string();
    assert_eq!(t.add_iov(&k1, "/a".to_string(), true, 100, 11, &user(1)), Ok(0));
    assert_eq!(t.add_iov(&k2, "/b".to_string(), true, 200, 12, &user(2)), Ok(1));
    assert_eq!(t.add_iov(ID, "/c".to_string(), true, 100, 1, &user(1)).unwrap_err().code(), 6002);
    assert_eq!(t.lookup_iovd(&k1, &user(1)), Ok(0));
    assert_eq!(t.lookup_iovd(&k2, &user(2)), Ok(1));
    assert_eq!(t.lookup_iov(&k2, &user(2)), t.stat_iov(1, &user(2)));
    assert_eq!(t.lookup_iov(&k1, &user(1)).unwrap().id, InodeId(0x1000));
    assert_eq!(t.lookup_iov(&k2, &user(1)).unwrap_err().code(), 3002);
    assert_eq!(t.lookup_iov(ID, &user(1)).unwrap_err().code(), 3001);
    let inode = t.stat_iov(1, &user(2)).unwrap();
    assert_eq!(inode.id, InodeId(0xfff));
    assert_eq!(inode.data.symlink.path, "/b");
    assert_eq!(inode.data.acl, Acl { uid: 2, gid: 102, permission: 0o400 });
    assert_eq!(t.stat_iov(1, &user(1)).unwrap_err().code(), 3002);
    assert_eq!(t.stat_iov(2, &user(1)).unwrap_err().code(), 3001);
    assert_eq!(t.stat_iov(-1, &user(1)).unwrap_err().code(), 3001);
    assert_eq!(t.rm_iov(&k1, &user(2)).unwrap_err().code(), 3002);
    let shm = t.rm_iov(&k1, &user(1)).unwrap();
    assert_eq!(
        shm,
        ShmBuf {
            path: "/a".to_string(),
            size: 100,
            block_size: 64,
            id: Uuid(ID_VALUE),
            key: k1.clone(),
            user: 1,
            pid: 11,
            is_io_ring: true,
            for_read: true,
            io_depth: 4,
            iora: Some(IorAttrs { timeout_ms: 10, flags: 0, priority: 1 }),
        }
    );
    assert_eq!(t.rm_iov(&k1, &user(1)).unwrap_err().code(), 3001);
    assert_eq!(t.stat_iov(0, &user(1)).unwrap_err().code(), 3001);
    assert_eq!(t.add_iov(ID, "/c".to_string(), true, 100, 1, &user(3)), Ok(0));
}

#[test]
fn iov_table_refuses_bad_registrations() {
    let mut t = IovTable::new();
    t.init("m", 4);
    assert_eq!(t.add_iov("nokey", "/a".to_string(), true, 100, 1, &user(1)).unwrap_err().code(), 1);
    assert_eq!(t.add_iov(&key(".t5"), "/a".to_string(), true, 100, 1, &user(1)).unwrap_err().code(), 1);
    assert_eq!(t.add_iov(ID, "/a".to_string(), false, 100, 1, &user(1)).unwrap_err().code(), 1);
    assert_eq!(t.add_iov(&key(".b101"), "/a".to_string(), true, 100, 1, &user(1)).unwrap_err().code(), 1);
    assert_eq!(t.add_iov(&key(".b100"), "/a".to_string(), true, 100, 1, &user(1)), Ok(0));
    assert_eq!(t.stat_iov(1, &user(1)).unwrap_err().code(), 3001);
}

#[test]
fn a_key_names_the_buffer_registered_last() {
    let mut t = IovTable::new();
    t.init("m", 4);
    assert_eq!(t.add_iov(ID, "/first".to_string(), true, 100, 1, &user(1)), Ok(0));
    assert_eq!(t.add_iov(ID, "/second".to_string(), true, 100, 1, &user(2)), Ok(1));
    assert_eq!(t.lookup_iovd(ID, &user(2)), Ok(1));
    assert_eq!(t.lookup_iov(ID, &user(2)).unwrap().data.symlink.path, "/second");
    assert_eq!(t.lookup_iov(ID, &user(1)).unwrap_err().code(), 3002);
    assert_eq!(t.stat_iov(0, &user(1)).unwrap().data.symlink.path, "/first");
    assert_eq!(t.rm_iov(ID, &user(2)).unwrap().path, "/second");
    assert_eq!(t.lookup_iov(ID, &user(1)).unwrap_err().code(), 3001);
    assert_eq!(t.stat_iov(0, &user(1)).unwrap().data.symlink.path, "/first");
}

#[test]
fn buffers_are_found_by_their_identifier() {
    let mut t = IovTable::new();
    t.init("m", 4);
    assert!(t.lookup_buf(Uuid(ID_VALUE), &user(1)).is_none());
    assert_eq!(t.add_iov(&key(".b8"), "/first".to_string(), true, 100, 1, &user(1)), Ok(0));
    assert_eq!(t.lookup_buf(Uuid(ID_VALUE), &user(1)).map(|b| b.path.clone()), Some("/first".to_string()));
    assert!(t.lookup_buf(Uuid(ID_VALUE), &user(2)).is_none());
    assert!(t.lookup_buf(Uuid(1), &user(1)).is_none());
    assert_eq!(t.add_iov(&key(".b9"), "/second".to_string(), true, 100, 1, &user(1)), Ok(1));
    assert_eq!(t.lookup_buf(Uuid(ID_VALUE), &user(1)).map(|b| b.block_size), Some(9));
    assert!(t.rm_iov(&key(".b8"), &user(1)).is_ok());
    assert!(t.lookup_buf(Uuid(ID_VALUE), &user(1)).is_none());
    assert_eq!(t.lookup_iovd(&key(".b9"), &user(1)), Ok(1));
}

#[test]
fn the_directory_lists_semaphores_and_own_buffers() {
    let mut t = IovTable::new();
    t.init("m", 4);
    let k2 = "ffffffffffffffffffffffffffffffff.r4";
    assert_eq!(t.add_iov(ID, "/a".to_string(), true, 100, 1, &user(1)), Ok(0));
    assert_eq!(t.add_iov(k2, "/b".to_string(), true, 100, 1, &user(2)), Ok(1));
    assert_eq!(t.add_iov(&key(".b1"), "/c".to_string(), true, 100, 1, &user(1)), Ok(2));
    let (des, ins) = t.list_iovs(&user(1));
    let names: Vec<&str> = des.iter().map(|d| d.name.as_str()).collect();
    assert_eq!(names, vec!["submit-ios.ph", "submit-ios", "submit-ios.pl", ID, key(".b1").as_str()]);
    let ids: Vec<u64> = des.iter().map(|d| d.inode_id.0).collect();
    assert_eq!(ids, vec![0x1000, 0x1000, 0x1000, 0x1000, 0xffe]);
    assert_eq!(ins.len(), 5);
    assert_eq!(ins[0], Some(lookup_sem(0)));
    assert_eq!(ins[2], Some(lookup_sem(2)));
    assert_eq!(ins[3], t.stat_iov(0, &user(1)).ok());
    assert_eq!(ins[4], t.stat_iov(2, &user(1)).ok());
    let (des, ins) = t.list_iovs(&user(9));
    assert_eq!(des.len(), 3);
    assert_eq!(ins.len(), 3);
}
