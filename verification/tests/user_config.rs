use usrbio::config::KeyValue;
use usrbio::iov::IorAttrs;
use usrbio::iov::IovAttrs;
use usrbio::iov_table::Acl;
use usrbio::layout::File;
use usrbio::layout::FileLayout;
use usrbio::layout::Inode;
use usrbio::layout::InodeId;
use usrbio::piov::MetaUserInfo;
use usrbio::rcinode::check_is_virt;
use usrbio::rcinode::Dropped;
use usrbio::rcinode::InodeTable;
use usrbio::settings::Settings;
use usrbio::user_config::full_key;
use usrbio::user_config::system_key;
use usrbio::user_config::user_key;
use usrbio::user_config::UserConfig;
use usrbio::uuid::Uuid;

fn s(text: &str) -> String {
    text.to_string()
}

fn user(uid: u32) -> MetaUserInfo {
    MetaUserInfo { uid, gid: 7 }
}

fn system() -> Settings {
    let mut c = Settings::new();
    c.set(s("storage.net_client.rdma_control.max_concurrent_transmission"), s("64"));
    c.set(s("readonly"), s("false"));
    c.set(s("attr_timeout"), s("30"));
    c
}

fn ready() -> UserConfig {
    let mut c = UserConfig::new();
    c.init(system(), 10, 64);
    c
}

#[test]
fn settings_keep_the_last_value() {
    let mut c = Settings::new();
    assert_eq!(c.find(&s("a")), None);
    c.set(s("a"), s("1"));
    c.set(s("b"), s("2"));
    c.set(s("a"), s("3"));
    assert_eq!(c.find(&s("a")), Some(&s("3")));
    assert_eq!(c.find(&s("b")), Some(&s("2")));
    assert_eq!(c.find(&s("c")), None);
    assert!(!c.is_true(&s("a")));
    c.set(s("a"), s("true"));
    assert!(c.is_true(&s("a")));
    assert!(!c.is_true(&s("zz")));
    let mut d = c.copy();
    d.overlay(&vec![KeyValue::new(s("b"), s("x")), KeyValue::new(s("e"), s("y")), KeyValue::new(s("b"), s("z"))]);
    assert_eq!(d.find(&s("b")), Some(&s("z")));
    assert_eq!(d.find(&s("e")), Some(&s("y")));
    assert_eq!(d.find(&s("a")), Some(&s("true")));
    assert_eq!(c.find(&s("b")), Some(&s("2")));
    assert_eq!(c.find(&s("e")), None);
}

#[test]
fn keys_name_settings() {
    assert_eq!(UserConfig::parse_key("sys.periodic_sync.enable"), Ok((true, 1)));
    assert_eq!(
        UserConfig::parse_key("sys.storage.net_client.rdma_control.max_concurrent_transmission"),
        Ok((true, 0))
    );
    assert_eq!(UserConfig::parse_key("sys.io_job_deq_timeout"), Ok((true, 7)));
    assert_eq!(UserConfig::parse_key("usr.enable_read_cache"), Ok((false, 0)));
    assert_eq!(UserConfig::parse_key("usr.readonly"), Ok((false, 1)));
    assert_eq!(UserConfig::parse_key("usr.symlink_timeout"), Ok((false, 8)));
    for bad in ["", "sys", "sys.", "usr.", "sys.readonly", "usr.max_jobs_per_ioring", "abc.readonly", "usr.readonly ", "usrxreadonly", "USR.readonly"] {
        assert_eq!(UserConfig::parse_key(bad).unwrap_err().code(), 1, "{}", bad);
    }
    for c in 0..17 {
        let (is_sys, kidx) = UserConfig::parse_key(full_key(c)).unwrap();
        assert_eq!(is_sys, c < 8);
        assert_eq!(kidx, if c < 8 { c } else { c - 8 });
        let name = if is_sys { system_key(kidx) } else { user_key(kidx) };
        assert_eq!(&full_key(c)[4..], name);
    }
    assert_eq!(UserConfig::config_iid(true, true, 0), InodeId(0x0fff_ffff));
    assert_eq!(UserConfig::config_iid(true, true, 7), InodeId(0x0fff_fff8));
    assert_eq!(UserConfig::config_iid(true, false, 0), InodeId(0x0fff_fff7));
    assert_eq!(UserConfig::config_iid(false, false, 8), InodeId(0x1fff_ffef));
    assert_eq!(UserConfig::config_iid(false, true, 3), InodeId(0x1fff_fffc));
}

#[test]
fn a_user_changes_only_their_own_settings() {
    let mut c = ready();
    assert_eq!(c.get_config(&user(3)).find(&s("readonly")), Some(&s("false")));
    let inode = c.set_config("usr.readonly", "true", &user(3)).unwrap();
    assert_eq!(inode.id, InodeId(0x2000_0000 - 1 - 8 - 1));
    assert_eq!(inode.data.symlink.path, "true");
    assert_eq!(inode.data.acl, Acl { uid: 3, gid: 7, permission: 0o400 });
    assert_eq!(c.get_config(&user(3)).find(&s("readonly")), Some(&s("true")));
    assert_eq!(c.get_config(&user(4)).find(&s("readonly")), Some(&s("false")));
    assert_eq!(c.get_config(&user(99)).find(&s("readonly")), Some(&s("false")));
    assert!(c.set_config("usr.readonly", "false", &user(3)).is_ok());
    assert_eq!(c.get_config(&user(3)).find(&s("readonly")), Some(&s("false")));
    assert_eq!(c.set_config("usr.flush_on_stat", "true", &user(11)).unwrap_err().code(), 3002);
    assert!(c.set_config("usr.flush_on_stat", "true", &user(10)).is_ok());
    assert_eq!(c.set_config("usr.nothing", "true", &user(3)).unwrap_err().code(), 1);
    assert_eq!(c.set_config("readonly", "true", &user(3)).unwrap_err().code(), 1);
}

#[test]
fn system_settings_reach_every_user() {
    let mut c = ready();
    assert!(c.set_config("usr.attr_timeout", "5", &user(3)).is_ok());
    let inode = c.set_config("sys.max_jobs_per_ioring", "16", &user(4)).unwrap();
    assert_eq!(inode.id, InodeId(0x2000_0000 - 1 - 6));
    assert_eq!(inode.data.symlink.path, "16");
    for uid in [3, 4, 99] {
        assert_eq!(c.get_config(&user(uid)).find(&s("max_jobs_per_ioring")), Some(&s("16")));
    }
    assert_eq!(c.get_config(&user(3)).find(&s("attr_timeout")), Some(&s("5")));
    assert_eq!(c.get_config(&user(4)).find(&s("attr_timeout")), Some(&s("30")));
}

#[test]
fn the_concurrency_of_transmissions_is_bounded() {
    let mut c = ready();
    let key = "sys.storage.net_client.rdma_control.max_concurrent_transmission";
    for bad in ["0", "-1", "+1", "129", "abc", "", "99999999999"] {
        assert_eq!(c.set_config(key, bad, &user(1)).unwrap_err().code(), 1, "{}", bad);
    }
    assert_eq!(c.get_config(&user(1)).find(&s(&key[4..])), Some(&s("64")));
    assert!(c.set_config(key, "128", &user(1)).is_ok());
    assert!(c.set_config(key, "1", &user(1)).is_ok());
    assert_eq!(c.get_config(&user(1)).find(&s(&key[4..])), Some(&s("1")));
    assert!(c.set_config(key, "128", &user(1)).is_ok());
}

#[test]
fn read_only_mode_of_the_system_cannot_be_left() {
    let mut sys = system();
    sys.set(s("readonly"), s("true"));
    let mut c = UserConfig::new();
    c.init(sys, 10, 64);
    assert_eq!(c.set_config("usr.readonly", "false", &user(3)).unwrap_err().code(), 1);
    assert_eq!(c.set_config("usr.readonly", "", &user(3)).unwrap_err().code(), 1);
    assert!(c.set_config("usr.readonly", "true", &user(3)).is_ok());
    assert!(c.set_config("usr.sync_on_stat", "false", &user(3)).is_ok());
}

#[test]
fn settings_show_as_inodes() {
    let mut c = ready();
    assert!(c.set_config("usr.attr_timeout", "5", &user(3)).is_ok());
    let inode = c.lookup_config("usr.attr_timeout", &user(3)).unwrap();
    assert_eq!(inode.id, InodeId(0x1000_0000 - 1 - 8 - 5));
    assert_eq!(inode.data.symlink.path, "5");
    assert_eq!(inode.data.acl, Acl { uid: 3, gid: 7, permission: 0o400 });
    assert_eq!(c.lookup_config("usr.attr_timeout", &user(4)).unwrap().data.symlink.path, "30");
    let inode = c.lookup_config("sys.storage.net_client.rdma_control.max_concurrent_transmission", &user(4)).unwrap();
    assert_eq!(inode.id, InodeId(0x0fff_ffff));
    assert_eq!(inode.data.symlink.path, "64");
    assert_eq!(inode.data.acl.permission, 0o444);
    assert_eq!(c.lookup_config("sys.periodic_sync.enable", &user(4)).unwrap_err().code(), 3001);
    assert_eq!(c.lookup_config("sys.nothing", &user(4)).unwrap_err().code(), 1);
    assert_eq!(c.stat_config(InodeId(0x1000_0000), &user(4)).unwrap_err().code(), 3001);
    assert_eq!(c.stat_config(InodeId(0x1000_0000 - 18), &user(4)).unwrap_err().code(), 3001);
    assert_eq!(c.stat_config(InodeId(0), &user(4)).unwrap_err().code(), 3001);
    assert_eq!(c.stat_config(InodeId(0x1000_0000 - 10), &user(4)).unwrap().data.symlink.path, "false");
    let (des, ins) = c.list_config(&user(3));
    let names: Vec<&str> = des.iter().map(|d| d.name.as_str()).collect();
    assert_eq!(
        names,
        vec![
            "sys.storage.net_client.rdma_control.max_concurrent_transmission",
            "usr.readonly",
            "usr.attr_timeout",
        ]
    );
    assert!(des.iter().all(|d| d.inode_id == InodeId(0x1000_0000)));
    let values: Vec<String> = ins.iter().map(|i| i.clone().unwrap().data.symlink.path).collect();
    assert_eq!(values, vec!["64", "false", "5"]);
    assert_eq!(ins[2], c.lookup_config("usr.attr_timeout", &user(3)).ok());
    let (des, ins) = UserConfig::new().list_config(&user(3));
    assert!(des.is_empty() && ins.is_empty());
}

fn inode(id: u64, chunk_size: usize) -> Inode {
    Inode { id: InodeId(id), file: Some(File { layout: FileLayout { chunk_size, stripe_size: 1 } }) }
}

#[test]
fn inodes_are_counted() {
    let mut t = InodeTable::new();
    assert_eq!(t.get_inode(5), None);
    assert_eq!(t.remove_entry(5, 1), Dropped::Unknown);
    t.add_entry(inode(5, 64));
    assert_eq!(t.get_inode(5).map(|r| (r.refcount, r.inode)), Some((1, inode(5, 64))));
    t.add_entry(inode(5, 128));
    t.add_entry(inode(5, 128));
    assert_eq!(t.get_inode(5).map(|r| (r.refcount, r.inode)), Some((3, inode(5, 128))));
    assert_eq!(t.remove_entry(5, 4), Dropped::TooFew);
    assert_eq!(t.remove_entry(5, 2), Dropped::Kept);
    assert_eq!(t.get_inode(5).map(|r| r.refcount), Some(1));
    assert_eq!(t.remove_entry(5, 0), Dropped::Kept);
    assert_eq!(t.remove_entry(5, 1), Dropped::Forgotten);
    assert_eq!(t.get_inode(5), None);
    assert!(!check_is_virt(0));
    assert!(!check_is_virt(0x0fff_ffff_ffff_ffff));
    assert!(check_is_virt(0x1000_0000_0000_0000));
    assert!(check_is_virt(u64::MAX));
}

#[test]
fn attributes_have_defaults() {
    assert_eq!(IorAttrs::default(), IorAttrs { timeout_ms: 0, flags: 0, priority: 1 });
    assert_eq!(
        IovAttrs::default(),
        IovAttrs { id: Uuid(0), block_size: 0, is_io_ring: false, for_read: true, io_depth: 0, iora: None }
    );
}
