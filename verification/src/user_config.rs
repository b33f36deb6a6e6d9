//! Settings that users may read and change through the file system: the
//! system's, which are shared, and every user's own, laid over the system's.

use vstd::prelude::*;
use vstd::string::StringSliceAdditionalSpecFns;
use vstd::utf8::encode_utf8;
use crate::config::text_is;
use crate::config::KeyValue;
use crate::iov_table::Acl;
use crate::iov_table::DirEntry;
use crate::iov_table::InodeData;
use crate::iov_table::MetaInode;
use crate::iov_table::Symlink;
use crate::layout::InodeId;
use crate::piov::MetaUserInfo;
use crate::settings::lemma_overlaid_prefix;
use crate::settings::overlaid;
use crate::settings::Settings;
use crate::status::Error;
use crate::status::MetaCode;
use crate::status::StatusCode;
use crate::text::parse_signed;
use crate::text::read_i32;

verus! {

/// Number of settings of the system that can be changed.
pub const SYSTEM_KEYS: usize = 8;

/// Number of settings that every user can change for themselves.
pub const USER_KEYS: usize = 9;

/// Inode id above those under which the settings are read.
pub const GET_CONF_INODE: u64 = 0x1000_0000;

/// Inode id above those under which the settings are changed.
pub const SET_CONF_INODE: u64 = 0x2000_0000;

/// Name of the `i`-th setting of the system.
pub open spec fn system_key_name(i: int) -> Seq<char> {
    if i == 0 {
        "storage.net_client.rdma_control.max_concurrent_transmission"@
    } else if i == 1 {
        "periodic_sync.enable"@
    } else if i == 2 {
        "periodic_sync.interval"@
    } else if i == 3 {
        "periodic_sync.flush_write_buf"@
    } else if i == 4 {
        "io_worker_coros.hi"@
    } else if i == 5 {
        "io_worker_coros.lo"@
    } else if i == 6 {
        "max_jobs_per_ioring"@
    } else {
        "io_job_deq_timeout"@
    }
}

/// Name of the `i`-th setting of a user.
pub open spec fn user_key_name(i: int) -> Seq<char> {
    if i == 0 {
        "enable_read_cache"@
    } else if i == 1 {
        "readonly"@
    } else if i == 2 {
        "dryrun_bench_mode"@
    } else if i == 3 {
        "flush_on_stat"@
    } else if i == 4 {
        "sync_on_stat"@
    } else if i == 5 {
        "attr_timeout"@
    } else if i == 6 {
        "entry_timeout"@
    } else if i == 7 {
        "negative_timeout"@
    } else {
        "symlink_timeout"@
    }
}

/// Name of the `i`-th setting of the system or of a user.
pub open spec fn key_name(is_sys: bool, i: int) -> Seq<char> {
    if is_sys {
        system_key_name(i)
    } else {
        user_key_name(i)
    }
}

/// Number of settings of the system or of a user.
pub open spec fn key_count(is_sys: bool) -> int {
    if is_sys {
        SYSTEM_KEYS as int
    } else {
        USER_KEYS as int
    }
}

/// Name of the `i`-th setting of the system.
pub fn system_key(i: usize) -> (name: &'static str)
    requires
        i < SYSTEM_KEYS,
    ensures
        name@ == system_key_name(i as int),
{
    if i == 0 {
        "storage.net_client.rdma_control.max_concurrent_transmission"
    } else if i == 1 {
        "periodic_sync.enable"
    } else if i == 2 {
        "periodic_sync.interval"
    } else if i == 3 {
        "periodic_sync.flush_write_buf"
    } else if i == 4 {
        "io_worker_coros.hi"
    } else if i == 5 {
        "io_worker_coros.lo"
    } else if i == 6 {
        "max_jobs_per_ioring"
    } else {
        "io_job_deq_timeout"
    }
}

/// Name of the `i`-th setting of a user.
pub fn user_key(i: usize) -> (name: &'static str)
    requires
        i < USER_KEYS,
    ensures
        name@ == user_key_name(i as int),
{
    if i == 0 {
        "enable_read_cache"
    } else if i == 1 {
        "readonly"
    } else if i == 2 {
        "dryrun_bench_mode"
    } else if i == 3 {
        "flush_on_stat"
    } else if i == 4 {
        "sync_on_stat"
    } else if i == 5 {
        "attr_timeout"
    } else if i == 6 {
        "entry_timeout"
    } else if i == 7 {
        "negative_timeout"
    } else {
        "symlink_timeout"
    }
}

/// The key of the `c`-th of all settings, the system's first: its name
/// behind `sys.` or `usr.`.
pub open spec fn full_key_name(c: int) -> Seq<char> {
    if c == 0 {
        "sys.storage.net_client.rdma_control.max_concurrent_transmission"@
    } else if c == 1 {
        "sys.periodic_sync.enable"@
    } else if c == 2 {
        "sys.periodic_sync.interval"@
    } else if c == 3 {
        "sys.periodic_sync.flush_write_buf"@
    } else if c == 4 {
        "sys.io_worker_coros.hi"@
    } else if c == 5 {
        "sys.io_worker_coros.lo"@
    } else if c == 6 {
        "sys.max_jobs_per_ioring"@
    } else if c == 7 {
        "sys.io_job_deq_timeout"@
    } else if c == 8 {
        "usr.enable_read_cache"@
    } else if c == 9 {
        "usr.readonly"@
    } else if c == 10 {
        "usr.dryrun_bench_mode"@
    } else if c == 11 {
        "usr.flush_on_stat"@
    } else if c == 12 {
        "usr.sync_on_stat"@
    } else if c == 13 {
        "usr.attr_timeout"@
    } else if c == 14 {
        "usr.entry_timeout"@
    } else if c == 15 {
        "usr.negative_timeout"@
    } else {
        "usr.symlink_timeout"@
    }
}

/// The key of the `c`-th of all settings.
pub fn full_key(c: usize) -> (name: &'static str)
    requires
        c < SYSTEM_KEYS + USER_KEYS,
    ensures
        name@ == full_key_name(c as int),
{
    if c == 0 {
        "sys.storage.net_client.rdma_control.max_concurrent_transmission"
    } else if c == 1 {
        "sys.periodic_sync.enable"
    } else if c == 2 {
        "sys.periodic_sync.interval"
    } else if c == 3 {
        "sys.periodic_sync.flush_write_buf"
    } else if c == 4 {
        "sys.io_worker_coros.hi"
    } else if c == 5 {
        "sys.io_worker_coros.lo"
    } else if c == 6 {
        "sys.max_jobs_per_ioring"
    } else if c == 7 {
        "sys.io_job_deq_timeout"
    } else if c == 8 {
        "usr.enable_read_cache"
    } else if c == 9 {
        "usr.readonly"
    } else if c == 10 {
        "usr.dryrun_bench_mode"
    } else if c == 11 {
        "usr.flush_on_stat"
    } else if c == 12 {
        "usr.sync_on_stat"
    } else if c == 13 {
        "usr.attr_timeout"
    } else if c == 14 {
        "usr.entry_timeout"
    } else if c == 15 {
        "usr.negative_timeout"
    } else {
        "usr.symlink_timeout"
    }
}

/// The value of the `c`-th of all settings, if it has one: the system's for
/// a setting of the system, else the user's.
pub open spec fn value_at(global: Map<Seq<char>, Seq<char>>, local: Map<Seq<char>, Seq<char>>, c: int) -> Option<
    Seq<char>,
> {
    let settings = if c < SYSTEM_KEYS {
        global
    } else {
        local
    };
    let name = if c < SYSTEM_KEYS {
        system_key_name(c)
    } else {
        user_key_name(c - SYSTEM_KEYS)
    };
    if settings.contains_key(name) {
        Some(settings[name])
    } else {
        None
    }
}

/// Those of the first `k` of all settings that have a value, in order.
pub open spec fn settings_listed(global: Map<Seq<char>, Seq<char>>, local: Map<Seq<char>, Seq<char>>, k: int) -> Seq<
    int,
>
    decreases k,
{
    if k <= 0 {
        Seq::empty()
    } else if value_at(global, local, k - 1).is_some() {
        settings_listed(global, local, k - 1).push(k - 1)
    } else {
        settings_listed(global, local, k - 1)
    }
}

/// Whether `entry` and `inode` show to user `ui` the `c`-th of all settings
/// with the value `val`.
pub open spec fn is_config_entry(entry: DirEntry, inode: Option<MetaInode>, c: int, val: Seq<char>, ui: MetaUserInfo) -> bool {
    &&& entry.inode_id.0 == GET_CONF_INODE
    &&& entry.name@ == full_key_name(c)
    &&& inode is Some
    &&& is_config_inode(inode->Some_0, GET_CONF_INODE - 1 - c, val, ui, if c < SYSTEM_KEYS {
        0o444
    } else {
        0o400
    })
}

/// Index of the first setting at or behind `i` whose name is spelled by
/// `rest`, or the number of settings.
pub open spec fn key_index_from(rest: Seq<u8>, is_sys: bool, i: int) -> int
    decreases key_count(is_sys) - i,
{
    if i >= key_count(is_sys) {
        key_count(is_sys)
    } else if rest == encode_utf8(key_name(is_sys, i)) {
        i
    } else {
        key_index_from(rest, is_sys, i + 1)
    }
}

/// What a key names: a setting of the system where it begins with `sys.`, of
/// the user where it begins with `usr.`, and its index; nothing where the
/// prefix is another or no setting has the name.
pub open spec fn config_key(key: Seq<u8>) -> Option<(bool, int)> {
    if key.len() >= 4 && key[0] == 115 && key[1] == 121 && key[2] == 115 && key[3] == 46 {
        if key_index_from(key.skip(4), true, 0) < SYSTEM_KEYS {
            Some((true, key_index_from(key.skip(4), true, 0)))
        } else {
            None
        }
    } else if key.len() >= 4 && key[0] == 117 && key[1] == 115 && key[2] == 114 && key[3] == 46 {
        if key_index_from(key.skip(4), false, 0) < USER_KEYS {
            Some((false, key_index_from(key.skip(4), false, 0)))
        } else {
            None
        }
    } else {
        None
    }
}

/// The inode id of a setting: the `kidx`-th of the system's, or of the
/// user's behind those, counted down from the id for reading or for changing.
pub open spec fn spec_config_iid(is_get: bool, is_sys: bool, kidx: int) -> int {
    (if is_get {
        GET_CONF_INODE as int
    } else {
        SET_CONF_INODE as int
    }) - 1 - (if is_sys {
        0
    } else {
        SYSTEM_KEYS as int
    }) - kidx
}

/// Whether the bytes of `a` from `from` on are the bytes `b`.
fn rest_is(a: &[u8], from: usize, b: &[u8]) -> (same: bool)
    requires
        from <= a@.len(),
    ensures
        same == (a@.skip(from as int) == b@),
{
    let n = a.len();
    let m = b.len();
    if n - from != m {
        return false;
    }
    let mut i: usize = 0;
    while i < m
        invariant
            n == a@.len(),
            m == b@.len(),
            from + m == n,
            0 <= i <= m,
            forall|j: int| 0 <= j < i ==> a@[from + j] == b@[j],
        decreases m - i,
    {
        if a[from + i] != b[i] {
            assert(a@.skip(from as int)[i as int] != b@[i as int]);
            return false;
        }
        i = i + 1;
    }
    assert(a@.skip(from as int) =~= b@);
    true
}

/// The settings that one user has changed, and the settings that result for
/// the user.
pub struct LocalConfig {
    pub config: Settings,
    pub updated_items: Vec<KeyValue>,
}

/// The settings of the system and of every user.
pub struct UserConfig {
    config: Settings,
    configs: Vec<Option<LocalConfig>>,
    storage_max_conc_xmit: i32,
}

impl UserConfig {
    /// The settings of the system.
    pub closed spec fn global(&self) -> Map<Seq<char>, Seq<char>> {
        self.config@
    }

    /// Number of users that can have settings of their own.
    pub closed spec fn users(&self) -> int {
        self.configs@.len() as int
    }

    /// What user `uid` has changed, in order, if anything.
    pub closed spec fn changes(&self, uid: int) -> Option<Seq<KeyValue>> {
        if 0 <= uid < self.configs@.len() {
            match self.configs@[uid] {
                Some(l) => Some(l.updated_items@),
                None => None,
            }
        } else {
            None
        }
    }

    /// The settings that hold for user `uid`.
    pub closed spec fn local(&self, uid: int) -> Map<Seq<char>, Seq<char>> {
        if 0 <= uid < self.configs@.len() && self.configs@[uid].is_some() {
            self.configs@[uid]->Some_0.config@
        } else {
            self.config@
        }
    }

    /// The largest value that the concurrency of transmissions was
    /// configured with.
    pub closed spec fn xmit_limit(&self) -> int {
        self.storage_max_conc_xmit as int
    }

    /// The settings of every user are the system's with the user's changes
    /// laid over them.
    pub closed spec fn wf(&self) -> bool {
        forall|uid: int|
            0 <= uid < self.configs@.len() ==> ((#[trigger] self.configs@[uid]) matches Some(l) ==> l.config@
                == overlaid(self.config@, l.updated_items@, l.updated_items@.len() as int))
    }

    /// What `wf` says, for one user.
    pub proof fn lemma_local_is_overlay(&self, uid: int)
        requires
            self.wf(),
        ensures
            self.local(uid) == match self.changes(uid) {
                Some(items) => overlaid(self.global(), items, items.len() as int),
                None => self.global(),
            },
    {
        if 0 <= uid < self.configs@.len() {
            assert(self.configs@[uid] is Some ==> self.configs@[uid]->Some_0.config@ == overlaid(
                self.config@,
                self.configs@[uid]->Some_0.updated_items@,
                self.configs@[uid]->Some_0.updated_items@.len() as int,
            ));
        }
    }

    /// No settings, no users.
    pub fn new() -> (c: UserConfig)
        ensures
            c.wf(),
            c.global() == Map::<Seq<char>, Seq<char>>::empty(),
            c.users() == 0,
            c.xmit_limit() == 0,
    {
        UserConfig { config: Settings::new(), configs: Vec::new(), storage_max_conc_xmit: 0 }
    }

    /// Takes the settings of the system over, for users with ids up to
    /// `max_uid`, none of whom has changed anything.
    pub fn init(&mut self, config: Settings, max_uid: u32, storage_max_conc_xmit: i32)
        requires
            max_uid < usize::MAX,
        ensures
            final(self).wf(),
            final(self).global() == config@,
            final(self).users() == max_uid + 1,
            final(self).xmit_limit() == storage_max_conc_xmit,
            forall|uid: int| (#[trigger] final(self).changes(uid)).is_none(),
    {
        let mut configs: Vec<Option<LocalConfig>> = Vec::new();
        let n = max_uid as usize + 1;
        let mut i: usize = 0;
        while i < n
            invariant
                0 <= i <= n,
                configs@.len() == i,
                forall|j: int| 0 <= j < i ==> (#[trigger] configs@[j]).is_none(),
            decreases n - i,
        {
            configs.push(None);
            i = i + 1;
        }
        self.config = config;
        self.configs = configs;
        self.storage_max_conc_xmit = storage_max_conc_xmit;
    }

    /// Reads a key: which kind of setting it names, and its index.
    /// `InvalidArg` where it names none.
    pub fn parse_key(key: &str) -> (r: Result<(bool, usize), Error>)
        ensures
            r.is_ok() == config_key(key.spec_bytes()).is_some(),
            r matches Ok(k) ==> Some((k.0, k.1 as int)) == config_key(key.spec_bytes()) && k.1 < key_count(k.0),
            r matches Err(e) ==> e.code == StatusCode::InvalidArg.spec_code(),
    {
        let bytes = key.as_bytes();
        if bytes.len() < 4 || bytes[3] != 46 {
            return Err(Error::status(StatusCode::InvalidArg));
        }
        let is_sys = bytes[0] == 115 && bytes[1] == 121 && bytes[2] == 115;
        let is_usr = bytes[0] == 117 && bytes[1] == 115 && bytes[2] == 114;
        if !is_sys && !is_usr {
            return Err(Error::status(StatusCode::InvalidArg));
        }
        let count = if is_sys {
            SYSTEM_KEYS
        } else {
            USER_KEYS
        };
        let mut i: usize = 0;
        while i < count
            invariant
                bytes@ == key.spec_bytes(),
                bytes@.len() >= 4,
                bytes@[3] == 46,
                is_sys == (bytes@[0] == 115 && bytes@[1] == 121 && bytes@[2] == 115),
                !is_sys ==> bytes@[0] == 117 && bytes@[1] == 115 && bytes@[2] == 114,
                count == key_count(is_sys),
                0 <= i <= count,
                key_index_from(bytes@.skip(4), is_sys, i as int) == key_index_from(bytes@.skip(4), is_sys, 0),
            decreases count - i,
        {
            let name = if is_sys {
                system_key(i)
            } else {
                user_key(i)
            };
            if rest_is(bytes, 4, name.as_bytes()) {
                return Ok((is_sys, i));
            }
            i = i + 1;
        }
        Err(Error::status(StatusCode::InvalidArg))
    }

    /// The inode id of a setting.
    pub fn config_iid(is_get: bool, is_sys: bool, kidx: usize) -> (id: InodeId)
        requires
            kidx < key_count(is_sys),
        ensures
            id.0 == spec_config_iid(is_get, is_sys, kidx as int),
    {
        let base: u64 = if is_get {
            GET_CONF_INODE
        } else {
            SET_CONF_INODE
        };
        let behind: u64 = if is_sys {
            0
        } else {
            SYSTEM_KEYS as u64
        };
        InodeId(base - 1 - behind - kidx as u64)
    }

    /// The settings that hold for user `ui`: the user's own where the user
    /// has changed any, else the system's.
    pub fn get_config(&self, ui: &MetaUserInfo) -> (s: &Settings)
        ensures
            s@ == self.local(ui.uid as int),
    {
        let uidx = ui.uid as usize;
        if uidx < self.configs.len() {
            match &self.configs[uidx] {
                Some(l) => &l.config,
                None => &self.config,
            }
        } else {
            &self.config
        }
    }
}


impl InodeId {
    /// Inode id above those under which the settings are read.
    pub fn get_conf() -> (id: InodeId)
        ensures
            id.0 == GET_CONF_INODE,
    {
        InodeId(GET_CONF_INODE)
    }

    /// Inode id above those under which the settings are changed.
    pub fn set_conf() -> (id: InodeId)
        ensures
            id.0 == SET_CONF_INODE,
    {
        InodeId(SET_CONF_INODE)
    }
}

/// Why a change of a setting is refused, if it is: `InvalidArg` where the
/// key names no setting, where the concurrency of transmissions is to be set
/// to what is no number, not positive or more than twice the configured
/// value, or where a user is to leave the read-only mode that the system is
/// in; `NoPermission` where the user's id is too large to have settings.
pub open spec fn set_refusal(c: &UserConfig, key: Seq<u8>, val: Seq<char>, uid: int) -> Option<int> {
    match config_key(key) {
        None => Some(StatusCode::InvalidArg.spec_code()),
        Some((is_sys, kidx)) => if is_sys {
            if kidx == 0 && !(parse_signed(encode_utf8(val), i32::MIN as int, i32::MAX as int) matches Some(n) && 0
                < n <= 2 * c.xmit_limit()) {
                Some(StatusCode::InvalidArg.spec_code())
            } else {
                None
            }
        } else if kidx == 1 && val != "true"@ && c.global().contains_key("readonly"@) && c.global()["readonly"@]
            == "true"@ {
            Some(StatusCode::InvalidArg.spec_code())
        } else if uid >= c.users() {
            Some(MetaCode::NoPermission.spec_code())
        } else {
            None
        },
    }
}

/// Whether `inode` shows the value `val` of a setting to user `ui` under
/// the inode id `id`, with the permission bits `permission`.
pub open spec fn is_config_inode(inode: MetaInode, id: int, val: Seq<char>, ui: MetaUserInfo, permission: u32) -> bool {
    &&& inode.id.0 == id
    &&& inode.data.symlink.path@ == val
    &&& inode.data.acl == (Acl { uid: ui.uid, gid: ui.gid, permission })
}

impl UserConfig {
    /// Lays the changes of every user over the settings of the system anew.
    fn refresh(&mut self)
        ensures
            final(self).wf(),
            final(self).global() == old(self).global(),
            final(self).users() == old(self).users(),
            final(self).xmit_limit() == old(self).xmit_limit(),
            forall|uid: int| #[trigger] final(self).changes(uid) == old(self).changes(uid),
    {
        let n = self.configs.len();
        let mut i: usize = 0;
        while i < n
            invariant
                n == self.configs@.len(),
                n == old(self).configs@.len(),
                0 <= i <= n,
                self.config@ == old(self).config@,
                self.storage_max_conc_xmit == old(self).storage_max_conc_xmit,
                forall|j: int|
                    0 <= j < n ==> (#[trigger] self.configs@[j]).is_some() == old(self).configs@[j].is_some(),
                forall|j: int|
                    0 <= j < n && self.configs@[j].is_some() ==> (#[trigger] self.configs@[j])->Some_0.updated_items@
                        == old(self).configs@[j]->Some_0.updated_items@,
                forall|j: int|
                    0 <= j < i ==> ((#[trigger] self.configs@[j]) matches Some(l) ==> l.config@ == overlaid(
                        self.config@,
                        l.updated_items@,
                        l.updated_items@.len() as int,
                    )),
            decreases n - i,
        {
            let mut place: Option<LocalConfig> = None;
            self.configs.set_and_swap(i, &mut place);
            let next = match place {
                Some(l) => {
                    let mut config = self.config.copy();
                    config.overlay(&l.updated_items);
                    Some(LocalConfig { config, updated_items: l.updated_items })
                },
                None => None,
            };
            self.configs.set(i, next);
            i = i + 1;
        }
    }

    /// Changes the setting that `key` names to `val`, for everybody where it
    /// is a setting of the system, else for user `ui` alone. Returns the
    /// inode under which the change shows.
    pub fn set_config(&mut self, key: &str, val: &str, ui: &MetaUserInfo) -> (r: Result<MetaInode, Error>)
        requires
            old(self).wf(),
        ensures
            final(self).wf(),
            final(self).users() == old(self).users(),
            final(self).xmit_limit() == old(self).xmit_limit(),
            r.is_ok() == set_refusal(old(self), key.spec_bytes(), val@, ui.uid as int).is_none(),
            r matches Err(e) ==> {
                &&& Some(e.code as int) == set_refusal(old(self), key.spec_bytes(), val@, ui.uid as int)
                &&& final(self).global() == old(self).global()
                &&& forall|uid: int| #[trigger] final(self).changes(uid) == old(self).changes(uid)
            },
            r matches Ok(inode) ==> {
                let (is_sys, kidx) = config_key(key.spec_bytes())->Some_0;
                &&& is_config_inode(inode, spec_config_iid(false, is_sys, kidx), val@, *ui, 0o400)
                &&& is_sys ==> {
                    &&& final(self).global() == old(self).global().insert(system_key_name(kidx), val@)
                    &&& forall|uid: int| #[trigger] final(self).changes(uid) == old(self).changes(uid)
                }
                &&& !is_sys ==> {
                    &&& final(self).global() == old(self).global()
                    &&& forall|uid: int|
                        uid != ui.uid ==> #[trigger] final(self).changes(uid) == old(self).changes(uid)
                    &&& final(self).changes(ui.uid as int) matches Some(items) && {
                        &&& items.len() > 0
                        &&& items.last().key@ == user_key_name(kidx)
                        &&& items.last().value@ == val@
                        &&& items.drop_last() == match old(self).changes(ui.uid as int) {
                            Some(before) => before,
                            None => Seq::empty(),
                        }
                    }
                }
            },
    {
        let (is_sys, kidx) = match UserConfig::parse_key(key) {
            Ok(k) => k,
            Err(e) => {
                return Err(e);
            },
        };
        let id = UserConfig::config_iid(false, is_sys, kidx);
        let acl = Acl { uid: ui.uid, gid: ui.gid, permission: 0o400 };
        if is_sys {
            if kidx == 0 {
                let bytes = val.as_bytes();
                assert(bytes@.subrange(0, bytes@.len() as int) =~= bytes@);
                let fine = match read_i32(bytes, 0, bytes.len()) {
                    Some(n) => n > 0 && n as i64 <= 2 * (self.storage_max_conc_xmit as i64),
                    None => false,
                };
                if !fine {
                    return Err(Error::status(StatusCode::InvalidArg));
                }
            }
            self.config.set(system_key(kidx).to_owned(), val.to_owned());
            self.refresh();
            return Ok(MetaInode { id, data: InodeData { symlink: Symlink { path: val.to_owned() }, acl } });
        }
        let owned_val = val.to_owned();
        if kidx == 1 && !text_is(&owned_val, "true") && self.config.is_true(&"readonly".to_owned()) {
            return Err(Error::status(StatusCode::InvalidArg));
        }
        let uidx = ui.uid as usize;
        if uidx >= self.configs.len() {
            return Err(Error::meta(MetaCode::NoPermission));
        }
        let ghost before = self.configs@;
        let mut place: Option<LocalConfig> = None;
        self.configs.set_and_swap(uidx, &mut place);
        let mut local = match place {
            Some(l) => l,
            None => LocalConfig { config: self.config.copy(), updated_items: Vec::new() },
        };
        let ghost items0 = local.updated_items@;
        let name = user_key(kidx);
        local.config.set(name.to_owned(), val.to_owned());
        local.updated_items.push(KeyValue { key: name.to_owned(), value: val.to_owned() });
        proof {
            lemma_overlaid_prefix(self.config@, local.updated_items@, items0, items0.len() as int);
            assert(local.updated_items@.drop_last() =~= items0);
        }
        self.configs.set(uidx, Some(local));
        proof {
            assert forall|uid: int| uid != ui.uid implies #[trigger] self.changes(uid) == old(self).changes(
                uid,
            ) by {
                if 0 <= uid < before.len() {
                    assert(self.configs@[uid] == before[uid]);
                }
            }
            assert forall|uid: int| 0 <= uid < self.configs@.len() implies ((
            #[trigger] self.configs@[uid]) matches Some(l) ==> l.config@ == overlaid(
                self.config@,
                l.updated_items@,
                l.updated_items@.len() as int,
            )) by {
                if uid != uidx {
                    assert(self.configs@[uid] == before[uid]);
                }
            }
        }
        Ok(MetaInode { id, data: InodeData { symlink: Symlink { path: owned_val }, acl } })
    }

    /// The inode of the setting with the inode id `iid`, as user `ui` sees
    /// it: a link to the value that holds for the user. `NotFound` where the
    /// id is no setting's or the setting has no value.
    pub fn stat_config(&self, iid: InodeId, ui: &MetaUserInfo) -> (r: Result<MetaInode, Error>)
        ensures
            r.is_ok() <==> exists|is_sys: bool, kidx: int|
                0 <= kidx < key_count(is_sys) && iid.0 == #[trigger] spec_config_iid(true, is_sys, kidx) && (if is_sys {
                    self.global()
                } else {
                    self.local(ui.uid as int)
                }).contains_key(key_name(is_sys, kidx)),
            r matches Ok(inode) ==> {
                let k = GET_CONF_INODE - 1 - iid.0;
                let is_sys = k < SYSTEM_KEYS;
                let kidx = if is_sys {
                    k
                } else {
                    k - SYSTEM_KEYS
                };
                is_config_inode(
                    inode,
                    iid.0 as int,
                    (if is_sys {
                        self.global()
                    } else {
                        self.local(ui.uid as int)
                    })[key_name(is_sys, kidx)],
                    *ui,
                    if is_sys {
                        0o444
                    } else {
                        0o400
                    },
                )
            },
            r matches Err(e) ==> e.code == MetaCode::NotFound.spec_code(),
    {
        if iid.0 >= GET_CONF_INODE || GET_CONF_INODE - 1 - iid.0 >= (SYSTEM_KEYS + USER_KEYS) as u64 {
            assert forall|is_sys: bool, kidx: int| 0 <= kidx < key_count(is_sys) implies iid.0
                != #[trigger] spec_config_iid(true, is_sys, kidx) by {}
            return Err(Error::meta(MetaCode::NotFound));
        }
        let k = (GET_CONF_INODE - 1 - iid.0) as usize;
        let is_sys = k < SYSTEM_KEYS;
        let kidx = if is_sys {
            k
        } else {
            k - SYSTEM_KEYS
        };
        let name = if is_sys {
            system_key(kidx).to_owned()
        } else {
            user_key(kidx).to_owned()
        };
        let config = if is_sys {
            &self.config
        } else {
            self.get_config(ui)
        };
        assert(iid.0 == spec_config_iid(true, is_sys, kidx as int));
        assert forall|s: bool, j: int| 0 <= j < key_count(s) && iid.0 == #[trigger] spec_config_iid(
            true,
            s,
            j,
        ) implies s == is_sys && j == kidx by {}
        match config.find(&name) {
            Some(v) => Ok(
                MetaInode {
                    id: iid,
                    data: InodeData {
                        symlink: Symlink { path: v.clone() },
                        acl: Acl { uid: ui.uid, gid: ui.gid, permission: if is_sys {
                            0o444
                        } else {
                            0o400
                        } },
                    },
                },
            ),
            None => Err(Error::meta(MetaCode::NotFound)),
        }
    }

    /// The inode of the setting that `key` names, as user `ui` sees it.
    /// `InvalidArg` where the key names no setting; `NotFound` where the
    /// setting has no value.
    pub fn lookup_config(&self, key: &str, ui: &MetaUserInfo) -> (r: Result<MetaInode, Error>)
        ensures
            r.is_ok() <==> (config_key(key.spec_bytes()) matches Some(k) && (if k.0 {
                self.global()
            } else {
                self.local(ui.uid as int)
            }).contains_key(key_name(k.0, k.1))),
            r matches Ok(inode) ==> {
                let (is_sys, kidx) = config_key(key.spec_bytes())->Some_0;
                is_config_inode(
                    inode,
                    spec_config_iid(true, is_sys, kidx),
                    (if is_sys {
                        self.global()
                    } else {
                        self.local(ui.uid as int)
                    })[key_name(is_sys, kidx)],
                    *ui,
                    if is_sys {
                        0o444
                    } else {
                        0o400
                    },
                )
            },
            r matches Err(e) ==> e.code == if config_key(key.spec_bytes()).is_none() {
                StatusCode::InvalidArg.spec_code()
            } else {
                MetaCode::NotFound.spec_code()
            },
    {
        let (is_sys, kidx) = match UserConfig::parse_key(key) {
            Ok(k) => k,
            Err(e) => {
                return Err(e);
            },
        };
        let r = self.stat_config(UserConfig::config_iid(true, is_sys, kidx), ui);
        proof {
            assert forall|s: bool, j: int| 0 <= j < key_count(s) && spec_config_iid(true, is_sys, kidx as int)
                == #[trigger] spec_config_iid(true, s, j) implies s == is_sys && j == kidx by {}
        }
        r
    }
}


impl UserConfig {
    /// What the directory of the settings shows to user `ui`: every setting
    /// that has a value, the system's first, each entry with its inode.
    pub fn list_config(&self, ui: &MetaUserInfo) -> (r: (Vec<DirEntry>, Vec<Option<MetaInode>>))
        ensures
            r.0@.len() == settings_listed(self.global(), self.local(ui.uid as int), 17).len(),
            r.1@.len() == r.0@.len(),
            forall|j: int|
                0 <= j < r.0@.len() ==> is_config_entry(
                    #[trigger] r.0@[j],
                    r.1@[j],
                    settings_listed(self.global(), self.local(ui.uid as int), 17)[j],
                    value_at(
                        self.global(),
                        self.local(ui.uid as int),
                        settings_listed(self.global(), self.local(ui.uid as int), 17)[j],
                    )->Some_0,
                    *ui,
                ),
    {
        let ghost global = self.global();
        let ghost local = self.local(ui.uid as int);
        let mut des: Vec<DirEntry> = Vec::new();
        let mut ins: Vec<Option<MetaInode>> = Vec::new();
        let mut c: usize = 0;
        while c < SYSTEM_KEYS + USER_KEYS
            invariant
                0 <= c <= SYSTEM_KEYS + USER_KEYS,
                global == self.global(),
                local == self.local(ui.uid as int),
                des@.len() == settings_listed(global, local, c as int).len(),
                ins@.len() == des@.len(),
                forall|j: int|
                    0 <= j < des@.len() ==> is_config_entry(
                        #[trigger] des@[j],
                        ins@[j],
                        settings_listed(global, local, c as int)[j],
                        value_at(global, local, settings_listed(global, local, c as int)[j])->Some_0,
                        *ui,
                    ),
            decreases SYSTEM_KEYS + USER_KEYS - c,
        {
            let is_sys = c < SYSTEM_KEYS;
            let kidx = if is_sys {
                c
            } else {
                c - SYSTEM_KEYS
            };
            let name = if is_sys {
                system_key(kidx).to_owned()
            } else {
                user_key(kidx).to_owned()
            };
            let config = if is_sys {
                &self.config
            } else {
                self.get_config(ui)
            };
            match config.find(&name) {
                Some(v) => {
                    let ghost before = settings_listed(global, local, c as int);
                    let ghost des0 = des@;
                    let ghost ins0 = ins@;
                    des.push(DirEntry { inode_id: InodeId(GET_CONF_INODE), name: full_key(c).to_owned() });
                    ins.push(
                        Some(
                            MetaInode {
                                id: UserConfig::config_iid(true, is_sys, kidx),
                                data: InodeData {
                                    symlink: Symlink { path: v.clone() },
                                    acl: Acl { uid: ui.uid, gid: ui.gid, permission: if is_sys {
                                        0o444
                                    } else {
                                        0o400
                                    } },
                                },
                            },
                        ),
                    );
                    proof {
                        let after = settings_listed(global, local, c + 1);
                        assert(after == before.push(c as int));
                        assert forall|j: int| 0 <= j < des@.len() implies is_config_entry(
                            #[trigger] des@[j],
                            ins@[j],
                            after[j],
                            value_at(global, local, after[j])->Some_0,
                            *ui,
                        ) by {
                            if j < des0.len() {
                                assert(des@[j] == des0[j]);
                                assert(ins@[j] == ins0[j]);
                                assert(after[j] == before[j]);
                            }
                        }
                    }
                },
                None => {},
            }
            c = c + 1;
        }
        (des, ins)
    }
}

} // verus!
