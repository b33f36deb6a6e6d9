//! The table of the shared buffers that users have registered.

use vstd::prelude::*;
use std::collections::HashMap;
use vstd::std_specs::hash::group_hash_axioms;
use vstd::string::StringSliceAdditionalSpecFns;
use crate::iov::parse_key;
use crate::iov::parse_key_spec;
use crate::iov::IorAttrs;
use crate::layout::InodeId;
use crate::piov::MetaUserInfo;
use crate::status::ClientAgentCode;
use crate::status::Error;
use crate::status::MetaCode;
use crate::status::StatusCode;
use crate::uuid::Uuid;

verus! {

/// Inode id of the directory that lists the buffers.
pub const IOV_DIR_INODE: u64 = 0x1000;

/// A registered shared buffer.
#[derive(Clone, Debug, PartialEq, Eq)]
pub struct ShmBuf {
    pub path: String,
    pub size: usize,
    pub block_size: usize,
    pub id: Uuid,
    pub key: String,
    pub user: u32,
    pub pid: i32,
    pub is_io_ring: bool,
    pub for_read: bool,
    pub io_depth: i32,
    pub iora: Option<IorAttrs>,
}

/// Target of a symbolic link.
#[derive(Clone, Debug, PartialEq, Eq)]
pub struct Symlink {
    pub path: String,
}

/// Owner, group and permission bits.
#[derive(Clone, Copy, Debug, PartialEq, Eq, Structural)]
pub struct Acl {
    pub uid: u32,
    pub gid: u32,
    pub permission: u32,
}

/// What the inode of a buffer or semaphore holds.
#[derive(Clone, Debug, PartialEq, Eq)]
pub struct InodeData {
    pub symlink: Symlink,
    pub acl: Acl,
}

/// The inode under which a buffer or semaphore shows in the file system.
#[derive(Clone, Debug, PartialEq, Eq)]
pub struct MetaInode {
    pub id: InodeId,
    pub data: InodeData,
}

/// An entry of the directory that lists the buffers.
#[derive(Clone, Debug, PartialEq, Eq)]
pub struct DirEntry {
    pub inode_id: InodeId,
    pub name: String,
}

impl DirEntry {
    pub fn new(inode_id: InodeId, name: String) -> (e: DirEntry)
        ensures
            e.inode_id == inode_id,
            e.name == name,
    {
        DirEntry { inode_id, name }
    }
}

/// First inode id below the directory's that a buffer takes.
pub fn iov_iid_start() -> (n: u64)
    ensures
        n == 0,
{
    0
}

/// The inode id of the buffer under descriptor `iovd`: so far below the
/// directory's, counted around the end of the range.
pub open spec fn spec_iov_inode(iovd: int) -> u64 {
    if iovd <= IOV_DIR_INODE {
        (IOV_DIR_INODE - iovd) as u64
    } else {
        (IOV_DIR_INODE - iovd + 0x1_0000_0000_0000_0000) as u64
    }
}

impl InodeId {
    pub fn u64(&self) -> (n: u64)
        ensures
            n == self.0,
    {
        self.0
    }

    /// Inode id of the directory that lists the buffers.
    pub fn iov_dir() -> (id: InodeId)
        ensures
            id.0 == IOV_DIR_INODE,
    {
        InodeId(IOV_DIR_INODE)
    }

    /// Inode id of the buffer under descriptor `iovd`.
    pub fn iov(iovd: i32) -> (id: InodeId)
        requires
            0 <= iovd,
        ensures
            id.0 == spec_iov_inode(iovd as int),
    {
        let d = iovd as u64;
        if d <= IOV_DIR_INODE {
            InodeId(IOV_DIR_INODE - d)
        } else {
            InodeId(u64::MAX - (d - IOV_DIR_INODE) + 1)
        }
    }
}

impl ShmBuf {
    /// A plain read buffer of `size` bytes at `path`, not yet bound to a key
    /// or a user.
    pub fn new(path: String, offset: usize, size: usize, block_size: usize, id: Uuid) -> (b: ShmBuf)
        ensures
            b.path == path,
            b.size == size,
            b.block_size == block_size,
            b.id == id,
            b.key@ == Seq::<char>::empty(),
            b.user == 0,
            b.pid == 0,
            !b.is_io_ring,
            b.for_read,
            b.io_depth == 0,
            b.iora.is_none(),
    {
        ShmBuf {
            path,
            size,
            block_size,
            id,
            key: String::new(),
            user: 0,
            pid: 0,
            is_io_ring: false,
            for_read: true,
            io_depth: 0,
            iora: None,
        }
    }
}

/// Name of the semaphore on which the pollers of class `prio` wait.
pub fn sem_name(prio: i32) -> (name: String)
    ensures
        name@ == sem_name_of(prio as int),
{
    if prio == 0 {
        "submit-ios.ph".to_owned()
    } else if prio == 2 {
        "submit-ios.pl".to_owned()
    } else {
        "submit-ios".to_owned()
    }
}

/// The inode of the semaphore of class `prio`: a link into shared memory
/// that everybody may read and write.
pub fn lookup_sem(prio: i32) -> (inode: MetaInode)
    ensures
        sem_inode(inode, prio as int),
{
    let path = if prio == 0 {
        "/dev/shm/sem.submit-ios.ph".to_owned()
    } else if prio == 2 {
        "/dev/shm/sem.submit-ios.pl".to_owned()
    } else {
        "/dev/shm/sem.submit-ios".to_owned()
    };
    MetaInode {
        id: InodeId::iov_dir(),
        data: InodeData { symlink: Symlink { path }, acl: Acl { uid: 0, gid: 0, permission: 0o666 } },
    }
}

/// The buffers that are registered, each under a descriptor: its place in
/// the table. A key names the buffer that was registered under it last.
pub struct IovTable {
    mount_name: String,
    iovs: Vec<Option<ShmBuf>>,
    bound: Vec<bool>,
    shms_by_id: HashMap<u128, i32>,
}

/// Lowest free place of `iovs` at or behind `i`, or their number.
pub open spec fn free_iov_from(iovs: Seq<Option<ShmBuf>>, i: int) -> int
    decreases iovs.len() - i,
{
    if i >= iovs.len() {
        iovs.len() as int
    } else if iovs[i].is_none() {
        i
    } else {
        free_iov_from(iovs, i + 1)
    }
}

/// Whether place `i` holds the buffer that `key` names.
pub open spec fn names(iovs: Seq<Option<ShmBuf>>, bound: Seq<bool>, key: Seq<char>, i: int) -> bool {
    0 <= i < iovs.len() && bound[i] && iovs[i].is_some() && iovs[i]->Some_0.key@ == key
}

/// The place of the buffer that `key` names, at or behind `i`, or the
/// number of places.
pub open spec fn named_from(iovs: Seq<Option<ShmBuf>>, bound: Seq<bool>, key: Seq<char>, i: int) -> int
    decreases iovs.len() - i,
{
    if i >= iovs.len() {
        iovs.len() as int
    } else if names(iovs, bound, key, i) {
        i
    } else {
        named_from(iovs, bound, key, i + 1)
    }
}

/// `bound` with every place that `key` names unbound.
pub open spec fn unbound(iovs: Seq<Option<ShmBuf>>, bound: Seq<bool>, key: Seq<char>) -> Seq<bool> {
    Seq::new(bound.len(), |i: int| bound[i] && !names(iovs, bound, key, i))
}

/// Name of the semaphore of class `prio`.
pub open spec fn sem_name_of(prio: int) -> Seq<char> {
    if prio == 0 {
        "submit-ios.ph"@
    } else if prio == 2 {
        "submit-ios.pl"@
    } else {
        "submit-ios"@
    }
}

/// Whether `inode` is the inode of the semaphore of class `prio`.
pub open spec fn sem_inode(inode: MetaInode, prio: int) -> bool {
    &&& inode.id.0 == IOV_DIR_INODE
    &&& inode.data.acl == (Acl { uid: 0, gid: 0, permission: 0o666 })
    &&& inode.data.symlink.path@ == if prio == 0 {
        "/dev/shm/sem.submit-ios.ph"@
    } else if prio == 2 {
        "/dev/shm/sem.submit-ios.pl"@
    } else {
        "/dev/shm/sem.submit-ios"@
    }
}

/// Whether `entry` and `inode` show the semaphore of class `prio`.
pub open spec fn is_sem_entry(entry: DirEntry, inode: Option<MetaInode>, prio: int) -> bool {
    &&& entry.inode_id.0 == IOV_DIR_INODE
    &&& entry.name@ == sem_name_of(prio)
    &&& inode is Some
    &&& sem_inode(inode->Some_0, prio)
}

/// Whether `entry` and `inode` show to user `ui` the buffer that stands in
/// `place` under descriptor `iovd`.
pub open spec fn is_iov_entry(
    entry: DirEntry,
    inode: Option<MetaInode>,
    place: Option<ShmBuf>,
    iovd: int,
    ui: MetaUserInfo,
) -> bool {
    &&& place is Some
    &&& entry.inode_id.0 == spec_iov_inode(iovd)
    &&& entry.name == place->Some_0.key
    &&& inode is Some
    &&& inode->Some_0.id.0 == spec_iov_inode(iovd)
    &&& inode->Some_0.data.symlink.path == place->Some_0.path
    &&& inode->Some_0.data.acl == (Acl { uid: ui.uid, gid: ui.gid, permission: 0o400 })
}

/// The descriptors below `k` that a descriptor can name and under which a
/// buffer of user `uid` stands, in rising order.
pub open spec fn listed(iovs: Seq<Option<ShmBuf>>, uid: u32, k: int) -> Seq<int>
    decreases k,
{
    if k <= 0 {
        Seq::empty()
    } else if k - 1 <= i32::MAX && iovs[k - 1].is_some() && iovs[k - 1]->Some_0.user == uid {
        listed(iovs, uid, k - 1).push(k - 1)
    } else {
        listed(iovs, uid, k - 1)
    }
}

impl IovTable {
    /// What stands in every place.
    pub closed spec fn view(&self) -> Seq<Option<ShmBuf>> {
        self.iovs@
    }

    /// Which places are named by the key of their buffer.
    pub closed spec fn bindings(&self) -> Seq<bool> {
        self.bound@
    }

    pub closed spec fn wf(&self) -> bool {
        self.bound@.len() == self.iovs@.len()
    }

    /// The descriptor of the buffer that was registered last with each
    /// identifier.
    pub closed spec fn by_id(&self) -> Map<u128, i32> {
        self.shms_by_id@
    }

    pub closed spec fn spec_mount_name(&self) -> Seq<char> {
        self.mount_name@
    }

    /// Name of the mount that the table serves.
    pub fn mount_name(&self) -> (s: &String)
        ensures
            s@ == self.spec_mount_name(),
    {
        &self.mount_name
    }

    /// A table without places.
    pub fn new() -> (t: IovTable)
        ensures
            t.wf(),
            t.view().len() == 0,
            t.by_id() == Map::<u128, i32>::empty(),
            t.spec_mount_name() == Seq::<char>::empty(),
    {
        IovTable { mount_name: String::new(), iovs: Vec::new(), bound: Vec::new(), shms_by_id: HashMap::new() }
    }

    /// Gives the table the name of its mount and `cap` free places.
    pub fn init(&mut self, mount: &str, cap: usize)
        ensures
            final(self).wf(),
            final(self).spec_mount_name() == mount@,
            final(self).view() == Seq::new(cap as nat, |i: int| None::<ShmBuf>),
            final(self).bindings() == Seq::new(cap as nat, |i: int| false),
            final(self).by_id() == Map::<u128, i32>::empty(),
    {
        self.mount_name = mount.to_owned();
        self.shms_by_id = HashMap::new();
        let mut iovs: Vec<Option<ShmBuf>> = Vec::new();
        let mut bound: Vec<bool> = Vec::new();
        let mut i: usize = 0;
        while i < cap
            invariant
                0 <= i <= cap,
                iovs@ == Seq::new(i as nat, |j: int| None::<ShmBuf>),
                bound@ == Seq::new(i as nat, |j: int| false),
            decreases cap - i,
        {
            iovs.push(None);
            bound.push(false);
            i = i + 1;
            assert(iovs@ =~= Seq::new(i as nat, |j: int| None::<ShmBuf>));
            assert(bound@ =~= Seq::new(i as nat, |j: int| false));
        }
        self.iovs = iovs;
        self.bound = bound;
    }

    /// Number of places.
    pub fn capacity(&self) -> (n: usize)
        ensures
            n == self.view().len(),
    {
        self.iovs.len()
    }

    /// The place of the buffer that `key` names.
    fn find_key(&self, key: &String) -> (r: Option<usize>)
        requires
            self.wf(),
        ensures
            match r {
                Some(i) => i == named_from(self.view(), self.bindings(), key@, 0) && names(
                    self.view(),
                    self.bindings(),
                    key@,
                    i as int,
                ),
                None => named_from(self.view(), self.bindings(), key@, 0) == self.view().len(),
            },
    {
        let n = self.iovs.len();
        let mut i: usize = 0;
        while i < n
            invariant
                self.wf(),
                n == self.view().len(),
                0 <= i <= n,
                named_from(self.view(), self.bindings(), key@, i as int) == named_from(
                    self.view(),
                    self.bindings(),
                    key@,
                    0,
                ),
            decreases n - i,
        {
            if self.bound[i] {
                match &self.iovs[i] {
                    Some(shm) => {
                        if shm.key == *key {
                            return Some(i);
                        }
                    },
                    None => {},
                }
            }
            i = i + 1;
        }
        None
    }

    /// Registers the buffer that `key` describes, backed by the file at
    /// `shm_path` of `file_len` bytes, for user `ui` and process `pid`, under
    /// the lowest free descriptor. The key names this buffer from now on.
    ///
    /// `InvalidArg` where the key is refused, the path is no regular file or
    /// the block size exceeds the file; `TooManyOpenFiles` where no
    /// descriptor is free. Nothing changes then.
    pub fn add_iov(
        &mut self,
        key: &str,
        shm_path: String,
        is_file: bool,
        file_len: usize,
        pid: i32,
        ui: &MetaUserInfo,
    ) -> (r: Result<i32, Error>)
        requires
            old(self).wf(),
        ensures
            final(self).wf(),
            final(self).spec_mount_name() == old(self).spec_mount_name(),
            final(self).view().len() == old(self).view().len(),
            r.is_ok() <==> {
                &&& parse_key_spec(key.spec_bytes()) matches Ok(attrs)
                &&& is_file
                &&& attrs.block_size <= file_len
                &&& free_iov_from(old(self).view(), 0) < old(self).view().len()
                &&& free_iov_from(old(self).view(), 0) <= i32::MAX
            },
            r matches Ok(iovd) ==> {
                let attrs = parse_key_spec(key.spec_bytes())->Ok_0;
                &&& iovd == free_iov_from(old(self).view(), 0)
                &&& forall|i: int|
                    0 <= i < old(self).view().len() && i != iovd ==> final(self).view()[i] == old(
                        self,
                    ).view()[i]
                &&& final(self).bindings() == unbound(old(self).view(), old(self).bindings(), key@).update(
                    iovd as int,
                    true,
                )
                &&& final(self).by_id() == old(self).by_id().insert(attrs.id.0, iovd)
                &&& final(self).view()[iovd as int] matches Some(shm) && {
                    &&& shm.path == shm_path
                    &&& shm.size == file_len
                    &&& shm.block_size == attrs.block_size
                    &&& shm.id == attrs.id
                    &&& shm.key@ == key@
                    &&& shm.user == ui.uid
                    &&& shm.pid == pid
                    &&& shm.is_io_ring == attrs.is_io_ring
                    &&& shm.for_read == attrs.for_read
                    &&& shm.io_depth == attrs.io_depth
                    &&& shm.iora == attrs.iora
                }
            },
            r matches Err(e) ==> {
                &&& final(self).view() == old(self).view()
                &&& final(self).bindings() == old(self).bindings()
                &&& final(self).by_id() == old(self).by_id()
                &&& e.code == if parse_key_spec(key.spec_bytes()) is Ok && is_file && parse_key_spec(
                    key.spec_bytes(),
                )->Ok_0.block_size <= file_len {
                    ClientAgentCode::TooManyOpenFiles.spec_code()
                } else {
                    StatusCode::InvalidArg.spec_code()
                }
            },
    {
        broadcast use group_hash_axioms;

        let attrs = match parse_key(key) {
            Ok(a) => a,
            Err(e) => {
                return Err(Error { code: e.code() });
            },
        };
        if !is_file || attrs.block_size > file_len {
            return Err(Error::status(StatusCode::InvalidArg));
        }
        let n = self.iovs.len();
        let mut iovd: usize = 0;
        while iovd < n && self.iovs[iovd].is_some()
            invariant
                n == self.view().len(),
                0 <= iovd <= n,
                free_iov_from(self.view(), iovd as int) == free_iov_from(self.view(), 0),
            decreases n - iovd,
        {
            iovd = iovd + 1;
        }
        if iovd >= n || iovd > 0x7fff_ffff {
            return Err(Error::agent(ClientAgentCode::TooManyOpenFiles));
        }
        let owned_key = key.to_owned();
        let ghost bound0 = self.bound@;
        let mut i: usize = 0;
        while i < n
            invariant
                n == self.view().len(),
                self.view() == old(self).view(),
                self.by_id() == old(self).by_id(),
                self.spec_mount_name() == old(self).spec_mount_name(),
                bound0 == old(self).bindings(),
                bound0.len() == n,
                self.bound@.len() == n,
                owned_key@ == key@,
                0 <= i <= n,
                forall|j: int|
                    0 <= j < i ==> #[trigger] self.bound@[j] == unbound(old(self).view(), bound0, key@)[j],
                forall|j: int| i <= j < n ==> #[trigger] self.bound@[j] == bound0[j],
            decreases n - i,
        {
            if self.bound[i] {
                let same = match &self.iovs[i] {
                    Some(shm) => shm.key == owned_key,
                    None => false,
                };
                if same {
                    self.bound.set(i, false);
                }
            }
            i = i + 1;
        }
        let shm = ShmBuf {
            path: shm_path,
            size: file_len,
            block_size: attrs.block_size,
            id: attrs.id,
            key: owned_key,
            user: ui.uid,
            pid,
            is_io_ring: attrs.is_io_ring,
            for_read: attrs.for_read,
            io_depth: attrs.io_depth,
            iora: attrs.iora,
        };
        self.iovs.set(iovd, Some(shm));
        self.bound.set(iovd, true);
        self.shms_by_id.insert(attrs.id.0, iovd as i32);
        proof {
            assert(self.bound@ =~= unbound(old(self).view(), bound0, key@).update(iovd as int, true));
        }
        Ok(iovd as i32)
    }

    /// The inode of the buffer under descriptor `iovd`, as user `ui` sees it.
    /// `NotFound` where no buffer stands under the descriptor;
    /// `NoPermission` where the buffer is another user's.
    pub fn stat_iov(&self, iovd: i32, ui: &MetaUserInfo) -> (r: Result<MetaInode, Error>)
        requires
            self.wf(),
        ensures
            r.is_ok() <==> 0 <= iovd < self.view().len() && self.view()[iovd as int].is_some() && self.view()[iovd as int]->Some_0.user
                == ui.uid,
            r matches Ok(inode) ==> {
                &&& inode.id.0 == spec_iov_inode(iovd as int)
                &&& inode.data.symlink.path == self.view()[iovd as int]->Some_0.path
                &&& inode.data.acl == (Acl { uid: ui.uid, gid: ui.gid, permission: 0o400 })
            },
            r matches Err(e) ==> e.code == if 0 <= iovd < self.view().len() && self.view()[iovd as int].is_some() {
                MetaCode::NoPermission.spec_code()
            } else {
                MetaCode::NotFound.spec_code()
            },
    {
        if iovd < 0 || iovd as usize >= self.iovs.len() {
            return Err(Error::meta(MetaCode::NotFound));
        }
        match &self.iovs[iovd as usize] {
            None => Err(Error::meta(MetaCode::NotFound)),
            Some(shm) => {
                if shm.user != ui.uid {
                    return Err(Error::meta(MetaCode::NoPermission));
                }
                Ok(
                    MetaInode {
                        id: InodeId::iov(iovd),
                        data: InodeData {
                            symlink: Symlink { path: shm.path.clone() },
                            acl: Acl { uid: ui.uid, gid: ui.gid, permission: 0o400 },
                        },
                    },
                )
            },
        }
    }

    /// The descriptor of the buffer that `key` names, for user `ui`.
    /// `NotFound` where the key names none, `NoPermission` where the buffer
    /// is another user's.
    pub fn lookup_iovd(&self, key: &str, ui: &MetaUserInfo) -> (r: Result<i32, Error>)
        requires
            self.wf(),
        ensures
            r.is_ok() <==> {
                let at = named_from(self.view(), self.bindings(), key@, 0);
                at < self.view().len() && at <= i32::MAX && self.view()[at]->Some_0.user == ui.uid
            },
            r matches Ok(iovd) ==> iovd == named_from(self.view(), self.bindings(), key@, 0) && 0 <= iovd
                < self.view().len() && self.view()[iovd as int].is_some(),
            r matches Err(e) ==> {
                let at = named_from(self.view(), self.bindings(), key@, 0);
                e.code == if at < self.view().len() && at <= i32::MAX {
                    MetaCode::NoPermission.spec_code()
                } else {
                    MetaCode::NotFound.spec_code()
                }
            },
    {
        let owned_key = key.to_owned();
        match self.find_key(&owned_key) {
            None => Err(Error::meta(MetaCode::NotFound)),
            Some(at) => {
                if at > 0x7fff_ffff {
                    return Err(Error::meta(MetaCode::NotFound));
                }
                let user = match &self.iovs[at] {
                    Some(shm) => shm.user,
                    None => 0,
                };
                if user != ui.uid {
                    return Err(Error::meta(MetaCode::NoPermission));
                }
                Ok(at as i32)
            },
        }
    }

    /// The inode of the buffer that `key` names, as user `ui` sees it.
    /// `NotFound` where the key names none, `NoPermission` where the buffer
    /// is another user's.
    pub fn lookup_iov(&self, key: &str, ui: &MetaUserInfo) -> (r: Result<MetaInode, Error>)
        requires
            self.wf(),
        ensures
            r.is_ok() <==> {
                let at = named_from(self.view(), self.bindings(), key@, 0);
                at < self.view().len() && at <= i32::MAX && self.view()[at]->Some_0.user == ui.uid
            },
            r matches Ok(inode) ==> {
                let at = named_from(self.view(), self.bindings(), key@, 0);
                &&& inode.id.0 == spec_iov_inode(at)
                &&& inode.data.symlink.path == self.view()[at]->Some_0.path
                &&& inode.data.acl == (Acl { uid: ui.uid, gid: ui.gid, permission: 0o400 })
            },
            r matches Err(e) ==> {
                let at = named_from(self.view(), self.bindings(), key@, 0);
                e.code == if at < self.view().len() && at <= i32::MAX {
                    MetaCode::NoPermission.spec_code()
                } else {
                    MetaCode::NotFound.spec_code()
                }
            },
    {
        match self.lookup_iovd(key, ui) {
            Ok(iovd) => self.stat_iov(iovd, ui),
            Err(e) => Err(e),
        }
    }

    /// Takes the buffer that `key` names out of the table and hands it over.
    /// Fails as `lookup_iov` does, with nothing changed.
    pub fn rm_iov(&mut self, key: &str, ui: &MetaUserInfo) -> (r: Result<ShmBuf, Error>)
        requires
            old(self).wf(),
        ensures
            final(self).wf(),
            final(self).spec_mount_name() == old(self).spec_mount_name(),
            r.is_ok() <==> {
                let at = named_from(old(self).view(), old(self).bindings(), key@, 0);
                at < old(self).view().len() && at <= i32::MAX && old(self).view()[at]->Some_0.user == ui.uid
            },
            r matches Ok(shm) ==> {
                let at = named_from(old(self).view(), old(self).bindings(), key@, 0);
                &&& Some(shm) == old(self).view()[at]
                &&& final(self).view() == old(self).view().update(at, None)
                &&& final(self).bindings() == old(self).bindings().update(at, false)
                &&& final(self).by_id() == old(self).by_id().remove(shm.id.0)
            },
            r matches Err(e) ==> {
                let at = named_from(old(self).view(), old(self).bindings(), key@, 0);
                &&& final(self).view() == old(self).view()
                &&& final(self).bindings() == old(self).bindings()
                &&& final(self).by_id() == old(self).by_id()
                &&& e.code == if at < old(self).view().len() && at <= i32::MAX {
                    MetaCode::NoPermission.spec_code()
                } else {
                    MetaCode::NotFound.spec_code()
                }
            },
    {
        broadcast use group_hash_axioms;

        let at = match self.lookup_iovd(key, ui) {
            Ok(iovd) => iovd as usize,
            Err(e) => {
                return Err(e);
            },
        };
        let mut place: Option<ShmBuf> = None;
        self.iovs.set_and_swap(at, &mut place);
        self.bound.set(at, false);
        let shm = place.unwrap();
        self.shms_by_id.remove(&shm.id.0);
        Ok(shm)
    }

    /// The buffer that was registered last with the identifier `id`, for
    /// user `ui`: a buffer of that user that still stands under the
    /// descriptor, with that identifier.
    pub fn lookup_buf(&self, id: Uuid, ui: &MetaUserInfo) -> (r: Option<&ShmBuf>)
        requires
            self.wf(),
        ensures
            r.is_some() <==> {
                &&& self.by_id().contains_key(id.0)
                &&& 0 <= self.by_id()[id.0] < self.view().len()
                &&& self.view()[self.by_id()[id.0] as int] matches Some(shm)
                &&& shm.id == id
                &&& shm.user == ui.uid
            },
            r matches Some(shm) ==> Some(*shm) == self.view()[self.by_id()[id.0] as int],
    {
        broadcast use group_hash_axioms;

        let iovd = match self.shms_by_id.get(&id.0) {
            Some(d) => *d,
            None => {
                return None;
            },
        };
        if iovd < 0 || iovd as usize >= self.iovs.len() {
            return None;
        }
        match &self.iovs[iovd as usize] {
            Some(shm) => if shm.id.0 == id.0 && shm.user == ui.uid {
                Some(shm)
            } else {
                None
            },
            None => None,
        }
    }

    /// What the directory of the buffers shows to user `ui`: the semaphores
    /// of the three priority classes, then the user's buffers in the order
    /// of their descriptors, each entry with its inode.
    pub fn list_iovs(&self, ui: &MetaUserInfo) -> (r: (Vec<DirEntry>, Vec<Option<MetaInode>>))
        requires
            self.wf(),
        ensures
            r.0@.len() == 3 + listed(self.view(), ui.uid, self.view().len() as int).len(),
            r.1@.len() == r.0@.len(),
            forall|j: int| 0 <= j < 3 ==> is_sem_entry(#[trigger] r.0@[j], r.1@[j], j),
            forall|j: int|
                0 <= j < listed(self.view(), ui.uid, self.view().len() as int).len() ==> is_iov_entry(
                    #[trigger] r.0@[3 + j],
                    r.1@[3 + j],
                    self.view()[listed(self.view(), ui.uid, self.view().len() as int)[j]],
                    listed(self.view(), ui.uid, self.view().len() as int)[j],
                    *ui,
                ),
    {
        let mut des: Vec<DirEntry> = Vec::new();
        let mut ins: Vec<Option<MetaInode>> = Vec::new();
        let mut prio: i32 = 0;
        while prio < 3
            invariant
                0 <= prio <= 3,
                des@.len() == prio,
                ins@.len() == prio,
                forall|j: int| 0 <= j < prio ==> is_sem_entry(#[trigger] des@[j], ins@[j], j),
            decreases 3 - prio,
        {
            des.push(DirEntry { inode_id: InodeId::iov_dir(), name: sem_name(prio) });
            ins.push(Some(lookup_sem(prio)));
            prio = prio + 1;
        }
        let n = self.iovs.len();
        let mut i: usize = 0;
        while i < n
            invariant
                self.wf(),
                n == self.view().len(),
                0 <= i <= n,
                des@.len() == 3 + listed(self.view(), ui.uid, i as int).len(),
                ins@.len() == des@.len(),
                forall|j: int| 0 <= j < 3 ==> is_sem_entry(#[trigger] des@[j], ins@[j], j),
                forall|j: int|
                    0 <= j < listed(self.view(), ui.uid, i as int).len() ==> is_iov_entry(
                        #[trigger] des@[3 + j],
                        ins@[3 + j],
                        self.view()[listed(self.view(), ui.uid, i as int)[j]],
                        listed(self.view(), ui.uid, i as int)[j],
                        *ui,
                    ),
            decreases n - i,
        {
            if i <= 0x7fff_ffff {
                match &self.iovs[i] {
                    Some(shm) => {
                        if shm.user == ui.uid {
                            let ghost before = listed(self.view(), ui.uid, i as int);
                            let ghost des0 = des@;
                            let ghost ins0 = ins@;
                            des.push(DirEntry { inode_id: InodeId::iov(i as i32), name: shm.key.clone() });
                            ins.push(
                                Some(
                                    MetaInode {
                                        id: InodeId::iov(i as i32),
                                        data: InodeData {
                                            symlink: Symlink { path: shm.path.clone() },
                                            acl: Acl { uid: ui.uid, gid: ui.gid, permission: 0o400 },
                                        },
                                    },
                                ),
                            );
                            proof {
                                let after = listed(self.view(), ui.uid, i + 1);
                                assert(after == before.push(i as int));
                                assert forall|j: int| 0 <= j < 3 implies is_sem_entry(
                                    #[trigger] des@[j],
                                    ins@[j],
                                    j,
                                ) by {
                                    assert(des@[j] == des0[j]);
                                    assert(ins@[j] == ins0[j]);
                                }
                                assert forall|j: int| 0 <= j < after.len() implies is_iov_entry(
                                    #[trigger] des@[3 + j],
                                    ins@[3 + j],
                                    self.view()[after[j]],
                                    after[j],
                                    *ui,
                                ) by {
                                    if j < before.len() {
                                        assert(after[j] == before[j]);
                                        assert(des@[3 + j] == des0[3 + j]);
                                        assert(ins@[3 + j] == ins0[3 + j]);
                                    }
                                }
                            }
                        }
                    },
                    None => {},
                }
            }
            i = i + 1;
        }
        (des, ins)
    }

    /// The descriptor whose buffer has the inode id `iid`, if the id is a
    /// buffer's.
    pub fn iov_desc(iid: InodeId) -> (r: Option<i32>)
        ensures
            r.is_some() <==> exists|d: int| 0 <= d <= i32::MAX && #[trigger] spec_iov_inode(d) == iid.0,
            r matches Some(d) ==> 0 <= d && spec_iov_inode(d as int) == iid.0,
    {
        let d: u64 = if iid.0 <= IOV_DIR_INODE {
            IOV_DIR_INODE - iid.0
        } else {
            u64::MAX - iid.0 + 1 + IOV_DIR_INODE
        };
        if d <= 0x7fff_ffff {
            assert(spec_iov_inode(d as int) == iid.0);
            Some(d as i32)
        } else {
            assert forall|k: int| 0 <= k <= i32::MAX implies #[trigger] spec_iov_inode(k) != iid.0 by {}
            None
        }
    }
}

} // verus!
