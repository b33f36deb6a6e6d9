//! The context that the client passes down: names, limits, the ring
//! registry and the dispatch queues.

use vstd::prelude::*;
use vstd::string::StringSliceAdditionalSpecFns;
use crate::iov_table::IovTable;
use crate::iov_table::ShmBuf;
use crate::layout::Inode;
use crate::queue::MultiPrioQueue;
use crate::rcinode::drop_outcome;
use crate::rcinode::entry_added;
use crate::rcinode::entry_dropped;
use crate::rcinode::Dropped;
use crate::rcinode::InodeTable;
use crate::rcinode::RcInode;
use crate::ring::IoRingJob;
use crate::table::IoRingTable;

verus! {

/// Longest mount name, in bytes, plus one.
pub const MOUNT_NAME_LIMIT: usize = 32;

/// Number of priority classes.
pub const PRIORITY_CLASSES: usize = 3;

/// The settings that the context is built from.
#[derive(Clone, Debug, PartialEq, Eq)]
pub struct ClientSetup {
    pub cluster_id: String,
    pub remount_prefix: Option<String>,
    pub enable_writeback_cache: bool,
    pub memset_before_read: bool,
    pub max_idle_threads: i32,
    pub max_threads: i32,
    /// Places of the ring registry.
    pub iov_limit: usize,
    /// Bound of each dispatch queue.
    pub io_jobq_size: usize,
}

/// Number of logical processors that the process may run on.
///
/// Calls `num_cpus::get`. Nothing is claimed of the number: it depends on
/// the machine and on the limits set for the process.
#[verifier::external_body]
fn logical_cores() -> (n: usize) {
    num_cpus::get()
}

/// Worker threads to run on a machine with `cores` logical processors where
/// `configured` are asked for: no more than one for every two processors,
/// rounded up; all that are asked for where the number of processors is
/// unknown.
pub open spec fn spec_worker_threads(configured: int, cores: int) -> int {
    if cores == 0 {
        configured
    } else {
        let half = if cores >= 2 * i32::MAX {
            i32::MAX as int
        } else {
            (cores + 1) / 2
        };
        if configured < half {
            configured
        } else {
            half
        }
    }
}

/// Worker threads to run on a machine with `cores` logical processors.
pub fn worker_threads(configured: i32, cores: usize) -> (n: i32)
    ensures
        n == spec_worker_threads(configured as int, cores as int),
{
    if cores == 0 {
        return configured;
    }
    let half: i32 = if cores / 2 >= 0x7fff_ffff {
        i32::MAX
    } else {
        (cores / 2 + cores % 2) as i32
    };
    if configured < half {
        configured
    } else {
        half
    }
}

/// Worker threads to run on this machine where `configured` are asked for.
pub fn max_threads(configured: i32) -> (n: i32)
    ensures
        exists|cores: int| 0 <= cores <= usize::MAX && n == #[trigger] spec_worker_threads(configured as int, cores),
{
    let cores = logical_cores();
    let n = worker_threads(configured, cores);
    assert(n == spec_worker_threads(configured as int, cores as int));
    n
}

/// Whether a mount may bear the name: it must be shorter than 32 bytes.
pub fn mount_name_ok(name: &str) -> (ok: bool)
    ensures
        ok == (name.spec_bytes().len() < MOUNT_NAME_LIMIT),
{
    name.as_bytes().len() < MOUNT_NAME_LIMIT
}

/// The context of a running client.
pub struct FuseClients {
    pub fuse_token: String,
    pub fuse_mount: String,
    pub fuse_mountpoint: String,
    pub fuse_remount_pref: Option<String>,
    pub memset_before_read: bool,
    pub max_idle_threads: i32,
    pub max_threads: i32,
    pub enable_writeback_cache: bool,
    /// Set when the pollers and workers are to stop.
    pub cancel_ios: bool,
    /// The shared buffers that users have registered.
    pub iovs: IovTable,
    pub iors: IoRingTable,
    pub iojqs: MultiPrioQueue,
    /// The inodes that the kernel holds references to.
    pub inodes: InodeTable,
}

impl FuseClients {
    /// Registry and queues are sound.
    pub open spec fn wf(&self) -> bool {
        self.iovs.wf() && self.iors.wf() && self.iojqs.wf()
    }

    /// A context with nothing configured: no ring can be opened, no span queued.
    pub fn new() -> (c: FuseClients)
        ensures
            c.wf(),
            c.fuse_token@ == Seq::<char>::empty(),
            c.fuse_mount@ == Seq::<char>::empty(),
            c.fuse_mountpoint@ == Seq::<char>::empty(),
            c.fuse_remount_pref.is_none(),
            !c.memset_before_read,
            c.max_idle_threads == 0,
            c.max_threads == 0,
            !c.enable_writeback_cache,
            !c.cancel_ios,
            c.iovs.view().len() == 0,
            c.iors.view().len() == 0,
            c.iojqs.view().len() == 0,
            c.inodes@ == Map::<u64, RcInode>::empty(),
    {
        FuseClients {
            fuse_token: String::new(),
            fuse_mount: String::new(),
            fuse_mountpoint: String::new(),
            fuse_remount_pref: None,
            memset_before_read: false,
            max_idle_threads: 0,
            max_threads: 0,
            enable_writeback_cache: false,
            cancel_ios: false,
            iovs: IovTable::new(),
            iors: IoRingTable::new(0),
            iojqs: MultiPrioQueue::new(0, 0),
            inodes: InodeTable::new(),
        }
    }

    /// Takes the settings over, with the token that was read for the mount.
    ///
    /// Fails, with only the mount name set, where the cluster's name is 32
    /// bytes long or longer. Otherwise the registry gets `iov_limit` free
    /// places, every priority class an empty queue, and the number of worker
    /// threads is what the machine allows of the configured number.
    pub fn init(&mut self, setup: &ClientSetup, mount_point: &str, token: String) -> (ok: bool)
        ensures
            ok == (vstd::utf8::encode_utf8(setup.cluster_id@).len() < MOUNT_NAME_LIMIT),
            final(self).fuse_mount@ == setup.cluster_id@,
            !ok ==> {
                &&& final(self).fuse_token == old(self).fuse_token
                &&& final(self).fuse_mountpoint == old(self).fuse_mountpoint
                &&& final(self).fuse_remount_pref == old(self).fuse_remount_pref
                &&& final(self).memset_before_read == old(self).memset_before_read
                &&& final(self).max_idle_threads == old(self).max_idle_threads
                &&& final(self).max_threads == old(self).max_threads
                &&& final(self).enable_writeback_cache == old(self).enable_writeback_cache
                &&& final(self).cancel_ios == old(self).cancel_ios
                &&& final(self).iovs == old(self).iovs
                &&& final(self).iors == old(self).iors
                &&& final(self).iojqs == old(self).iojqs
            },
            final(self).inodes == old(self).inodes,
            ok ==> {
                &&& final(self).wf()
                &&& final(self).fuse_token == token
                &&& final(self).fuse_mountpoint@ == mount_point@
                &&& final(self).fuse_remount_pref == setup.remount_prefix
                &&& final(self).memset_before_read == setup.memset_before_read
                &&& final(self).max_idle_threads == setup.max_idle_threads
                &&& final(self).enable_writeback_cache == setup.enable_writeback_cache
                &&& final(self).cancel_ios == old(self).cancel_ios
                &&& exists|cores: int|
                    0 <= cores <= usize::MAX && final(self).max_threads == #[trigger] spec_worker_threads(
                        setup.max_threads as int,
                        cores,
                    )
                &&& final(self).iovs.view() == Seq::new(setup.iov_limit as nat, |i: int| None::<ShmBuf>)
                &&& final(self).iovs.by_id() == Map::<u128, i32>::empty()
                &&& final(self).iovs.spec_mount_name() == match setup.remount_prefix {
                    Some(p) => p@,
                    None => mount_point@,
                }
                &&& final(self).iors.view() == Seq::new(
                    setup.iov_limit as nat,
                    |i: int| None::<crate::ring::IoRing>,
                )
                &&& final(self).iojqs.view() == Seq::new(
                    PRIORITY_CLASSES as nat,
                    |i: int| Seq::<IoRingJob>::empty(),
                )
                &&& final(self).iojqs.spec_queue_size() == setup.io_jobq_size
            },
    {
        self.fuse_mount = setup.cluster_id.clone();
        if !mount_name_ok(self.fuse_mount.as_str()) {
            return false;
        }
        self.fuse_mountpoint = mount_point.to_owned();
        self.fuse_remount_pref = setup.remount_prefix.clone();
        self.fuse_token = token;
        self.enable_writeback_cache = setup.enable_writeback_cache;
        self.memset_before_read = setup.memset_before_read;
        self.max_idle_threads = setup.max_idle_threads;
        self.max_threads = max_threads(setup.max_threads);
        let mut iovs = IovTable::new();
        iovs.init(self.iov_mountpoint().as_str(), setup.iov_limit);
        self.iovs = iovs;
        self.iors = IoRingTable::new(setup.iov_limit);
        self.iojqs = MultiPrioQueue::new(setup.io_jobq_size, PRIORITY_CLASSES);
        true
    }

    /// The mount point under which buffers and rings are named: the remount
    /// prefix where one is set, else the mount point.
    pub fn iov_mountpoint(&self) -> (s: &String)
        ensures
            *s == match self.fuse_remount_pref {
                Some(p) => p,
                None => self.fuse_mountpoint,
            },
    {
        match &self.fuse_remount_pref {
            Some(p) => p,
            None => &self.fuse_mountpoint,
        }
    }

    /// Asks the pollers and workers to stop: they look at the flag between
    /// claim cycles and between spans.
    pub fn stop(&mut self)
        ensures
            final(self).cancel_ios,
            final(self).fuse_token == old(self).fuse_token,
            final(self).fuse_mount == old(self).fuse_mount,
            final(self).fuse_mountpoint == old(self).fuse_mountpoint,
            final(self).fuse_remount_pref == old(self).fuse_remount_pref,
            final(self).memset_before_read == old(self).memset_before_read,
            final(self).max_idle_threads == old(self).max_idle_threads,
            final(self).max_threads == old(self).max_threads,
            final(self).enable_writeback_cache == old(self).enable_writeback_cache,
            final(self).iovs == old(self).iovs,
            final(self).iors == old(self).iors,
            final(self).iojqs == old(self).iojqs,
            final(self).inodes == old(self).inodes,
    {
        self.cancel_ios = true;
    }

    /// What is known of the inode `ino`.
    pub fn get_inode(&self, ino: u64) -> (r: Option<RcInode>)
        ensures
            r == if self.inodes@.contains_key(ino) {
                Some(self.inodes@[ino])
            } else {
                None
            },
    {
        self.inodes.get_inode(ino)
    }

    /// Notes one more reference of the kernel to `inode`.
    pub fn add_entry(&mut self, inode: Inode)
        ensures
            final(self).inodes@ == entry_added(old(self).inodes@, inode),
            final(self).fuse_token == old(self).fuse_token,
            final(self).fuse_mount == old(self).fuse_mount,
            final(self).fuse_mountpoint == old(self).fuse_mountpoint,
            final(self).fuse_remount_pref == old(self).fuse_remount_pref,
            final(self).memset_before_read == old(self).memset_before_read,
            final(self).max_idle_threads == old(self).max_idle_threads,
            final(self).max_threads == old(self).max_threads,
            final(self).enable_writeback_cache == old(self).enable_writeback_cache,
            final(self).cancel_ios == old(self).cancel_ios,
            final(self).iovs == old(self).iovs,
            final(self).iors == old(self).iors,
            final(self).iojqs == old(self).iojqs,
    {
        self.inodes.add_entry(inode);
    }

    /// Drops `n` references of the kernel to the inode `ino`.
    pub fn remove_entry(&mut self, ino: u64, n: u64) -> (r: Dropped)
        ensures
            r == drop_outcome(old(self).inodes@, ino, n),
            final(self).inodes@ == entry_dropped(old(self).inodes@, ino, n),
            final(self).fuse_token == old(self).fuse_token,
            final(self).fuse_mount == old(self).fuse_mount,
            final(self).fuse_mountpoint == old(self).fuse_mountpoint,
            final(self).fuse_remount_pref == old(self).fuse_remount_pref,
            final(self).memset_before_read == old(self).memset_before_read,
            final(self).max_idle_threads == old(self).max_idle_threads,
            final(self).max_threads == old(self).max_threads,
            final(self).enable_writeback_cache == old(self).enable_writeback_cache,
            final(self).cancel_ios == old(self).cancel_ios,
            final(self).iovs == old(self).iovs,
            final(self).iors == old(self).iors,
            final(self).iojqs == old(self).iojqs,
    {
        self.inodes.remove_entry(ino, n)
    }
}

} // verus!
