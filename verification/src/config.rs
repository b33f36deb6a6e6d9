//! Settings of the client and of its launcher, and the updates that override
//! what a configuration file says.

use vstd::prelude::*;
use crate::text::parse_unsigned;
use crate::text::read_unsigned;

verus! {

/// One override: the name of a setting and its new value.
#[derive(Clone, Debug, PartialEq, Eq)]
pub struct KeyValue {
    pub key: String,
    pub value: String,
}

impl KeyValue {
    pub fn new(key: String, value: String) -> (kv: KeyValue)
        ensures
            kv.key == key,
            kv.value == value,
    {
        KeyValue { key, value }
    }
}

/// Identifier of a node of the cluster.
#[derive(Clone, Copy, Debug, PartialEq, Eq, Structural)]
pub struct NodeId(pub u64);

/// Whether the text `s` is the literal `lit`.
pub fn text_is(s: &String, lit: &str) -> (b: bool)
    ensures
        b == (s@ == lit@),
{
    let other = lit.to_owned();
    *s == other
}

/// A configuration that can be initialised from a file and overrides.
pub trait ConfigBase {
    fn init(&mut self, file_path: &str, dump: bool, updates: Vec<KeyValue>) -> Result<(), String>;
}

/// Settings of the client application.
#[derive(Clone, Debug, PartialEq, Eq)]
pub struct FuseAppConfig {
    pub token: String,
    pub mountpoint: String,
    pub node_id: u64,
}

/// The node id that the text `value` spells, or zero where it spells none.
pub open spec fn node_id_of(value: Seq<u8>) -> u64 {
    match parse_unsigned(value, 10, u64::MAX as int) {
        Some(v) => v as u64,
        None => 0,
    }
}

/// What a client configuration holds, as plain values.
pub struct AppConfigView {
    pub token: Seq<char>,
    pub mountpoint: Seq<char>,
    pub node_id: u64,
}

impl AppConfigView {
    /// The settings after one override. Names other than `token`,
    /// `mountpoint` and `node_id` change nothing.
    pub open spec fn updated(self, kv: KeyValue) -> AppConfigView {
        if kv.key@ == "token"@ {
            AppConfigView { token: kv.value@, ..self }
        } else if kv.key@ == "mountpoint"@ {
            AppConfigView { mountpoint: kv.value@, ..self }
        } else if kv.key@ == "node_id"@ {
            AppConfigView { node_id: node_id_of(vstd::utf8::encode_utf8(kv.value@)), ..self }
        } else {
            self
        }
    }

    /// The settings after the first `k` of the overrides, in order.
    pub open spec fn updated_all(self, updates: Seq<KeyValue>, k: int) -> AppConfigView
        decreases k,
    {
        if k <= 0 {
            self
        } else {
            self.updated_all(updates, k - 1).updated(updates[k - 1])
        }
    }
}

impl View for FuseAppConfig {
    type V = AppConfigView;

    open spec fn view(&self) -> AppConfigView {
        AppConfigView { token: self.token@, mountpoint: self.mountpoint@, node_id: self.node_id }
    }
}

/// What every application of the client shares.
pub struct ApplicationBase;

impl ApplicationBase {
    /// Initialises a configuration. There is nothing to initialise: the
    /// call succeeds and the configuration stays as it was, whatever the path,
    /// the dump flag and the overrides are.
    pub fn init_config(config: &mut FuseAppConfig, file_path: &str, dump: bool, updates: Vec<KeyValue>) -> (r:
        Result<(), String>)
        ensures
            r.is_ok(),
            *final(config) == *old(config),
    {
        Ok(())
    }

    /// Replaces a configuration by the settings `loaded` from a file, with the
    /// overrides applied to them in order. Always succeeds.
    pub fn load_config(config: &mut FuseAppConfig, loaded: FuseAppConfig, updates: Vec<KeyValue>) -> (r: Result<
        (),
        String,
    >)
        ensures
            r.is_ok(),
            final(config)@ == loaded@.updated_all(updates@, updates@.len() as int),
    {
        let mut next = loaded;
        let n = updates.len();
        let mut i: usize = 0;
        while i < n
            invariant
                n == updates@.len(),
                0 <= i <= n,
                next@ == loaded@.updated_all(updates@, i as int),
            decreases n - i,
        {
            let kv = &updates[i];
            if text_is(&kv.key, "token") {
                next.token = kv.value.clone();
            } else if text_is(&kv.key, "mountpoint") {
                next.mountpoint = kv.value.clone();
            } else if text_is(&kv.key, "node_id") {
                let bytes = kv.value.as_str().as_bytes();
                next.node_id = match read_unsigned(bytes, 0, bytes.len(), 10, u64::MAX) {
                    Some(v) => v,
                    None => 0,
                };
                assert(bytes@.subrange(0, bytes@.len() as int) =~= bytes@);
            }
            i = i + 1;
        }
        *config = next;
        Ok(())
    }
}

impl FuseAppConfig {
    /// Empty settings, node id zero.
    pub fn new() -> (c: FuseAppConfig)
        ensures
            c@ == (AppConfigView { token: Seq::empty(), mountpoint: Seq::empty(), node_id: 0 }),
    {
        FuseAppConfig { token: String::new(), mountpoint: String::new(), node_id: 0 }
    }

    /// Initialises the settings: succeeds and leaves them as they were.
    pub fn init(&mut self, file_path: &str, dump: bool, updates: Vec<KeyValue>) -> (r: Result<(), String>)
        ensures
            r.is_ok(),
            *final(self) == *old(self),
    {
        ApplicationBase::init_config(self, file_path, dump, updates)
    }

    pub fn get_node_id(&self) -> (id: NodeId)
        ensures
            id == NodeId(self@.node_id),
    {
        NodeId(self.node_id)
    }
}

impl ConfigBase for FuseAppConfig {
    /// Initialises the settings: succeeds and leaves them as they were.
    fn init(&mut self, file_path: &str, dump: bool, updates: Vec<KeyValue>) -> (r: Result<(), String>)
        ensures
            r.is_ok(),
            *final(self) == *old(self),
    {
        ApplicationBase::init_config(self, file_path, dump, updates)
    }
}

/// Settings of the network devices.
#[derive(Clone, Debug, PartialEq, Eq)]
pub struct IBDeviceConfig {
    pub config_details: String,
}

/// Settings of the network client.
#[derive(Clone, Debug, PartialEq, Eq)]
pub struct ClientConfig {
    pub config_details: String,
}

/// Settings of the client of the management service, as the launcher holds them.
#[derive(Clone, Debug, PartialEq, Eq)]
pub struct MgmtdClientForClientConfig {
    pub config_details: String,
}

/// Settings of the client of the management service.
#[derive(Clone, Debug, PartialEq, Eq)]
pub struct MgmtdClientConfig {
    pub config_details: String,
}

/// Settings of the storage backend client.
#[derive(Clone, Debug, PartialEq, Eq)]
pub struct StorageClientConfig {
    pub config_details: String,
}

/// Settings of the metadata client.
#[derive(Clone, Debug, PartialEq, Eq)]
pub struct MetaClientConfig {
    pub config_details: String,
}

/// Settings of logging.
#[derive(Clone, Debug, PartialEq, Eq)]
pub struct LogConfig {
    pub config_details: String,
}

/// Settings of monitoring.
#[derive(Clone, Debug, PartialEq, Eq)]
pub struct MonitorConfig {
    pub config_details: String,
}

/// Options of the batched calls to the storage backend.
#[derive(Clone, Copy, Debug, PartialEq, Eq, Structural)]
pub struct IoOptions {
    pub allow_holes: bool,
}

/// Number of workers of a pool.
#[derive(Clone, Copy, Debug, PartialEq, Eq, Structural)]
pub struct CoroutinesPoolConfig {
    pub coroutines_num: u32,
}

/// Bounds of the dispatch queues of the high and the low priority class.
#[derive(Clone, Copy, Debug, PartialEq, Eq, Structural)]
pub struct IoJobqSizes {
    pub hi: u32,
    pub lo: u32,
}

/// Number of workers assigned to the high and the low priority class.
#[derive(Clone, Copy, Debug, PartialEq, Eq, Structural)]
pub struct IoWorkerCoros {
    pub hi: u32,
    pub lo: u32,
}

/// Sizes of the transfer buffers.
#[derive(Clone, Copy, Debug, PartialEq, Eq, Structural)]
pub struct IoBufs {
    pub max_buf_size: u32,
    pub max_readahead: u32,
    pub write_buf_size: u32,
}

/// How dirty inodes are synced in the background.
#[derive(Clone, Copy, Debug, PartialEq, Eq, Structural)]
pub struct PeriodSync {
    pub enable: bool,
    pub interval: u64,
    pub limit: u32,
    pub flush_write_buf: bool,
    pub worker: CoroutinesPoolConfig,
}

impl Default for IBDeviceConfig {
    fn default() -> (c: IBDeviceConfig)
        ensures
            c.config_details@ == Seq::<char>::empty(),
    {
        IBDeviceConfig { config_details: String::new() }
    }
}

impl Default for ClientConfig {
    fn default() -> (c: ClientConfig)
        ensures
            c.config_details@ == Seq::<char>::empty(),
    {
        ClientConfig { config_details: String::new() }
    }
}

impl Default for MgmtdClientForClientConfig {
    fn default() -> (c: MgmtdClientForClientConfig)
        ensures
            c.config_details@ == Seq::<char>::empty(),
    {
        MgmtdClientForClientConfig { config_details: String::new() }
    }
}

impl Default for MgmtdClientConfig {
    fn default() -> (c: MgmtdClientConfig)
        ensures
            c.config_details@ == Seq::<char>::empty(),
    {
        MgmtdClientConfig { config_details: String::new() }
    }
}

impl Default for StorageClientConfig {
    fn default() -> (c: StorageClientConfig)
        ensures
            c.config_details@ == Seq::<char>::empty(),
    {
        StorageClientConfig { config_details: String::new() }
    }
}

impl Default for MetaClientConfig {
    fn default() -> (c: MetaClientConfig)
        ensures
            c.config_details@ == Seq::<char>::empty(),
    {
        MetaClientConfig { config_details: String::new() }
    }
}

impl Default for LogConfig {
    fn default() -> (c: LogConfig)
        ensures
            c.config_details@ == Seq::<char>::empty(),
    {
        LogConfig { config_details: String::new() }
    }
}

impl Default for MonitorConfig {
    fn default() -> (c: MonitorConfig)
        ensures
            c.config_details@ == Seq::<char>::empty(),
    {
        MonitorConfig { config_details: String::new() }
    }
}

impl Default for IoOptions {
    fn default() -> (c: IoOptions)
        ensures
            c == (IoOptions { allow_holes: false }),
    {
        IoOptions { allow_holes: false }
    }
}

impl Default for CoroutinesPoolConfig {
    fn default() -> (c: CoroutinesPoolConfig)
        ensures
            c == (CoroutinesPoolConfig { coroutines_num: 0 }),
    {
        CoroutinesPoolConfig { coroutines_num: 0 }
    }
}

impl Default for IoJobqSizes {
    fn default() -> (c: IoJobqSizes)
        ensures
            c == (IoJobqSizes { hi: 32, lo: 4096 }),
    {
        IoJobqSizes { hi: 32, lo: 4096 }
    }
}

impl Default for IoWorkerCoros {
    fn default() -> (c: IoWorkerCoros)
        ensures
            c == (IoWorkerCoros { hi: 8, lo: 8 }),
    {
        IoWorkerCoros { hi: 8, lo: 8 }
    }
}

impl Default for IoBufs {
    fn default() -> (c: IoBufs)
        ensures
            c == (IoBufs { max_buf_size: 1048576, max_readahead: 262144, write_buf_size: 1048576 }),
    {
        IoBufs { max_buf_size: 1024 * 1024, max_readahead: 256 * 1024, write_buf_size: 1024 * 1024 }
    }
}

impl Default for PeriodSync {
    fn default() -> (c: PeriodSync)
        ensures
            c == (PeriodSync {
                enable: true,
                interval: 30,
                limit: 1000,
                flush_write_buf: true,
                worker: CoroutinesPoolConfig { coroutines_num: 4 },
            }),
    {
        PeriodSync {
            enable: true,
            interval: 30,
            limit: 1000,
            flush_write_buf: true,
            worker: CoroutinesPoolConfig { coroutines_num: 4 },
        }
    }
}

/// Settings of the launcher.
#[derive(Clone, Debug, PartialEq, Eq)]
pub struct FuseLauncherConfig {
    pub cluster_id: String,
    pub ib_devices: IBDeviceConfig,
    pub client: ClientConfig,
    pub mgmtd_client: MgmtdClientForClientConfig,
    pub mountpoint: String,
    pub allow_other: bool,
    pub token_file: String,
}

/// What a launcher configuration holds, as plain values.
pub struct LauncherConfigView {
    pub cluster_id: Seq<char>,
    pub ib_devices: Seq<char>,
    pub client: Seq<char>,
    pub mgmtd_client: Seq<char>,
    pub mountpoint: Seq<char>,
    pub allow_other: bool,
    pub token_file: Seq<char>,
}

impl LauncherConfigView {
    /// The settings after one override. `allow_other` changes only to `true`
    /// or `false`; names that the launcher does not know change nothing.
    pub open spec fn updated(self, kv: KeyValue) -> LauncherConfigView {
        if kv.key@ == "cluster_id"@ {
            LauncherConfigView { cluster_id: kv.value@, ..self }
        } else if kv.key@ == "mountpoint"@ {
            LauncherConfigView { mountpoint: kv.value@, ..self }
        } else if kv.key@ == "token_file"@ {
            LauncherConfigView { token_file: kv.value@, ..self }
        } else if kv.key@ == "allow_other"@ {
            if kv.value@ == "true"@ {
                LauncherConfigView { allow_other: true, ..self }
            } else if kv.value@ == "false"@ {
                LauncherConfigView { allow_other: false, ..self }
            } else {
                self
            }
        } else if kv.key@ == "ib_devices.config_details"@ {
            LauncherConfigView { ib_devices: kv.value@, ..self }
        } else if kv.key@ == "client.config_details"@ {
            LauncherConfigView { client: kv.value@, ..self }
        } else if kv.key@ == "mgmtd_client.config_details"@ {
            LauncherConfigView { mgmtd_client: kv.value@, ..self }
        } else {
            self
        }
    }

    /// The settings after the first `k` of the overrides, in order.
    pub open spec fn updated_all(self, updates: Seq<KeyValue>, k: int) -> LauncherConfigView
        decreases k,
    {
        if k <= 0 {
            self
        } else {
            self.updated_all(updates, k - 1).updated(updates[k - 1])
        }
    }
}

impl View for FuseLauncherConfig {
    type V = LauncherConfigView;

    open spec fn view(&self) -> LauncherConfigView {
        LauncherConfigView {
            cluster_id: self.cluster_id@,
            ib_devices: self.ib_devices.config_details@,
            client: self.client.config_details@,
            mgmtd_client: self.mgmtd_client.config_details@,
            mountpoint: self.mountpoint@,
            allow_other: self.allow_other,
            token_file: self.token_file@,
        }
    }
}

impl Default for FuseLauncherConfig {
    fn default() -> (c: FuseLauncherConfig)
        ensures
            c@ == (LauncherConfigView {
                cluster_id: Seq::empty(),
                ib_devices: Seq::empty(),
                client: Seq::empty(),
                mgmtd_client: Seq::empty(),
                mountpoint: Seq::empty(),
                allow_other: true,
                token_file: Seq::empty(),
            }),
    {
        FuseLauncherConfig {
            cluster_id: String::new(),
            ib_devices: IBDeviceConfig { config_details: String::new() },
            client: ClientConfig { config_details: String::new() },
            mgmtd_client: MgmtdClientForClientConfig { config_details: String::new() },
            mountpoint: String::new(),
            allow_other: true,
            token_file: String::new(),
        }
    }
}

impl FuseLauncherConfig {
    /// The defaults: everything empty, other users allowed.
    pub fn new() -> (c: FuseLauncherConfig)
        ensures
            c@ == (LauncherConfigView {
                cluster_id: Seq::empty(),
                ib_devices: Seq::empty(),
                client: Seq::empty(),
                mgmtd_client: Seq::empty(),
                mountpoint: Seq::empty(),
                allow_other: true,
                token_file: Seq::empty(),
            }),
    {
        FuseLauncherConfig {
            cluster_id: String::new(),
            ib_devices: IBDeviceConfig { config_details: String::new() },
            client: ClientConfig { config_details: String::new() },
            mgmtd_client: MgmtdClientForClientConfig { config_details: String::new() },
            mountpoint: String::new(),
            allow_other: true,
            token_file: String::new(),
        }
    }

    /// Applies the overrides, in order.
    pub fn init(&mut self, file_path: &str, dump: bool, updates: Vec<KeyValue>)
        ensures
            final(self)@ == old(self)@.updated_all(updates@, updates@.len() as int),
    {
        let n = updates.len();
        let mut i: usize = 0;
        while i < n
            invariant
                n == updates@.len(),
                0 <= i <= n,
                self@ == old(self)@.updated_all(updates@, i as int),
            decreases n - i,
        {
            let kv = &updates[i];
            if text_is(&kv.key, "cluster_id") {
                self.cluster_id = kv.value.clone();
            } else if text_is(&kv.key, "mountpoint") {
                self.mountpoint = kv.value.clone();
            } else if text_is(&kv.key, "token_file") {
                self.token_file = kv.value.clone();
            } else if text_is(&kv.key, "allow_other") {
                if text_is(&kv.value, "true") {
                    self.allow_other = true;
                } else if text_is(&kv.value, "false") {
                    self.allow_other = false;
                }
            } else if text_is(&kv.key, "ib_devices.config_details") {
                self.ib_devices.config_details = kv.value.clone();
            } else if text_is(&kv.key, "client.config_details") {
                self.client.config_details = kv.value.clone();
            } else if text_is(&kv.key, "mgmtd_client.config_details") {
                self.mgmtd_client.config_details = kv.value.clone();
            }
            i = i + 1;
        }
    }
}

} // verus!
