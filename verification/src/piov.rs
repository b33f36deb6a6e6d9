//! Batches of per-chunk operations for the requests of one span.

use vstd::prelude::*;
use std::collections::HashMap;
use vstd::std_specs::hash::group_hash_axioms;
use crate::layout::chain_slot;
use crate::layout::chunk_at;
use crate::layout::is_plan;
use crate::layout::plan;
use crate::layout::ChainId;
use crate::layout::ChunkId;
use crate::layout::ChunkRange;
use crate::layout::File;
use crate::layout::Inode;
use crate::layout::InodeId;
use crate::layout::RoutingInfo;
use crate::reduce::concat_io_res;
use crate::reduce::fits;
use crate::reduce::io_views;
use crate::reduce::reduce_fits;
use crate::reduce::reduced;
use crate::reduce::IOResult;
use crate::reduce::IoView;
use crate::reduce::IO;
use crate::status::Error;
use crate::status::MetaCode;
use crate::status::StatusCode;
use crate::status::Void;

verus! {

/// Handle of a buffer that is registered for transfers.
#[derive(Clone, Copy, Debug, PartialEq, Eq, Structural)]
pub struct IOBuffer {
    pub id: u64,
}

/// The user on whose behalf a batch runs.
#[derive(Clone, Copy, Debug, PartialEq, Eq, Structural)]
pub struct MetaUserInfo {
    pub uid: u32,
    pub gid: u32,
}

/// Options of a batched read.
#[derive(Clone, Copy, Debug, PartialEq, Eq, Structural)]
pub struct ReadOptions {
    pub allow_holes: bool,
}

/// Options of a batched write.
#[derive(Clone, Copy, Debug, PartialEq, Eq, Structural)]
pub struct WriteOptions {
    pub sync: bool,
}

/// A read of part of one chunk.
#[derive(Clone, Debug, PartialEq, Eq)]
pub struct ReadIO {
    pub chain: ChainId,
    pub chunk: ChunkId,
    /// First byte in the chunk.
    pub offset: usize,
    pub length: usize,
    /// Where the bytes belong in the buffer of the request.
    pub buf_off: usize,
    /// Index of the request.
    pub user_ctx: usize,
    pub result: IOResult,
    /// The bytes read.
    pub data: Vec<u8>,
}

/// A write of part of one chunk.
#[derive(Clone, Debug, PartialEq, Eq)]
pub struct WriteIO {
    pub chain: ChainId,
    pub chunk: ChunkId,
    /// First byte in the chunk.
    pub offset: usize,
    pub length: usize,
    pub chunk_size: usize,
    /// Where the bytes come from in the buffer of the request.
    pub buf_off: usize,
    /// Index of the request.
    pub user_ctx: usize,
    pub result: IOResult,
    /// The bytes to write.
    pub data: Vec<u8>,
}

/// A truncation of a chunk that a write needs done first.
#[derive(Clone, Copy, Debug, PartialEq, Eq)]
pub struct TruncateChunkOp {
    /// Index of the request.
    pub user_ctx: usize,
    pub result: IOResult,
}

impl IO for ReadIO {
    open spec fn io_view(&self) -> IoView {
        IoView { user_ctx: self.user_ctx as int, length: self.length as int, result: self.result.length_info }
    }

    fn user_ctx(&self) -> (r: usize) {
        self.user_ctx
    }

    fn length(&self) -> (r: usize) {
        self.length
    }

    fn result(&self) -> (r: IOResult) {
        self.result
    }
}

impl IO for WriteIO {
    open spec fn io_view(&self) -> IoView {
        IoView { user_ctx: self.user_ctx as int, length: self.length as int, result: self.result.length_info }
    }

    fn user_ctx(&self) -> (r: usize) {
        self.user_ctx
    }

    fn length(&self) -> (r: usize) {
        self.length
    }

    fn result(&self) -> (r: IOResult) {
        self.result
    }
}

/// A copy of `v`.
fn copied<T: Copy>(v: &Vec<T>) -> (out: Vec<T>)
    ensures
        out@ == v@,
{
    let mut out: Vec<T> = Vec::new();
    let mut i: usize = 0;
    while i < v.len()
        invariant
            0 <= i <= v@.len(),
            out@ == v@.take(i as int),
        decreases v@.len() - i,
    {
        out.push(v[i]);
        i = i + 1;
        assert(out@ =~= v@.take(i as int));
    }
    assert(v@.take(v@.len() as int) =~= v@);
    out
}

/// `len` bytes of `buf` from `from` on.
fn copied_range(buf: &[u8], from: usize, len: usize) -> (out: Vec<u8>)
    requires
        from + len <= buf@.len(),
    ensures
        out@ == buf@.subrange(from as int, from + len),
{
    let mut out: Vec<u8> = Vec::new();
    let mut i: usize = 0;
    let total = buf.len();
    while i < len
        invariant
            from + len <= buf@.len(),
            total == buf@.len(),
            0 <= i <= len,
            out@ == buf@.subrange(from as int, from + i),
        decreases len - i,
    {
        out.push(buf[from + i]);
        i = i + 1;
        assert(out@ =~= buf@.subrange(from as int, from + i));
    }
    out
}

/// `n` zero bytes.
fn zeros(n: usize) -> (out: Vec<u8>)
    ensures
        out@ == Seq::new(n as nat, |i: int| 0u8),
{
    let mut out: Vec<u8> = Vec::new();
    let mut i: usize = 0;
    while i < n
        invariant
            0 <= i <= n,
            out@ == Seq::new(i as nat, |k: int| 0u8),
        decreases n - i,
    {
        out.push(0u8);
        i = i + 1;
        assert(out@ =~= Seq::new(i as nat, |k: int| 0u8));
    }
    out
}

/// `data` with zeros from byte `from` on.
pub open spec fn zeroed_from(data: Seq<u8>, from: int) -> Seq<u8> {
    Seq::new(
        data.len(),
        |i: int|
            if i >= from {
                0u8
            } else {
                data[i]
            },
    )
}

fn zero_tail(data: &Vec<u8>, from: usize) -> (out: Vec<u8>)
    ensures
        out@ == zeroed_from(data@, from as int),
{
    let mut out: Vec<u8> = Vec::new();
    let mut i: usize = 0;
    while i < data.len()
        invariant
            0 <= i <= data@.len(),
            out@ == zeroed_from(data@, from as int).take(i as int),
        decreases data@.len() - i,
    {
        let b: u8 = if i >= from {
            0
        } else {
            data[i]
        };
        out.push(b);
        i = i + 1;
        assert(out@ =~= zeroed_from(data@, from as int).take(i as int));
    }
    assert(zeroed_from(data@, from as int).take(data@.len() as int) =~= zeroed_from(data@, from as int));
    out
}

/// The storage backend client, as far as operations are prepared on it: it
/// knows the chain table, if the management service has handed one out.
#[derive(Clone, Debug, PartialEq, Eq)]
pub struct StorageClient {
    pub routing: Option<RoutingInfo>,
}

impl StorageClient {
    /// The client of the management service: the storage client answers for it.
    pub fn get_mgmtd_client(&self) -> (c: &StorageClient)
        ensures
            c == self,
    {
        self
    }

    /// The chain table, if there is one.
    pub fn get_routing_info(&self) -> (r: Option<RoutingInfo>)
        ensures
            r.is_some() == self.routing.is_some(),
            r matches Some(info) ==> info.chains@ == self.routing->Some_0.chains@,
    {
        match &self.routing {
            Some(info) => Some(RoutingInfo { chains: copied(&info.chains) }),
            None => None,
        }
    }

    /// A read of `chunk_len` bytes from byte `chunk_off` of a chunk on, for
    /// request `user_ctx`. It starts out as done in full, its bytes zero.
    pub fn create_read_io(
        &self,
        chain: ChainId,
        chunk: ChunkId,
        chunk_off: usize,
        chunk_len: usize,
        buf_off: usize,
        user_ctx: usize,
    ) -> (io: ReadIO)
        ensures
            io.chain == chain,
            io.chunk == chunk,
            io.offset == chunk_off,
            io.length == chunk_len,
            io.buf_off == buf_off,
            io.user_ctx == user_ctx,
            io.result.length_info == Ok::<usize, Error>(chunk_len),
            io.data@ == Seq::new(chunk_len as nat, |i: int| 0u8),
    {
        ReadIO {
            chain,
            chunk,
            offset: chunk_off,
            length: chunk_len,
            buf_off,
            user_ctx,
            result: IOResult { length_info: Ok(chunk_len) },
            data: zeros(chunk_len),
        }
    }

    /// A write of the `chunk_len` bytes `data` to a chunk from byte
    /// `chunk_off` on, for request `user_ctx`. It starts out as done in full.
    pub fn create_write_io(
        &self,
        chain: ChainId,
        chunk: ChunkId,
        chunk_off: usize,
        chunk_len: usize,
        chunk_size: usize,
        buf_off: usize,
        data: Vec<u8>,
        user_ctx: usize,
    ) -> (io: WriteIO)
        requires
            data@.len() == chunk_len,
        ensures
            io.chain == chain,
            io.chunk == chunk,
            io.offset == chunk_off,
            io.length == chunk_len,
            io.chunk_size == chunk_size,
            io.buf_off == buf_off,
            io.user_ctx == user_ctx,
            io.result.length_info == Ok::<usize, Error>(chunk_len),
            io.data@ == data@,
            io.data@.len() == io.length,
    {
        WriteIO {
            chain,
            chunk,
            offset: chunk_off,
            length: chunk_len,
            chunk_size,
            buf_off,
            user_ctx,
            result: IOResult { length_info: Ok(chunk_len) },
            data,
        }
    }
}


/// The pieces of the file that the operations `ios` of a request that begins
/// at byte `off` read.
pub open spec fn ranges_of_reads(ios: Seq<ReadIO>, off: int) -> Seq<ChunkRange> {
    Seq::new(ios.len(), |i: int| ChunkRange { file_off: (off + ios[i].buf_off) as u64, len: ios[i].length })
}

/// The pieces of the file that the operations `ios` of a request that begins
/// at byte `off` write.
pub open spec fn ranges_of_writes(ios: Seq<WriteIO>, off: int) -> Seq<ChunkRange> {
    Seq::new(ios.len(), |i: int| ChunkRange { file_off: (off + ios[i].buf_off) as u64, len: ios[i].length })
}

/// Whether `io` is the read of the piece `range` of a file, for request `idx`
/// whose range begins at byte `off`.
pub open spec fn is_read_of(
    io: ReadIO,
    file: File,
    inode_id: InodeId,
    chains: Seq<ChainId>,
    track: int,
    idx: int,
    off: int,
    range: ChunkRange,
) -> bool {
    &&& io.chain == chains[chain_slot(file.layout, range.file_off as int, track, chains.len() as int)]
    &&& io.chunk == chunk_at(file.layout, inode_id, range.file_off as int)
    &&& io.offset == range.file_off as int % (file.layout.chunk_size as int)
    &&& io.length == range.len
    &&& io.buf_off == range.file_off - off
    &&& io.user_ctx == idx
    &&& io.result.length_info == Ok::<usize, Error>(range.len)
    &&& io.data@ == Seq::new(range.len as nat, |i: int| 0u8)
}

/// Whether `io` is the write of the piece `range` of a file, for request
/// `idx` whose range begins at byte `off` and whose bytes are `buf`.
pub open spec fn is_write_of(
    io: WriteIO,
    file: File,
    inode_id: InodeId,
    chains: Seq<ChainId>,
    track: int,
    idx: int,
    off: int,
    buf: Seq<u8>,
    range: ChunkRange,
) -> bool {
    &&& io.chain == chains[chain_slot(file.layout, range.file_off as int, track, chains.len() as int)]
    &&& io.chunk == chunk_at(file.layout, inode_id, range.file_off as int)
    &&& io.offset == range.file_off as int % (file.layout.chunk_size as int)
    &&& io.length == range.len
    &&& io.chunk_size == file.layout.chunk_size
    &&& io.buf_off == range.file_off - off
    &&& io.user_ctx == idx
    &&& io.result.length_info == Ok::<usize, Error>(range.len)
    &&& io.data@ == buf.subrange(range.file_off - off, range.file_off - off + range.len)
}

/// The per-chunk operations of the requests of one span, all reads or all
/// writes, and the result slot of every request.
pub struct PioV {
    pub storage_client: StorageClient,
    pub chunk_size_lim: usize,
    pub res: Vec<i64>,
    pub rios: Vec<ReadIO>,
    pub wios: Vec<WriteIO>,
    pub trops: Vec<TruncateChunkOp>,
    /// For every inode written to, the length that the file may have reached.
    pub potential_lens: HashMap<u64, u64>,
    pub routing_info: RoutingInfo,
}

impl PioV {
    /// Every operation names a result slot, and there is a chain table.
    pub open spec fn wf(&self) -> bool {
        &&& forall|i: int| 0 <= i < self.rios@.len() ==> (#[trigger] self.rios@[i]).user_ctx < self.res@.len()
        &&& forall|i: int| 0 <= i < self.wios@.len() ==> (#[trigger] self.wios@[i]).user_ctx < self.res@.len()
        &&& self.routing_info.chains@.len() > 0
    }

    /// Whether everything but the operations and results named in the
    /// contract is as in `other`.
    pub open spec fn same_setup(&self, other: &PioV) -> bool {
        &&& self.storage_client == other.storage_client
        &&& self.chunk_size_lim == other.chunk_size_lim
        &&& self.trops@ == other.trops@
        &&& self.routing_info.chains@ == other.routing_info.chains@
    }

    /// Ends request `idx` with the result `value` before any of its chunks
    /// is touched. Returns `false`, changing nothing, where `idx` names no
    /// result slot.
    pub fn finish_request(&mut self, idx: usize, value: i64) -> (ok: bool)
        requires
            old(self).wf(),
        ensures
            final(self).wf(),
            final(self).same_setup(old(self)),
            final(self).rios@ == old(self).rios@,
            final(self).wios@ == old(self).wios@,
            final(self).potential_lens@ == old(self).potential_lens@,
            ok == (idx < old(self).res@.len()),
            final(self).res@ == if ok {
                old(self).res@.update(idx as int, value)
            } else {
                old(self).res@
            },
    {
        if idx >= self.res.len() {
            return false;
        }
        self.res.set(idx, value);
        true
    }

    /// Ends request `idx` with the failure `code`: its result becomes the
    /// negated code. Returns `false`, changing nothing, where `idx` names no
    /// result slot.
    pub fn fail_request(&mut self, idx: usize, code: i32) -> (ok: bool)
        requires
            old(self).wf(),
        ensures
            final(self).wf(),
            final(self).same_setup(old(self)),
            final(self).rios@ == old(self).rios@,
            final(self).wios@ == old(self).wios@,
            final(self).potential_lens@ == old(self).potential_lens@,
            ok == (idx < old(self).res@.len()),
            final(self).res@ == if ok {
                old(self).res@.update(idx as int, (-(code as int)) as i64)
            } else {
                old(self).res@
            },
    {
        self.finish_request(idx, -(code as i64))
    }

    /// Whether the bytes of the `k`-th read go to the caller: they do where
    /// the request of the read has not failed.
    pub fn delivers(&self, k: usize) -> (b: bool)
        requires
            self.wf(),
        ensures
            b == (k < self.rios@.len() && self.res@[self.rios@[k as int].user_ctx as int] >= 0),
    {
        k < self.rios.len() && self.res[self.rios[k].user_ctx] >= 0
    }

    /// A batch for the requests whose result slots are `res`, with no
    /// operation yet. `InvalidArg` where the storage client has no chain
    /// table, or an empty one.
    pub fn new(storage_client: StorageClient, chunk_size_lim: usize, res: Vec<i64>) -> (r: Result<PioV, Error>)
        ensures
            r.is_ok() <==> storage_client.routing.is_some() && storage_client.routing->Some_0.chains@.len()
                > 0,
            r matches Ok(p) ==> {
                &&& p.wf()
                &&& p.storage_client == storage_client
                &&& p.chunk_size_lim == chunk_size_lim
                &&& p.res@ == res@
                &&& p.rios@.len() == 0
                &&& p.wios@.len() == 0
                &&& p.trops@.len() == 0
                &&& p.potential_lens@ == Map::<u64, u64>::empty()
                &&& p.routing_info.chains@ == storage_client.routing->Some_0.chains@
            },
            r matches Err(e) ==> e.code == StatusCode::InvalidArg.spec_code(),
    {
        let routing_info = match storage_client.get_mgmtd_client().get_routing_info() {
            Some(info) => info,
            None => {
                return Err(Error::status(StatusCode::InvalidArg));
            },
        };
        if routing_info.chains.len() == 0 {
            return Err(Error::status(StatusCode::InvalidArg));
        }
        Ok(
            PioV {
                storage_client,
                chunk_size_lim,
                res,
                rios: Vec::new(),
                wios: Vec::new(),
                trops: Vec::new(),
                potential_lens: HashMap::new(),
                routing_info,
            },
        )
    }

    /// Whether a request for `len` bytes from byte `off` of `inode` on can
    /// be cut into operations for slot `idx`.
    pub open spec fn accepts(&self, idx: int, inode: Inode, off: int, len: int) -> bool {
        &&& idx < self.res@.len()
        &&& inode.file matches Some(f) ==> f.layout.valid() && off + len <= u64::MAX
    }

    /// The read of the piece `op` of a file, for the request with result slot
    /// `idx` whose range begins at byte `off`.
    fn read_of(&self, f: &File, inode_id: InodeId, track: u16, idx: usize, off: u64, op: ChunkRange) -> (io:
        ReadIO)
        requires
            self.wf(),
            f.layout.valid(),
            off <= op.file_off,
            op.file_off - off <= usize::MAX,
        ensures
            is_read_of(io, *f, inode_id, self.routing_info.chains@, track as int, idx as int, off as int, op),
    {
        let chain = f.chain_of(op.file_off, &self.routing_info, track);
        let chunk = f.chunk_of(inode_id, op.file_off);
        let chunk_off = (op.file_off % (f.layout.chunk_size as u64)) as usize;
        let buf_off = (op.file_off - off) as usize;
        self.storage_client.create_read_io(chain, chunk, chunk_off, op.len, buf_off, idx)
    }

    /// Adds the reads of `len` bytes from byte `off` of `inode` on, for the
    /// request with result slot `idx`.
    ///
    /// A batch that holds writes takes no read, and `InvalidArg` is returned
    /// with nothing changed; so it is where `idx` names no slot, the layout
    /// is invalid or the range ends past the last byte a file can have. An
    /// inode that is no file gets the negated `NotFile` code in its slot and
    /// no operation.
    pub fn add_read(&mut self, idx: usize, inode: &Inode, track: u16, off: u64, len: usize) -> (r: Result<
        Void,
        Error,
    >)
        requires
            old(self).wf(),
        ensures
            final(self).wf(),
            final(self).same_setup(old(self)),
            final(self).wios@ == old(self).wios@,
            final(self).potential_lens@ == old(self).potential_lens@,
            r.is_ok() <==> old(self).wios@.len() == 0 && old(self).accepts(
                idx as int,
                *inode,
                off as int,
                len as int,
            ),
            r matches Err(e) ==> {
                &&& e.code == StatusCode::InvalidArg.spec_code()
                &&& final(self).res@ == old(self).res@
                &&& final(self).rios@ == old(self).rios@
            },
            r.is_ok() && !inode.is_file() ==> {
                &&& final(self).res@ == old(self).res@.update(idx as int, (-MetaCode::NotFile.spec_code()) as i64)
                &&& final(self).rios@ == old(self).rios@
            },
            r.is_ok() && inode.is_file() ==> {
                let added = final(self).rios@.skip(old(self).rios@.len() as int);
                let ranges = ranges_of_reads(added, off as int);
                &&& final(self).res@ == old(self).res@
                &&& final(self).rios@.take(old(self).rios@.len() as int) == old(self).rios@
                &&& is_plan(
                    ranges,
                    inode.file->Some_0.layout.chunk_size as int,
                    old(self).chunk_size_lim as int,
                    off as int,
                    len as int,
                )
                &&& forall|i: int|
                    0 <= i < added.len() ==> is_read_of(
                        #[trigger] added[i],
                        inode.file->Some_0,
                        inode.id,
                        old(self).routing_info.chains@,
                        track as int,
                        idx as int,
                        off as int,
                        ranges[i],
                    )
            },
    {
        if self.wios.len() != 0 || idx >= self.res.len() {
            return Err(Error::status(StatusCode::InvalidArg));
        }
        if !inode.is_file() {
            self.res.set(idx, -(MetaCode::NotFile.code() as i64));
            return Ok(Void);
        }
        let f = inode.as_file();
        if !f.layout.valid() || len as u64 > u64::MAX - off {
            return Err(Error::status(StatusCode::InvalidArg));
        }
        let ops = plan(&f.layout, off, len, self.chunk_size_lim);
        let ghost base = self.rios@;
        let n = ops.len();
        let mut i: usize = 0;
        proof {
            crate::layout::lemma_plan_covers(
                ops@,
                f.layout.chunk_size as int,
                self.chunk_size_lim as int,
                off as int,
                len as int,
            );
        }
        while i < n
            invariant
                n == ops@.len(),
                0 <= i <= n,
                self.wf(),
                self.same_setup(old(self)),
                self.wios@ == old(self).wios@,
                self.potential_lens@ == old(self).potential_lens@,
                self.res@ == old(self).res@,
                idx < self.res@.len(),
                base == old(self).rios@,
                Some(f) == inode.file,
                f.layout.valid(),
                off + len <= u64::MAX,
                self.rios@.len() == base.len() + i,
                self.rios@.take(base.len() as int) == base,
                forall|j: int|
                    0 <= j < n ==> off <= (#[trigger] ops@[j]).file_off && ops@[j].end() <= off + len,
                forall|j: int|
                    0 <= j < i ==> is_read_of(
                        #[trigger] self.rios@[base.len() + j],
                        f,
                        inode.id,
                        self.routing_info.chains@,
                        track as int,
                        idx as int,
                        off as int,
                        ops@[j],
                    ),
            decreases n - i,
        {
            let op = ops[i];
            assert(off <= ops@[i as int].file_off && ops@[i as int].end() <= off + len);
            let io = self.read_of(&f, inode.id, track, idx, off, op);
            let ghost before = self.rios@;
            self.rios.push(io);
            proof {
                assert(self.rios@.take(base.len() as int) =~= before.take(base.len() as int));
                assert forall|j: int| 0 <= j < i + 1 implies is_read_of(
                    #[trigger] self.rios@[base.len() + j],
                    f,
                    inode.id,
                    self.routing_info.chains@,
                    track as int,
                    idx as int,
                    off as int,
                    ops@[j],
                ) by {
                    if j < i {
                        assert(self.rios@[base.len() + j] == before[base.len() + j]);
                    }
                }
                assert forall|j: int| 0 <= j < self.rios@.len() implies (#[trigger] self.rios@[j]).user_ctx
                    < self.res@.len() by {
                    if j < before.len() {
                        assert(self.rios@[j] == before[j]);
                    }
                }
            }
            i = i + 1;
        }
        proof {
            let added = self.rios@.skip(base.len() as int);
            let ranges = ranges_of_reads(added, off as int);
            assert(ranges.len() == ops@.len());
            assert forall|j: int| 0 <= j < ranges.len() implies ranges[j] == ops@[j] by {
                assert(added[j] == self.rios@[base.len() + j]);
            }
            assert(ranges =~= ops@);
            assert forall|j: int| 0 <= j < added.len() implies is_read_of(
                #[trigger] added[j],
                f,
                inode.id,
                self.routing_info.chains@,
                track as int,
                idx as int,
                off as int,
                ranges[j],
            ) by {
                assert(added[j] == self.rios@[base.len() + j]);
            }
        }
        Ok(Void)
    }
}


/// The larger of two lengths.
pub open spec fn longer(a: int, b: int) -> int {
    if a >= b {
        a
    } else {
        b
    }
}

/// The operations among the first `k` of `wios` whose request is not in `bad`,
/// in their order.
pub open spec fn without_failed(wios: Seq<WriteIO>, bad: Set<int>, k: int) -> Seq<WriteIO>
    decreases k,
{
    if k <= 0 {
        Seq::empty()
    } else if bad.contains(wios[k - 1].user_ctx as int) {
        without_failed(wios, bad, k - 1)
    } else {
        without_failed(wios, bad, k - 1).push(wios[k - 1])
    }
}

/// Whether the truncation failed for a request that has a result slot.
pub open spec fn truncate_failed(op: TruncateChunkOp, slots: int) -> bool {
    op.result.length_info is Err && op.user_ctx < slots
}

/// The requests of the first `k` of `failed` whose truncation failed.
pub open spec fn failed_requests(failed: Seq<TruncateChunkOp>, slots: int, k: int) -> Set<int> {
    Set::new(|c: int| exists|i: int| 0 <= i < k && truncate_failed(#[trigger] failed[i], slots) && failed[i].user_ctx == c)
}

/// The results after the first `k` of `failed` were recorded: the slot of
/// every request whose truncation failed holds the negated code of the
/// failure, the last one where there are several.
pub open spec fn failures_recorded(res: Seq<i64>, failed: Seq<TruncateChunkOp>, k: int) -> Seq<i64>
    decreases k,
{
    if k <= 0 {
        res
    } else if truncate_failed(failed[k - 1], res.len() as int) {
        failures_recorded(res, failed, k - 1).update(
            failed[k - 1].user_ctx as int,
            (-failed[k - 1].result.length_info->Err_0.code) as i64,
        )
    } else {
        failures_recorded(res, failed, k - 1)
    }
}

proof fn lemma_failures_len(res: Seq<i64>, failed: Seq<TruncateChunkOp>, k: int)
    requires
        0 <= k <= failed.len(),
    ensures
        failures_recorded(res, failed, k).len() == res.len(),
    decreases k,
{
    if k > 0 {
        lemma_failures_len(res, failed, k - 1);
    }
}

impl PioV {
    /// The write of the piece `op` of a file, for the request with result
    /// slot `idx` whose range begins at byte `off` and whose bytes are `buf`.
    fn write_of(
        &self,
        f: &File,
        inode_id: InodeId,
        track: u16,
        idx: usize,
        off: u64,
        buf: &[u8],
        op: ChunkRange,
    ) -> (io: WriteIO)
        requires
            self.wf(),
            f.layout.valid(),
            off <= op.file_off,
            op.file_off - off + op.len <= buf@.len(),
        ensures
            is_write_of(
                io,
                *f,
                inode_id,
                self.routing_info.chains@,
                track as int,
                idx as int,
                off as int,
                buf@,
                op,
            ),
    {
        let chain = f.chain_of(op.file_off, &self.routing_info, track);
        let chunk = f.chunk_of(inode_id, op.file_off);
        let chunk_off = (op.file_off % (f.layout.chunk_size as u64)) as usize;
        let total = buf.len();
        assert(op.file_off - off <= total);
        let buf_off = (op.file_off - off) as usize;
        let data = copied_range(buf, buf_off, op.len);
        self.storage_client.create_write_io(chain, chunk, chunk_off, op.len, f.layout.chunk_size, buf_off, data, idx)
    }

    /// Adds the writes of the first `len` bytes of `buf` to `inode` from byte
    /// `off` on, for the request with result slot `idx`, and raises the
    /// length that the file may have reached to the end of the range.
    ///
    /// A batch that holds reads takes no write, and `InvalidArg` is returned
    /// with nothing changed; so it is where `idx` names no slot, the layout
    /// is invalid, the range ends past the last byte a file can have, or
    /// `buf` is shorter than `len`. An inode that is no file gets the negated
    /// `NotFile` code in its slot and no operation.
    pub fn add_write(
        &mut self,
        idx: usize,
        inode: &Inode,
        track: u16,
        off: u64,
        len: usize,
        buf: &[u8],
    ) -> (r: Result<Void, Error>)
        requires
            old(self).wf(),
        ensures
            final(self).wf(),
            final(self).same_setup(old(self)),
            final(self).rios@ == old(self).rios@,
            r.is_ok() <==> old(self).rios@.len() == 0 && old(self).accepts(
                idx as int,
                *inode,
                off as int,
                len as int,
            ) && (inode.is_file() ==> len <= buf@.len()),
            r matches Err(e) ==> {
                &&& e.code == StatusCode::InvalidArg.spec_code()
                &&& final(self).res@ == old(self).res@
                &&& final(self).wios@ == old(self).wios@
                &&& final(self).potential_lens@ == old(self).potential_lens@
            },
            r.is_ok() && !inode.is_file() ==> {
                &&& final(self).res@ == old(self).res@.update(idx as int, (-MetaCode::NotFile.spec_code()) as i64)
                &&& final(self).wios@ == old(self).wios@
                &&& final(self).potential_lens@ == old(self).potential_lens@
            },
            r.is_ok() && inode.is_file() ==> {
                let added = final(self).wios@.skip(old(self).wios@.len() as int);
                let ranges = ranges_of_writes(added, off as int);
                &&& final(self).res@ == old(self).res@
                &&& final(self).wios@.take(old(self).wios@.len() as int) == old(self).wios@
                &&& is_plan(
                    ranges,
                    inode.file->Some_0.layout.chunk_size as int,
                    old(self).chunk_size_lim as int,
                    off as int,
                    len as int,
                )
                &&& forall|i: int|
                    0 <= i < added.len() ==> is_write_of(
                        #[trigger] added[i],
                        inode.file->Some_0,
                        inode.id,
                        old(self).routing_info.chains@,
                        track as int,
                        idx as int,
                        off as int,
                        buf@,
                        ranges[i],
                    )
                &&& final(self).potential_lens@ == if len == 0 {
                    old(self).potential_lens@
                } else {
                    old(self).potential_lens@.insert(
                        inode.id.0,
                        longer(
                            if old(self).potential_lens@.contains_key(inode.id.0) {
                                old(self).potential_lens@[inode.id.0] as int
                            } else {
                                0
                            },
                            off + len,
                        ) as u64,
                    )
                }
            },
    {
        broadcast use group_hash_axioms;

        if self.rios.len() != 0 || idx >= self.res.len() {
            return Err(Error::status(StatusCode::InvalidArg));
        }
        if !inode.is_file() {
            self.res.set(idx, -(MetaCode::NotFile.code() as i64));
            return Ok(Void);
        }
        let f = inode.as_file();
        if !f.layout.valid() || len as u64 > u64::MAX - off || len > buf.len() {
            return Err(Error::status(StatusCode::InvalidArg));
        }
        let ops = plan(&f.layout, off, len, self.chunk_size_lim);
        let ghost base = self.wios@;
        let n = ops.len();
        let mut i: usize = 0;
        proof {
            crate::layout::lemma_plan_covers(
                ops@,
                f.layout.chunk_size as int,
                self.chunk_size_lim as int,
                off as int,
                len as int,
            );
        }
        while i < n
            invariant
                n == ops@.len(),
                0 <= i <= n,
                self.wf(),
                self.same_setup(old(self)),
                self.rios@ == old(self).rios@,
                self.potential_lens@ == old(self).potential_lens@,
                self.res@ == old(self).res@,
                idx < self.res@.len(),
                base == old(self).wios@,
                Some(f) == inode.file,
                f.layout.valid(),
                off + len <= u64::MAX,
                len <= buf@.len(),
                self.wios@.len() == base.len() + i,
                self.wios@.take(base.len() as int) == base,
                forall|j: int|
                    0 <= j < n ==> off <= (#[trigger] ops@[j]).file_off && ops@[j].end() <= off + len,
                forall|j: int|
                    0 <= j < i ==> is_write_of(
                        #[trigger] self.wios@[base.len() + j],
                        f,
                        inode.id,
                        self.routing_info.chains@,
                        track as int,
                        idx as int,
                        off as int,
                        buf@,
                        ops@[j],
                    ),
            decreases n - i,
        {
            let op = ops[i];
            assert(off <= ops@[i as int].file_off && ops@[i as int].end() <= off + len);
            let io = self.write_of(&f, inode.id, track, idx, off, buf, op);
            let ghost before = self.wios@;
            self.wios.push(io);
            proof {
                assert(self.wios@.take(base.len() as int) =~= before.take(base.len() as int));
                assert forall|j: int| 0 <= j < i + 1 implies is_write_of(
                    #[trigger] self.wios@[base.len() + j],
                    f,
                    inode.id,
                    self.routing_info.chains@,
                    track as int,
                    idx as int,
                    off as int,
                    buf@,
                    ops@[j],
                ) by {
                    if j < i {
                        assert(self.wios@[base.len() + j] == before[base.len() + j]);
                    }
                }
                assert forall|j: int| 0 <= j < self.wios@.len() implies (#[trigger] self.wios@[j]).user_ctx
                    < self.res@.len() by {
                    if j < before.len() {
                        assert(self.wios@[j] == before[j]);
                    }
                }
            }
            i = i + 1;
        }
        if len > 0 {
            let reach: u64 = off + len as u64;
            let known: u64 = match self.potential_lens.get(&inode.id.0) {
                Some(v) => *v,
                None => 0,
            };
            let hint: u64 = if known >= reach {
                known
            } else {
                reach
            };
            self.potential_lens.insert(inode.id.0, hint);
        }
        proof {
            let added = self.wios@.skip(base.len() as int);
            let ranges = ranges_of_writes(added, off as int);
            assert(ranges.len() == ops@.len());
            assert forall|j: int| 0 <= j < ranges.len() implies ranges[j] == ops@[j] by {
                assert(added[j] == self.wios@[base.len() + j]);
            }
            assert(ranges =~= ops@);
            assert forall|j: int| 0 <= j < added.len() implies is_write_of(
                #[trigger] added[j],
                f,
                inode.id,
                self.routing_info.chains@,
                track as int,
                idx as int,
                off as int,
                buf@,
                ranges[j],
            ) by {
                assert(added[j] == self.wios@[base.len() + j]);
            }
        }
        Ok(Void)
    }

    /// Whether a write at byte `off` of the inode lies past the length that
    /// the batch knows the file may have reached, so that the length has to
    /// be confirmed with the metadata service before the write is trusted.
    pub fn must_confirm_length(&self, inode_id: InodeId, off: u64) -> (b: bool)
        ensures
            b == (self.potential_lens@.contains_key(inode_id.0) && self.potential_lens@[inode_id.0] < off),
    {
        broadcast use group_hash_axioms;

        match self.potential_lens.get(&inode_id.0) {
            Some(v) => *v < off,
            None => false,
        }
    }

    /// Whether a write at byte `off` may go ahead, given the length
    /// `latest_len` that the metadata service reports: it may where nothing
    /// has to be confirmed, or the file reaches `off`.
    pub fn check_write_off(&self, inode: &Inode, off: u64, latest_len: u64) -> (ok: bool)
        ensures
            ok == (!(self.potential_lens@.contains_key(inode.id.0) && self.potential_lens@[inode.id.0] < off)
                || latest_len >= off),
    {
        if self.must_confirm_length(inode.id, off) {
            latest_len >= off
        } else {
            true
        }
    }

    /// Records the truncations in `failed` that failed: the slot of each of
    /// their requests gets the negated code, and the writes of those requests
    /// leave the batch. The other writes stay, in their order.
    pub fn fail_truncated(&mut self, failed: &Vec<TruncateChunkOp>)
        requires
            old(self).wf(),
        ensures
            final(self).wf(),
            final(self).same_setup(old(self)),
            final(self).rios@ == old(self).rios@,
            final(self).potential_lens@ == old(self).potential_lens@,
            final(self).res@ == failures_recorded(old(self).res@, failed@, failed@.len() as int),
            final(self).wios@ == without_failed(
                old(self).wios@,
                failed_requests(failed@, old(self).res@.len() as int, failed@.len() as int),
                old(self).wios@.len() as int,
            ),
    {
        let slots = self.res.len();
        let mut marks: Vec<bool> = Vec::new();
        let mut m: usize = 0;
        while m < slots
            invariant
                0 <= m <= slots,
                marks@ == Seq::new(m as nat, |i: int| false),
            decreases slots - m,
        {
            marks.push(false);
            m = m + 1;
            assert(marks@ =~= Seq::new(m as nat, |i: int| false));
        }
        let ghost res0 = self.res@;
        let n = failed.len();
        let mut k: usize = 0;
        while k < n
            invariant
                n == failed@.len(),
                slots == res0.len(),
                res0 == old(self).res@,
                0 <= k <= n,
                self.same_setup(old(self)),
                self.rios@ == old(self).rios@,
                self.wios@ == old(self).wios@,
                self.potential_lens@ == old(self).potential_lens@,
                self.res@ == failures_recorded(res0, failed@, k as int),
                self.res@.len() == slots,
                marks@.len() == slots,
                forall|c: int|
                    0 <= c < slots ==> (#[trigger] marks@[c] <==> failed_requests(failed@, slots as int, k as int).contains(
                        c,
                    )),
            decreases n - k,
        {
            let op = failed[k];
            let ghost before = failed_requests(failed@, slots as int, k as int);
            match op.result.length_info {
                Err(e) => {
                    if op.user_ctx < slots {
                        self.res.set(op.user_ctx, -(e.code as i64));
                        marks.set(op.user_ctx, true);
                    }
                },
                Ok(_) => {},
            }
            k = k + 1;
            proof {
                let after = failed_requests(failed@, slots as int, k as int);
                assert forall|c: int| 0 <= c < slots implies (#[trigger] marks@[c] <==> after.contains(c)) by {
                    if after.contains(c) {
                        let i = choose|i: int|
                            0 <= i < k && truncate_failed(#[trigger] failed@[i], slots as int)
                                && failed@[i].user_ctx == c;
                        if i < k - 1 {
                            assert(before.contains(c));
                        }
                    }
                    if before.contains(c) {
                        let i = choose|i: int|
                            0 <= i < k - 1 && truncate_failed(#[trigger] failed@[i], slots as int)
                                && failed@[i].user_ctx == c;
                        assert(truncate_failed(failed@[i], slots as int));
                    }
                    if truncate_failed(failed@[k - 1], slots as int) && failed@[k - 1].user_ctx == c {
                        assert(after.contains(c));
                    }
                }
            }
        }
        let ghost bad = failed_requests(failed@, slots as int, n as int);
        let ghost wios0 = self.wios@;
        let mut kept: Vec<WriteIO> = Vec::new();
        let total = self.wios.len();
        let mut w: usize = total;
        let mut rest: Vec<WriteIO> = Vec::new();
        while w > 0
            invariant
                0 <= w <= total,
                total == wios0.len(),
                self.wios@ == wios0.take(w as int),
                rest@.len() == total - w,
                forall|i: int| 0 <= i < rest@.len() ==> #[trigger] rest@[i] == wios0[total - 1 - i],
                self.same_setup(old(self)),
                self.rios@ == old(self).rios@,
                self.potential_lens@ == old(self).potential_lens@,
                self.res@ == failures_recorded(res0, failed@, n as int),
            decreases w,
        {
            let io = self.wios.pop().unwrap();
            rest.push(io);
            w = w - 1;
            assert(self.wios@ =~= wios0.take(w as int));
        }
        let mut j: usize = 0;
        while j < total
            invariant
                0 <= j <= total,
                total == wios0.len(),
                wios0 == old(self).wios@,
                old(self).wf(),
                slots == old(self).res@.len(),
                marks@.len() == slots,
                bad == failed_requests(failed@, slots as int, n as int),
                forall|c: int| 0 <= c < slots ==> (#[trigger] marks@[c] <==> bad.contains(c)),
                rest@.len() == total - j,
                forall|i: int| 0 <= i < rest@.len() ==> #[trigger] rest@[i] == wios0[total - 1 - i],
                kept@ == without_failed(wios0, bad, j as int),
                forall|i: int| 0 <= i < kept@.len() ==> (#[trigger] kept@[i]).user_ctx < slots,
            decreases total - j,
        {
            let io = rest.pop().unwrap();
            assert(io == wios0[j as int]);
            assert(wios0[j as int].user_ctx < slots);
            if !marks[io.user_ctx] {
                kept.push(io);
            }
            j = j + 1;
        }
        self.wios = kept;
        proof {
            lemma_failures_len(res0, failed@, n as int);
        }
    }
}


/// Whether `out` is the read `io` with the outcome `result` and the bytes `data`.
pub open spec fn read_answered(io: ReadIO, result: IOResult, data: Seq<u8>, out: ReadIO) -> bool {
    &&& out.chain == io.chain
    &&& out.chunk == io.chunk
    &&& out.offset == io.offset
    &&& out.length == io.length
    &&& out.buf_off == io.buf_off
    &&& out.user_ctx == io.user_ctx
    &&& out.result == result
    &&& out.data@ == data
}

/// Whether `out` is the write `io` with the outcome `result`.
pub open spec fn write_answered(io: WriteIO, result: IOResult, out: WriteIO) -> bool {
    &&& out.chain == io.chain
    &&& out.chunk == io.chunk
    &&& out.offset == io.offset
    &&& out.length == io.length
    &&& out.chunk_size == io.chunk_size
    &&& out.buf_off == io.buf_off
    &&& out.user_ctx == io.user_ctx
    &&& out.result == result
    &&& out.data@ == io.data@
}

impl PioV {
    /// Records what the storage backend answered to the batch of reads: for
    /// each operation, in order, its outcome and the bytes it brought.
    /// `InvalidArg`, with nothing changed, where the answers are not as many
    /// as the reads.
    pub fn execute_read(&mut self, answers: &Vec<(IOResult, Vec<u8>)>) -> (r: Result<Void, Error>)
        requires
            old(self).wf(),
            old(self).wios@.len() == 0,
            old(self).trops@.len() == 0,
        ensures
            final(self).wf(),
            final(self).same_setup(old(self)),
            final(self).wios@ == old(self).wios@,
            final(self).res@ == old(self).res@,
            final(self).potential_lens@ == old(self).potential_lens@,
            final(self).rios@.len() == old(self).rios@.len(),
            r.is_ok() <==> answers@.len() == old(self).rios@.len(),
            r.is_ok() ==> forall|k: int|
                0 <= k < old(self).rios@.len() ==> read_answered(
                    old(self).rios@[k],
                    answers@[k].0,
                    answers@[k].1@,
                    #[trigger] final(self).rios@[k],
                ),
            r matches Err(e) ==> e.code == StatusCode::InvalidArg.spec_code() && final(self).rios@ == old(
                self,
            ).rios@,
    {
        let n = self.rios.len();
        if answers.len() != n {
            return Err(Error::status(StatusCode::InvalidArg));
        }
        let mut k: usize = 0;
        while k < n
            invariant
                n == old(self).rios@.len(),
                n == answers@.len(),
                0 <= k <= n,
                self.wf(),
                self.same_setup(old(self)),
                self.wios@ == old(self).wios@,
                self.res@ == old(self).res@,
                self.potential_lens@ == old(self).potential_lens@,
                self.rios@.len() == n,
                forall|i: int| k <= i < n ==> #[trigger] self.rios@[i] == old(self).rios@[i],
                forall|i: int|
                    0 <= i < k ==> read_answered(
                        old(self).rios@[i],
                        answers@[i].0,
                        answers@[i].1@,
                        #[trigger] self.rios@[i],
                    ),
            decreases n - k,
        {
            let io = &self.rios[k];
            let answered = ReadIO {
                chain: io.chain,
                chunk: io.chunk,
                offset: io.offset,
                length: io.length,
                buf_off: io.buf_off,
                user_ctx: io.user_ctx,
                result: answers[k].0,
                data: copied(&answers[k].1),
            };
            self.rios.set(k, answered);
            k = k + 1;
        }
        Ok(Void)
    }

    /// Records what the storage backend answered to the batch of writes: for
    /// each operation, in order, its outcome. `InvalidArg`, with nothing
    /// changed, where the answers are not as many as the writes.
    pub fn execute_write(&mut self, answers: &Vec<IOResult>) -> (r: Result<Void, Error>)
        requires
            old(self).wf(),
            old(self).rios@.len() == 0,
        ensures
            final(self).wf(),
            final(self).same_setup(old(self)),
            final(self).rios@ == old(self).rios@,
            final(self).res@ == old(self).res@,
            final(self).potential_lens@ == old(self).potential_lens@,
            final(self).wios@.len() == old(self).wios@.len(),
            r.is_ok() <==> answers@.len() == old(self).wios@.len(),
            r.is_ok() ==> forall|k: int|
                0 <= k < old(self).wios@.len() ==> write_answered(
                    old(self).wios@[k],
                    answers@[k],
                    #[trigger] final(self).wios@[k],
                ),
            r matches Err(e) ==> e.code == StatusCode::InvalidArg.spec_code() && final(self).wios@ == old(
                self,
            ).wios@,
    {
        let n = self.wios.len();
        if answers.len() != n {
            return Err(Error::status(StatusCode::InvalidArg));
        }
        let mut k: usize = 0;
        while k < n
            invariant
                n == old(self).wios@.len(),
                n == answers@.len(),
                0 <= k <= n,
                self.wf(),
                self.same_setup(old(self)),
                self.rios@ == old(self).rios@,
                self.res@ == old(self).res@,
                self.potential_lens@ == old(self).potential_lens@,
                self.wios@.len() == n,
                forall|i: int| k <= i < n ==> #[trigger] self.wios@[i] == old(self).wios@[i],
                forall|i: int|
                    0 <= i < k ==> write_answered(old(self).wios@[i], answers@[i], #[trigger] self.wios@[i]),
            decreases n - k,
        {
            let io = &self.wios[k];
            let answered = WriteIO {
                chain: io.chain,
                chunk: io.chunk,
                offset: io.offset,
                length: io.length,
                chunk_size: io.chunk_size,
                buf_off: io.buf_off,
                user_ctx: io.user_ctx,
                result: answers[k],
                data: copied(&io.data),
            };
            self.wios.set(k, answered);
            k = k + 1;
        }
        Ok(Void)
    }

    /// Folds the outcomes of the batch into the result slots: those of the
    /// writes where the batch holds writes, else those of the reads, with
    /// holes allowed as `allow_holes` says. The bytes of every read that lie
    /// in a gap that later bytes closed are set to zero.
    ///
    /// Returns `false`, with nothing changed, where a running result could
    /// leave the range of a slot or a failure carries a code that is not
    /// positive.
    pub fn finish_io(&mut self, allow_holes: bool) -> (ok: bool)
        requires
            old(self).wf(),
        ensures
            final(self).wf(),
            final(self).same_setup(old(self)),
            final(self).wios@ == old(self).wios@,
            final(self).potential_lens@ == old(self).potential_lens@,
            final(self).rios@.len() == old(self).rios@.len(),
            old(self).wios@.len() > 0 ==> {
                &&& ok == reduce_fits(io_views(old(self).wios@), old(self).res@)
                &&& final(self).rios@ == old(self).rios@
                &&& ok ==> final(self).res@ == reduced(io_views(old(self).wios@), old(self).res@, false, false).res
            },
            old(self).wios@.len() == 0 ==> {
                &&& ok == reduce_fits(io_views(old(self).rios@), old(self).res@)
                &&& !ok ==> final(self).rios@ == old(self).rios@
                &&& ok ==> final(self).res@ == reduced(
                    io_views(old(self).rios@),
                    old(self).res@,
                    true,
                    allow_holes,
                ).res
                &&& ok ==> forall|k: int|
                    0 <= k < old(self).rios@.len() ==> read_answered(
                        old(self).rios@[k],
                        old(self).rios@[k].result,
                        zeroed_from(
                            old(self).rios@[k].data@,
                            reduced(io_views(old(self).rios@), old(self).res@, true, allow_holes).fill[k] as int,
                        ),
                        #[trigger] final(self).rios@[k],
                    )
            },
            !ok ==> final(self).res@ == old(self).res@,
    {
        if self.wios.len() != 0 {
            if !fits(&self.res, &self.wios) {
                return false;
            }
            let _ = concat_io_res(false, &mut self.res, &self.wios, false);
            proof {
                crate::reduce::lemma_reduce_bounded(
                    io_views(old(self).wios@),
                    old(self).res@,
                    false,
                    false,
                    old(self).wios@.len() as int,
                );
            }
            return true;
        }
        if !fits(&self.res, &self.rios) {
            return false;
        }
        let fill = concat_io_res(true, &mut self.res, &self.rios, allow_holes);
        proof {
            crate::reduce::lemma_reduce_bounded(
                io_views(old(self).rios@),
                old(self).res@,
                true,
                allow_holes,
                old(self).rios@.len() as int,
            );
        }
        let n = self.rios.len();
        let mut k: usize = 0;
        while k < n
            invariant
                n == old(self).rios@.len(),
                fill@.len() == n,
                0 <= k <= n,
                self.wf(),
                self.same_setup(old(self)),
                self.wios@ == old(self).wios@,
                self.potential_lens@ == old(self).potential_lens@,
                self.res@ == reduced(io_views(old(self).rios@), old(self).res@, true, allow_holes).res,
                self.rios@.len() == n,
                forall|i: int| k <= i < n ==> #[trigger] self.rios@[i] == old(self).rios@[i],
                forall|i: int|
                    0 <= i < k ==> read_answered(
                        old(self).rios@[i],
                        old(self).rios@[i].result,
                        zeroed_from(old(self).rios@[i].data@, fill@[i] as int),
                        #[trigger] self.rios@[i],
                    ),
            decreases n - k,
        {
            let io = &self.rios[k];
            let filled = ReadIO {
                chain: io.chain,
                chunk: io.chunk,
                offset: io.offset,
                length: io.length,
                buf_off: io.buf_off,
                user_ctx: io.user_ctx,
                result: io.result,
                data: zero_tail(&io.data, fill[k]),
            };
            self.rios.set(k, filled);
            k = k + 1;
        }
        true
    }
}

} // verus!
