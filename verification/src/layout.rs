//! Files, their layout in chunks, and the cutting of a byte range into
//! per-chunk operations.

use vstd::prelude::*;
use crate::status::Error;
use crate::status::StatusCode;

verus! {

/// Identifier of an inode.
#[derive(Clone, Copy, Debug, PartialEq, Eq, Hash, Structural)]
pub struct InodeId(pub u64);

/// A replica set that serves chunks.
#[derive(Clone, Copy, Debug, PartialEq, Eq, Structural)]
pub struct ChainId(pub u32);

/// A chunk of a file: the inode it belongs to and its index in the file.
#[derive(Clone, Copy, Debug, PartialEq, Eq, Structural)]
pub struct ChunkId {
    pub inode: u64,
    pub index: u64,
}

/// How a file is cut: bytes per chunk, and the number of chains its chunks
/// are spread over.
#[derive(Clone, Copy, Debug, PartialEq, Eq, Structural)]
pub struct FileLayout {
    pub chunk_size: usize,
    pub stripe_size: u32,
}

/// The file part of an inode.
#[derive(Clone, Copy, Debug, PartialEq, Eq, Structural)]
pub struct File {
    pub layout: FileLayout,
}

/// An inode: its identifier and, where it is a regular file, the file.
#[derive(Clone, Copy, Debug, PartialEq, Eq, Structural)]
pub struct Inode {
    pub id: InodeId,
    pub file: Option<File>,
}

/// The chain table that the management service hands out. A file's chunk is
/// served by the entry that its stripe and track select.
#[derive(Clone, Debug, PartialEq, Eq)]
pub struct RoutingInfo {
    pub chains: Vec<ChainId>,
}

impl Inode {
    pub open spec fn spec_is_file(&self) -> bool {
        self.file.is_some()
    }

    #[verifier::when_used_as_spec(spec_is_file)]
    pub fn is_file(&self) -> (b: bool)
        ensures
            b == self.spec_is_file(),
    {
        self.file.is_some()
    }

    /// The file of a regular-file inode.
    pub fn as_file(&self) -> (f: File)
        requires
            self.is_file(),
        ensures
            Some(f) == self.file,
    {
        self.file.unwrap()
    }
}

impl FileLayout {
    /// Whether the layout can cut a file at all: its chunks hold bytes.
    pub open spec fn spec_valid(&self) -> bool {
        self.chunk_size > 0
    }

    #[verifier::when_used_as_spec(spec_valid)]
    pub fn valid(&self) -> (b: bool)
        ensures
            b == self.spec_valid(),
    {
        self.chunk_size > 0
    }
}

/// The stripe of the chunk at byte `off`: the chunks of a file go round its
/// stripes; a file without stripes has them all in one.
pub open spec fn stripe_at(layout: FileLayout, off: int) -> int {
    if layout.stripe_size > 0 {
        (off / (layout.chunk_size as int)) % (layout.stripe_size as int)
    } else {
        0
    }
}

/// Entry of a chain table of `table_len` chains that serves the chunk at
/// byte `off` of a file, on track `track`.
pub open spec fn chain_slot(layout: FileLayout, off: int, track: int, table_len: int) -> int {
    (stripe_at(layout, off) + track) % table_len
}

/// The chunk that holds byte `off` of the file of inode `inode_id`.
pub open spec fn chunk_at(layout: FileLayout, inode_id: InodeId, off: int) -> ChunkId {
    ChunkId { inode: inode_id.0, index: (off / (layout.chunk_size as int)) as u64 }
}

impl File {
    /// The chain that serves the chunk at byte `off`, of a valid layout and a
    /// chain table that is not empty.
    pub fn chain_of(&self, off: u64, routing: &RoutingInfo, track: u16) -> (c: ChainId)
        requires
            self.layout.valid(),
            routing.chains@.len() > 0,
        ensures
            c == routing.chains@[chain_slot(
                self.layout,
                off as int,
                track as int,
                routing.chains@.len() as int,
            )],
    {
        let stripe: u64 = if self.layout.stripe_size > 0 {
            (off / (self.layout.chunk_size as u64)) % (self.layout.stripe_size as u64)
        } else {
            0
        };
        let n: u64 = routing.chains.len() as u64;
        let slot: u64 = (stripe + track as u64) % n;
        routing.chains[slot as usize]
    }

    /// The chunk that holds byte `off` of the file of inode `inode_id`, in a
    /// valid layout.
    pub fn chunk_of(&self, inode_id: InodeId, off: u64) -> (c: ChunkId)
        requires
            self.layout.valid(),
        ensures
            c == chunk_at(self.layout, inode_id, off as int),
    {
        ChunkId { inode: inode_id.0, index: off / (self.layout.chunk_size as u64) }
    }

    /// The chain that serves the chunk at byte `off`: the entry of the chain
    /// table selected by the chunk's stripe and the track. `InvalidArg` where
    /// the layout is invalid or the table is empty.
    pub fn get_chain_id(&self, inode: &Inode, off: u64, routing: &RoutingInfo, track: u16) -> (r: Result<
        ChainId,
        Error,
    >)
        ensures
            r.is_ok() <==> self.layout.valid() && routing.chains@.len() > 0,
            r matches Ok(c) ==> c == routing.chains@[chain_slot(
                self.layout,
                off as int,
                track as int,
                routing.chains@.len() as int,
            )],
            r matches Err(e) ==> e.code == StatusCode::InvalidArg.spec_code(),
    {
        if !self.layout.valid() || routing.chains.len() == 0 {
            return Err(Error::status(StatusCode::InvalidArg));
        }
        Ok(self.chain_of(off, routing, track))
    }

    /// The chunk that holds byte `off` of the file of inode `inode_id`.
    /// `InvalidArg` where the layout is invalid.
    pub fn get_chunk_id(&self, inode_id: InodeId, off: u64) -> (r: Result<ChunkId, Error>)
        ensures
            r.is_ok() <==> self.layout.valid(),
            r matches Ok(c) ==> c == chunk_at(self.layout, inode_id, off as int),
            r matches Err(e) ==> e.code == StatusCode::InvalidArg.spec_code(),
    {
        if !self.layout.valid() {
            return Err(Error::status(StatusCode::InvalidArg));
        }
        Ok(self.chunk_of(inode_id, off))
    }
}

/// One piece of a byte range of a file: `len` bytes from byte `file_off` on,
/// all of them in one chunk.
#[derive(Clone, Copy, Debug, PartialEq, Eq, Structural)]
pub struct ChunkRange {
    pub file_off: u64,
    pub len: usize,
}

impl ChunkRange {
    /// First byte past the piece.
    pub open spec fn end(self) -> int {
        self.file_off + self.len
    }
}

/// The most bytes that one operation may carry: the chunk size, or the limit
/// where one is set and is smaller.
pub open spec fn piece_limit(chunk_size: int, limit: int) -> int {
    if 0 < limit < chunk_size {
        limit
    } else {
        chunk_size
    }
}

/// Bytes of the piece that begins at `pos` of a range that ends at `end`: up
/// to the limit, to the end of the chunk, or to the end of the range,
/// whichever comes first.
pub open spec fn piece_len(chunk_size: int, limit: int, pos: int, end: int) -> int {
    let a = piece_limit(chunk_size, limit);
    let b = chunk_size - pos % chunk_size;
    let c = end - pos;
    if a <= b && a <= c {
        a
    } else if b <= c {
        b
    } else {
        c
    }
}

/// Whether `ops` is the cutting of `length` bytes from `offset` on: the
/// pieces follow one another without a gap from `offset` to the end of the
/// range, and each is as long as the limit, its chunk and the range allow.
pub open spec fn is_plan(ops: Seq<ChunkRange>, chunk_size: int, limit: int, offset: int, length: int) -> bool {
    &&& length == 0 ==> ops.len() == 0
    &&& length > 0 ==> ops.len() > 0 && ops[0].file_off == offset && ops.last().end() == offset + length
    &&& forall|i: int|
        0 <= i < ops.len() ==> (#[trigger] ops[i]).len == piece_len(
            chunk_size,
            limit,
            ops[i].file_off as int,
            offset + length,
        )
    &&& forall|i: int| 0 <= i < ops.len() ==> (#[trigger] ops[i]).file_off < offset + length
    &&& forall|i: int| 0 <= i < ops.len() - 1 ==> ops[i + 1].file_off == (#[trigger] ops[i]).end()
}

/// Whether byte `x` of the file lies in one of the pieces.
pub open spec fn covers(ops: Seq<ChunkRange>, x: int) -> bool {
    exists|i: int| 0 <= i < ops.len() && (#[trigger] ops[i]).file_off <= x < ops[i].end()
}

proof fn lemma_piece_len(chunk_size: int, limit: int, pos: int, end: int)
    requires
        chunk_size > 0,
        0 <= pos < end,
    ensures
        1 <= piece_len(chunk_size, limit, pos, end) <= piece_limit(chunk_size, limit),
        piece_len(chunk_size, limit, pos, end) <= end - pos,
        pos % chunk_size + piece_len(chunk_size, limit, pos, end) <= chunk_size,
        (pos + piece_len(chunk_size, limit, pos, end) - 1) / chunk_size == pos / chunk_size,
{
    vstd::arithmetic::div_mod::lemma_mod_bound(pos, chunk_size);
    vstd::arithmetic::div_mod::lemma_fundamental_div_mod(pos, chunk_size);
    let l = piece_len(chunk_size, limit, pos, end);
    let q = pos / chunk_size;
    let r = pos % chunk_size;
    assert(pos + l - 1 == q * chunk_size + (r + l - 1)) by (nonlinear_arith)
        requires
            pos == chunk_size * q + r,
    ;
    vstd::arithmetic::div_mod::lemma_fundamental_div_mod_converse(pos + l - 1, chunk_size, q, r + l - 1);
}

/// Cuts `length` bytes from byte `offset` of a file on into pieces that lie
/// in one chunk each and carry no more than the limit.
pub fn plan(layout: &FileLayout, offset: u64, length: usize, chunk_size_limit: usize) -> (ops: Vec<ChunkRange>)
    requires
        layout.chunk_size > 0,
        offset + length <= u64::MAX,
    ensures
        is_plan(ops@, layout.chunk_size as int, chunk_size_limit as int, offset as int, length as int),
{
    let cs: u64 = layout.chunk_size as u64;
    let cap: u64 = if 0 < chunk_size_limit && chunk_size_limit < layout.chunk_size {
        chunk_size_limit as u64
    } else {
        cs
    };
    let end: u64 = offset + length as u64;
    let mut ops: Vec<ChunkRange> = Vec::new();
    let mut pos: u64 = offset;
    while pos < end
        invariant
            cs == layout.chunk_size,
            cs > 0,
            cap == piece_limit(cs as int, chunk_size_limit as int),
            end == offset + length,
            offset <= pos <= end,
            ops@.len() == 0 ==> pos == offset,
            ops@.len() > 0 ==> ops@[0].file_off == offset && ops@.last().end() == pos,
            forall|i: int|
                0 <= i < ops@.len() ==> (#[trigger] ops@[i]).len == piece_len(
                    cs as int,
                    chunk_size_limit as int,
                    ops@[i].file_off as int,
                    end as int,
                ),
            forall|i: int| 0 <= i < ops@.len() ==> (#[trigger] ops@[i]).file_off < end,
            forall|i: int| 0 <= i < ops@.len() - 1 ==> ops@[i + 1].file_off == (#[trigger] ops@[i]).end(),
        decreases end - pos,
    {
        let in_chunk: u64 = cs - pos % cs;
        let left: u64 = end - pos;
        let l: u64 = if cap <= in_chunk && cap <= left {
            cap
        } else if in_chunk <= left {
            in_chunk
        } else {
            left
        };
        proof {
            lemma_piece_len(cs as int, chunk_size_limit as int, pos as int, end as int);
        }
        ops.push(ChunkRange { file_off: pos, len: l as usize });
        pos = pos + l;
    }
    ops
}

/// Coverage. The pieces of a plan cover the range exactly: each lies inside
/// it, carries at least one byte and no more than the limit, and stays in one
/// chunk; and every byte of the range lies in exactly one piece.
pub proof fn lemma_plan_covers(ops: Seq<ChunkRange>, chunk_size: int, limit: int, offset: int, length: int)
    requires
        chunk_size > 0,
        0 <= offset,
        0 <= length,
        is_plan(ops, chunk_size, limit, offset, length),
    ensures
        forall|i: int|
            0 <= i < ops.len() ==> {
                &&& offset <= (#[trigger] ops[i]).file_off
                &&& ops[i].end() <= offset + length
                &&& 1 <= ops[i].len <= piece_limit(chunk_size, limit)
                &&& (ops[i].file_off as int) % chunk_size + ops[i].len <= chunk_size
            },
        forall|i: int, j: int|
            0 <= i < j < ops.len() ==> (#[trigger] ops[i]).end() <= (#[trigger] ops[j]).file_off,
        forall|x: int| offset <= x < offset + length ==> #[trigger] covers(ops, x),
{
    assert forall|i: int| 0 <= i < ops.len() implies {
        &&& 1 <= (#[trigger] ops[i]).len <= piece_limit(chunk_size, limit)
        &&& ops[i].end() <= offset + length
        &&& (ops[i].file_off as int) % chunk_size + ops[i].len <= chunk_size
    } by {
        lemma_piece_len(chunk_size, limit, ops[i].file_off as int, offset + length);
    }
    assert forall|i: int, j: int| 0 <= i < j < ops.len() implies (#[trigger] ops[i]).end() <= (
    #[trigger] ops[j]).file_off by {
        lemma_plan_ordered(ops, chunk_size, limit, offset, length, i, j);
    }
    assert forall|i: int| 0 <= i < ops.len() implies offset <= (#[trigger] ops[i]).file_off by {
        if i > 0 {
            lemma_plan_ordered(ops, chunk_size, limit, offset, length, 0, i);
        }
    }
    assert forall|x: int| offset <= x < offset + length implies #[trigger] covers(ops, x) by {
        lemma_plan_finds(ops, chunk_size, limit, offset, length, x, ops.len() - 1);
    }
}

/// Bytes of the first `k` pieces together.
pub open spec fn planned_bytes(ops: Seq<ChunkRange>, k: int) -> int
    decreases k,
{
    if k <= 0 {
        0
    } else {
        planned_bytes(ops, k - 1) + ops[k - 1].len
    }
}

/// Tiling. The pieces of a plan lie end to end: each begins where the bytes
/// of the earlier ones end, counted from the offset of the range, at that
/// position of its chunk; and all of them together have the length of the
/// range.
pub proof fn lemma_plan_tiles(ops: Seq<ChunkRange>, chunk_size: int, limit: int, offset: int, length: int)
    requires
        chunk_size > 0,
        0 <= offset,
        0 <= length,
        is_plan(ops, chunk_size, limit, offset, length),
    ensures
        forall|k: int| 0 <= k < ops.len() ==> (#[trigger] ops[k]).file_off == offset + planned_bytes(ops, k),
        planned_bytes(ops, ops.len() as int) == length,
{
    assert forall|k: int| 0 <= k < ops.len() implies (#[trigger] ops[k]).file_off == offset + planned_bytes(
        ops,
        k,
    ) by {
        lemma_plan_starts(ops, chunk_size, limit, offset, length, k);
    }
    if ops.len() > 0 {
        lemma_plan_starts(ops, chunk_size, limit, offset, length, ops.len() - 1);
        assert(planned_bytes(ops, ops.len() as int) == planned_bytes(ops, ops.len() - 1) + ops[ops.len() - 1].len);
        assert(ops.last().end() == offset + length);
    } else {
        assert(length == 0);
    }
}

proof fn lemma_plan_starts(ops: Seq<ChunkRange>, chunk_size: int, limit: int, offset: int, length: int, k: int)
    requires
        chunk_size > 0,
        0 <= offset,
        0 <= length,
        is_plan(ops, chunk_size, limit, offset, length),
        0 <= k < ops.len(),
    ensures
        ops[k].file_off == offset + planned_bytes(ops, k),
    decreases k,
{
    if k > 0 {
        lemma_plan_starts(ops, chunk_size, limit, offset, length, k - 1);
        assert(ops[k - 1 + 1].file_off == ops[k - 1].end());
    } else {
        assert(length > 0);
    }
}

proof fn lemma_plan_ordered(
    ops: Seq<ChunkRange>,
    chunk_size: int,
    limit: int,
    offset: int,
    length: int,
    i: int,
    j: int,
)
    requires
        chunk_size > 0,
        0 <= offset,
        is_plan(ops, chunk_size, limit, offset, length),
        0 <= i < j < ops.len(),
    ensures
        ops[i].end() <= ops[j].file_off,
    decreases j - i,
{
    if i + 1 < j {
        lemma_plan_ordered(ops, chunk_size, limit, offset, length, i, j - 1);
        lemma_piece_len(chunk_size, limit, ops[j - 1].file_off as int, offset + length);
        assert(ops[j].file_off == ops[j - 1].end());
    } else {
        assert(ops[i + 1].file_off == ops[i].end());
    }
}

proof fn lemma_plan_finds(
    ops: Seq<ChunkRange>,
    chunk_size: int,
    limit: int,
    offset: int,
    length: int,
    x: int,
    k: int,
)
    requires
        chunk_size > 0,
        0 <= offset,
        is_plan(ops, chunk_size, limit, offset, length),
        0 <= k < ops.len(),
        offset <= x < ops[k].end(),
    ensures
        covers(ops, x),
    decreases k,
{
    if ops[k].file_off <= x {
    } else {
        assert(k > 0);
        assert(ops[k - 1 + 1].file_off == ops[k - 1].end());
        lemma_plan_finds(ops, chunk_size, limit, offset, length, x, k - 1);
    }
}

} // verus!
