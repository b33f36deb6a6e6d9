//! What the client remembers of an inode it writes to: how far its stripes
//! have been extended, and the truncate version it saw last.

use vstd::prelude::*;
use std::collections::HashMap;
use vstd::std_specs::hash::group_hash_axioms;
use crate::layout::FileLayout;
use crate::layout::Inode;
use crate::status::Error;
use crate::status::MetaCode;
use crate::status::StatusCode;

verus! {

/// A length of a file, with the truncate version under which it was seen.
#[derive(Clone, Copy, Debug, PartialEq, Eq, Structural)]
pub struct VersionedLength {
    pub length: u64,
    pub version: u64,
}

/// What changes about an inode while the client works on it.
#[derive(Clone, Copy, Debug, PartialEq, Eq, Structural)]
pub struct DynamicAttr {
    /// Number of write calls that have finished.
    pub written: u64,
    /// The length that the file may have, if it is known.
    pub hint_length: Option<VersionedLength>,
    /// Stripes that the file has been extended to; nothing where the file
    /// does not grow its stripes.
    pub dyn_stripe: Option<u32>,
    /// The truncate version seen last.
    pub truncate_ver: u64,
    /// The user who wrote last.
    pub writer: u32,
}

/// An inode with its reference count and what changes about it.
#[derive(Clone, Copy, Debug, PartialEq, Eq, Structural)]
pub struct RcInode {
    pub inode: Inode,
    pub refcount: u64,
    pub dynamic_attr: DynamicAttr,
}

/// What a write has to do before its chunks are written.
#[derive(Clone, Copy, Debug, PartialEq, Eq, Structural)]
pub enum WriteGate {
    /// The stripes cover the write: go ahead under this truncate version.
    Proceed(u64),
    /// The stripes have to be extended to this number first, under the
    /// inode's stripe-extension lock.
    Extend(u32),
}

/// Stripes that a write of `length` bytes at byte `offset` reaches into: the
/// chunks up to its end, but no more than the layout has stripes.
pub open spec fn stripes_for(layout: FileLayout, offset: int, length: int) -> int {
    let chunks = (offset + length + layout.chunk_size - 1) / (layout.chunk_size as int);
    if chunks < layout.stripe_size {
        chunks
    } else {
        layout.stripe_size as int
    }
}

/// Whether stripes extended to `dyn_stripe` cover a write that reaches into
/// `stripe` stripes.
pub open spec fn stripes_cover(dyn_stripe: Option<u32>, stripe: int) -> bool {
    match dyn_stripe {
        Some(s) => s >= stripe,
        None => true,
    }
}

impl RcInode {
    /// An inode that nothing has been written to.
    pub fn new(inode: Inode, refcount: u64) -> (r: RcInode)
        ensures
            r == (RcInode {
                inode,
                refcount,
                dynamic_attr: DynamicAttr {
                    written: 0,
                    hint_length: None,
                    dyn_stripe: None,
                    truncate_ver: 0,
                    writer: 0,
                },
            }),
    {
        RcInode {
            inode,
            refcount,
            dynamic_attr: DynamicAttr { written: 0, hint_length: None, dyn_stripe: None, truncate_ver: 0, writer: 0 },
        }
    }

    /// Stripes that a write of `length` bytes at byte `offset` reaches into.
    /// `NotFile` for an inode that is no file, `InvalidArg` where the layout
    /// is invalid or the write ends past the last byte a file can have.
    pub fn target_stripe(&self, offset: u64, length: u64) -> (r: Result<u32, Error>)
        ensures
            r.is_ok() <==> self.inode.file.is_some() && self.inode.file->Some_0.layout.valid() && offset
                + length <= u64::MAX,
            r matches Ok(s) ==> s == stripes_for(self.inode.file->Some_0.layout, offset as int, length as int),
            r matches Err(e) ==> e.code == if self.inode.file.is_none() {
                MetaCode::NotFile.spec_code()
            } else {
                StatusCode::InvalidArg.spec_code()
            },
    {
        if !self.inode.is_file() {
            return Err(Error::meta(MetaCode::NotFile));
        }
        let layout = self.inode.as_file().layout;
        if !layout.valid() || length > u64::MAX - offset {
            return Err(Error::status(StatusCode::InvalidArg));
        }
        let end: u64 = offset + length;
        let cs: u64 = layout.chunk_size as u64;
        let whole: u64 = end / cs;
        let part: u64 = if end % cs != 0 {
            1
        } else {
            0
        };
        proof {
            vstd::arithmetic::div_mod::lemma_fundamental_div_mod(end as int, cs as int);
            vstd::arithmetic::div_mod::lemma_mod_bound(end as int, cs as int);
            let q = end as int / cs as int;
            let r = end as int % cs as int;
            if r == 0 {
                assert(end + cs - 1 == q * cs + (cs - 1)) by (nonlinear_arith)
                    requires
                        end == cs * q + r,
                        r == 0,
                ;
                vstd::arithmetic::div_mod::lemma_fundamental_div_mod_converse(
                    end + cs - 1,
                    cs as int,
                    q,
                    cs - 1,
                );
            } else {
                assert(end + cs - 1 == (q + 1) * cs + (r - 1)) by (nonlinear_arith)
                    requires
                        end == cs * q + r,
                ;
                vstd::arithmetic::div_mod::lemma_fundamental_div_mod_converse(
                    end + cs - 1,
                    cs as int,
                    q + 1,
                    r - 1,
                );
            }
        }
        if whole >= layout.stripe_size as u64 || whole + part >= layout.stripe_size as u64 {
            Ok(layout.stripe_size)
        } else {
            Ok((whole + part) as u32)
        }
    }

    /// What a write that reaches into `stripe` stripes has to do first. The
    /// same question is asked again once the stripe-extension lock is held,
    /// for another writer may have extended the stripes meanwhile.
    pub fn begin_write(&self, stripe: u32) -> (gate: WriteGate)
        ensures
            gate == if stripes_cover(self.dynamic_attr.dyn_stripe, stripe as int) {
                WriteGate::Proceed(self.dynamic_attr.truncate_ver)
            } else {
                WriteGate::Extend(stripe)
            },
    {
        match self.dynamic_attr.dyn_stripe {
            Some(s) => if s >= stripe {
                WriteGate::Proceed(self.dynamic_attr.truncate_ver)
            } else {
                WriteGate::Extend(stripe)
            },
            None => WriteGate::Proceed(self.dynamic_attr.truncate_ver),
        }
    }

    /// Whether a truncate version that the metadata service reports is in
    /// order: it is not lower than the one seen last.
    pub fn version_in_order(&self, truncate_ver: u64) -> (ok: bool)
        ensures
            ok == (truncate_ver >= self.dynamic_attr.truncate_ver),
    {
        truncate_ver >= self.dynamic_attr.truncate_ver
    }

    /// Records what the metadata service answered to the extension of the
    /// stripes to `stripe`: the stripes it reports and its truncate version,
    /// which is not lower than the one seen last. Returns the version to
    /// write under, or `InvalidArg` where the stripes still do not cover the
    /// write.
    pub fn stripes_extended(&mut self, stripe: u32, dyn_stripe: Option<u32>, truncate_ver: u64) -> (r: Result<
        u64,
        Error,
    >)
        requires
            truncate_ver >= old(self).dynamic_attr.truncate_ver,
        ensures
            *final(self) == (RcInode {
                dynamic_attr: DynamicAttr { dyn_stripe, truncate_ver, ..old(self).dynamic_attr },
                ..*old(self)
            }),
            r == if stripes_cover(dyn_stripe, stripe as int) {
                Ok::<u64, Error>(truncate_ver)
            } else {
                Err::<u64, Error>(Error { code: StatusCode::InvalidArg.spec_code() as i32 })
            },
    {
        self.dynamic_attr.dyn_stripe = dyn_stripe;
        self.dynamic_attr.truncate_ver = truncate_ver;
        match dyn_stripe {
            Some(s) => if s < stripe {
                Err(Error::status(StatusCode::InvalidArg))
            } else {
                Ok(truncate_ver)
            },
            None => Ok(truncate_ver),
        }
    }
}


/// Whether the inode id is one of the ids that the client makes up itself:
/// one of its four highest bits is set.
pub fn check_is_virt(ino: u64) -> (virt: bool)
    ensures
        virt == (ino >= 0x1000_0000_0000_0000),
{
    assert((ino & 0xf000_0000_0000_0000 != 0) == (ino >= 0x1000_0000_0000_0000)) by (bit_vector);
    (ino & 0xf000_0000_0000_0000) != 0
}

/// What became of the references that were to be dropped.
#[derive(Clone, Copy, Debug, PartialEq, Eq, Structural)]
pub enum Dropped {
    /// The references were dropped; the inode is still known.
    Kept,
    /// The last reference was dropped, and the inode forgotten.
    Forgotten,
    /// The inode has fewer references than were to be dropped; nothing changed.
    TooFew,
    /// The inode is not known; nothing changed.
    Unknown,
}

/// The inodes after one more reference to `inode` was noted: a known inode
/// is brought up to date and counted once more, up to the largest count; an
/// unknown one becomes known with one reference.
pub open spec fn entry_added(m: Map<u64, RcInode>, inode: Inode) -> Map<u64, RcInode> {
    m.insert(
        inode.id.0,
        if m.contains_key(inode.id.0) {
            RcInode {
                inode,
                refcount: if m[inode.id.0].refcount < u64::MAX {
                    (m[inode.id.0].refcount + 1) as u64
                } else {
                    u64::MAX
                },
                dynamic_attr: m[inode.id.0].dynamic_attr,
            }
        } else {
            RcInode {
                inode,
                refcount: 1,
                dynamic_attr: DynamicAttr { written: 0, hint_length: None, dyn_stripe: None, truncate_ver: 0, writer: 0 },
            }
        },
    )
}

/// What becomes of `n` references to the inode `ino` that are to be dropped.
pub open spec fn drop_outcome(m: Map<u64, RcInode>, ino: u64, n: u64) -> Dropped {
    if !m.contains_key(ino) {
        Dropped::Unknown
    } else if m[ino].refcount < n {
        Dropped::TooFew
    } else if m[ino].refcount == n {
        Dropped::Forgotten
    } else {
        Dropped::Kept
    }
}

/// The inodes after `n` references to the inode `ino` were to be dropped.
pub open spec fn entry_dropped(m: Map<u64, RcInode>, ino: u64, n: u64) -> Map<u64, RcInode> {
    match drop_outcome(m, ino, n) {
        Dropped::Kept => m.insert(ino, RcInode { refcount: (m[ino].refcount - n) as u64, ..m[ino] }),
        Dropped::Forgotten => m.remove(ino),
        Dropped::TooFew => m,
        Dropped::Unknown => m,
    }
}

/// The inodes that the kernel holds references to.
pub struct InodeTable {
    inodes: HashMap<u64, RcInode>,
}

impl View for InodeTable {
    type V = Map<u64, RcInode>;

    closed spec fn view(&self) -> Map<u64, RcInode> {
        self.inodes@
    }
}

impl InodeTable {
    /// No inode known.
    pub fn new() -> (t: InodeTable)
        ensures
            t@ == Map::<u64, RcInode>::empty(),
    {
        InodeTable { inodes: HashMap::new() }
    }

    /// What is known of the inode `ino`.
    pub fn get_inode(&self, ino: u64) -> (r: Option<RcInode>)
        ensures
            r == if self@.contains_key(ino) {
                Some(self@[ino])
            } else {
                None
            },
    {
        broadcast use group_hash_axioms;

        match self.inodes.get(&ino) {
            Some(rc) => Some(*rc),
            None => None,
        }
    }

    /// Notes one more reference to `inode`.
    pub fn add_entry(&mut self, inode: Inode)
        ensures
            final(self)@ == entry_added(old(self)@, inode),
    {
        broadcast use group_hash_axioms;

        let next = match self.inodes.get(&inode.id.0) {
            Some(rc) => RcInode {
                inode,
                refcount: if rc.refcount < u64::MAX {
                    rc.refcount + 1
                } else {
                    u64::MAX
                },
                dynamic_attr: rc.dynamic_attr,
            },
            None => RcInode::new(inode, 1),
        };
        self.inodes.insert(inode.id.0, next);
    }

    /// Drops `n` references to the inode `ino`.
    pub fn remove_entry(&mut self, ino: u64, n: u64) -> (r: Dropped)
        ensures
            r == drop_outcome(old(self)@, ino, n),
            final(self)@ == entry_dropped(old(self)@, ino, n),
    {
        broadcast use group_hash_axioms;

        let rc = match self.inodes.get(&ino) {
            Some(rc) => *rc,
            None => {
                return Dropped::Unknown;
            },
        };
        if rc.refcount < n {
            Dropped::TooFew
        } else if rc.refcount == n {
            self.inodes.remove(&ino);
            Dropped::Forgotten
        } else {
            self.inodes.insert(ino, RcInode { refcount: rc.refcount - n, ..rc });
            Dropped::Kept
        }
    }
}

} // verus!
