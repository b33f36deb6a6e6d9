//! Shared buffers: the key that names one and says what it is for.
//!
//! A key is an identifier followed by attributes, separated by dots:
//! `<uuid>[.b<block size>][.(r|w)<io depth>][.t<timeout ms>][.f<flags>][.p(h|n|l)]`.
//! `r` or `w` makes the buffer a ring for reads or writes; `t`, `f` and `p`
//! are attributes of a ring.

use vstd::prelude::*;
use vstd::string::StringSliceAdditionalSpecFns;
use crate::status::StatusCode;
use crate::text::parse_signed;
use crate::text::parse_unsigned;
use crate::text::read_i32;
use crate::text::read_unsigned;
use crate::text::read_usize;
use crate::uuid::pairs_ok;
use crate::uuid::pairs_value;
use crate::uuid::Uuid;

verus! {

/// Attributes that only a ring has.
#[derive(Clone, Copy, Debug, PartialEq, Eq, Structural)]
pub struct IorAttrs {
    /// How long a short claim may be deferred, in milliseconds.
    pub timeout_ms: u64,
    pub flags: u64,
    /// 0 is high, 1 normal, 2 low.
    pub priority: i32,
}

/// What a key says of a buffer.
#[derive(Clone, Copy, Debug, PartialEq, Eq, Structural)]
pub struct IovAttrs {
    pub id: Uuid,
    pub block_size: usize,
    pub is_io_ring: bool,
    pub for_read: bool,
    pub io_depth: i32,
    pub iora: Option<IorAttrs>,
}

/// Why a key was refused.
#[derive(Clone, Copy, Debug, PartialEq, Eq, Structural)]
pub enum KeyError {
    /// The identifier is not thirty-two characters long.
    UuidLength,
    /// The identifier holds a character that is no hexadecimal digit.
    UuidDigit,
    BlockSize,
    IoDepth,
    Timeout,
    Flags,
    Priority,
    /// A ring attribute stands in the key of a buffer that is no ring.
    RingAttrsOnBuffer,
}

impl KeyError {
    /// Every refusal of a key is an invalid argument.
    pub fn code(&self) -> (c: i32)
        ensures
            c == StatusCode::InvalidArg.spec_code(),
    {
        StatusCode::InvalidArg.code()
    }

    /// What to tell the user.
    pub fn message(&self) -> (m: String)
        ensures
            m@ == match *self {
                KeyError::UuidLength => "Invalid UUID length"@,
                KeyError::UuidDigit => "Invalid hex string"@,
                KeyError::BlockSize => "invalid block size set in shm key"@,
                KeyError::IoDepth => "invalid io depth set in shm key"@,
                KeyError::Timeout => "invalid timeout set in shm key"@,
                KeyError::Flags => "invalid flags set in shm key"@,
                KeyError::Priority => "invalid priority set in shm key"@,
                KeyError::RingAttrsOnBuffer => "ioring attrs set for non-ioring"@,
            },
    {
        match self {
            KeyError::UuidLength => "Invalid UUID length".to_owned(),
            KeyError::UuidDigit => "Invalid hex string".to_owned(),
            KeyError::BlockSize => "invalid block size set in shm key".to_owned(),
            KeyError::IoDepth => "invalid io depth set in shm key".to_owned(),
            KeyError::Timeout => "invalid timeout set in shm key".to_owned(),
            KeyError::Flags => "invalid flags set in shm key".to_owned(),
            KeyError::Priority => "invalid priority set in shm key".to_owned(),
            KeyError::RingAttrsOnBuffer => "ioring attrs set for non-ioring".to_owned(),
        }
    }
}

impl IorAttrs {
    pub open spec fn spec_default() -> IorAttrs {
        IorAttrs { timeout_ms: 0, flags: 0, priority: 1 }
    }

    /// No timeout, no flags, normal priority.
    pub fn new() -> (a: IorAttrs)
        ensures
            a == Self::spec_default(),
    {
        IorAttrs { timeout_ms: 0, flags: 0, priority: 1 }
    }
}

impl Default for IorAttrs {
    fn default() -> (a: IorAttrs)
        ensures
            a == IorAttrs::spec_default(),
    {
        IorAttrs::new()
    }
}

impl Default for IovAttrs {
    fn default() -> (a: IovAttrs)
        ensures
            a == IovAttrs::spec_plain(Uuid(0)),
    {
        IovAttrs::plain(Uuid::nil())
    }
}

impl IovAttrs {
    /// The attributes of a plain read buffer with the identifier `id`.
    pub open spec fn spec_plain(id: Uuid) -> IovAttrs {
        IovAttrs { id, block_size: 0, is_io_ring: false, for_read: true, io_depth: 0, iora: None }
    }

    pub fn plain(id: Uuid) -> (a: IovAttrs)
        ensures
            a == Self::spec_plain(id),
    {
        IovAttrs { id, block_size: 0, is_io_ring: false, for_read: true, io_depth: 0, iora: None }
    }

    /// The ring attributes, or the defaults where none was set.
    pub open spec fn spec_ring_attrs(self) -> IorAttrs {
        match self.iora {
            Some(a) => a,
            None => IorAttrs::spec_default(),
        }
    }

    pub fn ring_attrs(&self) -> (a: IorAttrs)
        ensures
            a == self.spec_ring_attrs(),
    {
        match self.iora {
            Some(a) => a,
            None => IorAttrs::new(),
        }
    }
}

/// Position of the first dot of `s` at or behind `i`, or the length of `s`.
pub open spec fn dot_from(s: Seq<u8>, i: int) -> int
    decreases s.len() - i,
{
    if i >= s.len() {
        s.len() as int
    } else if s[i] == 46 {
        i
    } else {
        dot_from(s, i + 1)
    }
}

/// The attributes after the part `part` of a key was read.
///
/// The first character says which attribute the part sets; a part that is
/// empty or begins with any other character is passed over.
pub open spec fn apply_part(attrs: IovAttrs, part: Seq<u8>) -> Result<IovAttrs, KeyError> {
    if part.len() == 0 {
        Ok(attrs)
    } else if part[0] == 98 {
        match parse_unsigned(part.skip(1), 10, usize::MAX as int) {
            Some(v) => if v > 0 {
                Ok(IovAttrs { block_size: v as usize, ..attrs })
            } else {
                Err(KeyError::BlockSize)
            },
            None => Err(KeyError::BlockSize),
        }
    } else if part[0] == 114 || part[0] == 119 {
        match parse_signed(part.skip(1), i32::MIN as int, i32::MAX as int) {
            Some(v) => Ok(IovAttrs { is_io_ring: true, for_read: part[0] == 114, io_depth: v as i32, ..attrs }),
            None => Err(KeyError::IoDepth),
        }
    } else if part[0] == 116 {
        match parse_signed(part.skip(1), i32::MIN as int, i32::MAX as int) {
            Some(v) => if v >= 0 {
                Ok(IovAttrs { iora: Some(IorAttrs { timeout_ms: v as u64, ..attrs.spec_ring_attrs() }), ..attrs })
            } else {
                Err(KeyError::Timeout)
            },
            None => Err(KeyError::Timeout),
        }
    } else if part[0] == 102 {
        match parse_unsigned(part.skip(1), 2, u64::MAX as int) {
            Some(v) => Ok(IovAttrs { iora: Some(IorAttrs { flags: v as u64, ..attrs.spec_ring_attrs() }), ..attrs }),
            None => Err(KeyError::Flags),
        }
    } else if part[0] == 112 {
        if part.len() == 1 || part[1] == 110 {
            Ok(IovAttrs { iora: Some(IorAttrs { priority: 1, ..attrs.spec_ring_attrs() }), ..attrs })
        } else if part[1] == 108 {
            Ok(IovAttrs { iora: Some(IorAttrs { priority: 2, ..attrs.spec_ring_attrs() }), ..attrs })
        } else if part[1] == 104 {
            Ok(IovAttrs { iora: Some(IorAttrs { priority: 0, ..attrs.spec_ring_attrs() }), ..attrs })
        } else {
            Err(KeyError::Priority)
        }
    } else {
        Ok(attrs)
    }
}

/// The attributes after the parts of `s` from position `pos` on were read,
/// one after the other.
pub open spec fn apply_parts(attrs: IovAttrs, s: Seq<u8>, pos: int) -> Result<IovAttrs, KeyError>
    decreases s.len() - pos,
{
    if pos > s.len() {
        Ok(attrs)
    } else {
        let dot = dot_from(s, pos);
        match apply_part(attrs, s.subrange(pos, dot)) {
            Err(e) => Err(e),
            Ok(next) => if dot >= s.len() || dot < pos {
                Ok(next)
            } else {
                apply_parts(next, s, dot + 1)
            },
        }
    }
}

/// What the key `s` says: the identifier in front of the first dot, then the
/// attributes of the parts behind it, the later part winning where two set
/// the same attribute. A key that sets a ring attribute without making the
/// buffer a ring is refused.
pub open spec fn parse_key_spec(s: Seq<u8>) -> Result<IovAttrs, KeyError> {
    let dot = dot_from(s, 0);
    let id = s.subrange(0, dot);
    if id.len() != 32 {
        Err(KeyError::UuidLength)
    } else if !pairs_ok(id, 16) {
        Err(KeyError::UuidDigit)
    } else {
        match apply_parts(IovAttrs::spec_plain(Uuid(pairs_value(id, 16) as u128)), s, dot + 1) {
            Err(e) => Err(e),
            Ok(attrs) => if !attrs.is_io_ring && attrs.iora.is_some() {
                Err(KeyError::RingAttrsOnBuffer)
            } else {
                Ok(attrs)
            },
        }
    }
}

/// Finds the end of the part that begins at `pos`.
fn find_dot(bytes: &[u8], pos: usize) -> (dot: usize)
    requires
        pos <= bytes@.len(),
    ensures
        dot == dot_from(bytes@, pos as int),
        pos <= dot <= bytes@.len(),
        dot < bytes@.len() ==> bytes@[dot as int] == 46,
{
    let mut j: usize = pos;
    while j < bytes.len() && bytes[j] != 46
        invariant
            pos <= j <= bytes@.len(),
            dot_from(bytes@, j as int) == dot_from(bytes@, pos as int),
        decreases bytes@.len() - j,
    {
        j = j + 1;
    }
    j
}

/// Reads one part of a key into `attrs`.
fn read_part(attrs: IovAttrs, bytes: &[u8], from: usize, to: usize) -> (r: Result<IovAttrs, KeyError>)
    requires
        from <= to <= bytes@.len(),
    ensures
        r == apply_part(attrs, bytes@.subrange(from as int, to as int)),
{
    let ghost part = bytes@.subrange(from as int, to as int);
    if from == to {
        return Ok(attrs);
    }
    let c = bytes[from];
    assert(part[0] == c);
    assert(part.skip(1) =~= bytes@.subrange(from + 1, to as int));
    if c == 98 {
        match read_usize(bytes, from + 1, to) {
            Some(v) => if v > 0 {
                Ok(IovAttrs { block_size: v, ..attrs })
            } else {
                Err(KeyError::BlockSize)
            },
            None => Err(KeyError::BlockSize),
        }
    } else if c == 114 || c == 119 {
        match read_i32(bytes, from + 1, to) {
            Some(v) => Ok(IovAttrs { is_io_ring: true, for_read: c == 114, io_depth: v, ..attrs }),
            None => Err(KeyError::IoDepth),
        }
    } else if c == 116 {
        match read_i32(bytes, from + 1, to) {
            Some(v) => if v >= 0 {
                Ok(IovAttrs { iora: Some(IorAttrs { timeout_ms: v as u64, ..attrs.ring_attrs() }), ..attrs })
            } else {
                Err(KeyError::Timeout)
            },
            None => Err(KeyError::Timeout),
        }
    } else if c == 102 {
        match read_unsigned(bytes, from + 1, to, 2, u64::MAX) {
            Some(v) => Ok(IovAttrs { iora: Some(IorAttrs { flags: v, ..attrs.ring_attrs() }), ..attrs }),
            None => Err(KeyError::Flags),
        }
    } else if c == 112 {
        if to - from == 1 {
            return Ok(IovAttrs { iora: Some(IorAttrs { priority: 1, ..attrs.ring_attrs() }), ..attrs });
        }
        let level = bytes[from + 1];
        assert(part[1] == level);
        if level == 110 {
            Ok(IovAttrs { iora: Some(IorAttrs { priority: 1, ..attrs.ring_attrs() }), ..attrs })
        } else if level == 108 {
            Ok(IovAttrs { iora: Some(IorAttrs { priority: 2, ..attrs.ring_attrs() }), ..attrs })
        } else if level == 104 {
            Ok(IovAttrs { iora: Some(IorAttrs { priority: 0, ..attrs.ring_attrs() }), ..attrs })
        } else {
            Err(KeyError::Priority)
        }
    } else {
        Ok(attrs)
    }
}

/// Reads the key of a shared buffer from its bytes.
pub fn parse_key_bytes(bytes: &[u8]) -> (r: Result<IovAttrs, KeyError>)
    ensures
        r == parse_key_spec(bytes@),
{
    let n = bytes.len();
    let dot = find_dot(bytes, 0);
    if dot != 32 {
        return Err(KeyError::UuidLength);
    }
    let head = vstd::slice::slice_subrange(bytes, 0, dot);
    let id = match Uuid::from_hex_bytes(head) {
        Some(u) => u,
        None => {
            return Err(KeyError::UuidDigit);
        },
    };
    let mut attrs = IovAttrs::plain(id);
    let ghost start = attrs;
    let mut pos: usize = dot;
    while pos < n
        invariant
            n == bytes@.len(),
            pos <= n,
            pos < n ==> bytes@[pos as int] == 46,
            parse_key_spec(bytes@) == match apply_parts(start, bytes@, dot + 1) {
                Err(e) => Err::<IovAttrs, KeyError>(e),
                Ok(a) => if !a.is_io_ring && a.iora.is_some() {
                    Err(KeyError::RingAttrsOnBuffer)
                } else {
                    Ok(a)
                },
            },
            apply_parts(start, bytes@, dot + 1) == if pos < n {
                apply_parts(attrs, bytes@, pos + 1)
            } else {
                Ok::<IovAttrs, KeyError>(attrs)
            },
        decreases n - pos,
    {
        let from = pos + 1;
        let to = find_dot(bytes, from);
        match read_part(attrs, bytes, from, to) {
            Ok(next) => {
                attrs = next;
            },
            Err(e) => {
                return Err(e);
            },
        }
        pos = to;
    }
    if !attrs.is_io_ring && attrs.iora.is_some() {
        Err(KeyError::RingAttrsOnBuffer)
    } else {
        Ok(attrs)
    }
}

/// Reads the key of a shared buffer.
pub fn parse_key(key: &str) -> (r: Result<IovAttrs, KeyError>)
    ensures
        r == parse_key_spec(key.spec_bytes()),
{
    parse_key_bytes(key.as_bytes())
}

} // verus!
