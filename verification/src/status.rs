//! Error codes carried in result slots and returned by fallible operations.
//!
//! Every code is positive; a result slot holds its negation. The four classes
//! occupy disjoint ranges, so a code names its class.

use vstd::prelude::*;

verus! {

/// Codes of the common class.
#[derive(Clone, Copy, Debug, PartialEq, Eq, Structural)]
pub enum StatusCode {
    InvalidArg,
    ReadOnlyMode,
}

/// Codes raised on behalf of the metadata service.
#[derive(Clone, Copy, Debug, PartialEq, Eq, Structural)]
pub enum MetaCode {
    NotFound,
    NoPermission,
    NotFile,
}

/// Codes raised by the storage backend client.
#[derive(Clone, Copy, Debug, PartialEq, Eq, Structural)]
pub enum StorageClientCode {
    ChunkNotFound,
}

/// Codes raised by the client agent itself.
#[derive(Clone, Copy, Debug, PartialEq, Eq, Structural)]
pub enum ClientAgentCode {
    HoleInIoOutcome,
    TooManyOpenFiles,
    IovShmFail,
}

impl StatusCode {
    pub open spec fn spec_code(self) -> int {
        match self {
            StatusCode::InvalidArg => 1,
            StatusCode::ReadOnlyMode => 2,
        }
    }

    pub fn code(&self) -> (c: i32)
        ensures
            c == self.spec_code(),
    {
        match self {
            StatusCode::InvalidArg => 1,
            StatusCode::ReadOnlyMode => 2,
        }
    }
}

impl MetaCode {
    pub open spec fn spec_code(self) -> int {
        match self {
            MetaCode::NotFound => 3001,
            MetaCode::NoPermission => 3002,
            MetaCode::NotFile => 3003,
        }
    }

    pub fn code(&self) -> (c: i32)
        ensures
            c == self.spec_code(),
    {
        match self {
            MetaCode::NotFound => 3001,
            MetaCode::NoPermission => 3002,
            MetaCode::NotFile => 3003,
        }
    }
}

impl StorageClientCode {
    pub open spec fn spec_code(self) -> int {
        match self {
            StorageClientCode::ChunkNotFound => 5001,
        }
    }

    pub fn code(&self) -> (c: i32)
        ensures
            c == self.spec_code(),
    {
        match self {
            StorageClientCode::ChunkNotFound => 5001,
        }
    }
}

impl ClientAgentCode {
    pub open spec fn spec_code(self) -> int {
        match self {
            ClientAgentCode::HoleInIoOutcome => 6001,
            ClientAgentCode::TooManyOpenFiles => 6002,
            ClientAgentCode::IovShmFail => 6003,
        }
    }

    pub fn code(&self) -> (c: i32)
        ensures
            c == self.spec_code(),
    {
        match self {
            ClientAgentCode::HoleInIoOutcome => 6001,
            ClientAgentCode::TooManyOpenFiles => 6002,
            ClientAgentCode::IovShmFail => 6003,
        }
    }
}

/// A failure, identified by its code.
#[derive(Clone, Copy, Debug, PartialEq, Eq, Structural)]
pub struct Error {
    pub code: i32,
}

impl Error {
    pub fn code(&self) -> (c: i32)
        ensures
            c == self.code,
    {
        self.code
    }

    pub fn status(c: StatusCode) -> (e: Error)
        ensures
            e.code == c.spec_code(),
    {
        Error { code: c.code() }
    }

    pub fn meta(c: MetaCode) -> (e: Error)
        ensures
            e.code == c.spec_code(),
    {
        Error { code: c.code() }
    }

    pub fn storage(c: StorageClientCode) -> (e: Error)
        ensures
            e.code == c.spec_code(),
    {
        Error { code: c.code() }
    }

    pub fn agent(c: ClientAgentCode) -> (e: Error)
        ensures
            e.code == c.spec_code(),
    {
        Error { code: c.code() }
    }
}

/// The value of an operation that succeeds without a result.
#[derive(Clone, Copy, Debug, PartialEq, Eq, Structural)]
pub struct Void;

/// Fails with the given code.
pub fn make_error<T>(code: i32) -> (r: Result<T, Error>)
    ensures
        r == Err::<T, Error>(Error { code }),
{
    Err(Error { code })
}

/// The classes never share a code.
pub proof fn lemma_codes_distinct(s: StatusCode, m: MetaCode, c: StorageClientCode, a: ClientAgentCode)
    ensures
        0 < s.spec_code() < m.spec_code() < c.spec_code() < a.spec_code(),
{
}

} // verus!
