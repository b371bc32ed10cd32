//! The errors a cache request can end in, and the HTTP status of each.
use vstd::prelude::*;
use crate::auth::AuthError;
use crate::db::DbError;
use crate::storage::StorageError;

verus! {

/// Why a cache request failed.
#[derive(Clone, Copy, PartialEq, Eq, Debug)]
pub enum CacheError {
    /// The request did not authenticate.
    Auth(AuthError),
    /// A reservation announced a negative size other than -1.
    InvalidCacheSize,
    /// A chunk's `Content-Range` header gave no byte range.
    MissingByteRange,
    /// No upload is reserved under the id.
    NotReserved,
    /// The upload under the id has been committed already.
    AlreadyComplete,
    /// The request's isolation key may not touch the upload or entry.
    IsolationMismatch,
    /// The chunks add up to another size than the one reserved.
    SizeMismatch { size: i64, expected: i64 },
    /// The chunks add up to more bytes than a size can hold.
    SizeOverflow,
    /// No cache entry has the id.
    EntryNotFound,
    /// No cache entry matches the requested keys.
    NoMatch,
    /// A header that the request needs is absent or not text
    /// (`MissingHeader` or `InvalidHeader`).
    Header(AuthError),
    /// The storage cannot carry out the operation.
    Storage(StorageError),
    /// A table operation failed.
    Db(DbError),
}

/// The HTTP status with which a request that failed this way is answered.
pub open spec fn status_of(e: CacheError) -> u16 {
    match e {
        CacheError::Auth(a) => match a {
            AuthError::FutureTimestamp | AuthError::InvalidMac => 403,
            AuthError::InvalidKey => 500,
            _ => 400,
        },
        CacheError::InvalidCacheSize => 400,
        CacheError::MissingByteRange => 400,
        CacheError::NotReserved => 404,
        CacheError::AlreadyComplete => 400,
        CacheError::IsolationMismatch => 403,
        CacheError::SizeMismatch { .. } => 400,
        CacheError::SizeOverflow => 400,
        CacheError::EntryNotFound => 404,
        CacheError::NoMatch => 204,
        CacheError::Header(_) => 400,
        CacheError::Storage(_) => 400,
        CacheError::Db(d) => match d {
            DbError::NotFound => 400,
            _ => 500,
        },
    }
}

/// The HTTP status with which a request that failed this way is answered.
pub fn status_code(e: &CacheError) -> (res: u16)
    ensures
        res == status_of(*e),
{
    match e {
        CacheError::Auth(a) => match a {
            AuthError::FutureTimestamp | AuthError::InvalidMac => 403,
            AuthError::InvalidKey => 500,
            _ => 400,
        },
        CacheError::InvalidCacheSize => 400,
        CacheError::MissingByteRange => 400,
        CacheError::NotReserved => 404,
        CacheError::AlreadyComplete => 400,
        CacheError::IsolationMismatch => 403,
        CacheError::SizeMismatch { .. } => 400,
        CacheError::SizeOverflow => 400,
        CacheError::EntryNotFound => 404,
        CacheError::NoMatch => 204,
        CacheError::Header(_) => 400,
        CacheError::Storage(_) => 400,
        CacheError::Db(d) => match d {
            DbError::NotFound => 400,
            _ => 500,
        },
    }
}

} // verus!
