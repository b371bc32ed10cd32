//! The cache's tables: uploads in progress with their parts, pending and
//! complete cache entries, and files queued for removal.
use vstd::prelude::*;

pub mod cache_entry;
pub mod cache_upload;

use cache_entry::CacheEntryTable;
use cache_upload::{CacheUploadTable, has_upload};




verus! {

/// Why a table operation failed.
#[derive(Clone, Copy, PartialEq, Eq, Debug)]
pub enum DbError {
    /// No row has the requested id.
    NotFound,
    /// A row with the same primary key exists already.
    AlreadyExists,
    /// The table has handed out every id it can represent.
    IdsExhausted,
}

/// A reserved upload (table `cache_upload`).
#[derive(Debug)]
pub struct CacheUpload {
    pub id: i32,
    pub repo: String,
    pub key: String,
    pub version: String,
    pub write_isolation_key: String,
    /// The announced size in bytes, if one was given.
    pub size: Option<i64>,
    /// Unix seconds of the reservation or of the last received chunk.
    pub created_at: i64,
    /// The id of the matching S3 multipart upload, if the storage is S3.
    pub s3_upload_id: Option<String>,
    /// The storage object that will hold the assembled file.
    pub file_id: u64,
}

/// One received chunk of an upload (table `cache_upload_part`).
#[derive(Debug)]
pub struct CacheUploadPart {
    pub id: i32,
    /// The id of the upload this chunk belongs to.
    pub cache_upload: i32,
    /// The offset of the chunk within the file.
    pub start_byte: i64,
    pub size: i64,
    /// The number under which the chunk is stored (the object `{file}-{n}`);
    /// distinct among the chunks of one upload.
    pub part_number: i32,
    /// The storage's ETag of the stored chunk, if it gave one.
    pub e_tag: Option<String>,
}

/// A cache entry (tables `cache_entry` and `cache_entry_pending`).
#[derive(Debug)]
pub struct CacheEntry {
    pub id: i32,
    pub repo: String,
    pub key: String,
    pub version: String,
    pub write_isolation_key: String,
    pub size: i64,
    pub created_at: i64,
    pub used_at: i64,
    pub file_id: u64,
}

/// A storage object to be removed (table `cache_cleanup`).
#[derive(Debug)]
pub struct CacheCleanup {
    pub id: i32,
    pub file_id: u64,
}

/// Copies an optional string.
pub fn clone_opt_string(s: &Option<String>) -> (res: Option<String>)
    ensures
        res == *s,
{
    match s {
        Some(v) => Some(v.clone()),
        None => None,
    }
}

impl Clone for CacheUpload {
    fn clone(&self) -> (res: Self)
        ensures
            res == *self,
    {
        CacheUpload {
            id: self.id,
            repo: self.repo.clone(),
            key: self.key.clone(),
            version: self.version.clone(),
            write_isolation_key: self.write_isolation_key.clone(),
            size: self.size,
            created_at: self.created_at,
            s3_upload_id: clone_opt_string(&self.s3_upload_id),
            file_id: self.file_id,
        }
    }
}

impl Clone for CacheUploadPart {
    fn clone(&self) -> (res: Self)
        ensures
            res == *self,
    {
        CacheUploadPart {
            id: self.id,
            cache_upload: self.cache_upload,
            start_byte: self.start_byte,
            size: self.size,
            part_number: self.part_number,
            e_tag: clone_opt_string(&self.e_tag),
        }
    }
}

impl Clone for CacheEntry {
    fn clone(&self) -> (res: Self)
        ensures
            res == *self,
    {
        CacheEntry {
            id: self.id,
            repo: self.repo.clone(),
            key: self.key.clone(),
            version: self.version.clone(),
            write_isolation_key: self.write_isolation_key.clone(),
            size: self.size,
            created_at: self.created_at,
            used_at: self.used_at,
            file_id: self.file_id,
        }
    }
}

impl Clone for CacheCleanup {
    fn clone(&self) -> (res: Self)
        ensures
            res == *self,
    {
        CacheCleanup { id: self.id, file_id: self.file_id }
    }
}

/// All tables of the cache.
pub struct Database {
    pub entries: CacheEntryTable,
    pub uploads: CacheUploadTable,
}

impl Database {
    /// Whether every table keeps its invariant, and the tables agree: a
    /// committed upload id is no longer reserved and lies below the next
    /// upload id (so it is never handed out again); pending entries carry
    /// upload ids handed out already; and every file id in use lies below the
    /// next file id (so a new reservation's file is fresh).
    pub open spec fn wf(&self) -> bool {
        &&& self.entries.wf()
        &&& self.uploads.wf()
        &&& forall|k: int|
            0 <= k < self.entries.committed().len() ==> {
                &&& #[trigger] self.entries.committed()[k] < self.uploads.next_id()
                &&& !has_upload(self.uploads.uploads(), self.entries.committed()[k])
            }
        &&& forall|k: int|
            #![trigger self.entries.pending()[k]]
            0 <= k < self.entries.pending().len() ==> {
                &&& self.entries.pending()[k].id < self.uploads.next_id()
                &&& self.entries.pending()[k].file_id < self.uploads.next_file_id()
            }
        &&& forall|k: int|
            0 <= k < self.entries.entries().len() ==> #[trigger] self.entries.entries()[k].file_id
                < self.uploads.next_file_id()
        &&& forall|k: int|
            0 <= k < self.entries.cleanups().len() ==> #[trigger] self.entries.cleanups()[k].file_id
                < self.uploads.next_file_id()
    }

    /// Whether a storage object id is used by an upload, an entry (complete
    /// or pending) or a queued removal.
    pub open spec fn file_id_in_use(&self, file_id: u64) -> bool {
        ||| exists|k: int| 0 <= k < self.uploads.uploads().len() && #[trigger] self.uploads.uploads()[k].file_id == file_id
        ||| exists|k: int| 0 <= k < self.entries.entries().len() && #[trigger] self.entries.entries()[k].file_id == file_id
        ||| exists|k: int| 0 <= k < self.entries.pending().len() && #[trigger] self.entries.pending()[k].file_id == file_id
        ||| exists|k: int| 0 <= k < self.entries.cleanups().len() && #[trigger] self.entries.cleanups()[k].file_id == file_id
    }

    /// Empty tables.
    pub fn new() -> (res: Self)
        ensures
            res.wf(),
            res.entries.entries().len() == 0,
            res.entries.pending().len() == 0,
            res.uploads.uploads().len() == 0,
            res.uploads.chunks().len() == 0,
            !res.uploads.uploads_exhausted(),
            !res.uploads.chunks_exhausted(),
            !res.entries.cleanups_exhausted(),
            res.entries.committed().len() == 0,
    {
        Database { entries: CacheEntryTable::new(), uploads: CacheUploadTable::new() }
    }
}

/// Access to the tables of a connection.
pub trait DBTrait {
    fn cache_upload(&mut self) -> &mut CacheUploadTable;

    fn cache_entry(&mut self) -> &mut CacheEntryTable;
}

impl DBTrait for Database {
    fn cache_upload(&mut self) -> (res: &mut CacheUploadTable)
        ensures
            *res == old(self).uploads,
            final(self).uploads == *final(res),
            final(self).entries == old(self).entries,
    {
        &mut self.uploads
    }

    fn cache_entry(&mut self) -> (res: &mut CacheEntryTable)
        ensures
            *res == old(self).entries,
            final(self).entries == *final(res),
            final(self).uploads == old(self).uploads,
    {
        &mut self.entries
    }
}

} // verus!
