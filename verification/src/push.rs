//! Writing the cache: reserving an upload, receiving its chunks and
//! committing it as a cache entry. Each request is split at the storage
//! call it makes: a step before it decides and records, a step after it
//! records the storage's answer.
use vstd::prelude::*;
use crate::auth::Auth;
use crate::db::{CacheUpload, DbError, Database, clone_opt_string};
use crate::db::cache_entry::{entry_other_than, has_entry, outside_slot, pending_from, same_slot};
use crate::db::cache_upload::{has_upload, max_part_number, part_not_of, upload_other_than, upload_parts_of};
use crate::error::CacheError;
use crate::storage::{
    AssemblyStep, UploadPart, assembly_steps, in_file_order, part_object_name, same_chunks,
    sort_parts,
};
use crate::text::{decimal, format_u64, lowercase, str_eq, to_lowercase};

verus! {

/// The size a reservation records: -1 stands for an unknown size, other
/// negative sizes are refused.
pub open spec fn normalized_size(size: Option<i64>) -> Result<Option<i64>, CacheError> {
    match size {
        Some(s) => if s == -1 {
            Ok(None)
        } else if s < 0 {
            Err(CacheError::InvalidCacheSize)
        } else {
            Ok(Some(s))
        },
        None => Ok(None),
    }
}

/// Normalizes the announced size of a reservation (see [`normalized_size`]).
pub fn normalize_cache_size(size: Option<i64>) -> (res: Result<Option<i64>, CacheError>)
    ensures
        res == normalized_size(size),
{
    match size {
        Some(s) => if s == -1 {
            Ok(None)
        } else if s < 0 {
            Err(CacheError::InvalidCacheSize)
        } else {
            Ok(Some(s))
        },
        None => Ok(None),
    }
}

/// Whether the tables are unchanged.
pub open spec fn unchanged(a: Database, b: Database) -> bool {
    &&& a.entries.entries() == b.entries.entries()
    &&& a.entries.pending() == b.entries.pending()
    &&& a.entries.cleanups() == b.entries.cleanups()
    &&& a.entries.committed() == b.entries.committed()
    &&& a.uploads.uploads() == b.uploads.uploads()
    &&& a.uploads.chunks() == b.uploads.chunks()
}

/// Why an operation on upload `id` is refused because the upload is not
/// there: it was committed already, or it was never reserved.
pub open spec fn missing_upload_error(db: Database, id: i32) -> CacheError {
    if db.entries.committed().contains(id) {
        CacheError::AlreadyComplete
    } else {
        CacheError::NotReserved
    }
}

/// Reserves an upload for `key` (lower-cased) and `version` on behalf of an
/// authenticated request; returns the upload id and the id of the file it
/// will produce, which no upload, entry or queued removal uses.
pub fn reserve(
    db: &mut Database,
    auth: &Auth,
    key: &str,
    version: &str,
    cache_size: Option<i64>,
) -> (res: Result<(i32, u64), CacheError>)
    requires
        old(db).wf(),
    ensures
        final(db).wf(),
        final(db).entries == old(db).entries,
        final(db).uploads.chunks() == old(db).uploads.chunks(),
        normalized_size(cache_size) is Err ==> res == Err::<(i32, u64), CacheError>(
            CacheError::InvalidCacheSize,
        ),
        normalized_size(cache_size) is Ok && old(db).uploads.uploads_exhausted() ==> res == Err::<
            (i32, u64),
            CacheError,
        >(CacheError::Db(DbError::IdsExhausted)),
        res is Err ==> final(db).uploads.uploads() == old(db).uploads.uploads(),
        normalized_size(cache_size) is Ok && !old(db).uploads.uploads_exhausted() ==> res is Ok,
        res matches Ok((id, file_id)) ==> {
            let u = final(db).uploads.uploads().last();
            &&& final(db).uploads.uploads().drop_last() == old(db).uploads.uploads()
            &&& final(db).uploads.uploads().len() == old(db).uploads.uploads().len() + 1
            &&& !has_upload(old(db).uploads.uploads(), id)
            &&& u.id == id && u.file_id == file_id
            &&& u.key@ == lowercase(key@)
            &&& u.version@ == version@
            &&& u.repo@ == auth.repo@
            &&& u.write_isolation_key@ == auth.write_isolation_key@
            &&& Ok::<Option<i64>, CacheError>(u.size) == normalized_size(cache_size)
            &&& u.s3_upload_id is None
            &&& !old(db).file_id_in_use(file_id)
        },
{
    let size = match normalize_cache_size(cache_size) {
        Ok(s) => s,
        Err(e) => return Err(e),
    };
    let ghost before = db.uploads.uploads();
    match db.uploads.reserve(
        to_lowercase(key),
        String::from_str(version),
        size,
        auth.repo.clone(),
        auth.write_isolation_key.clone(),
    ) {
        Ok((id, file_id)) => {
            proof {
                old(db).uploads.lemma_wf();
                assert(final(db).uploads.uploads().drop_last() =~= before);
                let o = *old(db);
                assert(file_id == o.uploads.next_file_id());
                assert forall|k: int| 0 <= k < o.uploads.uploads().len() implies #[trigger] o.uploads.uploads()[k].file_id != file_id by {}
                assert forall|k: int| 0 <= k < o.entries.entries().len() implies #[trigger] o.entries.entries()[k].file_id != file_id by {}
                assert forall|k: int| 0 <= k < o.entries.pending().len() implies #[trigger] o.entries.pending()[k].file_id != file_id by {}
                assert forall|k: int| 0 <= k < o.entries.cleanups().len() implies #[trigger] o.entries.cleanups()[k].file_id != file_id by {}
            }
            Ok((id, file_id))
        },
        Err(e) => Err(CacheError::Db(e)),
    }
}

/// Records the S3 multipart upload that the storage opened for upload `id`,
/// if it opened one.
pub fn record_multipart_upload(db: &mut Database, id: i32, s3_upload_id: Option<String>) -> (res: Result<(), CacheError>)
    requires
        old(db).wf(),
    ensures
        final(db).wf(),
        final(db).entries == old(db).entries,
        final(db).uploads.chunks() == old(db).uploads.chunks(),
        s3_upload_id is None ==> res is Ok && final(db).uploads.uploads() == old(db).uploads.uploads(),
        s3_upload_id is Some && !has_upload(old(db).uploads.uploads(), id) ==> res == Err::<
            (),
            CacheError,
        >(CacheError::Db(DbError::NotFound)) && final(db).uploads.uploads() == old(db).uploads.uploads(),
        s3_upload_id is Some && has_upload(old(db).uploads.uploads(), id) ==> res is Ok && exists|i: int|
            0 <= i < old(db).uploads.uploads().len() && #[trigger] old(db).uploads.uploads()[i].id
                == id && final(db).uploads.uploads() == old(db).uploads.uploads().update(
                i,
                CacheUpload { s3_upload_id: s3_upload_id, ..old(db).uploads.uploads()[i] },
            ),
{
    match s3_upload_id {
        None => Ok(()),
        Some(s) => match db.uploads.set_s3_upload_id(id, s) {
            Ok(()) => Ok(()),
            Err(e) => Err(CacheError::Db(e)),
        },
    }
}

/// What the storage does with a received chunk.
#[derive(Debug)]
pub struct ChunkPlan {
    /// The row that records the chunk.
    pub part_id: i32,
    /// The S3 part number under which the chunk is stored.
    pub part_number: i32,
    /// The object that the assembled file will be.
    pub file_key: String,
    /// The S3 multipart upload, if the storage is S3.
    pub s3_upload_id: Option<String>,
}

/// Accepts a chunk of `len` bytes for upload `id`, whose `Content-Range`
/// gave the byte range `range`: checks the range, that the upload is
/// reserved, and that the request's isolation key is the upload's; records
/// the chunk; and says how to store it.
pub fn prepare_chunk(
    db: &mut Database,
    auth: &Auth,
    id: i32,
    range: Option<(u64, u64)>,
    len: usize,
) -> (res: Result<ChunkPlan, CacheError>)
    requires
        old(db).wf(),
        len <= i64::MAX,
    ensures
        final(db).wf(),
        final(db).entries == old(db).entries,
        final(db).uploads.uploads() == old(db).uploads.uploads(),
        range is None ==> res == Err::<ChunkPlan, CacheError>(CacheError::MissingByteRange),
        range is Some && !has_upload(old(db).uploads.uploads(), id) ==> res == Err::<
            ChunkPlan,
            CacheError,
        >(missing_upload_error(*old(db), id)),
        res matches Err(e) ==> e != CacheError::Db(DbError::NotFound),
        res is Err ==> unchanged(*final(db), *old(db)),
        forall|i: int|
            0 <= i < old(db).uploads.uploads().len() && #[trigger] old(db).uploads.uploads()[i].id
                == id && range is Some ==> {
                let u = old(db).uploads.uploads()[i];
                let start = (range->0).0 as i64;
                &&& u.write_isolation_key@ != auth.write_isolation_key@ ==> res == Err::<
                    ChunkPlan,
                    CacheError,
                >(CacheError::IsolationMismatch)
                &&& res matches Ok(plan) ==> {
                    &&& u.write_isolation_key@ == auth.write_isolation_key@
                    &&& plan.file_key@ == decimal(u.file_id as nat)
                    &&& plan.s3_upload_id == u.s3_upload_id
                    &&& exists|j: int|
                        0 <= j < final(db).uploads.chunks().len() && #[trigger] final(db).uploads.chunks()[j].id == plan.part_id && final(db).uploads.chunks()[j].cache_upload
                            == id && final(db).uploads.chunks()[j].start_byte == start
                            && final(db).uploads.chunks()[j].size == len as i64 && final(db).uploads.chunks()[j].part_number == plan.part_number
                }
                &&& u.write_isolation_key@ == auth.write_isolation_key@
                    && !old(db).uploads.chunks_exhausted()
                    && max_part_number(old(db).uploads.chunks(), id) < i32::MAX ==> res is Ok
            },
{
    let start = match range {
        None => return Err(CacheError::MissingByteRange),
        Some((s, _)) => s,
    };
    proof {
        old(db).uploads.lemma_wf();
    }
    let upload = match db.uploads.find(id) {
        Ok(u) => u,
        Err(_) => {
            if db.entries.is_committed(id) {
                return Err(CacheError::AlreadyComplete);
            }
            return Err(CacheError::NotReserved);
        },
    };
    if !str_eq(auth.write_isolation_key.as_str(), upload.write_isolation_key.as_str()) {
        return Err(CacheError::IsolationMismatch);
    }
    let part = match db.uploads.chunk(id, len as i64, start as i64) {
        Ok(p) => p,
        Err(e) => return Err(CacheError::Db(e)),
    };
    proof {
        final(db).uploads.lemma_wf();
    }
    Ok(ChunkPlan {
        part_id: part.id,
        part_number: part.part_number,
        file_key: format_u64(upload.file_id),
        s3_upload_id: clone_opt_string(&upload.s3_upload_id),
    })
}

/// Records the storage's answer for a stored chunk: its S3 ETag, if the
/// storage gave one, and that upload `id` received data now.
pub fn finish_chunk(db: &mut Database, id: i32, part_id: i32, etag: Option<String>) -> (res: Result<(), CacheError>)
    requires
        old(db).wf(),
    ensures
        final(db).wf(),
        final(db).entries == old(db).entries,
        ({
            let part_known = exists|j: int|
                0 <= j < old(db).uploads.chunks().len() && #[trigger] old(db).uploads.chunks()[j].id
                    == part_id;
            &&& etag is Some && !part_known ==> res == Err::<(), CacheError>(
                CacheError::Db(DbError::NotFound),
            ) && unchanged(*final(db), *old(db))
            &&& (etag is None || part_known) && !has_upload(old(db).uploads.uploads(), id) ==> res
                == Err::<(), CacheError>(CacheError::Db(DbError::NotFound))
                && final(db).uploads.uploads() == old(db).uploads.uploads()
            &&& (etag is None || part_known) && has_upload(old(db).uploads.uploads(), id) ==> res is Ok
            &&& etag is None ==> final(db).uploads.chunks() == old(db).uploads.chunks()
            &&& (etag is Some && part_known) ==> exists|j: int|
                0 <= j < old(db).uploads.chunks().len() && #[trigger] old(db).uploads.chunks()[j].id
                    == part_id && final(db).uploads.chunks() == old(db).uploads.chunks().update(
                    j,
                    crate::db::CacheUploadPart { e_tag: etag, ..old(db).uploads.chunks()[j] },
                )
            &&& res is Ok ==> exists|i: int|
                0 <= i < old(db).uploads.uploads().len() && #[trigger] old(db).uploads.uploads()[i].id
                    == id && final(db).uploads.uploads() == old(db).uploads.uploads().update(
                    i,
                    CacheUpload { created_at: final(db).uploads.uploads()[i].created_at, ..old(db).uploads.uploads()[i] },
                )
        }),
{
    match etag {
        Some(t) => {
            match db.uploads.update_etag(part_id, t) {
                Ok(()) => {},
                Err(e) => return Err(CacheError::Db(e)),
            }
        },
        None => {},
    }
    match db.uploads.refresh_created_at(id) {
        Ok(()) => Ok(()),
        Err(e) => Err(CacheError::Db(e)),
    }
}

/// The total size of the chunks.
pub open spec fn parts_total(s: Seq<UploadPart>) -> int
    decreases s.len(),
{
    if s.len() == 0 {
        0
    } else {
        parts_total(s.drop_last()) + s.last().size
    }
}

/// Adds up the chunk sizes; none when the total does not fit a size.
pub fn total_size(parts: &Vec<UploadPart>) -> (res: Option<i64>)
    ensures
        match res {
            Some(t) => t == parts_total(parts@),
            None => parts_total(parts@) < i64::MIN || parts_total(parts@) > i64::MAX,
        },
{
    let mut acc: i128 = 0;
    let mut i: usize = 0;
    while i < parts.len()
        invariant
            i <= parts@.len(),
            acc == parts_total(parts@.take(i as int)),
            -(i as int) * 0x8000_0000_0000_0000 <= acc <= (i as int) * 0x8000_0000_0000_0000,
        decreases parts@.len() - i,
    {
        proof {
            assert(parts@.take(i + 1).drop_last() =~= parts@.take(i as int));
            let n: int = i as int;
            assert(n + 1 <= 0x1_0000_0000_0000_0000);
            assert((n + 1) * 0x8000_0000_0000_0000 <= 0x1_0000_0000_0000_0000 * 0x8000_0000_0000_0000) by (nonlinear_arith)
                requires
                    n + 1 <= 0x1_0000_0000_0000_0000,
            ;
            assert(-(n + 1) * 0x8000_0000_0000_0000 == -(n * 0x8000_0000_0000_0000) - 0x8000_0000_0000_0000) by (nonlinear_arith);
            assert((n + 1) * 0x8000_0000_0000_0000 == n * 0x8000_0000_0000_0000 + 0x8000_0000_0000_0000) by (nonlinear_arith);
        }
        acc = acc + parts[i].size as i128;
        i = i + 1;
    }
    assert(parts@.take(i as int) =~= parts@);
    if acc < i64::MIN as i128 || acc > i64::MAX as i128 {
        None
    } else {
        Some(acc as i64)
    }
}

/// What the storage does to assemble a committed file.
#[derive(Debug)]
pub struct CommitPlan {
    /// The object that the assembled file becomes.
    pub file_key: String,
    /// The S3 multipart upload, if the storage is S3.
    pub s3_upload_id: Option<String>,
    /// The chunks, in the order that makes up the file (ascending offsets).
    pub parts: Vec<UploadPart>,
    /// How the file is assembled: the chunk objects in that order, the k-th
    /// becoming part k + 1.
    pub steps: Vec<AssemblyStep>,
    /// The size of the file.
    pub size: i64,
}

/// Starts committing upload `id`: checks that it is reserved and that the
/// request's isolation key is the upload's, that its chunks add up to the
/// reserved size (when one was given); records a pending entry, and says how
/// the storage assembles the file: its chunk objects in ascending offset
/// order, numbered 1, 2, ... as parts.
pub fn prepare_commit(db: &mut Database, auth: &Auth, id: i32) -> (res: Result<CommitPlan, CacheError>)
    requires
        old(db).wf(),
    ensures
        final(db).wf(),
        final(db).uploads == old(db).uploads,
        final(db).entries.entries() == old(db).entries.entries(),
        final(db).entries.cleanups() == old(db).entries.cleanups(),
        final(db).entries.committed() == old(db).entries.committed(),
        res is Err ==> final(db).entries.pending() == old(db).entries.pending(),
        !has_upload(old(db).uploads.uploads(), id) ==> res == Err::<CommitPlan, CacheError>(
            missing_upload_error(*old(db), id),
        ),
        forall|i: int|
            0 <= i < old(db).uploads.uploads().len() && #[trigger] old(db).uploads.uploads()[i].id
                == id ==> {
                let u = old(db).uploads.uploads()[i];
                let parts = upload_parts_of(old(db).uploads.chunks(), id);
                let total = parts_total(parts);
                let overflow = total < i64::MIN || total > i64::MAX;
                let mismatch = (u.size matches Some(e) && e >= 0 && total != e);
                &&& u.write_isolation_key@ != auth.write_isolation_key@ ==> res == Err::<
                    CommitPlan,
                    CacheError,
                >(CacheError::IsolationMismatch)
                &&& u.write_isolation_key@ == auth.write_isolation_key@ && overflow ==> res
                    == Err::<CommitPlan, CacheError>(CacheError::SizeOverflow)
                &&& u.write_isolation_key@ == auth.write_isolation_key@ && !overflow && mismatch
                    ==> res == Err::<CommitPlan, CacheError>(
                    CacheError::SizeMismatch { size: total as i64, expected: u.size->0 },
                )
                &&& u.write_isolation_key@ == auth.write_isolation_key@ && !overflow && !mismatch
                    && has_entry(old(db).entries.pending(), id) ==> res == Err::<
                    CommitPlan,
                    CacheError,
                >(CacheError::Db(DbError::AlreadyExists))
                &&& u.write_isolation_key@ == auth.write_isolation_key@ && !overflow && !mismatch
                    && !has_entry(old(db).entries.pending(), id) ==> res is Ok
                &&& res matches Ok(plan) ==> {
                    &&& plan.size == total
                    &&& plan.file_key@ == decimal(u.file_id as nat)
                    &&& plan.s3_upload_id == u.s3_upload_id
                    &&& in_file_order(plan.parts@)
                    &&& same_chunks(plan.parts@, parts)
                    &&& plan.steps@.len() == plan.parts@.len()
                    &&& forall|k: int|
                        0 <= k < plan.steps@.len() ==> {
                            &&& (#[trigger] plan.steps@[k]).source@ == part_object_name(
                                plan.file_key@,
                                plan.parts@[k].part_number,
                            )
                            &&& plan.steps@[k].part_number == k + 1
                        }
                    &&& final(db).entries.pending() == old(db).entries.pending().push(
                        pending_from(u, total as i64, final(db).entries.pending().last().created_at),
                    )
                }
            },
{
    proof {
        old(db).uploads.lemma_wf();
    }
    let upload = match db.uploads.find(id) {
        Ok(u) => u,
        Err(_) => {
            if db.entries.is_committed(id) {
                return Err(CacheError::AlreadyComplete);
            }
            return Err(CacheError::NotReserved);
        },
    };
    if !str_eq(auth.write_isolation_key.as_str(), upload.write_isolation_key.as_str()) {
        return Err(CacheError::IsolationMismatch);
    }
    let parts = db.uploads.parts(id);
    let size = match total_size(&parts) {
        Some(t) => t,
        None => return Err(CacheError::SizeOverflow),
    };
    match upload.size {
        Some(expected) => {
            if expected >= 0 && size != expected {
                return Err(CacheError::SizeMismatch { size, expected });
            }
        },
        None => {},
    }
    proof {
        old(db).uploads.lemma_upload_parts_distinct(id);
    }
    let sorted = sort_parts(parts);
    let file_key = format_u64(upload.file_id);
    let steps = assembly_steps(file_key.as_str(), &sorted);
    let s3_upload_id = clone_opt_string(&upload.s3_upload_id);
    match db.entries.create_cache_pending(upload, size) {
        Ok(_) => {},
        Err(e) => return Err(CacheError::Db(e)),
    }
    Ok(CommitPlan { file_key, s3_upload_id, parts: sorted, steps, size })
}

/// Finishes committing upload `id` once the storage has assembled its file:
/// the pending entry becomes a complete entry (see
/// `CacheEntryTable::complete`).
pub fn finish_commit(db: &mut Database, id: i32) -> (res: Result<(), CacheError>)
    requires
        old(db).wf(),
    ensures
        final(db).wf(),
        !has_entry(old(db).entries.pending(), id) ==> res == Err::<(), CacheError>(
            CacheError::Db(DbError::NotFound),
        ),
        res is Err ==> unchanged(*final(db), *old(db)),
        res is Ok ==> final(db).entries.committed() == old(db).entries.committed().push(id),
        forall|k: int|
            0 <= k < old(db).entries.pending().len() && #[trigger] old(db).entries.pending()[k].id
                == id ==> {
                let p = old(db).entries.pending()[k];
                let replaced = exists|i: int|
                    0 <= i < old(db).entries.entries().len() && same_slot(
                        #[trigger] old(db).entries.entries()[i],
                        p,
                    );
                let clash = exists|i: int|
                    0 <= i < old(db).entries.entries().len() && #[trigger] old(db).entries.entries()[i].id
                        == id && !same_slot(old(db).entries.entries()[i], p);
                &&& clash ==> res == Err::<(), CacheError>(CacheError::Db(DbError::AlreadyExists))
                &&& !clash && replaced && old(db).entries.cleanups_exhausted() ==> res == Err::<
                    (),
                    CacheError,
                >(CacheError::Db(DbError::IdsExhausted))
                &&& !clash && !(replaced && old(db).entries.cleanups_exhausted()) ==> res is Ok
                &&& res is Ok ==> {
                    &&& final(db).entries.entries() == old(db).entries.entries().filter(
                        outside_slot(p),
                    ).push(p)
                    &&& final(db).entries.pending() == old(db).entries.pending().filter(
                        entry_other_than(id),
                    )
                    &&& final(db).uploads.uploads() == old(db).uploads.uploads().filter(
                        upload_other_than(id),
                    )
                    &&& final(db).uploads.chunks() == old(db).uploads.chunks().filter(
                        part_not_of(id),
                    )
                    &&& !replaced ==> final(db).entries.cleanups() == old(db).entries.cleanups()
                    &&& replaced ==> exists|i: int|
                        0 <= i < old(db).entries.entries().len() && same_slot(
                            #[trigger] old(db).entries.entries()[i],
                            p,
                        ) && exists|c: i32|
                            final(db).entries.cleanups() == old(db).entries.cleanups().push(
                                crate::db::CacheCleanup { id: c, file_id: old(db).entries.entries()[i].file_id },
                            )
                }
            },
{
    let r = db.entries.complete(&mut db.uploads, id);
    match r {
        Ok(()) => {
            proof {
                lemma_commit_keeps_agreement(*old(db), *db, id);
            }
            Ok(())
        },
        Err(e) => Err(CacheError::Db(e)),
    }
}

/// After a successful commit of upload `id`, the tables still agree (see
/// `Database::wf`).
proof fn lemma_commit_keeps_agreement(a: Database, b: Database, id: i32)
    requires
        a.wf(),
        b.entries.wf(),
        b.uploads.wf(),
        has_entry(a.entries.pending(), id),
        b.entries.committed() == a.entries.committed().push(id),
        b.uploads.next_id() == a.uploads.next_id(),
        b.uploads.next_file_id() == a.uploads.next_file_id(),
        b.uploads.uploads() == a.uploads.uploads().filter(upload_other_than(id)),
        b.entries.pending() == a.entries.pending().filter(entry_other_than(id)),
        forall|k: int|
            0 <= k < a.entries.pending().len() && #[trigger] a.entries.pending()[k].id == id ==> {
                let p = a.entries.pending()[k];
                &&& b.entries.entries() == a.entries.entries().filter(outside_slot(p)).push(p)
                &&& b.entries.cleanups() == a.entries.cleanups() || exists|i: int|
                    0 <= i < a.entries.entries().len() && exists|c: i32|
                        b.entries.cleanups() == a.entries.cleanups().push(
                            crate::db::CacheCleanup { id: c, file_id: #[trigger] a.entries.entries()[i].file_id },
                        )
            },
    ensures
        b.wf(),
{
    let k = choose|k: int| 0 <= k < a.entries.pending().len() && #[trigger] a.entries.pending()[k].id == id;
    let p = a.entries.pending()[k];
    let fu = crate::seqs::lemma_filter_embedding(a.uploads.uploads(), upload_other_than(id));
    let fp = crate::seqs::lemma_filter_embedding(a.entries.pending(), entry_other_than(id));
    let fe = crate::seqs::lemma_filter_embedding(a.entries.entries(), outside_slot(p));
    let nu = b.uploads.uploads();
    assert forall|m: int| 0 <= m < b.entries.committed().len() implies {
        &&& #[trigger] b.entries.committed()[m] < b.uploads.next_id()
        &&& !has_upload(nu, b.entries.committed()[m])
    } by {
        let c = b.entries.committed()[m];
        if m < a.entries.committed().len() {
            assert(c == a.entries.committed()[m]);
        } else {
            assert(c == id);
        }
        if has_upload(nu, c) {
            let i = choose|i: int| 0 <= i < nu.len() && #[trigger] nu[i].id == c;
            assert(nu[i] == a.uploads.uploads()[fu(i)]);
            assert(upload_other_than(id)(a.uploads.uploads()[fu(i)]));
        }
    }
    assert forall|m: int| 0 <= m < b.entries.pending().len() implies {
        &&& #[trigger] b.entries.pending()[m].id < b.uploads.next_id()
        &&& b.entries.pending()[m].file_id < b.uploads.next_file_id()
    } by {
        assert(b.entries.pending()[m] == a.entries.pending()[fp(m)]);
    }
    let ne = b.entries.entries();
    let kept = a.entries.entries().filter(outside_slot(p));
    assert forall|m: int| 0 <= m < ne.len() implies #[trigger] ne[m].file_id < b.uploads.next_file_id() by {
        if m < kept.len() {
            assert(ne[m] == kept[m]);
            assert(kept[m] == a.entries.entries()[fe(m)]);
        } else {
            assert(ne[m] == p);
        }
    }
    let nc = b.entries.cleanups();
    assert forall|m: int| 0 <= m < nc.len() implies #[trigger] nc[m].file_id < b.uploads.next_file_id() by {
        if nc != a.entries.cleanups() {
            let i = choose|i: int|
                0 <= i < a.entries.entries().len() && exists|c: i32|
                    b.entries.cleanups() == a.entries.cleanups().push(
                        crate::db::CacheCleanup { id: c, file_id: #[trigger] a.entries.entries()[i].file_id },
                    );
            let c = choose|c: i32| b.entries.cleanups() == a.entries.cleanups().push(
                crate::db::CacheCleanup { id: c, file_id: a.entries.entries()[i].file_id },
            );
            if m < a.entries.cleanups().len() {
                assert(nc[m] == a.entries.cleanups()[m]);
            } else {
                assert(nc[m].file_id == a.entries.entries()[i].file_id);
            }
        }
    }
}

} // verus!
