//! The table of reserved uploads and the chunks received for them.
use vstd::prelude::*;
use super::{CacheUpload, CacheUploadPart, DbError, clone_opt_string};
use crate::storage::{UploadPart, distinct_offsets};
use crate::seqs::{lemma_filter_embedding, retain_kept};

verus! {

broadcast use vstd::seq_lib::group_seq_properties;

/// Whether an upload with this id is in the sequence.
pub open spec fn has_upload(s: Seq<CacheUpload>, id: i32) -> bool {
    exists|i: int| 0 <= i < s.len() && #[trigger] s[i].id == id
}

/// Selects the uploads other than `id`.
pub open spec fn upload_other_than(id: i32) -> spec_fn(CacheUpload) -> bool {
    |u: CacheUpload| u.id != id
}

/// Selects the chunks of upload `id`.
pub open spec fn part_of(id: i32) -> spec_fn(CacheUploadPart) -> bool {
    |p: CacheUploadPart| p.cache_upload == id
}

/// Selects the chunks of uploads other than `id`.
pub open spec fn part_not_of(id: i32) -> spec_fn(CacheUploadPart) -> bool {
    |p: CacheUploadPart| p.cache_upload != id
}

/// Selects the uploads last touched before `before`.
pub open spec fn upload_created_before(before: i64) -> spec_fn(CacheUpload) -> bool {
    |u: CacheUpload| u.created_at < before
}

/// How a stored chunk is handed to the storage.
pub open spec fn upload_part_view(p: CacheUploadPart) -> UploadPart {
    UploadPart { part_number: p.part_number, etag: p.e_tag, size: p.size, start_byte: p.start_byte }
}

/// The highest part number among the chunks of upload `id`, or 0 when it
/// has none.
pub open spec fn max_part_number(parts: Seq<CacheUploadPart>, id: i32) -> int
    decreases parts.len(),
{
    if parts.len() == 0 {
        0
    } else {
        let m = max_part_number(parts.drop_last(), id);
        if parts.last().cache_upload == id && parts.last().part_number > m {
            parts.last().part_number as int
        } else {
            m
        }
    }
}

/// Every chunk of upload `id` has a part number of at most the maximum,
/// which is 0 or one of them.
pub proof fn lemma_max_part_number(parts: Seq<CacheUploadPart>, id: i32)
    ensures
        0 <= max_part_number(parts, id),
        forall|k: int|
            0 <= k < parts.len() && (#[trigger] parts[k]).cache_upload == id ==> parts[k].part_number
                <= max_part_number(parts, id),
        max_part_number(parts, id) == 0 || exists|k: int|
            0 <= k < parts.len() && (#[trigger] parts[k]).cache_upload == id && parts[k].part_number
                == max_part_number(parts, id),
    decreases parts.len(),
{
    if parts.len() > 0 {
        let t = parts.drop_last();
        lemma_max_part_number(t, id);
        assert forall|k: int| 0 <= k < t.len() implies t[k] == #[trigger] parts[k] by {}
        if max_part_number(parts, id) != 0 && max_part_number(parts, id) == max_part_number(t, id) {
            let k = choose|k: int|
                0 <= k < t.len() && (#[trigger] t[k]).cache_upload == id && t[k].part_number
                    == max_part_number(t, id);
            assert(parts[k] == t[k]);
        }
    }
}

/// The part numbers of the chunks of upload `id`, in table order.
pub open spec fn part_numbers(parts: Seq<CacheUploadPart>, id: i32) -> Seq<i32> {
    parts.filter(part_of(id)).map_values(|p: CacheUploadPart| p.part_number)
}

/// The chunks of upload `id` as handed to the storage, in table order.
pub open spec fn upload_parts_of(parts: Seq<CacheUploadPart>, id: i32) -> Seq<UploadPart> {
    parts.filter(part_of(id)).map_values(|p: CacheUploadPart| upload_part_view(p))
}

/// The table of uploads in progress (`cache_upload`) and of their chunks
/// (`cache_upload_part`).
pub struct CacheUploadTable {
    uploads: Vec<CacheUpload>,
    parts: Vec<CacheUploadPart>,
    next_upload_id: i32,
    next_part_id: i32,
    next_file_id: u64,
}

impl CacheUploadTable {
    /// The reserved uploads, in table order.
    pub closed spec fn uploads(&self) -> Seq<CacheUpload> {
        self.uploads@
    }

    /// The received chunks, in table order.
    pub closed spec fn chunks(&self) -> Seq<CacheUploadPart> {
        self.parts@
    }

    /// Whether the table can hand out no more upload or file ids.
    pub closed spec fn uploads_exhausted(&self) -> bool {
        self.next_upload_id == i32::MAX || self.next_file_id == u64::MAX
    }

    /// Whether the table can hand out no more chunk ids.
    pub closed spec fn chunks_exhausted(&self) -> bool {
        self.next_part_id == i32::MAX
    }

    /// The id the next reservation receives.
    pub closed spec fn next_id(&self) -> i32 {
        self.next_upload_id
    }

    /// The storage object id the next reservation receives.
    pub closed spec fn next_file_id(&self) -> u64 {
        self.next_file_id
    }

    /// The table's invariant: ids are positive, unique and below the next id
    /// to hand out; file ids are unique; each chunk belongs to an id that has
    /// been handed out, has a positive part number, and no two chunks of
    /// one upload start at the same byte or share a part number.
    pub closed spec fn wf(&self) -> bool {
        &&& 1 <= self.next_upload_id
        &&& 1 <= self.next_part_id
        &&& forall|i: int|
            #![trigger self.uploads@[i]]
            0 <= i < self.uploads@.len() ==> {
                &&& 1 <= self.uploads@[i].id < self.next_upload_id
                &&& self.uploads@[i].file_id < self.next_file_id
            }
        &&& forall|i: int, j: int|
            #![trigger self.uploads@[i], self.uploads@[j]]
            0 <= i < self.uploads@.len() && 0 <= j < self.uploads@.len() && i != j ==> {
                &&& self.uploads@[i].id != self.uploads@[j].id
                &&& self.uploads@[i].file_id != self.uploads@[j].file_id
            }
        &&& forall|i: int|
            #![trigger self.parts@[i]]
            0 <= i < self.parts@.len() ==> {
                &&& 1 <= self.parts@[i].id < self.next_part_id
                &&& 1 <= self.parts@[i].part_number
                &&& self.parts@[i].cache_upload < self.next_upload_id
            }
        &&& forall|i: int, j: int|
            #![trigger self.parts@[i], self.parts@[j]]
            0 <= i < self.parts@.len() && 0 <= j < self.parts@.len() && i != j ==> {
                &&& self.parts@[i].id != self.parts@[j].id
                &&& self.parts@[i].cache_upload == self.parts@[j].cache_upload ==> {
                    &&& self.parts@[i].start_byte != self.parts@[j].start_byte
                    &&& self.parts@[i].part_number != self.parts@[j].part_number
                }
            }
    }

    /// Consequences of the invariant that callers rely on.
    pub proof fn lemma_wf(&self)
        requires
            self.wf(),
        ensures
            self.next_id() >= 1,
            forall|i: int|
                #![trigger self.uploads()[i]]
                0 <= i < self.uploads().len() ==> 1 <= self.uploads()[i].id < self.next_id(),
            forall|i: int|
                #![trigger self.uploads()[i]]
                0 <= i < self.uploads().len() ==> self.uploads()[i].file_id < self.next_file_id(),
            forall|i: int, j: int|
                #![trigger self.uploads()[i], self.uploads()[j]]
                0 <= i < self.uploads().len() && 0 <= j < self.uploads().len() && i != j
                    ==> self.uploads()[i].id != self.uploads()[j].id
                    && self.uploads()[i].file_id != self.uploads()[j].file_id,
            forall|i: int|
                #![trigger self.chunks()[i]]
                0 <= i < self.chunks().len() ==> self.chunks()[i].cache_upload < self.next_id()
                    && 1 <= self.chunks()[i].part_number,
            forall|i: int, j: int|
                #![trigger self.chunks()[i], self.chunks()[j]]
                0 <= i < self.chunks().len() && 0 <= j < self.chunks().len() && i != j ==> {
                    &&& self.chunks()[i].id != self.chunks()[j].id
                    &&& self.chunks()[i].cache_upload == self.chunks()[j].cache_upload ==> {
                        &&& self.chunks()[i].start_byte != self.chunks()[j].start_byte
                        &&& self.chunks()[i].part_number != self.chunks()[j].part_number
                    }
                },
    {
    }

    /// The chunks of one upload, as handed to the storage, start at distinct
    /// offsets and carry distinct part numbers.
    pub proof fn lemma_upload_parts_distinct(&self, id: i32)
        requires
            self.wf(),
        ensures
            distinct_offsets(upload_parts_of(self.chunks(), id)),
            forall|i: int, j: int|
                0 <= i < upload_parts_of(self.chunks(), id).len() && 0 <= j < upload_parts_of(
                    self.chunks(),
                    id,
                ).len() && i != j ==> #[trigger] upload_parts_of(self.chunks(), id)[i].part_number
                    != #[trigger] upload_parts_of(self.chunks(), id)[j].part_number,
    {
        let c = self.parts@;
        let f = lemma_filter_embedding(c, part_of(id));
        let ps = upload_parts_of(c, id);
        let fc = c.filter(part_of(id));
        assert forall|i: int, j: int|
            #![trigger ps[i], ps[j]]
            0 <= i < ps.len() && 0 <= j < ps.len() && i != j implies ps[i].start_byte
                != ps[j].start_byte && ps[i].part_number != ps[j].part_number by {
            assert(ps[i] == upload_part_view(fc[i]));
            assert(ps[j] == upload_part_view(fc[j]));
            if i < j {
                assert(f(i) < f(j));
            } else {
                assert(f(j) < f(i));
            }
            assert(c[f(i)].cache_upload == id);
            assert(c[f(j)].cache_upload == id);
        }
    }

    /// An empty table.
    pub fn new() -> (res: Self)
        ensures
            res.wf(),
            res.uploads() == Seq::<CacheUpload>::empty(),
            res.chunks() == Seq::<CacheUploadPart>::empty(),
            !res.uploads_exhausted(),
            !res.chunks_exhausted(),
    {
        CacheUploadTable {
            uploads: Vec::new(),
            parts: Vec::new(),
            next_upload_id: 1,
            next_part_id: 1,
            next_file_id: 0,
        }
    }

    fn upload_position(&self, id: i32) -> (res: Option<usize>)
        ensures
            match res {
                Some(i) => i < self.uploads@.len() && self.uploads@[i as int].id == id,
                None => !has_upload(self.uploads@, id),
            },
    {
        let mut i: usize = 0;
        while i < self.uploads.len()
            invariant
                i <= self.uploads@.len(),
                forall|j: int| 0 <= j < i ==> self.uploads@[j].id != id,
            decreases self.uploads@.len() - i,
        {
            if self.uploads[i].id == id {
                return Some(i);
            }
            i = i + 1;
        }
        None
    }

    fn part_position(&self, id: i32, start: i64) -> (res: Option<usize>)
        ensures
            match res {
                Some(i) => i < self.parts@.len() && self.parts@[i as int].cache_upload == id
                    && self.parts@[i as int].start_byte == start,
                None => forall|j: int|
                    0 <= j < self.parts@.len() ==> !(#[trigger] self.parts@[j].cache_upload == id
                        && self.parts@[j].start_byte == start),
            },
    {
        let mut i: usize = 0;
        while i < self.parts.len()
            invariant
                i <= self.parts@.len(),
                forall|j: int|
                    0 <= j < i ==> !(#[trigger] self.parts@[j].cache_upload == id
                        && self.parts@[j].start_byte == start),
            decreases self.parts@.len() - i,
        {
            if self.parts[i].cache_upload == id && self.parts[i].start_byte == start {
                return Some(i);
            }
            i = i + 1;
        }
        None
    }

    fn part_id_position(&self, part_id: i32) -> (res: Option<usize>)
        ensures
            match res {
                Some(i) => i < self.parts@.len() && self.parts@[i as int].id == part_id,
                None => forall|j: int| 0 <= j < self.parts@.len() ==> #[trigger] self.parts@[j].id != part_id,
            },
    {
        let mut i: usize = 0;
        while i < self.parts.len()
            invariant
                i <= self.parts@.len(),
                forall|j: int| 0 <= j < i ==> #[trigger] self.parts@[j].id != part_id,
            decreases self.parts@.len() - i,
        {
            if self.parts[i].id == part_id {
                return Some(i);
            }
            i = i + 1;
        }
        None
    }

    /// Reserves a new upload made at time `now`; returns its id and the id of
    /// the storage object that will hold the file.
    pub fn reserve_at(
        &mut self,
        key: String,
        version: String,
        size: Option<i64>,
        repo: String,
        write_isolation_key: String,
        now: i64,
    ) -> (res: Result<(i32, u64), DbError>)
        requires
            old(self).wf(),
        ensures
            final(self).wf(),
            final(self).chunks() == old(self).chunks(),
            res is Err <==> old(self).uploads_exhausted(),
            match res {
                Ok((id, file_id)) => {
                    &&& id == old(self).next_id()
                    &&& final(self).next_id() == id + 1
                    &&& file_id == old(self).next_file_id()
                    &&& final(self).next_file_id() == file_id + 1
                    &&& !has_upload(old(self).uploads(), id)
                    &&& forall|i: int|
                        0 <= i < old(self).chunks().len() ==> #[trigger] old(self).chunks()[i].cache_upload
                            != id
                    &&& final(self).uploads() == old(self).uploads().push(
                        CacheUpload {
                            id,
                            repo,
                            key,
                            version,
                            write_isolation_key,
                            size,
                            created_at: now,
                            s3_upload_id: None,
                            file_id,
                        },
                    )
                    &&& !final(self).chunks_exhausted() == !old(self).chunks_exhausted()
                },
                Err(e) => e == DbError::IdsExhausted && final(self).uploads() == old(self).uploads()
                    && final(self).next_id() == old(self).next_id()
                    && final(self).next_file_id() == old(self).next_file_id(),
            },
    {
        if self.next_upload_id == i32::MAX || self.next_file_id == u64::MAX {
            return Err(DbError::IdsExhausted);
        }
        let id = self.next_upload_id;
        let file_id = self.next_file_id;
        self.uploads.push(
            CacheUpload {
                id,
                repo,
                key,
                version,
                write_isolation_key,
                size,
                created_at: now,
                s3_upload_id: None,
                file_id,
            },
        );
        self.next_upload_id = id + 1;
        self.next_file_id = file_id + 1;
        proof {
            let ou = old(self).uploads@;
            assert forall|i: int| 0 <= i < ou.len() implies #[trigger] ou[i].id != id by {
                assert(ou[i].id < id);
            }
            assert forall|i: int| 0 <= i < old(self).parts@.len() implies #[trigger] old(self).parts@[i].cache_upload != id by {
                assert(old(self).parts@[i].cache_upload < id);
            }
            assert(self.uploads@[ou.len() as int].id == id);
        }
        Ok((id, file_id))
    }

    /// Reserves a new upload now (see [`Self::reserve_at`]).
    pub fn reserve(
        &mut self,
        key: String,
        version: String,
        size: Option<i64>,
        repo: String,
        write_isolation_key: String,
    ) -> (res: Result<(i32, u64), DbError>)
        requires
            old(self).wf(),
        ensures
            final(self).wf(),
            final(self).chunks() == old(self).chunks(),
            res is Err <==> old(self).uploads_exhausted(),
            match res {
                Ok((id, file_id)) => final(self).uploads() == old(self).uploads().push(
                    CacheUpload {
                        id,
                        repo,
                        key,
                        version,
                        write_isolation_key,
                        size,
                        created_at: final(self).uploads().last().created_at,
                        s3_upload_id: None,
                        file_id,
                    },
                ) && id == old(self).next_id() && final(self).next_id() == id + 1
                    && file_id == old(self).next_file_id() && final(self).next_file_id() == file_id + 1,
                Err(e) => e == DbError::IdsExhausted && final(self).uploads() == old(self).uploads()
                    && final(self).next_id() == old(self).next_id()
                    && final(self).next_file_id() == old(self).next_file_id(),
            },
    {
        let now = crate::clock::now_unix_seconds();
        let res = self.reserve_at(key, version, size, repo, write_isolation_key, now);
        res
    }

    /// Records the S3 multipart upload id of an upload.
    pub fn set_s3_upload_id(&mut self, id: i32, s3_upload_id: String) -> (res: Result<(), DbError>)
        requires
            old(self).wf(),
        ensures
            final(self).wf(),
            final(self).next_file_id() == old(self).next_file_id(),
            final(self).chunks() == old(self).chunks(),
            final(self).uploads_exhausted() == old(self).uploads_exhausted(),
            final(self).chunks_exhausted() == old(self).chunks_exhausted(),
            final(self).next_id() == old(self).next_id(),
            res is Ok <==> has_upload(old(self).uploads(), id),
            res matches Err(e) ==> e == DbError::NotFound && final(self).uploads() == old(self).uploads(),
            res is Ok ==> exists|i: int|
                0 <= i < old(self).uploads().len() && #[trigger] old(self).uploads()[i].id == id
                    && final(self).uploads() == old(self).uploads().update(
                    i,
                    CacheUpload { s3_upload_id: Some(s3_upload_id), ..old(self).uploads()[i] },
                ),
    {
        match self.upload_position(id) {
            None => Err(DbError::NotFound),
            Some(i) => {
                let mut u = self.uploads[i].clone();
                u.s3_upload_id = Some(s3_upload_id);
                self.uploads.set(i, u);
                assert(old(self).uploads()[i as int].id == id);
                assert(self.uploads@ == old(self).uploads@.update(i as int, CacheUpload { s3_upload_id: Some(s3_upload_id), ..old(self).uploads@[i as int] }));
                Ok(())
            },
        }
    }

    /// Records a chunk of `size` bytes at offset `start` for upload `id`.
    /// A chunk at an offset seen before replaces that chunk's size; a new
    /// offset gets a new row, whose S3 part number is one above the highest
    /// part number of the upload's chunks (refused only when that is the
    /// largest `i32`).
    pub fn chunk(&mut self, id: i32, size: i64, start: i64) -> (res: Result<CacheUploadPart, DbError>)
        requires
            old(self).wf(),
        ensures
            final(self).wf(),
            final(self).next_file_id() == old(self).next_file_id(),
            final(self).uploads() == old(self).uploads(),
            final(self).uploads_exhausted() == old(self).uploads_exhausted(),
            final(self).next_id() == old(self).next_id(),
            res matches Ok(p) ==> exists|j: int|
                0 <= j < final(self).chunks().len() && #[trigger] final(self).chunks()[j] == p
                    && p.cache_upload == id && p.start_byte == start && p.size == size,
            res matches Err(e) ==> e != DbError::AlreadyExists,
            !has_upload(old(self).uploads(), id) ==> res == Err::<CacheUploadPart, DbError>(
                DbError::NotFound,
            ) && final(self).chunks() == old(self).chunks(),
            has_upload(old(self).uploads(), id) ==> {
                ||| exists|j: int|
                    0 <= j < old(self).chunks().len() && #[trigger] old(self).chunks()[j].cache_upload
                        == id && old(self).chunks()[j].start_byte == start && final(self).chunks()
                        == old(self).chunks().update(j, CacheUploadPart { size, ..old(self).chunks()[j] })
                        && res == Ok::<CacheUploadPart, DbError>(final(self).chunks()[j])
                        && final(self).chunks_exhausted() == old(self).chunks_exhausted()
                ||| (forall|j: int|
                    0 <= j < old(self).chunks().len() ==> !(#[trigger] old(self).chunks()[j].cache_upload
                        == id && old(self).chunks()[j].start_byte == start)) && (if old(self).chunks_exhausted()
                    || max_part_number(old(self).chunks(), id) >= i32::MAX {
                    res == Err::<CacheUploadPart, DbError>(DbError::IdsExhausted) && final(self).chunks() == old(self).chunks()
                } else {
                    exists|part: CacheUploadPart|
                        res == Ok::<CacheUploadPart, DbError>(part) && part.cache_upload == id
                            && part.start_byte == start && part.size == size && part.e_tag is None
                            && part.part_number == max_part_number(old(self).chunks(), id) + 1 && (forall|j: int|
                            0 <= j < old(self).chunks().len() ==> #[trigger] old(self).chunks()[j].id
                                != part.id) && final(self).chunks() == old(self).chunks().push(part)
                })
            },
    {
        if self.upload_position(id).is_none() {
            return Err(DbError::NotFound);
        }
        match self.part_position(id, start) {
            Some(j) => {
                let mut p = self.parts[j].clone();
                p.size = size;
                let res = p.clone();
                self.parts.set(j, p);
                proof {
                    assert(self.parts@ == old(self).parts@.update(j as int, CacheUploadPart { size, ..old(self).parts@[j as int] }));
                    assert(self.chunks()[j as int] == res);
                }
                Ok(res)
            },
            None => {
                if self.next_part_id == i32::MAX {
                    return Err(DbError::IdsExhausted);
                }
                let highest = self.highest_part_number(id);
                if highest == i32::MAX {
                    return Err(DbError::IdsExhausted);
                }
                let pid = self.next_part_id;
                let part = CacheUploadPart {
                    id: pid,
                    cache_upload: id,
                    start_byte: start,
                    size,
                    part_number: highest + 1,
                    e_tag: None,
                };
                let res = part.clone();
                self.parts.push(part);
                self.next_part_id = pid + 1;
                proof {
                    lemma_max_part_number(old(self).parts@, id);
                    let ghost k = choose|k: int| 0 <= k < self.uploads@.len() && #[trigger] self.uploads@[k].id == id;
                    assert(self.uploads@[k].id < self.next_upload_id);
                    assert(self.chunks()[old(self).parts@.len() as int] == res);
                }
                Ok(res)
            },
        }
    }

    fn highest_part_number(&self, id: i32) -> (res: i32)
        requires
            self.wf(),
        ensures
            res == max_part_number(self.parts@, id),
            0 <= res,
    {
        let mut m: i32 = 0;
        let mut i: usize = 0;
        while i < self.parts.len()
            invariant
                self.wf(),
                i <= self.parts@.len(),
                m == max_part_number(self.parts@.take(i as int), id),
                0 <= m,
            decreases self.parts@.len() - i,
        {
            proof {
                assert(self.parts@.take(i + 1).drop_last() =~= self.parts@.take(i as int));
            }
            if self.parts[i].cache_upload == id && self.parts[i].part_number > m {
                m = self.parts[i].part_number;
            }
            i = i + 1;
        }
        assert(self.parts@.take(i as int) =~= self.parts@);
        m
    }

    /// Records the S3 ETag of a stored chunk.
    pub fn update_etag(&mut self, part_id: i32, e_tag: String) -> (res: Result<(), DbError>)
        requires
            old(self).wf(),
        ensures
            final(self).wf(),
            final(self).next_file_id() == old(self).next_file_id(),
            final(self).uploads() == old(self).uploads(),
            final(self).uploads_exhausted() == old(self).uploads_exhausted(),
            final(self).chunks_exhausted() == old(self).chunks_exhausted(),
            final(self).next_id() == old(self).next_id(),
            res is Ok <==> exists|j: int|
                0 <= j < old(self).chunks().len() && #[trigger] old(self).chunks()[j].id == part_id,
            res matches Err(e) ==> e == DbError::NotFound && final(self).chunks() == old(self).chunks(),
            res is Ok ==> exists|j: int|
                0 <= j < old(self).chunks().len() && #[trigger] old(self).chunks()[j].id == part_id
                    && final(self).chunks() == old(self).chunks().update(
                    j,
                    CacheUploadPart { e_tag: Some(e_tag), ..old(self).chunks()[j] },
                ),
    {
        match self.part_id_position(part_id) {
            None => Err(DbError::NotFound),
            Some(j) => {
                let mut p = self.parts[j].clone();
                p.e_tag = Some(e_tag);
                self.parts.set(j, p);
                assert(old(self).parts@[j as int].id == part_id);
                Ok(())
            },
        }
    }

    /// The upload with this id.
    pub fn find(&self, id: i32) -> (res: Result<CacheUpload, DbError>)
        ensures
            res is Ok <==> has_upload(self.uploads(), id),
            res matches Ok(u) ==> exists|i: int|
                0 <= i < self.uploads().len() && #[trigger] self.uploads()[i].id == id && u
                    == self.uploads()[i],
            res matches Err(e) ==> e == DbError::NotFound,
    {
        match self.upload_position(id) {
            None => Err(DbError::NotFound),
            Some(i) => {
                assert(self.uploads()[i as int].id == id);
                Ok(self.uploads[i].clone())
            },
        }
    }

    /// The chunks of upload `id`, in table order.
    pub fn parts(&self, id: i32) -> (res: Vec<UploadPart>)
        ensures
            res@ == upload_parts_of(self.chunks(), id),
    {
        let ghost p = part_of(id);
        let ghost f = |q: CacheUploadPart| upload_part_view(q);
        let mut res: Vec<UploadPart> = Vec::new();
        let mut i: usize = 0;
        assert(self.parts@.take(0).filter(p) =~= Seq::<CacheUploadPart>::empty()) by {
            reveal(Seq::filter);
        }
        while i < self.parts.len()
            invariant
                i <= self.parts@.len(),
                p == part_of(id),
                f == (|q: CacheUploadPart| upload_part_view(q)),
                res@ == self.parts@.take(i as int).filter(p).map_values(f),
            decreases self.parts@.len() - i,
        {
            proof {
                assert(self.parts@.take(i + 1) =~= self.parts@.take(i as int).push(self.parts@[i as int]));
                self.parts@.take(i as int).lemma_filter_push(self.parts@[i as int], p);
            }
            let q = &self.parts[i];
            if q.cache_upload == id {
                res.push(
                    UploadPart {
                        part_number: q.part_number,
                        etag: clone_opt_string(&q.e_tag),
                        size: q.size,
                        start_byte: q.start_byte,
                    },
                );
                assert(res@ =~= self.parts@.take(i + 1).filter(p).map_values(f));
            } else {
                assert(res@ =~= self.parts@.take(i + 1).filter(p).map_values(f));
            }
            i = i + 1;
        }
        assert(self.parts@.take(i as int) =~= self.parts@);
        res
    }

    /// Marks upload `id` as touched at time `now`.
    pub fn refresh_created_at_at(&mut self, id: i32, now: i64) -> (res: Result<(), DbError>)
        requires
            old(self).wf(),
        ensures
            final(self).wf(),
            final(self).next_file_id() == old(self).next_file_id(),
            final(self).chunks() == old(self).chunks(),
            final(self).uploads_exhausted() == old(self).uploads_exhausted(),
            final(self).chunks_exhausted() == old(self).chunks_exhausted(),
            final(self).next_id() == old(self).next_id(),
            res is Ok <==> has_upload(old(self).uploads(), id),
            res matches Err(e) ==> e == DbError::NotFound && final(self).uploads() == old(self).uploads(),
            res is Ok ==> exists|i: int|
                0 <= i < old(self).uploads().len() && #[trigger] old(self).uploads()[i].id == id
                    && final(self).uploads() == old(self).uploads().update(
                    i,
                    CacheUpload { created_at: now, ..old(self).uploads()[i] },
                ),
    {
        match self.upload_position(id) {
            None => Err(DbError::NotFound),
            Some(i) => {
                let mut u = self.uploads[i].clone();
                u.created_at = now;
                self.uploads.set(i, u);
                assert(old(self).uploads()[i as int].id == id);
                assert(self.uploads@ == old(self).uploads@.update(i as int, CacheUpload { created_at: now, ..old(self).uploads@[i as int] }));
                Ok(())
            },
        }
    }

    /// Marks upload `id` as touched now (see [`Self::refresh_created_at_at`]).
    pub fn refresh_created_at(&mut self, id: i32) -> (res: Result<(), DbError>)
        requires
            old(self).wf(),
        ensures
            final(self).wf(),
            final(self).next_file_id() == old(self).next_file_id(),
            final(self).chunks() == old(self).chunks(),
            final(self).next_id() == old(self).next_id(),
            res is Ok <==> has_upload(old(self).uploads(), id),
            res matches Err(e) ==> e == DbError::NotFound && final(self).uploads() == old(self).uploads(),
            res is Ok ==> exists|i: int|
                0 <= i < old(self).uploads().len() && #[trigger] old(self).uploads()[i].id == id
                    && final(self).uploads() == old(self).uploads().update(
                    i,
                    CacheUpload { created_at: final(self).uploads()[i].created_at, ..old(self).uploads()[i] },
                ),
    {
        let now = crate::clock::now_unix_seconds();
        self.refresh_created_at_at(id, now)
    }

    /// The uploads last touched before `before`, each with the part numbers of
    /// its chunks.
    pub fn find_incomplete_uploads(&self, before: i64) -> (res: Vec<(CacheUpload, Vec<i32>)>)
        ensures
            res@.len() == self.uploads().filter(upload_created_before(before)).len(),
            forall|k: int|
                0 <= k < res@.len() ==> {
                    &&& (#[trigger] res@[k]).0 == self.uploads().filter(upload_created_before(before))[k]
                    &&& res@[k].1@ == part_numbers(self.chunks(), res@[k].0.id)
                },
    {
        let ghost p = upload_created_before(before);
        let mut res: Vec<(CacheUpload, Vec<i32>)> = Vec::new();
        let mut i: usize = 0;
        assert(self.uploads@.take(0).filter(p) =~= Seq::<CacheUpload>::empty()) by {
            reveal(Seq::filter);
        }
        while i < self.uploads.len()
            invariant
                i <= self.uploads@.len(),
                p == upload_created_before(before),
                res@.len() == self.uploads@.take(i as int).filter(p).len(),
                forall|k: int|
                    0 <= k < res@.len() ==> {
                        &&& (#[trigger] res@[k]).0 == self.uploads@.take(i as int).filter(p)[k]
                        &&& res@[k].1@ == part_numbers(self.parts@, res@[k].0.id)
                    },
            decreases self.uploads@.len() - i,
        {
            proof {
                assert(self.uploads@.take(i + 1) =~= self.uploads@.take(i as int).push(self.uploads@[i as int]));
                self.uploads@.take(i as int).lemma_filter_push(self.uploads@[i as int], p);
            }
            if self.uploads[i].created_at < before {
                let u = self.uploads[i].clone();
                let numbers = self.part_numbers_of(u.id);
                res.push((u, numbers));
            }
            i = i + 1;
        }
        assert(self.uploads@.take(i as int) =~= self.uploads@);
        res
    }

    fn part_numbers_of(&self, id: i32) -> (res: Vec<i32>)
        ensures
            res@ == part_numbers(self.parts@, id),
    {
        let ghost p = part_of(id);
        let ghost f = |q: CacheUploadPart| q.part_number;
        let mut res: Vec<i32> = Vec::new();
        let mut i: usize = 0;
        assert(self.parts@.take(0).filter(p) =~= Seq::<CacheUploadPart>::empty()) by {
            reveal(Seq::filter);
        }
        while i < self.parts.len()
            invariant
                i <= self.parts@.len(),
                p == part_of(id),
                f == (|q: CacheUploadPart| q.part_number),
                res@ == self.parts@.take(i as int).filter(p).map_values(f),
            decreases self.parts@.len() - i,
        {
            proof {
                assert(self.parts@.take(i + 1) =~= self.parts@.take(i as int).push(self.parts@[i as int]));
                self.parts@.take(i as int).lemma_filter_push(self.parts@[i as int], p);
            }
            if self.parts[i].cache_upload == id {
                res.push(self.parts[i].part_number);
            }
            assert(res@ =~= self.parts@.take(i + 1).filter(p).map_values(f));
            i = i + 1;
        }
        assert(self.parts@.take(i as int) =~= self.parts@);
        res
    }

    /// Removes upload `id` together with its chunks.
    pub fn delete(&mut self, id: i32)
        requires
            old(self).wf(),
        ensures
            final(self).wf(),
            final(self).next_file_id() == old(self).next_file_id(),
            final(self).uploads() == old(self).uploads().filter(upload_other_than(id)),
            final(self).chunks() == old(self).chunks().filter(part_not_of(id)),
            final(self).uploads_exhausted() == old(self).uploads_exhausted(),
            final(self).chunks_exhausted() == old(self).chunks_exhausted(),
            final(self).next_id() == old(self).next_id(),
    {
        let of_upload = (|u: &CacheUpload| -> (r: bool)
            ensures
                r == !upload_other_than(id)(*u),
        {
            u.id == id
        });
        retain_kept(&mut self.uploads, of_upload, Ghost(upload_other_than(id)));
        let part_of_upload = (|p: &CacheUploadPart| -> (r: bool)
            ensures
                r == !part_not_of(id)(*p),
        {
            p.cache_upload == id
        });
        retain_kept(&mut self.parts, part_of_upload, Ghost(part_not_of(id)));
        proof {
            let ou = old(self).uploads@;
            let op = old(self).parts@;
            let fu = lemma_filter_embedding(ou, upload_other_than(id));
            let fp = lemma_filter_embedding(op, part_not_of(id));
            let nu = self.uploads@;
            let np = self.parts@;
            assert forall|i: int, j: int|
                0 <= i < nu.len() && 0 <= j < nu.len() && i != j implies {
                    &&& #[trigger] nu[i].id != #[trigger] nu[j].id
                    &&& nu[i].file_id != nu[j].file_id
                } by {
                if i < j {
                    assert(fu(i) < fu(j));
                } else {
                    assert(fu(j) < fu(i));
                }
                assert(nu[i] == ou[fu(i)]);
                assert(nu[j] == ou[fu(j)]);
            }
            assert forall|i: int| 0 <= i < nu.len() implies {
                &&& 1 <= #[trigger] nu[i].id < self.next_upload_id
                &&& nu[i].file_id < self.next_file_id
            } by {
                assert(nu[i] == ou[fu(i)]);
            }
            assert forall|i: int| 0 <= i < np.len() implies {
                &&& 1 <= #[trigger] np[i].id < self.next_part_id
                &&& 1 <= np[i].part_number
                &&& np[i].cache_upload < self.next_upload_id
            } by {
                assert(np[i] == op[fp(i)]);
            }
            assert forall|i: int, j: int|
                0 <= i < np.len() && 0 <= j < np.len() && i != j implies {
                    &&& #[trigger] np[i].id != #[trigger] np[j].id
                    &&& np[i].cache_upload == np[j].cache_upload ==> {
                        &&& np[i].start_byte != np[j].start_byte
                        &&& np[i].part_number != np[j].part_number
                    }
                } by {
                if i < j {
                    assert(fp(i) < fp(j));
                } else {
                    assert(fp(j) < fp(i));
                }
                assert(np[i] == op[fp(i)]);
                assert(np[j] == op[fp(j)]);
            }
        }
    }
}

} // verus!
