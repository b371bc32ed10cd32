//! The table of cache entries: pending entries whose file is being
//! assembled, complete entries that lookups can hit, and files whose entry
//! was replaced.
use vstd::prelude::*;
use super::{CacheCleanup, CacheEntry, CacheUpload, DbError};
use super::cache_upload::{CacheUploadTable, part_not_of, upload_other_than};
use crate::auth::{Auth, AuthView};
use crate::seqs::{lemma_filter_embedding, retain_kept};
use crate::text::{is_prefix, starts_with, str_eq, string_views};

verus! {

broadcast use vstd::seq_lib::group_seq_properties;

/// Whether two entries occupy the same slot: same repository, version,
/// isolation key and cache key.
pub open spec fn same_slot(a: CacheEntry, b: CacheEntry) -> bool {
    &&& a.repo@ == b.repo@
    &&& a.version@ == b.version@
    &&& a.write_isolation_key@ == b.write_isolation_key@
    &&& a.key@ == b.key@
}

/// Selects the entries whose id is not `id`.
pub open spec fn entry_other_than(id: i32) -> spec_fn(CacheEntry) -> bool {
    |e: CacheEntry| e.id != id
}

/// Selects the entries outside the slot of `x`.
pub open spec fn outside_slot(x: CacheEntry) -> spec_fn(CacheEntry) -> bool {
    |e: CacheEntry| !same_slot(e, x)
}

/// Which timestamp of an entry a garbage-collection query looks at.
#[derive(Clone, Copy, PartialEq, Eq, Debug)]
pub enum TimeField {
    CreatedAt,
    UsedAt,
}

/// Selects the entries whose chosen timestamp lies before `before`.
pub open spec fn stamped_before(field: TimeField, before: i64) -> spec_fn(CacheEntry) -> bool {
    |e: CacheEntry|
        match field {
            TimeField::CreatedAt => e.created_at < before,
            TimeField::UsedAt => e.used_at < before,
        }
}

/// How a lookup compares a requested key with an entry's key.
#[derive(Clone, Copy, PartialEq, Eq, Debug)]
pub enum KeyMatch {
    /// The keys are equal.
    Exact,
    /// The requested key is a prefix of the entry's key.
    Prefix,
}

/// Selects the entries of `repo`, `version` and isolation key `wik` whose key
/// matches `key`.
pub open spec fn candidate(
    repo: Seq<char>,
    version: Seq<char>,
    wik: Seq<char>,
    key: Seq<char>,
    kind: KeyMatch,
) -> spec_fn(CacheEntry) -> bool {
    |e: CacheEntry|
        e.repo@ == repo && e.version@ == version && e.write_isolation_key@ == wik && match kind {
            KeyMatch::Exact => e.key@ == key,
            KeyMatch::Prefix => is_prefix(key, e.key@),
        }
}

/// The position of the newest entry that `pred` selects (the first of those
/// with the latest creation time), or -1 when it selects none.
pub open spec fn newest(s: Seq<CacheEntry>, pred: spec_fn(CacheEntry) -> bool) -> int
    decreases s.len(),
{
    if s.len() == 0 {
        -1
    } else {
        let r = newest(s.drop_last(), pred);
        if pred(s.last()) && (r == -1 || s[r].created_at < s.last().created_at) {
            s.len() - 1
        } else {
            r
        }
    }
}

/// The position of the entry that a lookup of `keys` finds among the entries
/// of `repo`, `version` and isolation key `wik`, or -1: keys are tried in
/// order; for each, the newest exact match wins, then the newest entry whose
/// key starts with it.
pub open spec fn search(
    s: Seq<CacheEntry>,
    keys: Seq<Seq<char>>,
    version: Seq<char>,
    repo: Seq<char>,
    wik: Seq<char>,
) -> int
    decreases keys.len(),
{
    if keys.len() == 0 {
        -1
    } else {
        let exact = newest(s, candidate(repo, version, wik, keys[0], KeyMatch::Exact));
        if exact >= 0 {
            exact
        } else {
            let prefix = newest(s, candidate(repo, version, wik, keys[0], KeyMatch::Prefix));
            if prefix >= 0 {
                prefix
            } else {
                search(s, keys.drop_first(), version, repo, wik)
            }
        }
    }
}

/// The position of the entry that a request finds, or -1: first among the
/// entries of its own isolation key, then, if it has one, among the entries
/// without isolation key.
pub open spec fn lookup(s: Seq<CacheEntry>, keys: Seq<Seq<char>>, version: Seq<char>, auth: AuthView) -> int {
    let own = search(s, keys, version, auth.repo, auth.write_isolation_key);
    if own >= 0 {
        own
    } else if auth.write_isolation_key.len() > 0 {
        search(s, keys, version, auth.repo, Seq::empty())
    } else {
        -1
    }
}

/// The entry at a position, or none for -1.
pub open spec fn entry_at(s: Seq<CacheEntry>, i: int) -> Option<CacheEntry> {
    if 0 <= i < s.len() {
        Some(s[i])
    } else {
        None
    }
}

/// The pending entry made from an upload.
pub open spec fn pending_from(upload: CacheUpload, size: i64, now: i64) -> CacheEntry {
    CacheEntry {
        id: upload.id,
        repo: upload.repo,
        key: upload.key,
        version: upload.version,
        write_isolation_key: upload.write_isolation_key,
        size,
        created_at: now,
        used_at: now,
        file_id: upload.file_id,
    }
}

/// Whether an entry with this id is in the sequence.
pub open spec fn has_entry(s: Seq<CacheEntry>, id: i32) -> bool {
    exists|i: int| 0 <= i < s.len() && #[trigger] s[i].id == id
}

proof fn lemma_newest_bounds(s: Seq<CacheEntry>, pred: spec_fn(CacheEntry) -> bool)
    ensures
        -1 <= newest(s, pred) < s.len(),
        newest(s, pred) >= 0 ==> pred(s[newest(s, pred)]),
    decreases s.len(),
{
    if s.len() > 0 {
        lemma_newest_bounds(s.drop_last(), pred);
    }
}

/// The newest selected entry is selected, no selected entry is newer, and
/// when it is -1 nothing is selected.
pub proof fn lemma_newest(s: Seq<CacheEntry>, pred: spec_fn(CacheEntry) -> bool)
    ensures
        -1 <= newest(s, pred) < s.len(),
        newest(s, pred) >= 0 ==> pred(s[newest(s, pred)]),
        newest(s, pred) >= 0 ==> forall|j: int|
            0 <= j < s.len() && pred(#[trigger] s[j]) ==> s[j].created_at <= s[newest(
                s,
                pred,
            )].created_at,
        newest(s, pred) == -1 ==> forall|j: int| 0 <= j < s.len() ==> !pred(#[trigger] s[j]),
    decreases s.len(),
{
    lemma_newest_bounds(s, pred);
    if s.len() > 0 {
        let t = s.drop_last();
        lemma_newest(t, pred);
        assert forall|j: int| 0 <= j < t.len() implies t[j] == #[trigger] s[j] by {}
    }
}

/// The table of cache entries (`cache_entry`), pending entries
/// (`cache_entry_pending`) and replaced files (`cache_cleanup`).
pub struct CacheEntryTable {
    entries: Vec<CacheEntry>,
    pending: Vec<CacheEntry>,
    cleanup: Vec<CacheCleanup>,
    next_cleanup_id: i32,
    committed: Vec<i32>,
}

fn entry_same_slot(a: &CacheEntry, b: &CacheEntry) -> (res: bool)
    ensures
        res == same_slot(*a, *b),
{
    str_eq(a.repo.as_str(), b.repo.as_str()) && str_eq(a.version.as_str(), b.version.as_str())
        && str_eq(a.write_isolation_key.as_str(), b.write_isolation_key.as_str()) && str_eq(
        a.key.as_str(),
        b.key.as_str(),
    )
}

/// Removes the rows with id `id`.
fn remove_id(v: &mut Vec<CacheEntry>, id: i32)
    ensures
        final(v)@ == old(v)@.filter(entry_other_than(id)),
{
    let has_id = (|e: &CacheEntry| -> (r: bool)
        ensures
            r == !entry_other_than(id)(*e),
    {
        e.id == id
    });
    retain_kept(v, has_id, Ghost(entry_other_than(id)));
}

/// Removes the rows in the slot of `x`.
fn remove_slot(v: &mut Vec<CacheEntry>, x: &CacheEntry)
    ensures
        final(v)@ == old(v)@.filter(outside_slot(*x)),
{
    let in_slot = (|e: &CacheEntry| -> (r: bool)
        ensures
            r == !outside_slot(*x)(*e),
    {
        entry_same_slot(e, x)
    });
    retain_kept(v, in_slot, Ghost(outside_slot(*x)));
}

/// The rows whose chosen timestamp lies before `before`, in table order.
fn entries_before(v: &Vec<CacheEntry>, field: TimeField, before: i64) -> (res: Vec<CacheEntry>)
    ensures
        res@ == v@.filter(stamped_before(field, before)),
{
    let ghost p = stamped_before(field, before);
    let mut res: Vec<CacheEntry> = Vec::new();
    let mut i: usize = 0;
    assert(v@.take(0).filter(p) =~= Seq::<CacheEntry>::empty()) by {
        reveal(Seq::filter);
    }
    while i < v.len()
        invariant
            i <= v@.len(),
            p == stamped_before(field, before),
            res@ == v@.take(i as int).filter(p),
        decreases v@.len() - i,
    {
        proof {
            assert(v@.take(i + 1) =~= v@.take(i as int).push(v@[i as int]));
            v@.take(i as int).lemma_filter_push(v@[i as int], p);
        }
        let stamp = match field {
            TimeField::CreatedAt => v[i].created_at,
            TimeField::UsedAt => v[i].used_at,
        };
        if stamp < before {
            res.push(v[i].clone());
        }
        i = i + 1;
    }
    assert(v@.take(i as int) =~= v@);
    res
}

fn entry_position(v: &Vec<CacheEntry>, id: i32) -> (res: Option<usize>)
    ensures
        match res {
            Some(i) => i < v@.len() && v@[i as int].id == id,
            None => !has_entry(v@, id),
        },
{
    let mut i: usize = 0;
    while i < v.len()
        invariant
            i <= v@.len(),
            forall|j: int| 0 <= j < i ==> v@[j].id != id,
        decreases v@.len() - i,
    {
        if v[i].id == id {
            return Some(i);
        }
        i = i + 1;
    }
    None
}

fn slot_position(v: &Vec<CacheEntry>, x: &CacheEntry) -> (res: Option<usize>)
    ensures
        match res {
            Some(i) => i < v@.len() && same_slot(v@[i as int], *x),
            None => forall|j: int| 0 <= j < v@.len() ==> !same_slot(#[trigger] v@[j], *x),
        },
{
    let mut i: usize = 0;
    while i < v.len()
        invariant
            i <= v@.len(),
            forall|j: int| 0 <= j < i ==> !same_slot(#[trigger] v@[j], *x),
        decreases v@.len() - i,
    {
        if entry_same_slot(&v[i], x) {
            return Some(i);
        }
        i = i + 1;
    }
    None
}

/// Whether the entry is one that `candidate(repo, version, wik, key, kind)` selects.
fn is_candidate(e: &CacheEntry, repo: &str, version: &str, wik: &str, key: &str, kind: KeyMatch) -> (res: bool)
    ensures
        res == candidate(repo@, version@, wik@, key@, kind)(*e),
{
    str_eq(e.repo.as_str(), repo) && str_eq(e.version.as_str(), version) && str_eq(
        e.write_isolation_key.as_str(),
        wik,
    ) && match kind {
        KeyMatch::Exact => str_eq(e.key.as_str(), key),
        KeyMatch::Prefix => starts_with(e.key.as_str(), key),
    }
}

/// The position of the newest candidate (see [`newest`]).
fn newest_candidate(
    v: &Vec<CacheEntry>,
    repo: &str,
    version: &str,
    wik: &str,
    key: &str,
    kind: KeyMatch,
) -> (res: Option<usize>)
    ensures
        match res {
            Some(i) => i < v@.len() && newest(v@, candidate(repo@, version@, wik@, key@, kind)) == i,
            None => newest(v@, candidate(repo@, version@, wik@, key@, kind)) == -1,
        },
{
    let ghost pred = candidate(repo@, version@, wik@, key@, kind);
    let mut best: Option<usize> = None;
    let mut i: usize = 0;
    while i < v.len()
        invariant
            i <= v@.len(),
            pred == candidate(repo@, version@, wik@, key@, kind),
            match best {
                Some(b) => b < i && newest(v@.take(i as int), pred) == b,
                None => newest(v@.take(i as int), pred) == -1,
            },
        decreases v@.len() - i,
    {
        proof {
            let t = v@.take(i + 1);
            assert(t.drop_last() =~= v@.take(i as int));
            assert(t.last() == v@[i as int]);
            lemma_newest_bounds(v@.take(i as int), pred);
            if let Some(b) = best {
                assert(t[b as int] == v@[b as int]);
            }
        }
        if is_candidate(&v[i], repo, version, wik, key, kind) {
            match best {
                None => {
                    best = Some(i);
                },
                Some(b) => {
                    if v[b].created_at < v[i].created_at {
                        best = Some(i);
                    }
                },
            }
        }
        i = i + 1;
    }
    assert(v@.take(i as int) =~= v@);
    best
}

impl CacheEntryTable {
    /// The complete entries, in table order.
    pub closed spec fn entries(&self) -> Seq<CacheEntry> {
        self.entries@
    }

    /// The pending entries, in table order.
    pub closed spec fn pending(&self) -> Seq<CacheEntry> {
        self.pending@
    }

    /// The files queued for removal, in table order.
    pub closed spec fn cleanups(&self) -> Seq<CacheCleanup> {
        self.cleanup@
    }

    /// The ids of the uploads that were committed, in commit order.
    pub closed spec fn committed(&self) -> Seq<i32> {
        self.committed@
    }

    /// Whether the table can hand out no more cleanup ids.
    pub closed spec fn cleanups_exhausted(&self) -> bool {
        self.next_cleanup_id == i32::MAX
    }

    /// The table's invariant: complete entries have unique ids and no two
    /// share a slot; pending entries have unique ids; cleanup ids are
    /// positive, unique and below the next one to hand out.
    pub closed spec fn wf(&self) -> bool {
        &&& 1 <= self.next_cleanup_id
        &&& forall|i: int, j: int|
            #![trigger self.entries@[i], self.entries@[j]]
            0 <= i < self.entries@.len() && 0 <= j < self.entries@.len() && i != j ==> {
                &&& self.entries@[i].id != self.entries@[j].id
                &&& !same_slot(self.entries@[i], self.entries@[j])
            }
        &&& forall|i: int, j: int|
            #![trigger self.pending@[i], self.pending@[j]]
            0 <= i < self.pending@.len() && 0 <= j < self.pending@.len() && i != j
                ==> self.pending@[i].id != self.pending@[j].id
        &&& forall|i: int|
            #![trigger self.cleanup@[i]]
            0 <= i < self.cleanup@.len() ==> 1 <= self.cleanup@[i].id < self.next_cleanup_id
        &&& forall|i: int, j: int|
            #![trigger self.cleanup@[i], self.cleanup@[j]]
            0 <= i < self.cleanup@.len() && 0 <= j < self.cleanup@.len() && i != j
                ==> self.cleanup@[i].id != self.cleanup@[j].id
    }

    /// Consequences of the invariant that callers rely on: no two complete
    /// entries share an id or a slot, and no two pending entries share an id.
    pub proof fn lemma_wf(&self)
        requires
            self.wf(),
        ensures
            forall|i: int, j: int|
                #![trigger self.entries()[i], self.entries()[j]]
                0 <= i < self.entries().len() && 0 <= j < self.entries().len() && i != j ==> {
                    &&& self.entries()[i].id != self.entries()[j].id
                    &&& !same_slot(self.entries()[i], self.entries()[j])
                },
            forall|i: int, j: int|
                #![trigger self.pending()[i], self.pending()[j]]
                0 <= i < self.pending().len() && 0 <= j < self.pending().len() && i != j
                    ==> self.pending()[i].id != self.pending()[j].id,
    {
    }

    /// An empty table.
    pub fn new() -> (res: Self)
        ensures
            res.wf(),
            res.entries() == Seq::<CacheEntry>::empty(),
            res.pending() == Seq::<CacheEntry>::empty(),
            res.cleanups() == Seq::<CacheCleanup>::empty(),
            res.committed() == Seq::<i32>::empty(),
            !res.cleanups_exhausted(),
    {
        CacheEntryTable {
            entries: Vec::new(),
            pending: Vec::new(),
            cleanup: Vec::new(),
            next_cleanup_id: 1,
            committed: Vec::new(),
        }
    }

    /// Records a pending entry for a finished upload of `size` bytes at time
    /// `now`; its id is the upload's.
    pub fn create_cache_pending_at(&mut self, upload: CacheUpload, size: i64, now: i64) -> (res: Result<i32, DbError>)
        requires
            old(self).wf(),
        ensures
            final(self).wf(),
            final(self).committed() == old(self).committed(),
            final(self).entries() == old(self).entries(),
            final(self).cleanups() == old(self).cleanups(),
            final(self).cleanups_exhausted() == old(self).cleanups_exhausted(),
            res is Err <==> has_entry(old(self).pending(), upload.id),
            match res {
                Ok(id) => id == upload.id && final(self).pending() == old(self).pending().push(
                    pending_from(upload, size, now),
                ),
                Err(e) => e == DbError::AlreadyExists && final(self).pending() == old(
                    self).pending(),
            },
    {
        if entry_position(&self.pending, upload.id).is_some() {
            return Err(DbError::AlreadyExists);
        }
        let id = upload.id;
        self.pending.push(
            CacheEntry {
                id: upload.id,
                repo: upload.repo,
                key: upload.key,
                version: upload.version,
                write_isolation_key: upload.write_isolation_key,
                size,
                created_at: now,
                used_at: now,
                file_id: upload.file_id,
            },
        );
        Ok(id)
    }

    /// Records a pending entry now (see [`Self::create_cache_pending_at`]).
    pub fn create_cache_pending(&mut self, upload: CacheUpload, size: i64) -> (res: Result<i32, DbError>)
        requires
            old(self).wf(),
        ensures
            final(self).wf(),
            final(self).committed() == old(self).committed(),
            final(self).entries() == old(self).entries(),
            final(self).cleanups() == old(self).cleanups(),
            final(self).cleanups_exhausted() == old(self).cleanups_exhausted(),
            res is Err <==> has_entry(old(self).pending(), upload.id),
            match res {
                Ok(id) => id == upload.id && final(self).pending() == old(self).pending().push(
                    pending_from(upload, size, final(self).pending().last().created_at),
                ),
                Err(e) => e == DbError::AlreadyExists && final(self).pending() == old(
                    self).pending(),
            },
    {
        let now = crate::clock::now_unix_seconds();
        self.create_cache_pending_at(upload, size, now)
    }

    /// Whether upload `id` was committed.
    pub fn is_committed(&self, id: i32) -> (res: bool)
        ensures
            res == self.committed().contains(id),
    {
        let mut i: usize = 0;
        while i < self.committed.len()
            invariant
                i <= self.committed@.len(),
                forall|j: int| 0 <= j < i ==> self.committed@[j] != id,
            decreases self.committed@.len() - i,
        {
            if self.committed[i] == id {
                assert(self.committed@[i as int] == id);
                return true;
            }
            i = i + 1;
        }
        false
    }

    /// The complete entry with this id, if there is one.
    pub fn find_by_id(&self, id: i32) -> (res: Option<CacheEntry>)
        ensures
            res is Some <==> has_entry(self.entries(), id),
            res matches Some(e) ==> exists|i: int|
                0 <= i < self.entries().len() && #[trigger] self.entries()[i].id == id && e
                    == self.entries()[i],
    {
        match entry_position(&self.entries, id) {
            None => None,
            Some(i) => {
                assert(self.entries()[i as int].id == id);
                Some(self.entries[i].clone())
            },
        }
    }

    /// The complete entry with this id.
    fn find(&self, id: i32) -> (res: Result<CacheEntry, DbError>)
        ensures
            res is Ok <==> has_entry(self.entries(), id),
            res matches Ok(e) ==> exists|i: int|
                0 <= i < self.entries().len() && #[trigger] self.entries()[i].id == id && e
                    == self.entries()[i],
            res matches Err(e) ==> e == DbError::NotFound,
    {
        match self.find_by_id(id) {
            Some(e) => Ok(e),
            None => Err(DbError::NotFound),
        }
    }

    /// Turns the pending entry `id` into a complete entry. A complete entry
    /// in the same slot is replaced and its file queued for removal; the
    /// pending entry and the upload `id` (with its chunks) are removed. On an
    /// error nothing changes.
    pub fn complete(&mut self, uploads: &mut CacheUploadTable, id: i32) -> (res: Result<(), DbError>)
        requires
            old(self).wf(),
            old(uploads).wf(),
        ensures
            final(self).wf(),
            final(uploads).wf(),
            !has_entry(old(self).pending(), id) ==> res == Err::<(), DbError>(DbError::NotFound),
            res is Err ==> final(self).committed() == old(self).committed(),
            res is Ok ==> final(self).committed() == old(self).committed().push(id),
            final(uploads).next_file_id() == old(uploads).next_file_id(),
            res is Err ==> final(self).entries() == old(self).entries() && final(self).pending()
                == old(self).pending() && final(self).cleanups() == old(self).cleanups()
                && final(uploads).uploads() == old(uploads).uploads() && final(uploads).chunks()
                == old(uploads).chunks(),
            final(uploads).uploads_exhausted() == old(uploads).uploads_exhausted(),
            final(uploads).chunks_exhausted() == old(uploads).chunks_exhausted(),
            final(uploads).next_id() == old(uploads).next_id(),
            final(self).cleanups_exhausted() ==> old(self).cleanups_exhausted() || res is Ok,
            final(self).cleanups() == old(self).cleanups() ==> final(self).cleanups_exhausted()
                == old(self).cleanups_exhausted(),
            forall|k: int|
                0 <= k < old(self).pending().len() && #[trigger] old(self).pending()[k].id == id
                    ==> {
                    let p = old(self).pending()[k];
                    let replaced = exists|i: int|
                        0 <= i < old(self).entries().len() && same_slot(
                            #[trigger] old(self).entries()[i],
                            p,
                        );
                    let clash = exists|i: int|
                        0 <= i < old(self).entries().len() && #[trigger] old(self).entries()[i].id
                            == id && !same_slot(old(self).entries()[i], p);
                    &&& clash ==> res == Err::<(), DbError>(DbError::AlreadyExists)
                    &&& !clash && replaced && old(self).cleanups_exhausted() ==> res == Err::<
                        (),
                        DbError,
                    >(DbError::IdsExhausted)
                    &&& !clash && !(replaced && old(self).cleanups_exhausted()) ==> res is Ok
                    &&& res is Ok ==> {
                        &&& final(self).entries() == old(self).entries().filter(
                            outside_slot(p),
                        ).push(p)
                        &&& final(self).pending() == old(self).pending().filter(
                            entry_other_than(id),
                        )
                        &&& final(uploads).uploads() == old(uploads).uploads().filter(
                            upload_other_than(id),
                        )
                        &&& final(uploads).chunks() == old(uploads).chunks().filter(
                            part_not_of(id),
                        )
                        &&& !replaced ==> final(self).cleanups() == old(self).cleanups()
                        &&& replaced ==> exists|i: int|
                            0 <= i < old(self).entries().len() && same_slot(
                                #[trigger] old(self).entries()[i],
                                p,
                            ) && exists|c: i32|
                                final(self).cleanups() == old(self).cleanups().push(
                                    CacheCleanup { id: c, file_id: old(self).entries()[i].file_id },
                                ) && forall|m: int|
                                    0 <= m < old(self).cleanups().len()
                                        ==> #[trigger] old(self).cleanups()[m].id != c
                    }
                },
    {
        let k = match entry_position(&self.pending, id) {
            None => return Err(DbError::NotFound),
            Some(k) => k,
        };
        let pend = self.pending[k].clone();
        assert(old(self).pending()[k as int].id == id);
        let existing = slot_position(&self.entries, &pend);
        match entry_position(&self.entries, id) {
            Some(i) => {
                if !entry_same_slot(&self.entries[i], &pend) {
                    assert(old(self).entries()[i as int].id == id);
                    return Err(DbError::AlreadyExists);
                }
            },
            None => {},
        }
        proof {
            assert forall|i: int|
                0 <= i < old(self).entries().len() && #[trigger] old(self).entries()[i].id == id
                    implies same_slot(old(self).entries()[i], pend) by {
                if !same_slot(old(self).entries()[i], pend) {
                    // the position found first has this id and shares the slot
                    let f = choose|f: int| 0 <= f < self.entries@.len() && self.entries@[f].id == id && same_slot(self.entries@[f], pend);
                    assert(self.entries@[f].id == self.entries@[i].id);
                    assert(f == i);
                }
            }
        }
        if existing.is_some() && self.next_cleanup_id == i32::MAX {
            proof {
                let i = existing.unwrap();
                assert(same_slot(old(self).entries()[i as int], pend));
            }
            return Err(DbError::IdsExhausted);
        }
        let ghost old_entries = self.entries@;
        match existing {
            Some(i) => {
                let file_id = self.entries[i].file_id;
                let cid = self.next_cleanup_id;
                self.cleanup.push(CacheCleanup { id: cid, file_id });
                self.next_cleanup_id = cid + 1;
                proof {
                    assert(same_slot(old(self).entries()[i as int], pend));
                    assert forall|m: int| 0 <= m < old(self).cleanups().len() implies #[trigger] old(self).cleanups()[m].id != cid by {
                        assert(old(self).cleanup@[m].id < cid);
                    }
                }
            },
            None => {},
        }
        remove_slot(&mut self.entries, &pend);
        self.entries.push(pend);
        remove_id(&mut self.pending, id);
        uploads.delete(id);
        self.committed.push(id);
        proof {
            let ne = self.entries@;
            let kept_e = old_entries.filter(outside_slot(pend));
            let fe = lemma_filter_embedding(old_entries, outside_slot(pend));
            assert(ne == kept_e.push(pend));
            assert forall|i: int, j: int|
                0 <= i < ne.len() && 0 <= j < ne.len() && i != j implies {
                    &&& #[trigger] ne[i].id != #[trigger] ne[j].id
                    &&& !same_slot(ne[i], ne[j])
                } by {
                if i < kept_e.len() && j < kept_e.len() {
                    if i < j {
                        assert(fe(i) < fe(j));
                    } else {
                        assert(fe(j) < fe(i));
                    }
                    assert(ne[i] == old_entries[fe(i)]);
                    assert(ne[j] == old_entries[fe(j)]);
                } else if i < kept_e.len() {
                    assert(ne[i] == old_entries[fe(i)]);
                    assert(ne[j] == pend);
                    assert(!same_slot(old_entries[fe(i)], pend));
                } else {
                    assert(ne[j] == old_entries[fe(j)]);
                    assert(ne[i] == pend);
                    assert(!same_slot(old_entries[fe(j)], pend));
                }
            }
            let np = self.pending@;
            let fp = lemma_filter_embedding(old(self).pending@, entry_other_than(id));
            assert forall|i: int, j: int|
                0 <= i < np.len() && 0 <= j < np.len() && i != j implies #[trigger] np[i].id
                    != #[trigger] np[j].id by {
                if i < j {
                    assert(fp(i) < fp(j));
                } else {
                    assert(fp(j) < fp(i));
                }
                assert(np[i] == old(self).pending@[fp(i)]);
                assert(np[j] == old(self).pending@[fp(j)]);
            }
        }
        Ok(())
    }

    /// Marks entry `id` as used at time `now`.
    pub fn update_used_at_at(&mut self, id: i32, now: i64) -> (res: Result<(), DbError>)
        requires
            old(self).wf(),
        ensures
            final(self).wf(),
            final(self).committed() == old(self).committed(),
            final(self).pending() == old(self).pending(),
            final(self).cleanups() == old(self).cleanups(),
            final(self).cleanups_exhausted() == old(self).cleanups_exhausted(),
            res is Ok <==> has_entry(old(self).entries(), id),
            res matches Err(e) ==> e == DbError::NotFound && final(self).entries() == old(
                self).entries(),
            res is Ok ==> exists|i: int|
                0 <= i < old(self).entries().len() && #[trigger] old(self).entries()[i].id == id
                    && final(self).entries() == old(self).entries().update(
                    i,
                    CacheEntry { used_at: now, ..old(self).entries()[i] },
                ),
    {
        match entry_position(&self.entries, id) {
            None => Err(DbError::NotFound),
            Some(i) => {
                let mut e = self.entries[i].clone();
                e.used_at = now;
                self.entries.set(i, e);
                assert(old(self).entries()[i as int].id == id);
                assert(self.entries@ == old(self).entries@.update(
                    i as int,
                    CacheEntry { used_at: now, ..old(self).entries@[i as int] },
                ));
                proof {
                    let ne = self.entries@;
                    assert forall|a: int, b: int|
                        0 <= a < ne.len() && 0 <= b < ne.len() && a != b implies {
                            &&& #[trigger] ne[a].id != #[trigger] ne[b].id
                            &&& !same_slot(ne[a], ne[b])
                        } by {
                        assert(old(self).entries@[a].id != old(self).entries@[b].id);
                    }
                }
                Ok(())
            },
        }
    }

    /// Marks entry `id` as used now (see [`Self::update_used_at_at`]).
    pub fn update_used_at(&mut self, id: i32) -> (res: Result<(), DbError>)
        requires
            old(self).wf(),
        ensures
            final(self).wf(),
            final(self).committed() == old(self).committed(),
            final(self).pending() == old(self).pending(),
            final(self).cleanups() == old(self).cleanups(),
            res is Ok <==> has_entry(old(self).entries(), id),
            res matches Err(e) ==> e == DbError::NotFound && final(self).entries() == old(self).entries(),
            res is Ok ==> exists|i: int|
                0 <= i < old(self).entries().len() && #[trigger] old(self).entries()[i].id == id
                    && final(self).entries() == old(self).entries().update(
                    i,
                    CacheEntry { used_at: final(self).entries()[i].used_at, ..old(self).entries()[i] },
                ),
    {
        let now = crate::clock::now_unix_seconds();
        self.update_used_at_at(id, now)
    }

    /// The entry that a lookup of `keys` finds among the entries of `repo`,
    /// `version` and isolation key `write_isolation_key` (see [`search`]).
    pub fn find_cache(
        &self,
        keys: &Vec<String>,
        version: &str,
        repo: &str,
        write_isolation_key: &str,
    ) -> (res: Option<CacheEntry>)
        ensures
            res == entry_at(
                self.entries(),
                search(self.entries(), string_views(keys@), version@, repo@, write_isolation_key@),
            ),
    {
        let ghost s = self.entries@;
        let ghost ks = string_views(keys@);
        proof {
            assert(ks.skip(0) =~= ks);
        }
        let mut k: usize = 0;
        while k < keys.len()
            invariant
                k <= keys@.len(),
                s == self.entries@,
                ks == string_views(keys@),
                search(s, ks, version@, repo@, write_isolation_key@) == search(
                    s,
                    ks.skip(k as int),
                    version@,
                    repo@,
                    write_isolation_key@,
                ),
            decreases keys@.len() - k,
        {
            let key = keys[k].as_str();
            proof {
                let rest = ks.skip(k as int);
                assert(rest[0] == key@);
                assert(rest.drop_first() =~= ks.skip(k + 1));
            }
            match newest_candidate(&self.entries, repo, version, write_isolation_key, key, KeyMatch::Exact) {
                Some(i) => {
                    return Some(self.entries[i].clone());
                },
                None => {},
            }
            match newest_candidate(&self.entries, repo, version, write_isolation_key, key, KeyMatch::Prefix) {
                Some(i) => {
                    return Some(self.entries[i].clone());
                },
                None => {},
            }
            k = k + 1;
        }
        proof {
            assert(ks.skip(k as int).len() == 0);
        }
        None
    }

    /// The entry that a request with these keys and version finds (see
    /// [`lookup`]).
    pub fn find_entry(&self, keys: &Vec<String>, version: &str, auth: &Auth) -> (res: Option<CacheEntry>)
        ensures
            res == entry_at(self.entries(), lookup(self.entries(), string_views(keys@), version@, auth@)),
    {
        proof {
            lemma_search_bounds(self.entries@, string_views(keys@), version@, auth.repo@, auth.write_isolation_key@);
            lemma_search_bounds(self.entries@, string_views(keys@), version@, auth.repo@, Seq::empty());
        }
        match self.find_cache(keys, version, auth.repo.as_str(), auth.write_isolation_key.as_str()) {
            Some(e) => return Some(e),
            None => {},
        }
        if !auth.write_isolation_key.as_str().is_empty() {
            let empty = String::new();
            match self.find_cache(keys, version, auth.repo.as_str(), empty.as_str()) {
                Some(e) => return Some(e),
                None => {},
            }
        }
        None
    }

    /// Removes the complete entry with this id.
    pub fn delete_by_id(&mut self, id: i32)
        requires
            old(self).wf(),
        ensures
            final(self).wf(),
            final(self).committed() == old(self).committed(),
            final(self).entries() == old(self).entries().filter(entry_other_than(id)),
            final(self).pending() == old(self).pending(),
            final(self).cleanups() == old(self).cleanups(),
            final(self).cleanups_exhausted() == old(self).cleanups_exhausted(),
    {
        remove_id(&mut self.entries, id);
        proof {
            let ne = self.entries@;
            let fe = lemma_filter_embedding(old(self).entries@, entry_other_than(id));
            assert forall|i: int, j: int|
                0 <= i < ne.len() && 0 <= j < ne.len() && i != j implies {
                    &&& #[trigger] ne[i].id != #[trigger] ne[j].id
                    &&& !same_slot(ne[i], ne[j])
                } by {
                if i < j {
                    assert(fe(i) < fe(j));
                } else {
                    assert(fe(j) < fe(i));
                }
                assert(ne[i] == old(self).entries@[fe(i)]);
                assert(ne[j] == old(self).entries@[fe(j)]);
            }
        }
    }

    /// Removes the pending entry with this id.
    pub fn delete_pending_by_id(&mut self, id: i32)
        requires
            old(self).wf(),
        ensures
            final(self).wf(),
            final(self).committed() == old(self).committed(),
            final(self).entries() == old(self).entries(),
            final(self).pending() == old(self).pending().filter(entry_other_than(id)),
            final(self).cleanups() == old(self).cleanups(),
            final(self).cleanups_exhausted() == old(self).cleanups_exhausted(),
    {
        remove_id(&mut self.pending, id);
        proof {
            let np = self.pending@;
            let fp = lemma_filter_embedding(old(self).pending@, entry_other_than(id));
            assert forall|i: int, j: int|
                0 <= i < np.len() && 0 <= j < np.len() && i != j implies #[trigger] np[i].id
                    != #[trigger] np[j].id by {
                if i < j {
                    assert(fp(i) < fp(j));
                } else {
                    assert(fp(j) < fp(i));
                }
                assert(np[i] == old(self).pending@[fp(i)]);
                assert(np[j] == old(self).pending@[fp(j)]);
            }
        }
    }

    /// The files queued for removal, in table order.
    pub fn cleanup_queue(&self) -> (res: Vec<CacheCleanup>)
        ensures
            res@ == self.cleanups(),
    {
        let mut res: Vec<CacheCleanup> = Vec::new();
        let mut i: usize = 0;
        while i < self.cleanup.len()
            invariant
                i <= self.cleanup@.len(),
                res@ == self.cleanup@.take(i as int),
            decreases self.cleanup@.len() - i,
        {
            res.push(self.cleanup[i].clone());
            i = i + 1;
            assert(res@ =~= self.cleanup@.take(i as int));
        }
        assert(self.cleanup@.take(i as int) =~= self.cleanup@);
        res
    }

    /// The pending entries created before `before`.
    pub fn find_incomplete_entries(&self, before: i64) -> (res: Vec<CacheEntry>)
        ensures
            res@ == self.pending().filter(stamped_before(TimeField::CreatedAt, before)),
    {
        entries_before(&self.pending, TimeField::CreatedAt, before)
    }

    /// The complete entries last used before `before`.
    pub fn find_unused_entries(&self, before: i64) -> (res: Vec<CacheEntry>)
        ensures
            res@ == self.entries().filter(stamped_before(TimeField::UsedAt, before)),
    {
        entries_before(&self.entries, TimeField::UsedAt, before)
    }

    /// The complete entries created before `before`.
    pub fn find_entries_before(&self, before: i64) -> (res: Vec<CacheEntry>)
        ensures
            res@ == self.entries().filter(stamped_before(TimeField::CreatedAt, before)),
    {
        entries_before(&self.entries, TimeField::CreatedAt, before)
    }
}

proof fn lemma_search_bounds(
    s: Seq<CacheEntry>,
    keys: Seq<Seq<char>>,
    version: Seq<char>,
    repo: Seq<char>,
    wik: Seq<char>,
)
    ensures
        -1 <= search(s, keys, version, repo, wik) < s.len(),
    decreases keys.len(),
{
    if keys.len() > 0 {
        lemma_newest_bounds(s, candidate(repo, version, wik, keys[0], KeyMatch::Exact));
        lemma_newest_bounds(s, candidate(repo, version, wik, keys[0], KeyMatch::Prefix));
        lemma_search_bounds(s, keys.drop_first(), version, repo, wik);
    }
}

/// A lookup ends at a position of the table, or at -1.
pub proof fn lemma_lookup_bounds(s: Seq<CacheEntry>, keys: Seq<Seq<char>>, version: Seq<char>, auth: AuthView)
    ensures
        -1 <= lookup(s, keys, version, auth) < s.len(),
{
    lemma_search_bounds(s, keys, version, auth.repo, auth.write_isolation_key);
    lemma_search_bounds(s, keys, version, auth.repo, Seq::empty());
}

} // verus!
