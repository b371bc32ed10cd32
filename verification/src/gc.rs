//! Garbage collection: which entries and uploads each periodic job removes,
//! and how often each job runs.
use vstd::prelude::*;
use crate::db::{CacheEntry, CacheUpload, Database};
use crate::db::cache_entry::entry_other_than;
use crate::db::cache_upload::{has_upload, part_not_of, upload_other_than};
use crate::db::cache_entry::{TimeField, stamped_before};
use crate::db::cache_upload::{part_numbers, upload_created_before};
use crate::storage::part_object_name;
use crate::text::decimal;

verus! {

/// The periodic cleanup jobs.
#[derive(Clone, Copy, PartialEq, Eq, Debug)]
pub enum GcJob {
    /// Removes entries created more than 30 days ago.
    Entries,
    /// Removes entries not used for more than 7 days.
    UnusedEntries,
    /// Removes pending entries older than 10 minutes.
    IncompleteEntries,
    /// Cancels uploads that received nothing for more than 10 minutes.
    Uploads,
}

/// How old (in seconds) an item must be for a job to remove it.
pub open spec fn max_age(job: GcJob) -> int {
    match job {
        GcJob::Entries => (30 * 24 * 3600) as int,
        GcJob::UnusedEntries => (7 * 24 * 3600) as int,
        GcJob::IncompleteEntries => (10 * 60) as int,
        GcJob::Uploads => (10 * 60) as int,
    }
}

/// How long (in seconds) a job waits between two runs.
pub open spec fn pause(job: GcJob) -> int {
    match job {
        GcJob::Entries => (24 * 3600) as int,
        GcJob::UnusedEntries => (3600) as int,
        GcJob::IncompleteEntries => (10 * 60) as int,
        GcJob::Uploads => (10 * 60) as int,
    }
}

/// The age limit of a job, in seconds.
pub fn max_age_seconds(job: GcJob) -> (res: i64)
    ensures
        res == max_age(job),
{
    match job {
        GcJob::Entries => 30 * 24 * 3600,
        GcJob::UnusedEntries => 7 * 24 * 3600,
        GcJob::IncompleteEntries => 10 * 60,
        GcJob::Uploads => 10 * 60,
    }
}

/// The pause of a job between runs, in seconds.
pub fn pause_seconds(job: GcJob) -> (res: u64)
    ensures
        res == pause(job),
{
    match job {
        GcJob::Entries => 24 * 3600,
        GcJob::UnusedEntries => 3600,
        GcJob::IncompleteEntries => 10 * 60,
        GcJob::Uploads => 10 * 60,
    }
}

/// The instant before which a job removes items, when it runs at `now`.
pub fn cutoff(job: GcJob, now: i64) -> (res: i64)
    requires
        now >= i64::MIN + 30 * 24 * 3600,
    ensures
        res == now - max_age(job),
{
    now - max_age_seconds(job)
}

/// The entries the job removes when it runs at `now`: for `Entries` those
/// created before the cutoff, for `UnusedEntries` those last used before it,
/// for `IncompleteEntries` the pending entries created before it; `Uploads`
/// removes no entries.
pub fn entries_to_collect(db: &Database, job: GcJob, now: i64) -> (res: Vec<CacheEntry>)
    requires
        now >= i64::MIN + 30 * 24 * 3600,
    ensures
        res@ == match job {
            GcJob::Entries => db.entries.entries().filter(
                stamped_before(TimeField::CreatedAt, (now - max_age(job)) as i64),
            ),
            GcJob::UnusedEntries => db.entries.entries().filter(
                stamped_before(TimeField::UsedAt, (now - max_age(job)) as i64),
            ),
            GcJob::IncompleteEntries => db.entries.pending().filter(
                stamped_before(TimeField::CreatedAt, (now - max_age(job)) as i64),
            ),
            GcJob::Uploads => Seq::<CacheEntry>::empty(),
        },
{
    let before = cutoff(job, now);
    match job {
        GcJob::Entries => db.entries.find_entries_before(before),
        GcJob::UnusedEntries => db.entries.find_unused_entries(before),
        GcJob::IncompleteEntries => db.entries.find_incomplete_entries(before),
        GcJob::Uploads => Vec::new(),
    }
}

/// The uploads the `Uploads` job cancels when it runs at `now`, each with
/// the part numbers of its chunks.
pub fn uploads_to_collect(db: &Database, now: i64) -> (res: Vec<(CacheUpload, Vec<i32>)>)
    requires
        now >= i64::MIN + 30 * 24 * 3600,
    ensures
        ({
            let olds = db.uploads.uploads().filter(upload_created_before((now - max_age(GcJob::Uploads)) as i64));
            &&& res@.len() == olds.len()
            &&& forall|k: int|
                0 <= k < res@.len() ==> {
                    &&& (#[trigger] res@[k]).0 == olds[k]
                    &&& res@[k].1@ == part_numbers(db.uploads.chunks(), res@[k].0.id)
                }
        }),
{
    db.uploads.find_incomplete_uploads(cutoff(GcJob::Uploads, now))
}

/// The objects to remove when an upload of file `key` is cancelled: its
/// chunk objects, then the file itself.
pub fn cancel_objects(key: &str, part_numbers: &Vec<i32>) -> (res: Vec<String>)
    ensures
        res@.len() == part_numbers@.len() + 1,
        forall|k: int|
            0 <= k < part_numbers@.len() ==> #[trigger] res@[k]@ == part_object_name(key@, part_numbers@[k]),
        res@[part_numbers@.len() as int]@ == key@,
{
    let mut objects = crate::storage::part_objects(key, part_numbers);
    objects.push(String::from_str(key));
    objects
}

/// The object that holds the file of an entry.
pub fn file_object(file_id: u64) -> (res: String)
    ensures
        res@ == decimal(file_id as nat),
{
    crate::text::format_u64(file_id)
}

/// What became of the stored object of an item that a job collects.
#[derive(Clone, Copy, PartialEq, Eq, Debug)]
pub enum ObjectRemoval {
    /// Whether the object exists could not be found out.
    CheckFailed,
    /// There was no object to remove.
    Absent,
    /// The object was removed.
    Removed,
    /// Removing the object failed.
    RemoveFailed,
}

/// Whether an item's row goes once its object met this fate: only when the
/// object is gone, so that a failed removal is tried again on the next run.
pub open spec fn row_goes(removal: ObjectRemoval) -> bool {
    removal == ObjectRemoval::Absent || removal == ObjectRemoval::Removed
}

/// Finishes collecting entry `id` for `job` once its object met the fate
/// `removal`: when the object is gone, removes the entry's row (a pending
/// row for `IncompleteEntries`, a complete one for the other entry jobs);
/// otherwise keeps it. Returns whether a row was removed.
pub fn finish_entry_collection(db: &mut Database, job: GcJob, id: i32, removal: ObjectRemoval) -> (res: bool)
    requires
        old(db).wf(),
    ensures
        final(db).wf(),
        res == (row_goes(removal) && job != GcJob::Uploads),
        final(db).uploads == old(db).uploads,
        final(db).entries.cleanups() == old(db).entries.cleanups(),
        final(db).entries.committed() == old(db).entries.committed(),
        final(db).entries.pending() == if res && job == GcJob::IncompleteEntries {
            old(db).entries.pending().filter(entry_other_than(id))
        } else {
            old(db).entries.pending()
        },
        final(db).entries.entries() == if res && job != GcJob::IncompleteEntries {
            old(db).entries.entries().filter(entry_other_than(id))
        } else {
            old(db).entries.entries()
        },
{
    let goes = match removal {
        ObjectRemoval::Absent | ObjectRemoval::Removed => true,
        ObjectRemoval::CheckFailed | ObjectRemoval::RemoveFailed => false,
    };
    if !goes {
        return false;
    }
    let ghost before = *db;
    match job {
        GcJob::Uploads => {
            return false;
        },
        GcJob::IncompleteEntries => {
            db.entries.delete_pending_by_id(id);
            proof {
                let f = crate::seqs::lemma_filter_embedding(before.entries.pending(), entry_other_than(id));
                assert forall|k: int| 0 <= k < db.entries.pending().len() implies {
                    &&& db.entries.pending()[k].id < db.uploads.next_id()
                    &&& db.entries.pending()[k].file_id < db.uploads.next_file_id()
                } by {
                    assert(db.entries.pending()[k] == before.entries.pending()[f(k)]);
                }
            }
        },
        _ => {
            db.entries.delete_by_id(id);
            proof {
                let f = crate::seqs::lemma_filter_embedding(before.entries.entries(), entry_other_than(id));
                assert forall|k: int| 0 <= k < db.entries.entries().len() implies #[trigger] db.entries.entries()[k].file_id
                    < db.uploads.next_file_id() by {
                    assert(db.entries.entries()[k] == before.entries.entries()[f(k)]);
                }
            }
        },
    }
    true
}

/// Finishes collecting upload `id` once its storage was or was not
/// cancelled: after a cancellation removes the upload and its chunks,
/// otherwise keeps them for the next run. Returns whether they were removed.
pub fn finish_upload_collection(db: &mut Database, id: i32, cancelled: bool) -> (res: bool)
    requires
        old(db).wf(),
    ensures
        final(db).wf(),
        res == cancelled,
        final(db).entries == old(db).entries,
        final(db).uploads.uploads() == if cancelled {
            old(db).uploads.uploads().filter(upload_other_than(id))
        } else {
            old(db).uploads.uploads()
        },
        final(db).uploads.chunks() == if cancelled {
            old(db).uploads.chunks().filter(part_not_of(id))
        } else {
            old(db).uploads.chunks()
        },
{
    if !cancelled {
        return false;
    }
    let ghost before = *db;
    db.uploads.delete(id);
    proof {
        let f = crate::seqs::lemma_filter_embedding(before.uploads.uploads(), upload_other_than(id));
        let nu = db.uploads.uploads();
        assert forall|m: int| 0 <= m < db.entries.committed().len() implies {
            &&& #[trigger] db.entries.committed()[m] < db.uploads.next_id()
            &&& !has_upload(nu, db.entries.committed()[m])
        } by {
            let c = db.entries.committed()[m];
            assert(!has_upload(before.uploads.uploads(), c));
            if has_upload(nu, c) {
                let i = choose|i: int| 0 <= i < nu.len() && #[trigger] nu[i].id == c;
                assert(nu[i] == before.uploads.uploads()[f(i)]);
            }
        }
    }
    true
}

} // verus!
