use artifact_cache::auth::Auth;
use artifact_cache::db::cache_entry::CacheEntryTable;
use artifact_cache::db::cache_upload::CacheUploadTable;
use artifact_cache::db::{CacheUpload, DBTrait, Database, DbError};

fn s(x: &str) -> String {
    x.to_string()
}

fn auth(repo: &str, wik: &str) -> Auth {
    Auth { repo: s(repo), run_number: s("1"), write_isolation_key: s(wik) }
}

/// Reserves and commits an entry at time `now` directly through the tables.
fn commit(db: &mut Database, repo: &str, key: &str, version: &str, wik: &str, now: i64) -> i32 {
    let (id, _) = db.uploads.reserve_at(s(key), s(version), None, s(repo), s(wik), now).unwrap();
    let upload = db.uploads.find(id).unwrap();
    db.entries.create_cache_pending_at(upload, 10, now).unwrap();
    db.entries.complete(&mut db.uploads, id).unwrap();
    id
}

#[test]
fn reserve_hands_out_fresh_ids() {
    let mut t = CacheUploadTable::new();
    let (a, fa) = t.reserve_at(s("k"), s("v"), Some(5), s("o/r"), s(""), 1).unwrap();
    let (b, fb) = t.reserve_at(s("k"), s("v"), None, s("o/r"), s(""), 2).unwrap();
    assert_eq!((a, b), (1, 2));
    assert_ne!(fa, fb);
    let u = t.find(a).unwrap();
    assert_eq!(u.size, Some(5));
    assert_eq!(u.created_at, 1);
    assert_eq!(u.s3_upload_id, None);
    assert_eq!(t.find(3).unwrap_err(), DbError::NotFound);
}

#[test]
fn chunks_get_part_numbers_and_resends_replace() {
    let mut t = CacheUploadTable::new();
    let (id, _) = t.reserve_at(s("k"), s("v"), None, s("o/r"), s(""), 1).unwrap();
    let p0 = t.chunk(id, 100, 0).unwrap();
    let p1 = t.chunk(id, 50, 100).unwrap();
    assert_eq!((p0.id, p0.part_number), (1, 1));
    assert_eq!((p1.id, p1.part_number), (2, 2));
    let again = t.chunk(id, 120, 0).unwrap();
    assert_eq!(again.id, p0.id);
    assert_eq!(again.size, 120);
    let parts = t.parts(id);
    assert_eq!(parts.len(), 2);
    assert_eq!(parts[0].size, 120);
    assert_eq!(parts[1].start_byte, 100);
    assert_eq!(t.chunk(99, 1, 0).unwrap_err(), DbError::NotFound);
    let (other, _) = t.reserve_at(s("k2"), s("v"), None, s("o/r"), s(""), 1).unwrap();
    let q0 = t.chunk(other, 5, 0).unwrap();
    assert_eq!((q0.id, q0.part_number), (3, 1));
    let p2 = t.chunk(id, 5, 150).unwrap();
    assert_eq!(p2.part_number, 3);
}

#[test]
fn an_upload_takes_more_than_ten_thousand_chunks() {
    let mut t = CacheUploadTable::new();
    let (id, _) = t.reserve_at(s("k"), s("v"), None, s("o/r"), s(""), 1).unwrap();
    for n in 0..10001i64 {
        let p = t.chunk(id, 1, n).unwrap();
        assert_eq!(p.part_number as i64, n + 1);
    }
    assert_eq!(t.parts(id).len(), 10001);
    assert_eq!(t.chunk(id, 7, 0).unwrap().size, 7);
}

#[test]
fn etags_and_s3_ids_are_recorded() {
    let mut t = CacheUploadTable::new();
    let (id, _) = t.reserve_at(s("k"), s("v"), None, s("o/r"), s(""), 1).unwrap();
    let p = t.chunk(id, 10, 0).unwrap();
    t.update_etag(p.id, s("etag-1")).unwrap();
    assert_eq!(t.parts(id)[0].etag, Some(s("etag-1")));
    assert_eq!(t.update_etag(77, s("x")).unwrap_err(), DbError::NotFound);
    t.set_s3_upload_id(id, s("mp-1")).unwrap();
    assert_eq!(t.find(id).unwrap().s3_upload_id, Some(s("mp-1")));
    assert_eq!(t.set_s3_upload_id(5, s("x")).unwrap_err(), DbError::NotFound);
    t.refresh_created_at_at(id, 42).unwrap();
    assert_eq!(t.find(id).unwrap().created_at, 42);
}

#[test]
fn delete_removes_upload_and_its_chunks() {
    let mut t = CacheUploadTable::new();
    let (a, _) = t.reserve_at(s("k"), s("v"), None, s("o/r"), s(""), 1).unwrap();
    let (b, _) = t.reserve_at(s("k2"), s("v"), None, s("o/r"), s(""), 1).unwrap();
    t.chunk(a, 1, 0).unwrap();
    t.chunk(b, 1, 0).unwrap();
    t.delete(a);
    assert!(t.find(a).is_err());
    assert!(t.parts(a).is_empty());
    assert_eq!(t.parts(b).len(), 1);
}

#[test]
fn incomplete_uploads_are_those_touched_before_the_cutoff() {
    let mut t = CacheUploadTable::new();
    let (a, _) = t.reserve_at(s("k"), s("v"), None, s("o/r"), s(""), 10).unwrap();
    let (_b, _) = t.reserve_at(s("k2"), s("v"), None, s("o/r"), s(""), 50).unwrap();
    t.chunk(a, 1, 0).unwrap();
    t.chunk(a, 1, 1).unwrap();
    let old = t.find_incomplete_uploads(20);
    assert_eq!(old.len(), 1);
    assert_eq!(old[0].0.id, a);
    assert_eq!(old[0].1, vec![1, 2]);
}

#[test]
fn committed_entry_is_found_and_replaces_its_slot() {
    let mut db = Database::new();
    let first = commit(&mut db, "o/r", "linux-node-20", "v1", "", 100);
    let file_first = db.entries.find_by_id(first).unwrap().file_id;
    let second = commit(&mut db, "o/r", "linux-node-20", "v1", "", 200);
    assert!(db.entries.find_by_id(first).is_none());
    let found = db.entries.find_entry(&vec![s("linux-node-20")], "v1", &auth("o/r", "")).unwrap();
    assert_eq!(found.id, second);
    assert_eq!(db.entries.find_entries_before(i64::MAX).len(), 1);
    assert!(db.uploads.find(second).is_err());
    let queue = db.entries.cleanup_queue();
    assert_eq!(queue.len(), 1);
    assert_eq!(queue[0].file_id, file_first);
}

#[test]
fn complete_without_pending_entry_fails() {
    let mut db = Database::new();
    let (id, _) = db.uploads.reserve_at(s("k"), s("v"), None, s("o/r"), s(""), 1).unwrap();
    assert_eq!(db.entries.complete(&mut db.uploads, id).unwrap_err(), DbError::NotFound);
    assert!(db.uploads.find(id).is_ok());
}

#[test]
fn pending_entry_cannot_be_created_twice() {
    let mut t = CacheEntryTable::new();
    let u = CacheUpload {
        id: 3,
        repo: s("o/r"),
        key: s("k"),
        version: s("v"),
        write_isolation_key: s(""),
        size: None,
        created_at: 0,
        s3_upload_id: None,
        file_id: 9,
    };
    assert_eq!(t.create_cache_pending_at(u.clone(), 5, 1), Ok(3));
    assert_eq!(t.create_cache_pending_at(u, 5, 1), Err(DbError::AlreadyExists));
    assert_eq!(t.find_incomplete_entries(2).len(), 1);
    assert_eq!(t.find_incomplete_entries(1).len(), 0);
    t.delete_pending_by_id(3);
    assert_eq!(t.find_incomplete_entries(2).len(), 0);
}

#[test]
fn lookup_prefers_exact_then_prefix_then_later_keys() {
    let mut db = Database::new();
    let exact = commit(&mut db, "o/r", "linux-node-", "v", "", 100);
    let longer = commit(&mut db, "o/r", "linux-node-20", "v", "", 300);
    let a = auth("o/r", "");
    let keys = vec![s("linux-node-")];
    assert_eq!(db.entries.find_entry(&keys, "v", &a).unwrap().id, exact);
    let keys = vec![s("linux-node-2")];
    assert_eq!(db.entries.find_entry(&keys, "v", &a).unwrap().id, longer);
    let keys = vec![s("windows"), s("linux-node-20")];
    assert_eq!(db.entries.find_entry(&keys, "v", &a).unwrap().id, longer);
    let keys = vec![s("linux")];
    assert_eq!(db.entries.find_entry(&keys, "v", &a).unwrap().id, longer);
    assert!(db.entries.find_entry(&vec![s("linux")], "other", &a).is_none());
    assert!(db.entries.find_entry(&vec![s("linux")], "v", &auth("x/y", "")).is_none());
}

#[test]
fn lookup_returns_newest_prefix_match() {
    let mut db = Database::new();
    let _old = commit(&mut db, "o/r", "npm-a", "v", "", 100);
    let new = commit(&mut db, "o/r", "npm-b", "v", "", 200);
    let _mid = commit(&mut db, "o/r", "npm-c", "v", "", 150);
    let found = db.entries.find_entry(&vec![s("npm-")], "v", &auth("o/r", "")).unwrap();
    assert_eq!(found.id, new);
}

#[test]
fn lookup_respects_isolation_and_falls_back_to_shared_entries() {
    let mut db = Database::new();
    let shared = commit(&mut db, "o/r", "k", "v", "", 100);
    let main = commit(&mut db, "o/r", "k", "v", "refs/heads/main", 50);
    let keys = vec![s("k")];
    assert_eq!(db.entries.find_entry(&keys, "v", &auth("o/r", "refs/heads/main")).unwrap().id, main);
    assert_eq!(db.entries.find_entry(&keys, "v", &auth("o/r", "refs/heads/dev")).unwrap().id, shared);
    assert_eq!(db.entries.find_entry(&keys, "v", &auth("o/r", "")).unwrap().id, shared);
    let mut db2 = Database::new();
    commit(&mut db2, "o/r", "k", "v", "refs/heads/main", 50);
    assert!(db2.entries.find_entry(&keys, "v", &auth("o/r", "")).is_none());
    assert!(db2.entries.find_entry(&keys, "v", &auth("o/r", "refs/heads/dev")).is_none());
}

#[test]
fn used_at_and_gc_queries() {
    let mut db = Database::new();
    let a = commit(&mut db, "o/r", "a", "v", "", 100);
    let b = commit(&mut db, "o/r", "b", "v", "", 200);
    db.entries.update_used_at_at(a, 500).unwrap();
    assert_eq!(db.entries.update_used_at_at(99, 1).unwrap_err(), DbError::NotFound);
    let unused: Vec<i32> = db.entries.find_unused_entries(300).iter().map(|e| e.id).collect();
    assert_eq!(unused, vec![b]);
    let old: Vec<i32> = db.entries.find_entries_before(150).iter().map(|e| e.id).collect();
    assert_eq!(old, vec![a]);
    db.entries.delete_by_id(a);
    assert!(db.entries.find_by_id(a).is_none());
    assert!(db.entries.find_by_id(b).is_some());
}

#[test]
fn db_trait_gives_access_to_tables() {
    let mut db = Database::new();
    let (id, _) = db.cache_upload().reserve_at(s("k"), s("v"), None, s("o/r"), s(""), 1).unwrap();
    assert!(db.uploads.find(id).is_ok());
    assert!(db.cache_entry().find_by_id(id).is_none());
}
