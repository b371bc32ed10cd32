use artifact_cache::config::{check_config, ConfigCheck, ConfigError};
use artifact_cache::gc::{
    cutoff, finish_entry_collection, finish_upload_collection, ObjectRemoval, entries_to_collect, cancel_objects, max_age_seconds, pause_seconds, GcJob};
use artifact_cache::db::Database;
use artifact_cache::storage::{
    assembly_steps, multipart_mode, needs_multipart_upload, part_object, sort_parts, MultipartMode, StorageError, StorageKind,
    UploadPart,
};

fn part(n: i32, start: i64) -> UploadPart {
    UploadPart { part_number: n, etag: Some(format!("e{}", n)), size: 1, start_byte: start }
}

#[test]
fn multipart_mode_matches_storage_and_upload_id() {
    assert!(matches!(multipart_mode(StorageKind::Local, &None), Ok(MultipartMode::Local)));
    match multipart_mode(StorageKind::S3, &Some("mp".to_string())) {
        Ok(MultipartMode::S3(id)) => assert_eq!(id, "mp"),
        _ => panic!("expected S3 mode"),
    }
    assert_eq!(
        multipart_mode(StorageKind::Local, &Some("mp".to_string())).unwrap_err(),
        StorageError::InvalidConfiguration
    );
    assert_eq!(multipart_mode(StorageKind::S3, &None).unwrap_err(), StorageError::InvalidConfiguration);
    assert!(needs_multipart_upload(StorageKind::S3));
    assert!(!needs_multipart_upload(StorageKind::Local));
}

#[test]
fn part_objects_are_named_after_the_file() {
    assert_eq!(part_object("17", 3), "17-3");
    assert_eq!(part_object("abc", -1), "abc--1");
    assert_eq!(cancel_objects("5", &vec![2, 7]), vec!["5-2", "5-7", "5"]);
}

#[test]
fn parts_are_sorted_by_offset() {
    let sorted = sort_parts(vec![part(5, 40), part(2, 10), part(9, 0), part(3, 30)]);
    let starts: Vec<i64> = sorted.iter().map(|p| p.start_byte).collect();
    assert_eq!(starts, vec![0, 10, 30, 40]);
    let etags: Vec<String> = sorted.iter().map(|p| p.etag.clone().unwrap()).collect();
    assert_eq!(etags, vec!["e9", "e2", "e3", "e5"]);
    assert!(sort_parts(vec![]).is_empty());
    let steps = assembly_steps("12", &sorted);
    let sources: Vec<String> = steps.iter().map(|st| st.source.clone()).collect();
    let numbers: Vec<u64> = steps.iter().map(|st| st.part_number).collect();
    assert_eq!(sources, vec!["12-9", "12-2", "12-3", "12-5"]);
    assert_eq!(numbers, vec![1, 2, 3, 4]);
    assert!(assembly_steps("12", &vec![]).is_empty());
}

#[test]
fn config_needs_database_url_and_secret() {
    assert_eq!(check_config("", "s"), Err(ConfigError::MissingDatabaseUrl));
    assert_eq!(check_config("", ""), Err(ConfigError::MissingDatabaseUrl));
    assert_eq!(check_config("postgres://x", ""), Err(ConfigError::MissingCacheSecret));
    assert_eq!(check_config("sqlite://cache.db", "s"), Ok(ConfigCheck { sqlite: true }));
    assert_eq!(check_config("postgres://x", "s"), Ok(ConfigCheck { sqlite: false }));
}

#[test]
fn gc_ages_and_pauses() {
    assert_eq!(max_age_seconds(GcJob::Entries), 30 * 86400);
    assert_eq!(max_age_seconds(GcJob::UnusedEntries), 7 * 86400);
    assert_eq!(max_age_seconds(GcJob::IncompleteEntries), 600);
    assert_eq!(max_age_seconds(GcJob::Uploads), 600);
    assert_eq!(pause_seconds(GcJob::Entries), 86400);
    assert_eq!(pause_seconds(GcJob::UnusedEntries), 3600);
    assert_eq!(pause_seconds(GcJob::Uploads), 600);
    assert_eq!(cutoff(GcJob::Uploads, 10_000), 9_400);
}

#[test]
fn gc_collects_old_entries() {
    let mut db = Database::new();
    let (id, _) = db.uploads.reserve_at("k".into(), "v".into(), None, "o/r".into(), "".into(), 0).unwrap();
    let u = db.uploads.find(id).unwrap();
    db.entries.create_cache_pending_at(u, 1, 0).unwrap();
    assert_eq!(entries_to_collect(&db, GcJob::IncompleteEntries, 601).len(), 1);
    assert_eq!(entries_to_collect(&db, GcJob::IncompleteEntries, 600).len(), 0);
    db.entries.complete(&mut db.uploads, id).unwrap();
    assert_eq!(entries_to_collect(&db, GcJob::Entries, 30 * 86400 + 1).len(), 1);
    assert_eq!(entries_to_collect(&db, GcJob::UnusedEntries, 7 * 86400).len(), 0);
    assert_eq!(entries_to_collect(&db, GcJob::Uploads, 1_000_000).len(), 0);
}

#[test]
fn gc_removes_rows_only_once_their_objects_are_gone() {
    let mut db = Database::new();
    let (id, _) = db.uploads.reserve_at("k".into(), "v".into(), None, "o/r".into(), "".into(), 0).unwrap();
    let u = db.uploads.find(id).unwrap();
    db.entries.create_cache_pending_at(u, 1, 0).unwrap();
    db.entries.complete(&mut db.uploads, id).unwrap();
    assert!(!finish_entry_collection(&mut db, GcJob::Entries, id, ObjectRemoval::RemoveFailed));
    assert!(!finish_entry_collection(&mut db, GcJob::Entries, id, ObjectRemoval::CheckFailed));
    assert!(db.entries.find_by_id(id).is_some());
    assert!(finish_entry_collection(&mut db, GcJob::UnusedEntries, id, ObjectRemoval::Removed));
    assert!(db.entries.find_by_id(id).is_none());
    let (up, _) = db.uploads.reserve_at("k2".into(), "v".into(), None, "o/r".into(), "".into(), 0).unwrap();
    db.uploads.chunk(up, 1, 0).unwrap();
    assert!(!finish_upload_collection(&mut db, up, false));
    assert!(db.uploads.find(up).is_ok());
    assert!(finish_upload_collection(&mut db, up, true));
    assert!(db.uploads.find(up).is_err());
    assert!(db.uploads.parts(up).is_empty());
    let (p, _) = db.uploads.reserve_at("k3".into(), "v".into(), None, "o/r".into(), "".into(), 0).unwrap();
    let u = db.uploads.find(p).unwrap();
    db.entries.create_cache_pending_at(u, 1, 0).unwrap();
    assert!(finish_entry_collection(&mut db, GcJob::IncompleteEntries, p, ObjectRemoval::Absent));
    assert_eq!(entries_to_collect(&db, GcJob::IncompleteEntries, 10_000).len(), 0);
    assert!(!finish_entry_collection(&mut db, GcJob::Uploads, p, ObjectRemoval::Absent));
}
