use artifact_cache::auth::{Auth, AuthError, HeaderName, RawHeader};
use artifact_cache::db::{Database, DbError};
use artifact_cache::error::{status_code, CacheError};
use artifact_cache::pull::{archive_location, finish_download, find, prepare_download};
use artifact_cache::push::{
    finish_chunk, finish_commit, normalize_cache_size, prepare_chunk, prepare_commit,
    record_multipart_upload, reserve, total_size,
};
use artifact_cache::storage::UploadPart;

fn s(x: &str) -> String {
    x.to_string()
}

fn auth(repo: &str, wik: &str) -> Auth {
    Auth { repo: s(repo), run_number: s("1"), write_isolation_key: s(wik) }
}

fn upload(db: &mut Database, a: &Auth, key: &str, size: Option<i64>, chunks: &[(u64, usize)]) -> i32 {
    let (id, _) = reserve(db, a, key, "v1", size).unwrap();
    for (start, len) in chunks {
        let plan = prepare_chunk(db, a, id, Some((*start, start + *len as u64 - 1)), *len).unwrap();
        finish_chunk(db, id, plan.part_id, None).unwrap();
    }
    id
}

#[test]
fn cache_size_normalization() {
    assert_eq!(normalize_cache_size(Some(-1)), Ok(None));
    assert_eq!(normalize_cache_size(Some(-2)), Err(CacheError::InvalidCacheSize));
    assert_eq!(normalize_cache_size(Some(0)), Ok(Some(0)));
    assert_eq!(normalize_cache_size(Some(10485760)), Ok(Some(10485760)));
    assert_eq!(normalize_cache_size(None), Ok(None));
}

#[test]
fn reserve_lowercases_the_key() {
    let mut db = Database::new();
    let a = auth("forgejo/runner", "refs/heads/main");
    let (id, file_id) = reserve(&mut db, &a, "Linux-Node-20", "v1", Some(-1)).unwrap();
    let u = db.uploads.find(id).unwrap();
    assert_eq!(u.key, "linux-node-20");
    assert_eq!(u.size, None);
    assert_eq!(u.repo, "forgejo/runner");
    assert_eq!(u.write_isolation_key, "refs/heads/main");
    assert_eq!(u.file_id, file_id);
    assert_eq!(reserve(&mut db, &a, "k", "v", Some(-5)).unwrap_err(), CacheError::InvalidCacheSize);
}

#[test]
fn multipart_id_is_recorded() {
    let mut db = Database::new();
    let a = auth("o/r", "");
    let (id, _) = reserve(&mut db, &a, "k", "v1", None).unwrap();
    record_multipart_upload(&mut db, id, None).unwrap();
    assert_eq!(db.uploads.find(id).unwrap().s3_upload_id, None);
    record_multipart_upload(&mut db, id, Some(s("mp"))).unwrap();
    assert_eq!(db.uploads.find(id).unwrap().s3_upload_id, Some(s("mp")));
    assert_eq!(record_multipart_upload(&mut db, 42, Some(s("mp"))), Err(CacheError::Db(DbError::NotFound)));
}

#[test]
fn chunk_checks_range_reservation_and_isolation() {
    let mut db = Database::new();
    let a = auth("o/r", "main");
    let (id, file_id) = reserve(&mut db, &a, "k", "v1", None).unwrap();
    assert_eq!(prepare_chunk(&mut db, &a, id, None, 10).unwrap_err(), CacheError::MissingByteRange);
    assert_eq!(prepare_chunk(&mut db, &a, 99, Some((0, 9)), 10).unwrap_err(), CacheError::NotReserved);
    assert_eq!(
        prepare_chunk(&mut db, &auth("o/r", "dev"), id, Some((0, 9)), 10).unwrap_err(),
        CacheError::IsolationMismatch
    );
    let plan = prepare_chunk(&mut db, &a, id, Some((0, 9)), 10).unwrap();
    assert_eq!(plan.file_key, file_id.to_string());
    assert_eq!(plan.s3_upload_id, None);
    assert!((1..=10000).contains(&plan.part_number));
    finish_chunk(&mut db, id, plan.part_id, Some(s("etag"))).unwrap();
    assert_eq!(db.uploads.parts(id)[0].etag, Some(s("etag")));
}

#[test]
fn total_size_adds_chunks() {
    let parts = vec![
        UploadPart { part_number: 1, etag: None, size: 5, start_byte: 0 },
        UploadPart { part_number: 2, etag: None, size: 7, start_byte: 5 },
    ];
    assert_eq!(total_size(&parts), Some(12));
    assert_eq!(total_size(&vec![]), Some(0));
    let big = vec![
        UploadPart { part_number: 1, etag: None, size: i64::MAX, start_byte: 0 },
        UploadPart { part_number: 2, etag: None, size: 1, start_byte: 0 },
    ];
    assert_eq!(total_size(&big), None);
}

#[test]
fn commit_checks_size_and_then_entry_is_found() {
    let mut db = Database::new();
    let a = auth("o/r", "");
    let id = upload(&mut db, &a, "Linux-Node-20", Some(30), &[(10, 20), (0, 10)]);
    let plan = prepare_commit(&mut db, &a, id).unwrap();
    assert_eq!(plan.size, 30);
    let starts: Vec<i64> = plan.parts.iter().map(|p| p.start_byte).collect();
    let sizes: Vec<i64> = plan.parts.iter().map(|p| p.size).collect();
    assert_eq!(starts, vec![0, 10]);
    assert_eq!(sizes, vec![10, 20]);
    finish_commit(&mut db, id).unwrap();
    let hit = find(&db, &a, "linux-node-20", "v1", &RawHeader::Text(s("http://10.0.0.1:8080")), &RawHeader::Text(s("123456789"))).unwrap();
    assert_eq!(hit.cache_key, "linux-node-20");
    assert_eq!(hit.result, "hit");
    assert_eq!(hit.archive_location, format!("http://10.0.0.1:8080/123456789/_apis/artifactcache/artifacts/{}", id));
    assert_eq!(prepare_commit(&mut db, &a, id).unwrap_err(), CacheError::AlreadyComplete);
    assert_eq!(prepare_chunk(&mut db, &a, id, Some((0, 1)), 2).unwrap_err(), CacheError::AlreadyComplete);
}

#[test]
fn commit_refuses_wrong_size_and_foreign_isolation_key() {
    let mut db = Database::new();
    let a = auth("o/r", "main");
    let id = upload(&mut db, &a, "k", Some(100), &[(0, 10)]);
    assert_eq!(prepare_commit(&mut db, &auth("o/r", "dev"), id).unwrap_err(), CacheError::IsolationMismatch);
    assert_eq!(
        prepare_commit(&mut db, &a, id).unwrap_err(),
        CacheError::SizeMismatch { size: 10, expected: 100 }
    );
    assert_eq!(prepare_commit(&mut db, &a, 555).unwrap_err(), CacheError::NotReserved);
    let unknown = upload(&mut db, &a, "k2", None, &[(0, 3)]);
    assert_eq!(prepare_commit(&mut db, &a, unknown).unwrap().size, 3);
    assert_eq!(
        prepare_commit(&mut db, &a, unknown).unwrap_err(),
        CacheError::Db(DbError::AlreadyExists)
    );
    assert_eq!(finish_commit(&mut db, 555), Err(CacheError::Db(DbError::NotFound)));
}

#[test]
fn find_misses_and_needs_host_headers() {
    let mut db = Database::new();
    let a = auth("o/r", "");
    let host = RawHeader::Text(s("http://h"));
    let run = RawHeader::Text(s("7"));
    assert_eq!(find(&db, &a, "k", "v1", &host, &run).unwrap_err(), CacheError::NoMatch);
    let id = upload(&mut db, &a, "k", None, &[(0, 1)]);
    prepare_commit(&mut db, &a, id).unwrap();
    finish_commit(&mut db, id).unwrap();
    assert_eq!(
        find(&db, &a, "k", "v1", &RawHeader::Missing, &run).unwrap_err(),
        CacheError::Header(AuthError::MissingHeader(HeaderName::Host))
    );
    assert_eq!(
        find(&db, &a, "k", "v1", &host, &RawHeader::NotText).unwrap_err(),
        CacheError::Header(AuthError::InvalidHeader(HeaderName::RunId))
    );
    assert_eq!(
        find(&db, &a, "k", "v1", &RawHeader::Missing, &RawHeader::Missing).unwrap_err(),
        CacheError::Header(AuthError::MissingHeader(HeaderName::Host))
    );
    let hit = find(&db, &a, " K ,x", "v1", &host, &run).unwrap();
    assert_eq!(hit.archive_location, format!("http://h/7/_apis/artifactcache/artifacts/{}", id));
}

#[test]
fn committed_id_stays_already_complete_after_its_entry_is_replaced() {
    let mut db = Database::new();
    let a = auth("o/r", "");
    let first = upload(&mut db, &a, "k", None, &[(0, 1)]);
    prepare_commit(&mut db, &a, first).unwrap();
    finish_commit(&mut db, first).unwrap();
    let second = upload(&mut db, &a, "k", None, &[(0, 2)]);
    prepare_commit(&mut db, &a, second).unwrap();
    finish_commit(&mut db, second).unwrap();
    assert!(db.entries.find_by_id(first).is_none());
    assert_eq!(prepare_commit(&mut db, &a, first).unwrap_err(), CacheError::AlreadyComplete);
    assert_eq!(prepare_chunk(&mut db, &a, first, Some((0, 0)), 1).unwrap_err(), CacheError::AlreadyComplete);
    db.entries.delete_by_id(second);
    assert_eq!(prepare_commit(&mut db, &a, second).unwrap_err(), CacheError::AlreadyComplete);
    assert_eq!(prepare_commit(&mut db, &a, 999).unwrap_err(), CacheError::NotReserved);
    assert_eq!(status_code(&CacheError::AlreadyComplete), 400);
    assert_eq!(status_code(&CacheError::NotReserved), 404);
}

#[test]
fn s3_commit_joins_chunks_sent_out_of_order_by_offset() {
    let mut db = Database::new();
    let a = auth("o/r", "");
    let (id, file_id) = reserve(&mut db, &a, "k", "v1", None).unwrap();
    record_multipart_upload(&mut db, id, Some(s("mp"))).unwrap();
    let mut numbers = Vec::new();
    for (start, len) in [(10u64, 5usize), (0, 10)] {
        let plan = prepare_chunk(&mut db, &a, id, Some((start, start + len as u64 - 1)), len).unwrap();
        numbers.push(plan.part_number);
        finish_chunk(&mut db, id, plan.part_id, Some(s("e"))).unwrap();
    }
    assert_eq!(numbers, vec![1, 2]);
    let plan = prepare_commit(&mut db, &a, id).unwrap();
    assert_eq!(plan.s3_upload_id, Some(s("mp")));
    let starts: Vec<i64> = plan.parts.iter().map(|p| p.start_byte).collect();
    assert_eq!(starts, vec![0, 10]);
    let sources: Vec<String> = plan.steps.iter().map(|st| st.source.clone()).collect();
    let parts: Vec<u64> = plan.steps.iter().map(|st| st.part_number).collect();
    assert_eq!(sources, vec![format!("{}-2", file_id), format!("{}-1", file_id)]);
    assert_eq!(parts, vec![1, 2]);
    finish_commit(&mut db, id).unwrap();
}

#[test]
fn find_is_case_insensitive_after_commit() {
    let mut db = Database::new();
    let a = auth("o/r", "");
    let id = upload(&mut db, &a, "Linux-Node-20", None, &[(0, 1)]);
    prepare_commit(&mut db, &a, id).unwrap();
    finish_commit(&mut db, id).unwrap();
    let hit = find(&db, &a, "LINUX-NODE-20", "v1", &RawHeader::Text(s("h")), &RawHeader::Text(s("1"))).unwrap();
    assert_eq!(hit.cache_key, "linux-node-20");
    assert!(hit.archive_location.ends_with(&format!("/_apis/artifactcache/artifacts/{}", id)));
}

#[test]
fn reserved_files_are_fresh() {
    let mut db = Database::new();
    let a = auth("o/r", "");
    let first = upload(&mut db, &a, "k", None, &[(0, 1)]);
    let first_file = db.uploads.find(first).unwrap().file_id;
    prepare_commit(&mut db, &a, first).unwrap();
    finish_commit(&mut db, first).unwrap();
    let (_, second_file) = reserve(&mut db, &a, "k", "v1", None).unwrap();
    assert_ne!(first_file, second_file);
}

#[test]
fn download_respects_isolation() {
    let mut db = Database::new();
    let main = auth("o/r", "main");
    let shared = auth("o/r", "");
    let a = upload(&mut db, &main, "k", None, &[(0, 1)]);
    prepare_commit(&mut db, &main, a).unwrap();
    finish_commit(&mut db, a).unwrap();
    let b = upload(&mut db, &shared, "k", None, &[(0, 1)]);
    prepare_commit(&mut db, &shared, b).unwrap();
    finish_commit(&mut db, b).unwrap();
    assert!(prepare_download(&db, &main, a).is_ok());
    assert_eq!(prepare_download(&db, &auth("o/r", "dev"), a).unwrap_err(), CacheError::IsolationMismatch);
    assert_eq!(prepare_download(&db, &shared, a).unwrap_err(), CacheError::IsolationMismatch);
    let plan = prepare_download(&db, &auth("o/r", "dev"), b).unwrap();
    assert_eq!(plan.entry_id, b);
    assert_eq!(prepare_download(&db, &shared, 777).unwrap_err(), CacheError::EntryNotFound);
    finish_download(&mut db, b).unwrap();
    assert_eq!(finish_download(&mut db, 777), Err(CacheError::Db(DbError::NotFound)));
}

#[test]
fn archive_location_layout() {
    assert_eq!(
        archive_location("http://10.0.0.1:8080", "123456789", 55),
        "http://10.0.0.1:8080/123456789/_apis/artifactcache/artifacts/55"
    );
}

#[test]
fn status_codes_follow_the_api() {
    assert_eq!(status_code(&CacheError::Auth(AuthError::InvalidMac)), 403);
    assert_eq!(status_code(&CacheError::Auth(AuthError::FutureTimestamp)), 403);
    assert_eq!(status_code(&CacheError::Auth(AuthError::MissingHeader(HeaderName::Repo))), 400);
    assert_eq!(status_code(&CacheError::NoMatch), 204);
    assert_eq!(status_code(&CacheError::NotReserved), 404);
    assert_eq!(status_code(&CacheError::EntryNotFound), 404);
    assert_eq!(status_code(&CacheError::IsolationMismatch), 403);
    assert_eq!(status_code(&CacheError::AlreadyComplete), 400);
    assert_eq!(status_code(&CacheError::MissingByteRange), 400);
    assert_eq!(status_code(&CacheError::InvalidCacheSize), 400);
    assert_eq!(status_code(&CacheError::Db(DbError::IdsExhausted)), 500);
}
