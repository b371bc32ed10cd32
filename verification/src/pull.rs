//! Reading the cache: finding an entry for a list of keys, and deciding
//! whether a request may download an entry.
use vstd::prelude::*;
use crate::auth::{Auth, HeaderName, RawHeader, get_header_text, header_text};
use crate::db::{CacheEntry, Database};
use crate::db::cache_entry::{has_entry, lookup};
use crate::error::CacheError;
use crate::text::{
    chars_of, decimal, format_i64, format_u64, lowercase, push_char, push_chars, signed_decimal,
    split_bounds, split_on, string_views, to_lowercase, trim, trim_range,
};

verus! {

/// A requested key as it is looked up: trimmed, then lower-cased.
pub open spec fn key_of_piece(piece: Seq<char>) -> Seq<char> {
    lowercase(trim(piece))
}

/// Selects the non-empty keys.
pub open spec fn nonempty_key() -> spec_fn(Seq<char>) -> bool {
    |k: Seq<char>| k.len() > 0
}

/// The keys of a `keys` query parameter: the comma-separated pieces, each
/// trimmed and lower-cased, without the empty ones, in order.
pub open spec fn requested_keys(query: Seq<char>) -> Seq<Seq<char>> {
    split_on(query, ',').map_values(|p: Seq<char>| key_of_piece(p)).filter(nonempty_key())
}

/// Parses the `keys` query parameter (see [`requested_keys`]).
pub fn parse_keys(query: &str) -> (res: Vec<String>)
    ensures
        string_views(res@) == requested_keys(query@),
{
    let chars = chars_of(query);
    let bounds = split_bounds(&chars, ',');
    let ghost pieces = split_on(query@, ',');
    let ghost keys = pieces.map_values(|p: Seq<char>| key_of_piece(p));
    let mut res: Vec<String> = Vec::new();
    let mut k: usize = 0;
    assert(keys.take(0).filter(nonempty_key()) =~= Seq::<Seq<char>>::empty()) by {
        reveal(Seq::filter);
    }
    while k < bounds.len()
        invariant
            k <= bounds@.len() == pieces.len() == keys.len(),
            chars@ == query@,
            pieces == split_on(query@, ','),
            keys == pieces.map_values(|p: Seq<char>| key_of_piece(p)),
            forall|m: int|
                0 <= m < bounds@.len() ==> {
                    &&& (#[trigger] bounds@[m]).0 <= bounds@[m].1 <= chars@.len()
                    &&& chars@.subrange(bounds@[m].0 as int, bounds@[m].1 as int) == pieces[m]
                },
            string_views(res@) == keys.take(k as int).filter(nonempty_key()),
        decreases bounds@.len() - k,
    {
        let (lo, hi) = bounds[k];
        let trimmed = trim_range(&chars, lo, hi);
        let key = to_lowercase(trimmed.as_str());
        proof {
            assert(keys[k as int] == key@);
            assert(keys.take(k + 1) =~= keys.take(k as int).push(keys[k as int]));
            keys.take(k as int).lemma_filter_push(keys[k as int], nonempty_key());
        }
        if !key.as_str().is_empty() {
            res.push(key);
            assert(string_views(res@) =~= keys.take(k + 1).filter(nonempty_key()));
        } else {
            assert(string_views(res@) =~= keys.take(k + 1).filter(nonempty_key()));
        }
        k = k + 1;
    }
    assert(keys.take(k as int) =~= keys);
    res
}

/// Where a runner downloads entry `id`:
/// `{host}/{run_id}/_apis/artifactcache/artifacts/{id}`.
pub open spec fn archive_location_of(host: Seq<char>, run_id: Seq<char>, id: i32) -> Seq<char> {
    host + seq!['/'] + run_id + "/_apis/artifactcache/artifacts/"@ + signed_decimal(id as int)
}

/// Builds the download location of an entry.
pub fn archive_location(host: &str, run_id: &str, id: i32) -> (res: String)
    ensures
        res@ == archive_location_of(host@, run_id@, id),
{
    let mut loc = String::new();
    push_chars(&mut loc, &chars_of(host));
    push_char(&mut loc, '/');
    push_chars(&mut loc, &chars_of(run_id));
    push_chars(&mut loc, &chars_of("/_apis/artifactcache/artifacts/"));
    let number = format_i64(id as i64);
    push_chars(&mut loc, &chars_of(number.as_str()));
    assert(loc@ =~= archive_location_of(host@, run_id@, id));
    loc
}

/// The answer to a successful lookup.
#[derive(Debug)]
pub struct FindResult {
    pub cache_key: String,
    pub result: String,
    pub archive_location: String,
}

/// Looks up the entry for a request's `keys` and `version` and says where to
/// download it; `host` and `run_id` are the request's `Forgejo-Cache-Host`
/// and `Forgejo-Cache-RunId` headers, both required.
pub fn find(
    db: &Database,
    auth: &Auth,
    keys: &str,
    version: &str,
    host: &RawHeader,
    run_id: &RawHeader,
) -> (res: Result<FindResult, CacheError>)
    ensures
        match (header_text(host@, HeaderName::Host), header_text(run_id@, HeaderName::RunId)) {
            (Err(e), _) => res == Err::<FindResult, CacheError>(CacheError::Header(e)),
            (Ok(_), Err(e)) => res == Err::<FindResult, CacheError>(CacheError::Header(e)),
            (Ok(h), Ok(r)) => {
                let s = db.entries.entries();
                let i = lookup(s, requested_keys(keys@), version@, auth@);
                match res {
                    Ok(f) => 0 <= i < s.len() && f.cache_key@ == s[i].key@ && f.result@ == "hit"@
                        && f.archive_location@ == archive_location_of(h, r, s[i].id),
                    Err(e) => i == -1 && e == CacheError::NoMatch,
                }
            },
        },
{
    let host_text = match get_header_text(host, HeaderName::Host) {
        Ok(t) => t,
        Err(e) => return Err(CacheError::Header(e)),
    };
    let run_id_text = match get_header_text(run_id, HeaderName::RunId) {
        Ok(t) => t,
        Err(e) => return Err(CacheError::Header(e)),
    };
    let key_list = parse_keys(keys);
    proof {
        crate::db::cache_entry::lemma_lookup_bounds(db.entries.entries(), requested_keys(keys@), version@, auth@);
    }
    let entry = match db.entries.find_entry(&key_list, version, auth) {
        None => return Err(CacheError::NoMatch),
        Some(e) => e,
    };
    let location = archive_location(host_text.as_str(), run_id_text.as_str(), entry.id);
    let result = String::from_str("hit");
    proof {
        reveal_strlit("hit");
    }
    Ok(FindResult { cache_key: entry.key, result, archive_location: location })
}

/// Whether a request with isolation key `request_wik` may read an entry
/// stored under `entry_wik`: entries without isolation key are shared, the
/// others only with their own key.
pub open spec fn may_read(entry_wik: Seq<char>, request_wik: Seq<char>) -> bool {
    entry_wik == request_wik || entry_wik.len() == 0
}

/// What a download reads: entry `entry_id`, stored as object `file_key`.
#[derive(Debug)]
pub struct DownloadPlan {
    pub entry_id: i32,
    pub file_key: String,
}

/// Decides whether entry `id` may be downloaded by the request and names the
/// object that holds it.
pub fn prepare_download(db: &Database, auth: &Auth, id: i32) -> (res: Result<DownloadPlan, CacheError>)
    requires
        db.wf(),
    ensures
        !has_entry(db.entries.entries(), id) ==> res == Err::<DownloadPlan, CacheError>(
            CacheError::EntryNotFound,
        ),
        forall|i: int|
            0 <= i < db.entries.entries().len() && #[trigger] db.entries.entries()[i].id == id
                ==> {
                let e = db.entries.entries()[i];
                &&& may_read(e.write_isolation_key@, auth.write_isolation_key@) ==> (res matches Ok(
                    p,
                ) && p.entry_id == id && p.file_key@ == decimal(e.file_id as nat))
                &&& !may_read(e.write_isolation_key@, auth.write_isolation_key@) ==> res
                    == Err::<DownloadPlan, CacheError>(CacheError::IsolationMismatch)
            },
{
    proof {
        db.entries.lemma_wf();
    }
    let entry = match db.entries.find_by_id(id) {
        None => return Err(CacheError::EntryNotFound),
        Some(e) => e,
    };
    let same = crate::text::str_eq(entry.write_isolation_key.as_str(), auth.write_isolation_key.as_str());
    if !same && !entry.write_isolation_key.as_str().is_empty() {
        return Err(CacheError::IsolationMismatch);
    }
    Ok(DownloadPlan { entry_id: id, file_key: format_u64(entry.file_id) })
}

/// Records that entry `id` was downloaded now.
pub fn finish_download(db: &mut Database, id: i32) -> (res: Result<(), CacheError>)
    requires
        old(db).wf(),
    ensures
        final(db).wf(),
        final(db).uploads == old(db).uploads,
        final(db).entries.pending() == old(db).entries.pending(),
        final(db).entries.cleanups() == old(db).entries.cleanups(),
        final(db).entries.committed() == old(db).entries.committed(),
        res is Ok <==> has_entry(old(db).entries.entries(), id),
        res matches Err(e) ==> e == CacheError::Db(crate::db::DbError::NotFound)
            && final(db).entries.entries() == old(db).entries.entries(),
        res is Ok ==> exists|i: int|
            0 <= i < old(db).entries.entries().len() && #[trigger] old(db).entries.entries()[i].id
                == id && final(db).entries.entries() == old(db).entries.entries().update(
                i,
                CacheEntry { used_at: final(db).entries.entries()[i].used_at, ..old(db).entries.entries()[i] },
            ),
{
    match db.entries.update_used_at(id) {
        Ok(()) => Ok(()),
        Err(e) => Err(CacheError::Db(e)),
    }
}

} // verus!
