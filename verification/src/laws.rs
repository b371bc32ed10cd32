//! Properties of the cache as a whole, each proved over the specifications
//! that the operations' contracts use.
use vstd::prelude::*;
use crate::auth::{AuthError, AuthHeaders, AuthView, HeaderView, auth_outcome, expected_mac, mac_message};
use crate::db::CacheEntry;
use crate::db::cache_entry::{
    CacheEntryTable, KeyMatch, candidate, lemma_newest, lookup, newest, outside_slot, same_slot,
    search,
};
use crate::db::Database;
use crate::db::cache_upload::{CacheUploadTable, has_upload};
use crate::error::CacheError;
use crate::pull::may_read;
use crate::push::missing_upload_error;
use crate::text::{decimal, is_prefix, lemma_parse_decimal, parse_u64_spec};

verus! {

/// A request whose headers are present, whose timestamp is not after the
/// server's clock and whose MAC is the HMAC of its metadata under the shared
/// secret is accepted, as the repository, run number and isolation key it
/// names (an absent isolation key counts as empty).
pub proof fn law_authentic_request_accepted(
    h: AuthHeaders,
    secret: Seq<char>,
    now: u64,
    repo: Seq<char>,
    run_number: Seq<char>,
    timestamp_text: Seq<char>,
    wik: Seq<char>,
    mac: Seq<char>,
)
    requires
        h.repo@ == HeaderView::Text(repo),
        h.run_number@ == HeaderView::Text(run_number),
        h.timestamp@ == HeaderView::Text(timestamp_text),
        parse_u64_spec(timestamp_text) is Some,
        parse_u64_spec(timestamp_text)->0 <= now,
        h.write_isolation_key@ == HeaderView::Text(wik) || (wik.len() == 0
            && !(h.write_isolation_key@ is Text)),
        h.mac@ == HeaderView::Text(mac),
        mac == expected_mac(
            secret,
            mac_message(repo, run_number, parse_u64_spec(timestamp_text)->0, wik),
        ),
    ensures
        auth_outcome(h, secret, now) == Ok::<AuthView, AuthError>(
            AuthView { repo, run_number, write_isolation_key: wik },
        ),
{
    if !(h.write_isolation_key@ is Text) {
        assert(wik =~= Seq::<char>::empty());
    }
}

/// A request whose headers are present and whose timestamp is not after the
/// server's clock, but whose MAC is not the expected one, is refused as
/// having an invalid MAC.
pub proof fn law_wrong_mac_refused(
    h: AuthHeaders,
    secret: Seq<char>,
    now: u64,
    repo: Seq<char>,
    run_number: Seq<char>,
    timestamp_text: Seq<char>,
    wik: Seq<char>,
    mac: Seq<char>,
)
    requires
        h.repo@ == HeaderView::Text(repo),
        h.run_number@ == HeaderView::Text(run_number),
        h.timestamp@ == HeaderView::Text(timestamp_text),
        parse_u64_spec(timestamp_text) is Some,
        parse_u64_spec(timestamp_text)->0 <= now,
        h.write_isolation_key@ == HeaderView::Text(wik) || (wik.len() == 0
            && !(h.write_isolation_key@ is Text)),
        h.mac@ == HeaderView::Text(mac),
        mac != expected_mac(
            secret,
            mac_message(repo, run_number, parse_u64_spec(timestamp_text)->0, wik),
        ),
    ensures
        auth_outcome(h, secret, now) == Err::<AuthView, AuthError>(AuthError::InvalidMac),
{
    if !(h.write_isolation_key@ is Text) {
        assert(wik =~= Seq::<char>::empty());
    }
}

/// A request whose headers are present but whose timestamp lies after the
/// server's clock is refused, whatever its MAC.
pub proof fn law_future_timestamp_refused(
    h: AuthHeaders,
    secret: Seq<char>,
    now: u64,
    timestamp_text: Seq<char>,
)
    requires
        h.repo@ is Text,
        h.run_number@ is Text,
        h.timestamp@ == HeaderView::Text(timestamp_text),
        parse_u64_spec(timestamp_text) is Some,
        parse_u64_spec(timestamp_text)->0 > now,
        h.mac@ is Text,
    ensures
        auth_outcome(h, secret, now) == Err::<AuthView, AuthError>(AuthError::FutureTimestamp),
{
}

/// The timestamp in the signed message is the decimal form of the header's
/// number, which reads back as that number.
pub proof fn law_decimal_round_trip(n: u64)
    ensures
        parse_u64_spec(decimal(n as nat)) == Some(n),
{
    lemma_parse_decimal(n);
}

proof fn lemma_search_selects(
    s: Seq<CacheEntry>,
    keys: Seq<Seq<char>>,
    version: Seq<char>,
    repo: Seq<char>,
    wik: Seq<char>,
)
    ensures
        -1 <= search(s, keys, version, repo, wik) < s.len(),
        search(s, keys, version, repo, wik) >= 0 ==> {
            let e = s[search(s, keys, version, repo, wik)];
            &&& e.repo@ == repo
            &&& e.version@ == version
            &&& e.write_isolation_key@ == wik
            &&& exists|k: int| 0 <= k < keys.len() && (e.key@ == #[trigger] keys[k] || is_prefix(keys[k], e.key@))
        },
    decreases keys.len(),
{
    if keys.len() > 0 {
        let pe = candidate(repo, version, wik, keys[0], KeyMatch::Exact);
        let pp = candidate(repo, version, wik, keys[0], KeyMatch::Prefix);
        lemma_newest(s, pe);
        lemma_newest(s, pp);
        lemma_search_selects(s, keys.drop_first(), version, repo, wik);
        let r = search(s, keys, version, repo, wik);
        if r >= 0 {
            let e = s[r];
            if newest(s, pe) >= 0 {
                assert(pe(e));
                assert(e.key@ == keys[0]);
            } else if newest(s, pp) >= 0 {
                assert(pp(e));
                assert(is_prefix(keys[0], e.key@));
            } else {
                let k = choose|k: int|
                    0 <= k < keys.drop_first().len() && (e.key@ == #[trigger] keys.drop_first()[k]
                        || is_prefix(keys.drop_first()[k], e.key@));
                assert(keys.drop_first()[k] == keys[k + 1]);
            }
        }
    }
}

/// A lookup only finds an entry of the request's repository and version, one
/// that the request may read (its own isolation key, or none), and whose key
/// equals or starts with one of the requested keys.
pub proof fn law_lookup_respects_isolation(
    s: Seq<CacheEntry>,
    keys: Seq<Seq<char>>,
    version: Seq<char>,
    auth: AuthView,
)
    ensures
        -1 <= lookup(s, keys, version, auth) < s.len(),
        lookup(s, keys, version, auth) >= 0 ==> {
            let e = s[lookup(s, keys, version, auth)];
            &&& e.repo@ == auth.repo
            &&& e.version@ == version
            &&& may_read(e.write_isolation_key@, auth.write_isolation_key)
            &&& exists|k: int| 0 <= k < keys.len() && (e.key@ == #[trigger] keys[k] || is_prefix(keys[k], e.key@))
        },
{
    lemma_search_selects(s, keys, version, auth.repo, auth.write_isolation_key);
    lemma_search_selects(s, keys, version, auth.repo, Seq::empty());
}

proof fn lemma_newest_unique(s: Seq<CacheEntry>, pred: spec_fn(CacheEntry) -> bool, i: int)
    requires
        0 <= i < s.len(),
        pred(s[i]),
        forall|j: int| 0 <= j < s.len() && j != i ==> !pred(#[trigger] s[j]),
    ensures
        newest(s, pred) == i,
{
    lemma_newest(s, pred);
    if newest(s, pred) != i {
        assert(newest(s, pred) == -1 || pred(s[newest(s, pred)]));
    }
}

/// Once an upload is committed, the table holds the entries outside the new
/// entry's slot followed by the new entry (see `CacheEntryTable::complete`);
/// then a request from the same repository and isolation key that looks up
/// the entry's key and version finds exactly the new entry.
pub proof fn law_committed_entry_is_found(
    before: Seq<CacheEntry>,
    p: CacheEntry,
    run_number: Seq<char>,
)
    ensures
        ({
            let after = before.filter(outside_slot(p)).push(p);
            let auth = AuthView { repo: p.repo@, run_number, write_isolation_key: p.write_isolation_key@ };
            lookup(after, seq![p.key@], p.version@, auth) == after.len() - 1
        }),
{
    let kept = before.filter(outside_slot(p));
    let after = kept.push(p);
    let keys = seq![p.key@];
    let pe = candidate(p.repo@, p.version@, p.write_isolation_key@, keys[0], KeyMatch::Exact);
    let f = crate::seqs::lemma_filter_embedding(before, outside_slot(p));
    assert forall|j: int| 0 <= j < after.len() && j != after.len() - 1 implies !pe(#[trigger] after[j]) by {
        assert(after[j] == kept[j]);
        assert(kept[j] == before[f(j)]);
        assert(!same_slot(before[f(j)], p));
    }
    lemma_newest_unique(after, pe, after.len() - 1);
}

/// No two complete entries of a well-formed table share a slot (repository,
/// version, isolation key and key), nor an id.
pub proof fn law_one_entry_per_slot(t: CacheEntryTable, i: int, j: int)
    requires
        t.wf(),
        0 <= i < t.entries().len(),
        0 <= j < t.entries().len(),
        i != j,
    ensures
        !same_slot(t.entries()[i], t.entries()[j]),
        t.entries()[i].id != t.entries()[j].id,
{
    t.lemma_wf();
}

proof fn lemma_split_without_separator(s: Seq<char>, sep: char)
    requires
        forall|i: int| 0 <= i < s.len() ==> s[i] != sep,
    ensures
        crate::text::split_on(s, sep) == seq![s],
    decreases s.len(),
{
    if s.len() > 0 {
        lemma_split_without_separator(s.drop_last(), sep);
        assert(s.drop_last().push(s.last()) =~= s);
    } else {
        assert(s =~= Seq::<char>::empty());
    }
}

/// A key without commas and without surrounding whitespace is looked up as
/// its lower-case form, which is the form in which a reservation stores it
/// (see `push::reserve`): keys are case-insensitive.
pub proof fn law_key_lookup_matches_stored_form(k: Seq<char>)
    requires
        forall|i: int| 0 <= i < k.len() ==> k[i] != ',',
        crate::text::trim(k) == k,
        crate::text::lowercase(k).len() > 0,
    ensures
        crate::pull::requested_keys(k) == seq![crate::text::lowercase(k)],
{
    lemma_split_without_separator(k, ',');
    let mapped = seq![k].map_values(|p: Seq<char>| crate::pull::key_of_piece(p));
    assert(mapped =~= seq![crate::text::lowercase(k)]);
    reveal_with_fuel(Seq::filter, 2);
    assert(seq![crate::text::lowercase(k)].drop_last() =~= Seq::<Seq<char>>::empty());
    assert(Seq::<Seq<char>>::empty().filter(crate::pull::nonempty_key()) =~= Seq::<Seq<char>>::empty());
    assert(mapped.filter(crate::pull::nonempty_key()) =~= seq![crate::text::lowercase(k)]);
}

/// A committed upload id is answered as already complete: it is no longer
/// reserved, and a chunk or a commit for it is refused with
/// `AlreadyComplete` (not `NotReserved`), however the entries changed since.
pub proof fn law_committed_id_is_already_complete(db: Database, id: i32)
    requires
        db.wf(),
        db.entries.committed().contains(id),
    ensures
        !has_upload(db.uploads.uploads(), id),
        missing_upload_error(db, id) == CacheError::AlreadyComplete,
{
    let k = choose|k: int| 0 <= k < db.entries.committed().len() && db.entries.committed()[k] == id;
    assert(db.entries.committed()[k] == id);
}

/// No two chunks of one upload start at the same offset or share a part
/// number, so no chunk's stored part overwrites another's.
pub proof fn law_chunks_of_an_upload_are_distinct(t: CacheUploadTable, i: int, j: int)
    requires
        t.wf(),
        0 <= i < t.chunks().len(),
        0 <= j < t.chunks().len(),
        i != j,
        t.chunks()[i].cache_upload == t.chunks()[j].cache_upload,
    ensures
        t.chunks()[i].start_byte != t.chunks()[j].start_byte,
        t.chunks()[i].part_number != t.chunks()[j].part_number,
        t.chunks()[i].id != t.chunks()[j].id,
{
    t.lemma_wf();
}

/// A key looked up in any letter case is found once an upload stored under
/// it is committed: the reservation stores the lower-case form, and the
/// lookup lower-cases the requested key (for a key without commas or
/// surrounding whitespace whose lower-case form is the stored key).
pub proof fn law_committed_key_found_in_any_case(
    before: Seq<CacheEntry>,
    p: CacheEntry,
    run_number: Seq<char>,
    query: Seq<char>,
)
    requires
        forall|i: int| 0 <= i < query.len() ==> query[i] != ',',
        crate::text::trim(query) == query,
        crate::text::lowercase(query).len() > 0,
        crate::text::lowercase(query) == p.key@,
    ensures
        ({
            let after = before.filter(outside_slot(p)).push(p);
            let auth = AuthView { repo: p.repo@, run_number, write_isolation_key: p.write_isolation_key@ };
            lookup(after, crate::pull::requested_keys(query), p.version@, auth) == after.len() - 1
        }),
{
    law_key_lookup_matches_stored_form(query);
    law_committed_entry_is_found(before, p, run_number);
}

/// Whether entry `e` belongs to repository `repo`, version `version` and
/// isolation key `wik` and its key equals or starts with `key`.
pub open spec fn answers(e: CacheEntry, repo: Seq<char>, version: Seq<char>, wik: Seq<char>, key: Seq<char>) -> bool {
    &&& e.repo@ == repo
    &&& e.version@ == version
    &&& e.write_isolation_key@ == wik
    &&& (e.key@ == key || (key.len() <= e.key@.len() && e.key@.subrange(0, key.len() as int) == key))
}

proof fn lemma_newest_none(s: Seq<CacheEntry>, pred: spec_fn(CacheEntry) -> bool)
    requires
        forall|i: int| 0 <= i < s.len() ==> !pred(#[trigger] s[i]),
    ensures
        newest(s, pred) == -1,
{
    lemma_newest(s, pred);
}

/// Requested keys are tried in the order given, the first being the primary
/// key: when no entry answers any key before `keys[j]` and some entry answers
/// `keys[j]`, the lookup finds an entry that answers `keys[j]`; one whose key
/// equals `keys[j]` when there is such an entry (else one whose key starts
/// with it), and among those the most recently created.
pub proof fn law_lookup_tries_keys_in_order(
    s: Seq<CacheEntry>,
    keys: Seq<Seq<char>>,
    version: Seq<char>,
    repo: Seq<char>,
    wik: Seq<char>,
    j: int,
)
    requires
        0 <= j < keys.len(),
        forall|m: int, i: int|
            0 <= m < j && 0 <= i < s.len() ==> !answers(#[trigger] s[i], repo, version, wik, #[trigger] keys[m]),
        exists|i: int| 0 <= i < s.len() && answers(#[trigger] s[i], repo, version, wik, keys[j]),
    ensures
        ({
            let r = search(s, keys, version, repo, wik);
            let exact_exists = exists|i: int|
                0 <= i < s.len() && answers(#[trigger] s[i], repo, version, wik, keys[j])
                    && s[i].key@ == keys[j];
            &&& 0 <= r < s.len()
            &&& answers(s[r], repo, version, wik, keys[j])
            &&& exact_exists ==> s[r].key@ == keys[j]
            &&& exact_exists ==> forall|i: int|
                0 <= i < s.len() && answers(#[trigger] s[i], repo, version, wik, keys[j])
                    && s[i].key@ == keys[j] ==> s[i].created_at <= s[r].created_at
            &&& !exact_exists ==> forall|i: int|
                0 <= i < s.len() && answers(#[trigger] s[i], repo, version, wik, keys[j])
                    ==> s[i].created_at <= s[r].created_at
        }),
    decreases j,
{
    let pe = candidate(repo, version, wik, keys[0], KeyMatch::Exact);
    let pp = candidate(repo, version, wik, keys[0], KeyMatch::Prefix);
    assert forall|i: int| 0 <= i < s.len() implies (pe(s[i]) || pp(s[i])) == answers(s[i], repo, version, wik, keys[0]) by {}
    if j == 0 {
        lemma_newest(s, pe);
        lemma_newest(s, pp);
        let i0 = choose|i: int| 0 <= i < s.len() && answers(#[trigger] s[i], repo, version, wik, keys[j]);
        assert(pe(s[i0]) || pp(s[i0]));
        if exists|i: int| 0 <= i < s.len() && answers(#[trigger] s[i], repo, version, wik, keys[j]) && s[i].key@ == keys[j] {
            let i1 = choose|i: int| 0 <= i < s.len() && answers(#[trigger] s[i], repo, version, wik, keys[j]) && s[i].key@ == keys[j];
            assert(pe(s[i1]));
            assert forall|i: int| 0 <= i < s.len() && answers(#[trigger] s[i], repo, version, wik, keys[j])
                && s[i].key@ == keys[j] implies s[i].created_at <= s[search(s, keys, version, repo, wik)].created_at by {
                assert(pe(s[i]));
            }
        } else {
            assert forall|i: int| 0 <= i < s.len() implies !pe(#[trigger] s[i]) by {
                if pe(s[i]) {
                    assert(answers(s[i], repo, version, wik, keys[j]) && s[i].key@ == keys[j]);
                }
            }
            assert(pp(s[i0]));
            assert forall|i: int| 0 <= i < s.len() && answers(#[trigger] s[i], repo, version, wik, keys[j])
                implies s[i].created_at <= s[search(s, keys, version, repo, wik)].created_at by {
                assert(pp(s[i]));
            }
        }
    } else {
        assert forall|i: int| 0 <= i < s.len() implies !pe(#[trigger] s[i]) && !pp(s[i]) by {
            assert(!answers(s[i], repo, version, wik, keys[0]));
        }
        lemma_newest_none(s, pe);
        lemma_newest_none(s, pp);
        let rest = keys.drop_first();
        assert forall|m: int, i: int|
            0 <= m < j - 1 && 0 <= i < s.len() implies !answers(#[trigger] s[i], repo, version, wik, #[trigger] rest[m]) by {
            assert(rest[m] == keys[m + 1]);
        }
        assert(rest[j - 1] == keys[j]);
        law_lookup_tries_keys_in_order(s, rest, version, repo, wik, j - 1);
    }
}

/// Committing entry `p` keeps every complete entry that differs from `p` in
/// repository, version, isolation key or key, and removes only entries that
/// agree with `p` on all four; `p` itself comes last.
pub proof fn law_commit_replaces_only_its_slot(before: Seq<CacheEntry>, p: CacheEntry)
    ensures
        ({
            let after = before.filter(outside_slot(p)).push(p);
            &&& after.last() == p
            &&& forall|i: int|
                0 <= i < before.len() && (before[i].repo@ != p.repo@ || before[i].version@ != p.version@
                    || before[i].write_isolation_key@ != p.write_isolation_key@ || before[i].key@ != p.key@)
                    ==> after.contains(#[trigger] before[i])
            &&& forall|m: int|
                0 <= m < after.len() - 1 ==> {
                    &&& before.contains(#[trigger] after[m])
                    &&& (after[m].repo@ != p.repo@ || after[m].version@ != p.version@
                        || after[m].write_isolation_key@ != p.write_isolation_key@ || after[m].key@ != p.key@)
                }
        }),
{
    let kept = before.filter(outside_slot(p));
    let after = kept.push(p);
    assert forall|i: int|
        0 <= i < before.len() && (before[i].repo@ != p.repo@ || before[i].version@ != p.version@
            || before[i].write_isolation_key@ != p.write_isolation_key@ || before[i].key@ != p.key@)
            implies after.contains(#[trigger] before[i]) by {
        assert(outside_slot(p)(before[i]));
        before.lemma_filter_contains(outside_slot(p), i);
        let k = choose|k: int| 0 <= k < kept.len() && kept[k] == before[i];
        assert(after[k] == before[i]);
    }
    let f = crate::seqs::lemma_filter_embedding(before, outside_slot(p));
    assert forall|m: int| 0 <= m < after.len() - 1 implies {
        &&& before.contains(#[trigger] after[m])
        &&& (after[m].repo@ != p.repo@ || after[m].version@ != p.version@
            || after[m].write_isolation_key@ != p.write_isolation_key@ || after[m].key@ != p.key@)
    } by {
        assert(after[m] == kept[m]);
        assert(kept[m] == before[f(m)]);
    }
}

/// The message a request's MAC signs is the request's texts, unchanged and
/// in order, separated by `>`: the repository, the run number, the decimal
/// timestamp and the isolation key.
pub proof fn law_signed_message_is_the_literal_texts(
    repo: Seq<char>,
    run_number: Seq<char>,
    timestamp: u64,
    wik: Seq<char>,
)
    ensures
        ({
            let m = mac_message(repo, run_number, timestamp, wik);
            let ts = decimal(timestamp as nat);
            let a = repo.len() as int;
            let b = a + 1 + run_number.len();
            let c = b + 1 + ts.len();
            &&& m.len() == c + 1 + wik.len()
            &&& m.subrange(0, a) == repo
            &&& m[a] == '>'
            &&& m.subrange(a + 1, b) == run_number
            &&& m[b] == '>'
            &&& m.subrange(b + 1, c) == ts
            &&& m[c] == '>'
            &&& m.subrange(c + 1, m.len() as int) == wik
        }),
{
    let m = mac_message(repo, run_number, timestamp, wik);
    let ts = decimal(timestamp as nat);
    let a = repo.len() as int;
    let b = a + 1 + run_number.len();
    let c = b + 1 + ts.len();
    assert(m.subrange(0, a) =~= repo);
    assert(m.subrange(a + 1, b) =~= run_number);
    assert(m.subrange(b + 1, c) =~= ts);
    assert(m.subrange(c + 1, m.len() as int) =~= wik);
}

/// A request is accepted when its MAC is the hex HMAC-SHA256, under the
/// shared secret, of the literal text `{repo}>{run}>{timestamp}>{wik}` made
/// from its own headers, whatever characters the repository holds.
pub proof fn law_request_signed_over_its_literal_headers(
    h: AuthHeaders,
    secret: Seq<char>,
    now: u64,
    repo: Seq<char>,
    run_number: Seq<char>,
    timestamp: u64,
    wik: Seq<char>,
)
    requires
        h.repo@ == HeaderView::Text(repo),
        h.run_number@ == HeaderView::Text(run_number),
        h.timestamp@ == HeaderView::Text(decimal(timestamp as nat)),
        timestamp <= now,
        h.write_isolation_key@ == HeaderView::Text(wik),
        h.mac@ == HeaderView::Text(
            crate::auth::hex_lower(
                crate::auth::hmac_sha256(
                    vstd::utf8::encode_utf8(secret),
                    vstd::utf8::encode_utf8(
                        repo + seq!['>'] + run_number + seq!['>'] + decimal(timestamp as nat)
                            + seq!['>'] + wik,
                    ),
                ),
            ),
        ),
    ensures
        auth_outcome(h, secret, now) == Ok::<AuthView, AuthError>(
            AuthView { repo, run_number, write_isolation_key: wik },
        ),
{
    lemma_parse_decimal(timestamp);
    law_signed_message_is_the_literal_texts(repo, run_number, timestamp, wik);
    let m = mac_message(repo, run_number, timestamp, wik);
    let lit = repo + seq!['>'] + run_number + seq!['>'] + decimal(timestamp as nat) + seq!['>'] + wik;
    assert(m =~= lit) by {
        let ts = decimal(timestamp as nat);
        let a = repo.len() as int;
        let b = a + 1 + run_number.len();
        let c = b + 1 + ts.len();
        assert forall|i: int| 0 <= i < m.len() implies m[i] == lit[i] by {
            if i < a {
                assert(m.subrange(0, a)[i] == m[i]);
            } else if a < i < b {
                assert(m.subrange(a + 1, b)[i - a - 1] == m[i]);
            } else if b < i < c {
                assert(m.subrange(b + 1, c)[i - b - 1] == m[i]);
            } else if c < i {
                assert(m.subrange(c + 1, m.len() as int)[i - c - 1] == m[i]);
            }
        }
    }
}

proof fn lemma_search_finds_when_answered(
    s: Seq<CacheEntry>,
    keys: Seq<Seq<char>>,
    version: Seq<char>,
    repo: Seq<char>,
    wik: Seq<char>,
)
    requires
        exists|m: int, i: int|
            0 <= m < keys.len() && 0 <= i < s.len() && answers(#[trigger] s[i], repo, version, wik, #[trigger] keys[m]),
    ensures
        0 <= search(s, keys, version, repo, wik) < s.len(),
        s[search(s, keys, version, repo, wik)].write_isolation_key@ == wik,
    decreases keys.len(),
{
    let (m, i) = choose|m: int, i: int|
        0 <= m < keys.len() && 0 <= i < s.len() && answers(#[trigger] s[i], repo, version, wik, #[trigger] keys[m]);
    if exists|i2: int| 0 <= i2 < s.len() && answers(#[trigger] s[i2], repo, version, wik, keys[0]) {
        law_lookup_tries_keys_in_order(s, keys, version, repo, wik, 0);
    } else {
        assert(m > 0);
        let rest = keys.drop_first();
        assert(rest[m - 1] == keys[m]);
        assert(answers(s[i], repo, version, wik, rest[m - 1]));
        lemma_search_finds_when_answered(s, rest, version, repo, wik);
        let pe = candidate(repo, version, wik, keys[0], KeyMatch::Exact);
        let pp = candidate(repo, version, wik, keys[0], KeyMatch::Prefix);
        assert forall|k: int| 0 <= k < s.len() implies !pe(#[trigger] s[k]) && !pp(s[k]) by {
            assert(!answers(s[k], repo, version, wik, keys[0]));
        }
        lemma_newest_none(s, pe);
        lemma_newest_none(s, pp);
    }
}

/// A request's own isolation key comes first: when an entry with the
/// request's isolation key answers one of the requested keys, the lookup
/// finds an entry with that isolation key; when none does but a shared entry
/// (without isolation key) answers, a request with an isolation key finds a
/// shared entry.
pub proof fn law_own_isolation_key_first(
    s: Seq<CacheEntry>,
    keys: Seq<Seq<char>>,
    version: Seq<char>,
    auth: AuthView,
)
    ensures
        (exists|m: int, i: int|
            0 <= m < keys.len() && 0 <= i < s.len() && answers(
                #[trigger] s[i],
                auth.repo,
                version,
                auth.write_isolation_key,
                #[trigger] keys[m],
            )) ==> {
            let r = lookup(s, keys, version, auth);
            0 <= r < s.len() && s[r].write_isolation_key@ == auth.write_isolation_key
        },
        (forall|m: int, i: int|
            0 <= m < keys.len() && 0 <= i < s.len() ==> !answers(
                #[trigger] s[i],
                auth.repo,
                version,
                auth.write_isolation_key,
                #[trigger] keys[m],
            )) && auth.write_isolation_key.len() > 0 && (exists|m: int, i: int|
            0 <= m < keys.len() && 0 <= i < s.len() && answers(
                #[trigger] s[i],
                auth.repo,
                version,
                Seq::<char>::empty(),
                #[trigger] keys[m],
            )) ==> {
            let r = lookup(s, keys, version, auth);
            0 <= r < s.len() && s[r].write_isolation_key@.len() == 0
        },
{
    let own = exists|m: int, i: int|
        0 <= m < keys.len() && 0 <= i < s.len() && answers(
            #[trigger] s[i],
            auth.repo,
            version,
            auth.write_isolation_key,
            #[trigger] keys[m],
        );
    if own {
        lemma_search_finds_when_answered(s, keys, version, auth.repo, auth.write_isolation_key);
    } else {
        lemma_search_selects(s, keys, version, auth.repo, auth.write_isolation_key);
        let r0 = search(s, keys, version, auth.repo, auth.write_isolation_key);
        if r0 >= 0 {
            let e = s[r0];
            let k = choose|k: int| 0 <= k < keys.len() && (e.key@ == #[trigger] keys[k] || is_prefix(keys[k], e.key@));
            assert(answers(s[r0], auth.repo, version, auth.write_isolation_key, keys[k]));
        }
        if auth.write_isolation_key.len() > 0 && exists|m: int, i: int|
            0 <= m < keys.len() && 0 <= i < s.len() && answers(
                #[trigger] s[i],
                auth.repo,
                version,
                Seq::<char>::empty(),
                #[trigger] keys[m],
            ) {
            lemma_search_finds_when_answered(s, keys, version, auth.repo, Seq::<char>::empty());
        }
    }
}

} // verus!
