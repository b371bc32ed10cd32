use artifact_cache::auth::{
    build_mac_message, compute_mac, verify_request, authenticate, AuthError, AuthHeaders, HeaderName, RawHeader,
};

fn text(s: &str) -> RawHeader {
    RawHeader::Text(s.to_string())
}

fn signed(secret: &str, repo: &str, run: &str, ts: &str, wik: Option<&str>) -> AuthHeaders {
    let ts_num: u64 = ts.parse().unwrap();
    let msg = build_mac_message(repo, run, ts_num, wik.unwrap_or(""));
    let mac = compute_mac(secret, &msg).unwrap();
    AuthHeaders {
        repo: text(repo),
        run_number: text(run),
        timestamp: text(ts),
        write_isolation_key: match wik {
            Some(w) => text(w),
            None => RawHeader::Missing,
        },
        mac: RawHeader::Text(mac),
    }
}

#[test]
fn mac_message_follows_the_documented_layout() {
    assert_eq!(
        build_mac_message("forgejo/runner", "42", 1717084800, "refs/heads/main"),
        "forgejo/runner>42>1717084800>refs/heads/main"
    );
    assert_eq!(build_mac_message("r", "1", 0, ""), "r>1>0>");
}

#[test]
fn mac_is_lowercase_hex_hmac_sha256() {
    assert_eq!(
        compute_mac("key", "The quick brown fox jumps over the lazy dog").unwrap(),
        "f7bc83f430538424b13298e6aa6fb143ef4d59a14946175997479dbc2d1a3cd8"
    );
    assert_eq!(
        compute_mac("", "").unwrap(),
        "b613679a0814d9ec772f95d778c35fc5ff1697c493715653c6c712144292c5ad"
    );
}

#[test]
fn authentic_request_is_accepted() {
    let h = signed("s3cret", "forgejo/runner", "42", "1717084800", Some("refs/heads/main"));
    let auth = verify_request(&h, "s3cret", 1717084800).unwrap();
    assert_eq!(auth.repo, "forgejo/runner");
    assert_eq!(auth.run_number, "42");
    assert_eq!(auth.write_isolation_key, "refs/heads/main");
}

#[test]
fn missing_isolation_key_counts_as_empty() {
    let h = signed("s3cret", "o/r", "7", "100", None);
    let auth = verify_request(&h, "s3cret", 200).unwrap();
    assert_eq!(auth.write_isolation_key, "");
    let mut h2 = signed("s3cret", "o/r", "7", "100", None);
    h2.write_isolation_key = RawHeader::NotText;
    assert_eq!(verify_request(&h2, "s3cret", 200).unwrap().write_isolation_key, "");
}

#[test]
fn wrong_mac_is_refused() {
    let mut h = signed("s3cret", "o/r", "7", "100", Some("main"));
    h.mac = text("00");
    assert_eq!(verify_request(&h, "s3cret", 200).unwrap_err(), AuthError::InvalidMac);
    let h2 = signed("other", "o/r", "7", "100", Some("main"));
    assert_eq!(verify_request(&h2, "s3cret", 200).unwrap_err(), AuthError::InvalidMac);
}

#[test]
fn tampered_isolation_key_is_refused() {
    let mut h = signed("s3cret", "o/r", "7", "100", Some("main"));
    h.write_isolation_key = text("other");
    assert_eq!(verify_request(&h, "s3cret", 200).unwrap_err(), AuthError::InvalidMac);
}

#[test]
fn timestamp_with_leading_zeros_is_signed_in_canonical_form() {
    let msg = build_mac_message("o/r", "7", 100, "");
    let mac = compute_mac("k", &msg).unwrap();
    let h = AuthHeaders {
        repo: text("o/r"),
        run_number: text("7"),
        timestamp: text("0100"),
        write_isolation_key: RawHeader::Missing,
        mac: RawHeader::Text(mac),
    };
    assert!(verify_request(&h, "k", 100).is_ok());
}

#[test]
fn future_timestamp_is_refused() {
    let h = signed("s3cret", "o/r", "7", "300", None);
    assert_eq!(verify_request(&h, "s3cret", 299).unwrap_err(), AuthError::FutureTimestamp);
    assert!(verify_request(&h, "s3cret", 300).is_ok());
}

#[test]
fn header_errors_come_in_header_order() {
    let mut h = signed("s", "o/r", "7", "100", None);
    h.repo = RawHeader::Missing;
    h.timestamp = text("soon");
    assert_eq!(verify_request(&h, "s", 200).unwrap_err(), AuthError::MissingHeader(HeaderName::Repo));
    let mut h = signed("s", "o/r", "7", "100", None);
    h.run_number = RawHeader::NotText;
    assert_eq!(verify_request(&h, "s", 200).unwrap_err(), AuthError::InvalidHeader(HeaderName::RunNumber));
    let mut h = signed("s", "o/r", "7", "100", None);
    h.timestamp = text("soon");
    assert_eq!(
        verify_request(&h, "s", 200).unwrap_err(),
        AuthError::UnparsableHeader(HeaderName::Timestamp)
    );
    let mut h = signed("s", "o/r", "7", "100", None);
    h.mac = RawHeader::Missing;
    assert_eq!(verify_request(&h, "s", 200).unwrap_err(), AuthError::MissingHeader(HeaderName::Mac));
}

#[test]
fn authenticate_uses_the_clock() {
    let h = signed("s", "o/r", "7", "1000", None);
    assert!(authenticate(&h, "s").is_ok());
    let far = signed("s", "o/r", "7", "99999999999", None);
    assert_eq!(authenticate(&far, "s").unwrap_err(), AuthError::FutureTimestamp);
}
