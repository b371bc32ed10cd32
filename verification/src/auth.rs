//! Request authentication: the metadata headers a runner sends, the message
//! that their MAC signs, and the decision to accept or refuse a request.
use vstd::prelude::*;
use hmac::{KeyInit, Mac};
use crate::text::{
    chars_of, decimal, format_u64, parse_u64, parse_u64_spec, push_chars, push_char,
};

verus! {

#[verifier::external_type_specification]
#[verifier::external_body]
pub struct ExInvalidLength(hmac::digest::InvalidLength);

/// What HMAC-SHA256 (the `hmac` crate over `sha2::Sha256`) computes for a key and a message.
pub uninterp spec fn hmac_sha256(key: Seq<u8>, message: Seq<u8>) -> Seq<u8>;

/// `hmac::Hmac::<sha2::Sha256>::new_from_slice`, `update` and `finalize`: the
/// HMAC-SHA256 tag of `message` under `key`. The crate accepts keys of every
/// length (longer keys are hashed first), so the call never fails; the tag is
/// the 32 bytes of a SHA-256 output.
#[verifier::external_body]
fn hmac_sha256_tag(key: &[u8], message: &[u8]) -> (res: Result<Vec<u8>, hmac::digest::InvalidLength>)
    ensures
        res is Ok,
        res matches Ok(tag) ==> tag@ == hmac_sha256(key@, message@) && tag@.len() == 32,
{
    let mut mac = <hmac::Hmac<sha2::Sha256> as KeyInit>::new_from_slice(key)?;
    mac.update(message);
    Ok(mac.finalize().into_bytes().to_vec())
}

/// The lower-case hexadecimal digit for a value below 16.
pub open spec fn hex_digit(v: u8) -> char {
    if v < 10 {
        ((v + 48) as u8) as char
    } else {
        ((v + 87) as u8) as char
    }
}

/// Lower-case hexadecimal encoding: two digits per byte, high nibble first.
pub open spec fn hex_lower(data: Seq<u8>) -> Seq<char>
    decreases data.len(),
{
    if data.len() == 0 {
        Seq::empty()
    } else {
        hex_lower(data.drop_last()) + seq![hex_digit(data.last() / 16), hex_digit(data.last() % 16)]
    }
}

/// `hex::encode`: the lower-case hexadecimal form of the bytes, two digits per
/// byte, high nibble first.
#[verifier::external_body]
fn hex_encode(data: &[u8]) -> (res: String)
    ensures
        res@ == hex_lower(data@),
{
    hex::encode(data)
}

/// The request headers that carry cache metadata.
#[derive(Clone, Copy, PartialEq, Eq, Debug)]
pub enum HeaderName {
    Repo,
    RunNumber,
    Timestamp,
    WriteIsolationKey,
    Mac,
    /// `Forgejo-Cache-Host`, required by a lookup.
    Host,
    /// `Forgejo-Cache-RunId`, required by a lookup.
    RunId,
}

/// One request header as it arrived: absent, present but not visible ASCII
/// text, or present as text.
#[derive(Debug)]
pub enum RawHeader {
    Missing,
    NotText,
    Text(String),
}

/// The metadata headers of a request.
#[derive(Debug)]
pub struct AuthHeaders {
    pub repo: RawHeader,
    pub run_number: RawHeader,
    pub timestamp: RawHeader,
    pub write_isolation_key: RawHeader,
    pub mac: RawHeader,
}

/// Why a request was refused.
#[derive(Clone, Copy, PartialEq, Eq, Debug)]
pub enum AuthError {
    /// A required header is absent.
    MissingHeader(HeaderName),
    /// A required header is not text.
    InvalidHeader(HeaderName),
    /// A header's text does not parse (the timestamp is not a number).
    UnparsableHeader(HeaderName),
    /// The request's timestamp lies after the server's clock.
    FutureTimestamp,
    /// The MAC key was refused by the HMAC implementation.
    InvalidKey,
    /// The MAC does not match the one computed from the secret.
    InvalidMac,
}

/// An authenticated request: who sent it and under which isolation key.
#[derive(Debug)]
pub struct Auth {
    pub repo: String,
    pub run_number: String,
    pub write_isolation_key: String,
}

impl Clone for RawHeader {
    fn clone(&self) -> (res: Self)
        ensures
            res == *self,
    {
        match self {
            RawHeader::Missing => RawHeader::Missing,
            RawHeader::NotText => RawHeader::NotText,
            RawHeader::Text(s) => RawHeader::Text(s.clone()),
        }
    }
}

impl Clone for AuthHeaders {
    fn clone(&self) -> (res: Self)
        ensures
            res == *self,
    {
        AuthHeaders {
            repo: self.repo.clone(),
            run_number: self.run_number.clone(),
            timestamp: self.timestamp.clone(),
            write_isolation_key: self.write_isolation_key.clone(),
            mac: self.mac.clone(),
        }
    }
}

impl Clone for Auth {
    fn clone(&self) -> (res: Self)
        ensures
            res == *self,
    {
        Auth {
            repo: self.repo.clone(),
            run_number: self.run_number.clone(),
            write_isolation_key: self.write_isolation_key.clone(),
        }
    }
}

/// The abstract content of an [`Auth`].
pub struct AuthView {
    pub repo: Seq<char>,
    pub run_number: Seq<char>,
    pub write_isolation_key: Seq<char>,
}

impl View for Auth {
    type V = AuthView;

    open spec fn view(&self) -> AuthView {
        AuthView {
            repo: self.repo@,
            run_number: self.run_number@,
            write_isolation_key: self.write_isolation_key@,
        }
    }
}

/// The abstract content of a header.
pub enum HeaderView {
    Missing,
    NotText,
    Text(Seq<char>),
}

impl View for RawHeader {
    type V = HeaderView;

    open spec fn view(&self) -> HeaderView {
        match self {
            RawHeader::Missing => HeaderView::Missing,
            RawHeader::NotText => HeaderView::NotText,
            RawHeader::Text(s) => HeaderView::Text(s@),
        }
    }
}

/// The text of a required header, or why there is none.
pub open spec fn header_text(h: HeaderView, name: HeaderName) -> Result<Seq<char>, AuthError> {
    match h {
        HeaderView::Missing => Err(AuthError::MissingHeader(name)),
        HeaderView::NotText => Err(AuthError::InvalidHeader(name)),
        HeaderView::Text(s) => Ok(s),
    }
}

/// The timestamp header as a number, or why there is none.
pub open spec fn header_u64(h: HeaderView, name: HeaderName) -> Result<u64, AuthError> {
    match header_text(h, name) {
        Err(e) => Err(e),
        Ok(s) => match parse_u64_spec(s) {
            Some(v) => Ok(v),
            None => Err(AuthError::UnparsableHeader(name)),
        },
    }
}

/// The message that a request's MAC signs:
/// `{repo}>{run_number}>{timestamp}>{write_isolation_key}`.
pub open spec fn mac_message(
    repo: Seq<char>,
    run_number: Seq<char>,
    timestamp: u64,
    write_isolation_key: Seq<char>,
) -> Seq<char> {
    repo + seq!['>'] + run_number + seq!['>'] + decimal(timestamp as nat) + seq!['>']
        + write_isolation_key
}

/// The MAC the server expects: lower-case hex of HMAC-SHA256 over the UTF-8
/// bytes of the message, keyed with the UTF-8 bytes of the secret.
pub open spec fn expected_mac(secret: Seq<char>, message: Seq<char>) -> Seq<char> {
    hex_lower(hmac_sha256(vstd::utf8::encode_utf8(secret), vstd::utf8::encode_utf8(message)))
}

/// The outcome of authenticating a request with the given headers, shared
/// secret and server clock `now`.
pub open spec fn auth_outcome(h: AuthHeaders, secret: Seq<char>, now: u64) -> Result<
    AuthView,
    AuthError,
> {
    match header_text(h.repo@, HeaderName::Repo) {
        Err(e) => Err(e),
        Ok(repo) => match header_text(h.run_number@, HeaderName::RunNumber) {
            Err(e) => Err(e),
            Ok(run_number) => match header_u64(h.timestamp@, HeaderName::Timestamp) {
                Err(e) => Err(e),
                Ok(timestamp) => {
                    let wik = match header_text(
                        h.write_isolation_key@,
                        HeaderName::WriteIsolationKey,
                    ) {
                        Ok(s) => s,
                        Err(_) => Seq::empty(),
                    };
                    match header_text(h.mac@, HeaderName::Mac) {
                        Err(e) => Err(e),
                        Ok(mac) => if timestamp > now {
                            Err(AuthError::FutureTimestamp)
                        } else if mac != expected_mac(
                            secret,
                            mac_message(repo, run_number, timestamp, wik),
                        ) {
                            Err(AuthError::InvalidMac)
                        } else {
                            Ok(AuthView { repo, run_number, write_isolation_key: wik })
                        },
                    }
                },
            },
        },
    }
}

/// Whether an exec result is the given spec outcome.
pub open spec fn is_outcome(res: Result<Auth, AuthError>, spec: Result<AuthView, AuthError>) -> bool {
    match res {
        Ok(a) => spec == Ok::<AuthView, AuthError>(a@),
        Err(e) => spec == Err::<AuthView, AuthError>(e),
    }
}

/// The text of a required header (the first steps of `get_header`).
pub fn get_header_text(h: &RawHeader, name: HeaderName) -> (res: Result<String, AuthError>)
    ensures
        match res {
            Ok(s) => header_text(h@, name) == Ok::<Seq<char>, AuthError>(s@),
            Err(e) => header_text(h@, name) == Err::<Seq<char>, AuthError>(e),
        },
{
    match h {
        RawHeader::Missing => Err(AuthError::MissingHeader(name)),
        RawHeader::NotText => Err(AuthError::InvalidHeader(name)),
        RawHeader::Text(s) => Ok(s.clone()),
    }
}

/// A header parsed as an unsigned number (`get_header::<u64>`).
fn get_header_u64(h: &RawHeader, name: HeaderName) -> (res: Result<u64, AuthError>)
    ensures
        res == header_u64(h@, name),
{
    match get_header_text(h, name) {
        Err(e) => Err(e),
        Ok(s) => match parse_u64(s.as_str()) {
            Some(v) => Ok(v),
            None => Err(AuthError::UnparsableHeader(name)),
        },
    }
}

/// Builds the message that the MAC signs.
pub fn build_mac_message(repo: &str, run_number: &str, timestamp: u64, write_isolation_key: &str) -> (res: String)
    ensures
        res@ == mac_message(repo@, run_number@, timestamp, write_isolation_key@),
{
    let mut msg = String::new();
    push_chars(&mut msg, &chars_of(repo));
    push_char(&mut msg, '>');
    push_chars(&mut msg, &chars_of(run_number));
    push_char(&mut msg, '>');
    let ts = format_u64(timestamp);
    push_chars(&mut msg, &chars_of(ts.as_str()));
    push_char(&mut msg, '>');
    push_chars(&mut msg, &chars_of(write_isolation_key));
    assert(msg@ =~= mac_message(repo@, run_number@, timestamp, write_isolation_key@));
    msg
}

/// Computes the MAC the server expects for a message.
pub fn compute_mac(secret: &str, message: &str) -> (res: Result<String, AuthError>)
    ensures
        res matches Ok(m) && m@ == expected_mac(secret@, message@),
{
    match hmac_sha256_tag(secret.as_bytes(), message.as_bytes()) {
        Ok(tag) => Ok(hex_encode(tag.as_slice())),
        Err(_) => Err(AuthError::InvalidKey),
    }
}

/// Decides whether a request is authentic, given the headers, the shared
/// secret and the server's clock (in Unix seconds).
pub fn verify_request(headers: &AuthHeaders, secret: &str, now: u64) -> (res: Result<Auth, AuthError>)
    ensures
        is_outcome(res, auth_outcome(*headers, secret@, now)),
{
    let repo = match get_header_text(&headers.repo, HeaderName::Repo) {
        Ok(s) => s,
        Err(e) => return Err(e),
    };
    let run_number = match get_header_text(&headers.run_number, HeaderName::RunNumber) {
        Ok(s) => s,
        Err(e) => return Err(e),
    };
    let timestamp = match get_header_u64(&headers.timestamp, HeaderName::Timestamp) {
        Ok(v) => v,
        Err(e) => return Err(e),
    };
    let write_isolation_key = match get_header_text(
        &headers.write_isolation_key,
        HeaderName::WriteIsolationKey,
    ) {
        Ok(s) => s,
        Err(_) => String::new(),
    };
    let mac = match get_header_text(&headers.mac, HeaderName::Mac) {
        Ok(s) => s,
        Err(e) => return Err(e),
    };
    if timestamp > now {
        return Err(AuthError::FutureTimestamp);
    }
    let message = build_mac_message(
        repo.as_str(),
        run_number.as_str(),
        timestamp,
        write_isolation_key.as_str(),
    );
    let expected = match compute_mac(secret, message.as_str()) {
        Ok(m) => m,
        Err(e) => return Err(e),
    };
    if mac != expected {
        return Err(AuthError::InvalidMac);
    }
    Ok(Auth { repo, run_number, write_isolation_key })
}

/// The clock as an unsigned number of seconds; a clock set before 1970
/// counts as 1970.
pub open spec fn clock_reading(t: i64) -> u64 {
    if t < 0 {
        0
    } else {
        t as u64
    }
}

/// Authenticates a request against the server's current clock (Unix seconds;
/// a clock before 1970 reads as 0, so every timestamp after 1970 is refused
/// as lying in the future).
pub fn authenticate(headers: &AuthHeaders, secret: &str) -> (res: Result<Auth, AuthError>)
    ensures
        exists|t: i64| is_outcome(res, #[trigger] auth_outcome(*headers, secret@, clock_reading(t))),
{
    let t = crate::clock::now_unix_seconds();
    let now: u64 = if t < 0 {
        0
    } else {
        t as u64
    };
    let res = verify_request(headers, secret, now);
    assert(is_outcome(res, auth_outcome(*headers, secret@, clock_reading(t))));
    res
}

} // verus!
