//! The server's clock.
use vstd::prelude::*;

verus! {

/// `chrono::DateTime::<Utc>::from(SystemTime::now()).timestamp()`: the
/// current time in Unix seconds, negative for a clock set before 1970.
/// Nothing is promised about the value: it is the clock. (chrono converts
/// every time within its range of about 262,000 years either side of 1970;
/// a clock outside that range is the one it does not convert.)
#[verifier::external_body]
pub fn now_unix_seconds() -> i64 {
    chrono::DateTime::<chrono::Utc>::from(std::time::SystemTime::now()).timestamp()
}

} // verus!
