//! Checks on the server's configuration.
use vstd::prelude::*;
use crate::text::{is_prefix, starts_with};

verus! {

/// Why a configuration is refused.
#[derive(Clone, Copy, PartialEq, Eq, Debug)]
pub enum ConfigError {
    /// No database URL is set.
    MissingDatabaseUrl,
    /// No cache secret is set.
    MissingCacheSecret,
}

/// What the checks found out about an accepted configuration.
#[derive(Clone, Copy, PartialEq, Eq, Debug)]
pub struct ConfigCheck {
    /// The database is SQLite (its URL starts with `sqlite`).
    pub sqlite: bool,
}

/// Checks the database URL and the cache secret: both must be set.
pub fn check_config(db_url: &str, cache_secret: &str) -> (res: Result<ConfigCheck, ConfigError>)
    ensures
        db_url@.len() == 0 ==> res == Err::<ConfigCheck, ConfigError>(ConfigError::MissingDatabaseUrl),
        db_url@.len() > 0 && cache_secret@.len() == 0 ==> res == Err::<ConfigCheck, ConfigError>(
            ConfigError::MissingCacheSecret,
        ),
        db_url@.len() > 0 && cache_secret@.len() > 0 ==> res == Ok::<ConfigCheck, ConfigError>(
            ConfigCheck { sqlite: is_prefix("sqlite"@, db_url@) },
        ),
{
    if db_url.is_empty() {
        return Err(ConfigError::MissingDatabaseUrl);
    }
    let sqlite = starts_with(db_url, "sqlite");
    if cache_secret.is_empty() {
        return Err(ConfigError::MissingCacheSecret);
    }
    Ok(ConfigCheck { sqlite })
}

} // verus!
