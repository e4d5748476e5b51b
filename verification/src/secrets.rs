use vstd::prelude::*;
use crate::config::{env_required, ConfigError, ConfigKey};

verus! {

/// The service's secrets.
pub struct Secrets {
    pub database_url: String,
}

impl Secrets {
    /// Builds the secrets from the raw value of `DATABASE_URL`, which is
    /// required.
    pub fn load(database_url: Option<String>) -> (r: Result<Secrets, ConfigError>)
        ensures
            database_url is None ==> r is Err && r->Err_0 == ConfigError::Missing(ConfigKey::DatabaseUrl),
            database_url matches Some(u) ==> r is Ok && r->Ok_0.database_url == u,
    {
        match env_required(ConfigKey::DatabaseUrl, database_url) {
            Ok(database_url) => Ok(Secrets { database_url }),
            Err(e) => Err(e),
        }
    }
}

} // verus!
