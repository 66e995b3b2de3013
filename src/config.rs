use vstd::prelude::*;

verus! {

/// Where the task table lives, as an opaque connection descriptor.
#[derive(Debug, Clone)]
pub struct Config {
    pub database_url: String,
}

#[derive(Clone, Copy, Debug, PartialEq, Eq, Structural)]
pub enum ConfigError {
    /// No descriptor was given and the environment holds none either.
    MissingDatabaseUrl,
}

/// Picks the connection descriptor: the one given explicitly, else the one
/// the environment supplies (`DATABASE_URL`), else none.
pub fn resolve_config(given: Option<String>, from_env: Option<String>) -> (r: Result<
    Config,
    ConfigError,
>)
    ensures
        given is Some ==> r is Ok && r->Ok_0.database_url == given->Some_0,
        given is None && from_env is Some ==> r is Ok && r->Ok_0.database_url == from_env->Some_0,
        given is None && from_env is None ==> r == Err::<Config, ConfigError>(
            ConfigError::MissingDatabaseUrl,
        ),
{
    match given {
        Some(url) => Ok(Config { database_url: url }),
        None => match from_env {
            Some(url) => Ok(Config { database_url: url }),
            None => Err(ConfigError::MissingDatabaseUrl),
        },
    }
}

} // verus!
