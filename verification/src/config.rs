//! Configuration: match session limits and the `run` table of the RPL configuration.
use vstd::prelude::*;

verus! {

/// Maximum number of session results produced per pattern item (0 = unlimited).
pub const DEFAULT_MAX_SESSION_RESULTS: usize = 256;

/// Configuration for match session solving.
#[derive(Debug, Clone, Copy)]
pub struct SessionConfig {
    pub max_results: usize,
}

impl Default for SessionConfig {
    fn default() -> (r: Self)
        ensures
            r.max_results == DEFAULT_MAX_SESSION_RESULTS,
    {
        SessionConfig { max_results: DEFAULT_MAX_SESSION_RESULTS }
    }
}

/// The `run` table of an RPL configuration file.
#[derive(Debug, Clone, Copy)]
pub struct RunConfig {
    pub inline_mir: Option<bool>,
}

/// An RPL configuration file.
#[derive(Debug, Clone, Copy)]
pub struct RplConfig {
    pub run: Option<RunConfig>,
}

/// The `run.inline-mir` setting of the configuration, if there is one and it sets it.
pub fn load_inline_mir(config: Option<&RplConfig>) -> (r: Option<bool>)
    ensures
        r == (match config {
            Some(c) => match c.run {
                Some(run) => run.inline_mir,
                None => None,
            },
            None => None,
        }),
{
    match config {
        Some(config) => match config.run {
            Some(run) => run.inline_mir,
            None => None,
        },
        None => None,
    }
}

} // verus!
