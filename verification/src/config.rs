//! Startup configuration: the bearer token the API calls require.
//!
//! The token is read from the process environment outside the library;
//! what stands here is the decision that an absent token aborts the run
//! before any request is made.

use vstd::prelude::*;

verus! {

/// A configuration error found at startup.
#[derive(Clone, Copy, Debug, PartialEq, Eq, Structural)]
pub enum ConfigError {
    /// The bearer-token environment variable was not set.
    MissingToken,
}

impl ConfigError {
    /// The message printed when the run aborts on this error.
    pub fn message(&self) -> (r: String)
        ensures
            r@ == "UP_API_TOKEN not set in environment variables"@,
    {
        String::from_str("UP_API_TOKEN not set in environment variables")
    }
}

/// Accepts the bearer token when one was found in the environment and
/// rejects the startup otherwise: the caller must abort on the error
/// before issuing any request.
pub fn require_token(token: Option<String>) -> (r: Result<String, ConfigError>)
    ensures
        match token {
            Some(t) => r == Ok::<String, ConfigError>(t),
            None => r == Err::<String, ConfigError>(ConfigError::MissingToken),
        },
{
    match token {
        Some(t) => Ok(t),
        None => Err(ConfigError::MissingToken),
    }
}

} // verus!
