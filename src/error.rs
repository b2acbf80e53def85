//! The one terminal error of a run.
use vstd::prelude::*;
use crate::retry::FetchError;

verus! {

/// Why a run stopped without a report.
#[derive(Clone, Debug, PartialEq, Eq)]
pub enum ForkliftError {
    /// No credential was given on the command line or in the environment.
    MissingGithubToken,
    /// The repository address is not a URL; holds the address as given.
    InvalidUrl(String),
    /// The URL names another host than github.com; holds that host, or nothing.
    InvalidDomain(String),
    /// The URL path has fewer than two non-empty segments; holds those it has.
    InvalidPathSegments(Vec<String>),
    /// A page could not be fetched.
    Fetch(FetchError),
}

/// Picks the credential: the one given on the command line, else the one
/// found in the environment, else none and the run stops.
pub fn resolve_token(cli: Option<String>, env: Option<String>) -> (r: Result<String, ForkliftError>)
    ensures
        match (cli, env) {
            (Some(t), _) => r == Ok::<String, ForkliftError>(t),
            (None, Some(t)) => r == Ok::<String, ForkliftError>(t),
            (None, None) => r == Err::<String, ForkliftError>(ForkliftError::MissingGithubToken),
        },
{
    match cli {
        Some(t) => Ok(t),
        None => match env {
            Some(t) => Ok(t),
            None => Err(ForkliftError::MissingGithubToken),
        },
    }
}

} // verus!
