//! Organization-fork listing: the bounded-concurrency, rate-limit-aware
//! pagination engine, the record filter, and repository URL checks.
use vstd::prelude::*;

pub mod error;
pub mod pagination;
pub mod repo_url;
pub mod report;
pub mod record;
pub mod retry;

verus! {

} // verus!
