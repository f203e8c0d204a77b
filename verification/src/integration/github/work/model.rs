//! Statistics of the repositories on the work page.

use vstd::prelude::*;
use crate::integration::github::time::Timestamp;

verus! {

/// Stars and forks of one repository.
#[derive(Debug, Clone)]
pub struct RepoStats {
    /// Repository, as `owner/name`.
    pub slug: String,
    pub stars: u32,
    pub forks: u32,
}

/// Statistics of all tracked repositories.
#[derive(Debug, Clone)]
pub struct WorkStats {
    pub fetched_at: Timestamp,
    pub repos: Vec<RepoStats>,
}

} // verus!
