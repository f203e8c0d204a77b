//! The file-backed provider of project statistics.

use vstd::prelude::*;
use crate::integration::github::cache::{
    age_of, cache_age, file_repos_action, file_repos_decision, instants_in_range, CacheAction,
};
use crate::integration::github::projects::model::ProjectsStats;
use crate::integration::github::time::Timestamp;

verus! {

broadcast use vstd::string::group_string_axioms;

/// Serves project statistics from a cache file, fetching with the GitHub
/// token it holds (which may be empty).
#[derive(Debug, Clone)]
pub struct FileProjectsStatsProvider {
    token: String,
}

impl FileProjectsStatsProvider {
    /// The GitHub token the provider fetches with.
    pub closed spec fn token(&self) -> Seq<char> {
        self.token@
    }

    /// A provider fetching with `token`.
    pub fn new(token: String) -> (p: Self)
        ensures
            p.token() == token@,
    {
        FileProjectsStatsProvider { token }
    }

    /// The token, to authenticate requests with.
    pub fn token_str(&self) -> (t: &str)
        ensures
            t@ == self.token(),
    {
        self.token.as_str()
    }

    /// What to do with a request when the cached statistics (if any) were
    /// fetched at `cached_at` and it is now `now`.
    pub fn next_action(&self, cached_at: Option<Timestamp>, now: Timestamp) -> (a: CacheAction)
        requires
            instants_in_range(cached_at, now),
        ensures
            a == file_repos_action(age_of(cached_at, now), self.token().len() > 0),
    {
        let has_token = !self.token.as_str().is_empty();
        file_repos_decision(cache_age(cached_at, now), has_token)
    }
}

/// Statistics with no repositories, as of `fetched_at`.
pub fn empty_stats(fetched_at: Timestamp) -> (s: ProjectsStats)
    ensures
        s.fetched_at == fetched_at,
        s.repos@.len() == 0,
{
    ProjectsStats { fetched_at, repos: Vec::new() }
}

} // verus!
