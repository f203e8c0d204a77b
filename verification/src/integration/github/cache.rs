//! When to serve cached statistics, when to refresh them and when to fetch.
//!
//! Each statistics provider keeps the last fetched statistics in a cache (a
//! file when running as a server, a key-value store when running on the
//! edge). On every request it decides, from the age of the cached
//! statistics and whether it holds an access token, what to do; the caller
//! carries the action out.

use vstd::prelude::*;
use crate::integration::github::time::{elapsed_secs, in_range, seconds_between, Timestamp};

verus! {

/// What a statistics provider does with a request.
#[derive(Debug, Clone, Copy, PartialEq, Eq, Structural)]
pub enum CacheAction {
    /// Serve the cached statistics.
    ServeCached,
    /// Serve the cached statistics, and refresh the cache in the background.
    ServeCachedAndRefresh,
    /// Fetch fresh statistics, store them in the cache and serve them
    /// (serving the fallback statistics if the fetch fails).
    FetchFresh,
    /// Serve the built-in fallback statistics.
    ServeFallback,
    /// Serve statistics with no repositories.
    ServeEmpty,
}

/// Age after which cached contribution statistics are refreshed.
pub const STATS_TTL_SECS: i64 = 3600;

/// Age after which cached repository statistics are refreshed in the
/// background while still being served.
pub const SWR_SECS: i64 = 86_400;

/// Age after which cached repository statistics are no longer served.
pub const HARD_TTL_SECS: i64 = 604_800;

/// Contribution statistics cached in a file: fresh for an hour, then
/// served while a refresh runs (when there is a token to fetch with). With
/// no cache, fetch if there is a token, else serve the fallback.
pub open spec fn file_stats_action(age: Option<int>, has_token: bool) -> CacheAction {
    match age {
        Some(a) => if a < STATS_TTL_SECS {
            CacheAction::ServeCached
        } else if has_token {
            CacheAction::ServeCachedAndRefresh
        } else {
            CacheAction::ServeCached
        },
        None => if has_token {
            CacheAction::FetchFresh
        } else {
            CacheAction::ServeFallback
        },
    }
}

/// Contribution statistics cached in the key-value store: served always,
/// refreshed in the background once older than an hour; fetched when
/// missing.
pub open spec fn kv_stats_action(age: Option<int>) -> CacheAction {
    match age {
        Some(a) => if a > STATS_TTL_SECS {
            CacheAction::ServeCachedAndRefresh
        } else {
            CacheAction::ServeCached
        },
        None => CacheAction::FetchFresh,
    }
}

/// Repository statistics cached in a file: served for up to a week,
/// refreshed in the background after a day (when there is a token). Past a
/// week, or with no cache, fetch if there is a token, else serve empty
/// statistics.
pub open spec fn file_repos_action(age: Option<int>, has_token: bool) -> CacheAction {
    match age {
        Some(a) if a < HARD_TTL_SECS => if a >= SWR_SECS && has_token {
            CacheAction::ServeCachedAndRefresh
        } else {
            CacheAction::ServeCached
        },
        _ => if has_token {
            CacheAction::FetchFresh
        } else {
            CacheAction::ServeEmpty
        },
    }
}

/// Project statistics cached in the key-value store: served for up to a
/// week, refreshed in the background after a day (when there is a token).
/// Past a week, or with no usable cache, fetch if there is a token, else
/// serve statistics with no repositories.
pub open spec fn kv_projects_action(age: Option<int>, has_token: bool) -> CacheAction {
    match age {
        Some(a) if a < SWR_SECS => CacheAction::ServeCached,
        Some(a) if a < HARD_TTL_SECS => if has_token {
            CacheAction::ServeCachedAndRefresh
        } else {
            CacheAction::ServeCached
        },
        _ => if has_token {
            CacheAction::FetchFresh
        } else {
            CacheAction::ServeEmpty
        },
    }
}

/// Work statistics cached in the key-value store, which always has a token.
pub open spec fn kv_work_action(age: Option<int>) -> CacheAction {
    kv_projects_action(age, true)
}

/// The age of the cached statistics, fetched at `fetched_at`, at `now`.
pub open spec fn age_of(cached_at: Option<Timestamp>, now: Timestamp) -> Option<int> {
    match cached_at {
        Some(t) => Some(elapsed_secs(now, t)),
        None => None,
    }
}

/// Both instants lie within the calendar's range.
pub open spec fn instants_in_range(cached_at: Option<Timestamp>, now: Timestamp) -> bool {
    in_range(now) && (cached_at matches Some(t) ==> in_range(t))
}

/// The age in seconds of statistics fetched at `cached_at`, if any are cached.
pub fn cache_age(cached_at: Option<Timestamp>, now: Timestamp) -> (r: Option<i64>)
    requires
        instants_in_range(cached_at, now),
    ensures
        r matches Some(a) ==> age_of(cached_at, now) == Some(a as int),
        r is None ==> cached_at is None,
{
    match cached_at {
        Some(t) => Some(seconds_between(now, t)),
        None => None,
    }
}

/// An optional machine integer as an optional integer.
pub open spec fn int_opt(a: Option<i64>) -> Option<int> {
    match a {
        Some(x) => Some(x as int),
        None => None,
    }
}

/// What a file-backed contribution statistics provider does.
pub fn file_stats_decision(age: Option<i64>, has_token: bool) -> (r: CacheAction)
    ensures
        r == file_stats_action(int_opt(age), has_token),
{
    match age {
        Some(a) => if a < STATS_TTL_SECS {
            CacheAction::ServeCached
        } else if has_token {
            CacheAction::ServeCachedAndRefresh
        } else {
            CacheAction::ServeCached
        },
        None => if has_token {
            CacheAction::FetchFresh
        } else {
            CacheAction::ServeFallback
        },
    }
}

/// What a key-value-backed contribution statistics provider does.
pub fn kv_stats_decision(age: Option<i64>) -> (r: CacheAction)
    ensures
        r == kv_stats_action(int_opt(age)),
{
    match age {
        Some(a) => if a > STATS_TTL_SECS {
            CacheAction::ServeCachedAndRefresh
        } else {
            CacheAction::ServeCached
        },
        None => CacheAction::FetchFresh,
    }
}

/// What a file-backed repository statistics provider does.
pub fn file_repos_decision(age: Option<i64>, has_token: bool) -> (r: CacheAction)
    ensures
        r == file_repos_action(int_opt(age), has_token),
{
    match age {
        Some(a) if a < HARD_TTL_SECS => if a >= SWR_SECS && has_token {
            CacheAction::ServeCachedAndRefresh
        } else {
            CacheAction::ServeCached
        },
        _ => if has_token {
            CacheAction::FetchFresh
        } else {
            CacheAction::ServeEmpty
        },
    }
}

/// What the key-value-backed project statistics provider does.
pub fn kv_projects_decision(age: Option<i64>, has_token: bool) -> (r: CacheAction)
    ensures
        r == kv_projects_action(int_opt(age), has_token),
{
    match age {
        Some(a) if a < SWR_SECS => CacheAction::ServeCached,
        Some(a) if a < HARD_TTL_SECS => if has_token {
            CacheAction::ServeCachedAndRefresh
        } else {
            CacheAction::ServeCached
        },
        _ => if has_token {
            CacheAction::FetchFresh
        } else {
            CacheAction::ServeEmpty
        },
    }
}

/// What the key-value-backed work statistics provider does.
pub fn kv_work_decision(age: Option<i64>) -> (r: CacheAction)
    ensures
        r == kv_work_action(int_opt(age)),
{
    kv_projects_decision(age, true)
}

/// Whether the action makes a request to GitHub.
pub open spec fn fetches(a: CacheAction) -> bool {
    a == CacheAction::FetchFresh || a == CacheAction::ServeCachedAndRefresh
}

/// Whether the action serves the cached statistics.
pub open spec fn serves_cache(a: CacheAction) -> bool {
    a == CacheAction::ServeCached || a == CacheAction::ServeCachedAndRefresh
}

/// Law: a cache younger than its refresh age is served as it is, by every
/// provider, with no request made.
pub proof fn lemma_fresh_cache_served(age: int, has_token: bool)
    requires
        0 <= age < STATS_TTL_SECS,
    ensures
        file_stats_action(Some(age), has_token) == CacheAction::ServeCached,
        kv_stats_action(Some(age)) == CacheAction::ServeCached,
        file_repos_action(Some(age), has_token) == CacheAction::ServeCached,
        kv_projects_action(Some(age), has_token) == CacheAction::ServeCached,
        kv_work_action(Some(age)) == CacheAction::ServeCached,
{
}

/// Law: a provider with no token never makes a request.
pub proof fn lemma_no_request_without_token(age: Option<int>)
    ensures
        !fetches(file_stats_action(age, false)),
        !fetches(file_repos_action(age, false)),
        !fetches(kv_projects_action(age, false)),
{
}

/// Law: a repository statistics provider with no token and no usable cache
/// (none, or a week old or older) serves statistics with no repositories.
pub proof fn lemma_no_token_no_cache_serves_empty(age: Option<int>)
    requires
        age matches Some(a) ==> a >= HARD_TTL_SECS,
    ensures
        file_repos_action(age, false) == CacheAction::ServeEmpty,
        kv_projects_action(age, false) == CacheAction::ServeEmpty,
{
}

/// Law: repository statistics a week old or older are never served.
pub proof fn lemma_expired_cache_not_served(age: int, has_token: bool)
    requires
        age >= HARD_TTL_SECS,
    ensures
        !serves_cache(file_repos_action(Some(age), has_token)),
        !serves_cache(kv_projects_action(Some(age), has_token)),
        !serves_cache(kv_work_action(Some(age))),
{
}

/// Law: whenever a cache exists, contribution statistics are served from
/// it; a request, if any, only refreshes it.
pub proof fn lemma_stats_cache_always_served(age: int, has_token: bool)
    ensures
        serves_cache(file_stats_action(Some(age), has_token)),
        serves_cache(kv_stats_action(Some(age))),
{
}

/// Law: with a token and no cache, every provider fetches.
pub proof fn lemma_cold_start_fetches()
    ensures
        file_stats_action(None, true) == CacheAction::FetchFresh,
        kv_stats_action(None) == CacheAction::FetchFresh,
        file_repos_action(None, true) == CacheAction::FetchFresh,
        kv_projects_action(None, true) == CacheAction::FetchFresh,
        kv_work_action(None) == CacheAction::FetchFresh,
{
}

} // verus!
