use jpellis_me::integration::github::cache::{
    file_repos_decision, file_stats_decision, kv_projects_decision, kv_stats_decision,
    kv_work_decision, CacheAction,
};
use jpellis_me::integration::github::projects::provider::{empty_stats, FileProjectsStatsProvider};
use jpellis_me::integration::github::stats::provider::FileStatsProvider;
use jpellis_me::integration::github::time::{seconds_between, Timestamp};
use jpellis_me::integration::github::work::provider::FileWorkStatsProvider;

const NOW: Timestamp = Timestamp { secs: 1_800_000_000, nanos: 0 };

fn at(ago: i64) -> Option<Timestamp> {
    Some(Timestamp { secs: NOW.secs - ago, nanos: 0 })
}

#[test]
fn seconds_between_truncates_toward_zero() {
    let a = Timestamp { secs: 10, nanos: 500_000_000 };
    let b = Timestamp { secs: 5, nanos: 900_000_000 };
    assert_eq!(seconds_between(a, b), 4);
    assert_eq!(seconds_between(b, a), -4);
    assert_eq!(seconds_between(a, a), 0);
}

#[test]
fn file_stats_provider_decisions() {
    let with = FileStatsProvider::new("token".to_owned());
    let without = FileStatsProvider::new(String::new());
    assert_eq!(with.next_action(at(10), NOW), CacheAction::ServeCached);
    assert_eq!(with.next_action(at(3600), NOW), CacheAction::ServeCachedAndRefresh);
    assert_eq!(without.next_action(at(3600), NOW), CacheAction::ServeCached);
    assert_eq!(with.next_action(None, NOW), CacheAction::FetchFresh);
    assert_eq!(without.next_action(None, NOW), CacheAction::ServeFallback);
    assert_eq!(with.token_str(), "token");
}

#[test]
fn repo_providers_serve_while_refreshing() {
    let projects = FileProjectsStatsProvider::new("t".to_owned());
    let work = FileWorkStatsProvider::new("t".to_owned());
    assert_eq!(projects.next_action(at(100), NOW), CacheAction::ServeCached);
    assert_eq!(projects.next_action(at(86_400), NOW), CacheAction::ServeCachedAndRefresh);
    assert_eq!(projects.next_action(at(604_800), NOW), CacheAction::FetchFresh);
    assert_eq!(work.next_action(at(604_799), NOW), CacheAction::ServeCachedAndRefresh);
    let none = FileProjectsStatsProvider::new(String::new());
    assert_eq!(none.next_action(at(86_400), NOW), CacheAction::ServeCached);
    assert_eq!(none.next_action(None, NOW), CacheAction::ServeEmpty);
    assert!(empty_stats(NOW).repos.is_empty());
}

#[test]
fn key_value_decisions() {
    assert_eq!(kv_stats_decision(Some(3600)), CacheAction::ServeCached);
    assert_eq!(kv_stats_decision(Some(3601)), CacheAction::ServeCachedAndRefresh);
    assert_eq!(kv_stats_decision(None), CacheAction::FetchFresh);
    assert_eq!(kv_projects_decision(Some(86_399), true), CacheAction::ServeCached);
    assert_eq!(kv_projects_decision(Some(86_400), false), CacheAction::ServeCached);
    assert_eq!(kv_projects_decision(Some(86_400), true), CacheAction::ServeCachedAndRefresh);
    assert_eq!(kv_projects_decision(Some(604_800), false), CacheAction::ServeEmpty);
    assert_eq!(kv_projects_decision(None, false), CacheAction::ServeEmpty);
    assert_eq!(kv_projects_decision(None, true), CacheAction::FetchFresh);
    assert_eq!(kv_work_decision(Some(700_000)), CacheAction::FetchFresh);
    assert_eq!(file_stats_decision(Some(-5), false), CacheAction::ServeCached);
    assert_eq!(file_repos_decision(Some(-5), true), CacheAction::ServeCached);
}
