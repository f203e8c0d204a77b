use jpellis_me::components::year_in_code::{activity_badge, latest_activity, period_label, LATEST_COMMITS};
use jpellis_me::integration::github::stats::defaults::{fallback_stats, FallbackData};
use jpellis_me::integration::github::stats::model::{
    ActivityItem, ActivityKind, ActivityState, ContributionDay, ContributionWeek,
};
use jpellis_me::integration::github::time::{Date, Timestamp};

fn entry(kind: ActivityKind, title: &str, secs: i64) -> ActivityItem {
    ActivityItem {
        kind,
        repo: "a/b".to_string(),
        title: title.to_string(),
        url: format!("https://github.com/a/b/{secs}"),
        state: if kind == ActivityKind::Commit { None } else { Some(ActivityState::Open) },
        created_at: Timestamp { secs, nanos: 0 },
    }
}

#[test]
fn latest_activity_splits_and_drops_repeated_commits() {
    let mut items = vec![
        entry(ActivityKind::PullRequest, "Add parser", 100),
        entry(ActivityKind::Commit, "Add parser", 99),
        entry(ActivityKind::Issue, "Crash on start", 98),
    ];
    for i in 0..8 {
        items.push(entry(ActivityKind::Commit, &format!("commit {i}"), 90 - i));
    }
    let (commits, others) = latest_activity(items);
    assert_eq!(commits.len(), LATEST_COMMITS);
    let titles: Vec<&str> = commits.iter().map(|c| c.title.as_str()).collect();
    assert_eq!(titles, vec!["commit 0", "commit 1", "commit 2", "commit 3", "commit 4", "commit 5"]);
    let other_titles: Vec<&str> = others.iter().map(|c| c.title.as_str()).collect();
    assert_eq!(other_titles, vec!["Add parser", "Crash on start"]);
}

#[test]
fn latest_activity_of_nothing_is_empty() {
    let (commits, others) = latest_activity(Vec::new());
    assert!(commits.is_empty());
    assert!(others.is_empty());
}

#[test]
fn activity_badge_names_kind_and_state() {
    assert_eq!(activity_badge(ActivityKind::PullRequest, Some(ActivityState::Merged)), "[PR · merged]");
    assert_eq!(activity_badge(ActivityKind::Issue, Some(ActivityState::Open)), "[issue · open]");
    assert_eq!(activity_badge(ActivityKind::Issue, Some(ActivityState::Closed)), "[issue · closed]");
    assert_eq!(activity_badge(ActivityKind::PullRequest, None), "[PR]");
}

#[test]
fn period_label_writes_month_and_year() {
    let from = Date { year: 2025, month: 3, day: 14 };
    let to = Date { year: 2026, month: 3, day: 13 };
    assert_eq!(period_label(from, to), "Mar 2025 — Mar 2026");
    let early = Date { year: 987, month: 12, day: 1 };
    let far = Date { year: 12345, month: 1, day: 1 };
    assert_eq!(period_label(early, far), "Dec 0987 — Jan +12345");
    let before = Date { year: -44, month: 3, day: 15 };
    assert_eq!(period_label(before, before), "Mar -0044 — Mar -0044");
}

#[test]
fn period_label_matches_chrono_formatting() {
    for (y, m) in [(2025, 1), (5, 6), (-3, 9), (10000, 11), (-12345, 2)] {
        let d = chrono::NaiveDate::from_ymd_opt(y, m, 1).expect("valid date");
        let expected = format!("{} — {}", d.format("%b %Y"), d.format("%b %Y"));
        let ours = Date { year: y, month: m, day: 1 };
        assert_eq!(period_label(ours, ours), expected);
    }
}

#[test]
fn fallback_stats_totals_the_heat_map_and_keeps_the_counts() {
    let day = |d: u32, count: u32| ContributionDay { date: Date { year: 2025, month: 1, day: d }, count };
    let weeks = vec![
        ContributionWeek { days: vec![day(1, 3), day(2, 0), day(3, 7)] },
        ContributionWeek { days: vec![] },
        ContributionWeek { days: vec![day(8, 10)] },
    ];
    let data = FallbackData {
        commit_contributions: 120,
        pr_contributions: 30,
        issue_contributions: 4,
        public_repos: 14,
        recent_activity: vec![entry(ActivityKind::Commit, "Fix", 5)],
    };
    let now = Timestamp { secs: 1_750_000_000, nanos: 0 };
    let from = Date { year: 2024, month: 6, day: 1 };
    let to = Date { year: 2025, month: 5, day: 31 };
    let stats = fallback_stats(now, from, to, weeks, data);
    assert_eq!(stats.total_contributions, 20);
    assert_eq!(stats.commit_contributions, 120);
    assert_eq!(stats.pr_contributions, 30);
    assert_eq!(stats.issue_contributions, 4);
    assert_eq!(stats.public_repos, 14);
    assert_eq!(stats.fetched_at, now);
    assert_eq!((stats.period_from, stats.period_to), (from, to));
    assert_eq!(stats.contribution_weeks.len(), 3);
    assert_eq!(stats.recent_activity.len(), 1);
}
