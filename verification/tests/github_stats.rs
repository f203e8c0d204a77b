use jpellis_me::integration::github::json::Json;
use jpellis_me::integration::github::stats::fetch::{
    build_graphql_query, commit_search_item, issue_search_item, merge_and_sort_activity,
    parse_activity_items, parse_commit_search_items, parse_contribution_totals,
    parse_contribution_weeks, sort_newest_first, stats_from_graphql, with_recent_activity,
    FetchError,
};
use jpellis_me::integration::github::stats::model::{ActivityItem, ActivityKind, ActivityState};
use jpellis_me::integration::github::time::{parse_rfc3339, parse_utc, parse_ymd, Date, Timestamp};

fn s(x: &str) -> Json {
    Json::Str(x.to_string())
}

fn n(x: u64) -> Json {
    Json::UInt(x)
}

fn obj(entries: Vec<(&str, Json)>) -> Json {
    Json::Object(entries.into_iter().map(|(k, v)| (k.to_string(), v)).collect())
}

fn arr(items: Vec<Json>) -> Json {
    Json::Array(items)
}

fn rfc3339(t: &Timestamp) -> String {
    chrono::DateTime::from_timestamp(t.secs, t.nanos).expect("valid instant").to_rfc3339()
}

fn ts(text: &str) -> Timestamp {
    parse_utc(text).expect("valid timestamp")
}

#[test]
fn build_graphql_query_includes_restricted_contributions_count() {
    let query = build_graphql_query("2025-01-01T00:00:00Z", "2026-01-01T23:59:59Z");
    assert!(
        query.contains("restrictedContributionsCount"),
        "query must include restrictedContributionsCount; got:\n{query}"
    );
}

#[test]
fn build_graphql_query_embeds_period() {
    let query = build_graphql_query("2025-01-01T00:00:00Z", "2026-01-01T23:59:59Z");
    assert!(query.contains(
        "contributionsCollection(from: \"2025-01-01T00:00:00Z\", to: \"2026-01-01T23:59:59Z\") {"
    ));
    assert!(query.starts_with("{\n  user(login: \"JP-Ellis\") {\n"));
    assert!(query.ends_with("repositories(privacy: PUBLIC) { totalCount }\n  }\n}"));
}

#[test]
fn parse_contribution_totals_sums_restricted_contributions() {
    let contributions = obj(vec![
        ("contributionCalendar", obj(vec![("totalContributions", n(2133))])),
        ("restrictedContributionsCount", n(485)),
        ("totalCommitContributions", n(843)),
        ("totalPullRequestContributions", n(189)),
        ("totalIssueContributions", n(29)),
    ]);
    let (total, commits, prs, issues) =
        parse_contribution_totals(Some(&contributions)).expect("valid contribution JSON");
    assert_eq!(total, 2618, "total must include restricted contributions");
    assert_eq!(commits, 843);
    assert_eq!(prs, 189);
    assert_eq!(issues, 29);
}

#[test]
fn parse_contribution_totals_reports_first_missing_field() {
    let contributions = obj(vec![
        ("contributionCalendar", obj(vec![("totalContributions", n(1))])),
        ("totalCommitContributions", n(2)),
    ]);
    match parse_contribution_totals(Some(&contributions)) {
        Err(FetchError::Parse(m)) => assert_eq!(m, "restrictedContributionsCount missing"),
        other => panic!("unexpected {other:?}"),
    }
    match parse_contribution_totals(None) {
        Err(e) => assert_eq!(e.to_string(), "Parse error: totalContributions missing"),
        other => panic!("unexpected {other:?}"),
    }
}

#[test]
fn fetch_parse_contribution_weeks_parses_counts() {
    let weeks = arr(vec![obj(vec![(
        "contributionDays",
        arr(vec![
            obj(vec![("date", s("2025-04-28")), ("contributionCount", n(5))]),
            obj(vec![("date", s("2025-04-29")), ("contributionCount", n(0))]),
        ]),
    )])]);
    let parsed = parse_contribution_weeks(Some(&weeks)).expect("valid test JSON");
    assert_eq!(parsed.len(), 1);
    assert_eq!(parsed[0].days[0].count, 5);
    assert_eq!(parsed[0].days[1].count, 0);
    assert_eq!(parsed[0].days[0].date, Date { year: 2025, month: 4, day: 28 });
}

#[test]
fn parse_contribution_weeks_errors() {
    match parse_contribution_weeks(Some(&n(3))) {
        Err(FetchError::Parse(m)) => assert_eq!(m, "weeks not an array"),
        other => panic!("unexpected {other:?}"),
    }
    let weeks = arr(vec![obj(vec![("contributionDays", n(1))])]);
    match parse_contribution_weeks(Some(&weeks)) {
        Err(FetchError::Parse(m)) => assert_eq!(m, "contributionDays not an array"),
        other => panic!("unexpected {other:?}"),
    }
    let weeks = arr(vec![obj(vec![(
        "contributionDays",
        arr(vec![obj(vec![("contributionCount", n(5))])]),
    )])]);
    match parse_contribution_weeks(Some(&weeks)) {
        Err(FetchError::Parse(m)) => assert_eq!(m, "date missing"),
        other => panic!("unexpected {other:?}"),
    }
    let weeks = arr(vec![obj(vec![(
        "contributionDays",
        arr(vec![obj(vec![("date", s("2025-04-28"))])]),
    )])]);
    match parse_contribution_weeks(Some(&weeks)) {
        Err(FetchError::Parse(m)) => assert_eq!(m, "contributionCount missing"),
        other => panic!("unexpected {other:?}"),
    }
    let weeks = arr(vec![obj(vec![(
        "contributionDays",
        arr(vec![obj(vec![("date", s("2025-02-30")), ("contributionCount", n(1))])]),
    )])]);
    assert!(matches!(parse_contribution_weeks(Some(&weeks)), Err(FetchError::Parse(_))));
}

#[test]
fn parse_ymd_reads_dates() {
    assert_eq!(parse_ymd("2025-04-28"), Ok(Date { year: 2025, month: 4, day: 28 }));
    assert!(parse_ymd("2025-13-01").is_err());
}

fn commit_item() -> Json {
    obj(vec![
        ("sha", s("abc123def456")),
        ("html_url", s("https://github.com/owner/repo/commit/abc123def456")),
        ("repository", obj(vec![("full_name", s("owner/repo")), ("private", Json::Bool(false))])),
        (
            "commit",
            obj(vec![
                ("message", s("feat: add thing\n\nLong body here")),
                ("author", obj(vec![("date", s("2026-04-28T15:58:14+10:00"))])),
            ]),
        ),
    ])
}

#[test]
fn parse_commit_search_item_extracts_fields() {
    let item = commit_item();
    let created = parse_rfc3339("2026-04-28T15:58:14+10:00");
    let parsed = commit_search_item(&item, created).expect("complete commit item");
    assert_eq!(parsed.title, "feat: add thing");
    assert_eq!(parsed.repo, "owner/repo");
    assert_eq!(parsed.url, "https://github.com/owner/repo/commit/abc123def456");
    assert_eq!(parsed.kind, ActivityKind::Commit);
    assert_eq!(parsed.state, None);
    let utc = chrono::DateTime::from_timestamp(parsed.created_at.secs, parsed.created_at.nanos)
        .expect("valid instant");
    assert_eq!(utc.format("%H:%M:%S").to_string(), "05:58:14");
}

#[test]
fn commit_search_item_skips_empty_title_and_missing_fields() {
    let created = parse_rfc3339("2026-04-28T15:58:14+10:00");
    let item = obj(vec![
        ("sha", s("abc")),
        ("html_url", s("u")),
        ("repository", obj(vec![("full_name", s("o/r"))])),
        ("commit", obj(vec![("message", s("\nbody only"))])),
    ]);
    assert!(commit_search_item(&item, created).is_none());
    let item = obj(vec![("html_url", s("u"))]);
    assert!(commit_search_item(&item, created).is_none());
    assert!(commit_search_item(&commit_item(), None).is_none());
}

#[test]
fn commit_title_drops_carriage_return() {
    let item = obj(vec![
        ("sha", s("abc")),
        ("html_url", s("u")),
        ("repository", obj(vec![("full_name", s("o/r"))])),
        ("commit", obj(vec![("message", s("fix: windows\r\nbody"))])),
    ]);
    let parsed = commit_search_item(&item, Some(ts("2026-01-01T00:00:00Z"))).expect("item");
    assert_eq!(parsed.title, "fix: windows");
}

#[test]
fn parse_commit_search_items_reads_answer() {
    let body = obj(vec![("items", arr(vec![commit_item(), obj(vec![("sha", s("x"))])]))]);
    let items = parse_commit_search_items(&body).expect("items");
    assert_eq!(items.len(), 1);
    assert_eq!(items[0].title, "feat: add thing");
    match parse_commit_search_items(&obj(vec![])) {
        Err(FetchError::Parse(m)) => assert_eq!(m, "commit search items missing"),
        other => panic!("unexpected {other:?}"),
    }
}

fn issue_item(state: &str, pull_request: Option<Json>) -> Json {
    let mut entries = vec![
        ("title", s("feat: merge me")),
        ("html_url", s("https://github.com/owner/repo/pull/1")),
        ("repository_url", s("https://api.github.com/repos/owner/repo")),
        ("created_at", s("2026-04-20T10:00:00Z")),
        ("state", s(state)),
    ];
    if let Some(pr) = pull_request {
        entries.push(("pull_request", pr));
    }
    obj(entries)
}

#[test]
fn parse_activity_item_pr_merged() {
    let item = issue_item("closed", Some(obj(vec![("merged_at", s("2026-04-21T10:00:00Z"))])));
    let parsed = issue_search_item(&item, Some(ts("2026-04-20T10:00:00Z"))).expect("item");
    assert_eq!(parsed.kind, ActivityKind::PullRequest);
    assert_eq!(parsed.state, Some(ActivityState::Merged));
}

#[test]
fn parse_activity_item_pr_closed_not_merged() {
    let item = issue_item("closed", Some(obj(vec![("merged_at", Json::Null)])));
    let parsed = issue_search_item(&item, Some(ts("2026-04-20T10:00:00Z"))).expect("item");
    assert_eq!(parsed.state, Some(ActivityState::Closed));
}

#[test]
fn parse_activity_item_issue_detection() {
    let item = issue_item("open", None);
    let parsed = issue_search_item(&item, Some(ts("2026-04-15T10:00:00Z"))).expect("item");
    assert_eq!(parsed.kind, ActivityKind::Issue, "item without pull_request field should be treated as issue");
}

#[test]
fn issue_state_defaults() {
    let pr_without_state = obj(vec![
        ("title", s("t")),
        ("html_url", s("u")),
        ("repository_url", s("https://api.github.com/repos/a/b")),
        ("pull_request", Json::Null),
    ]);
    let parsed = issue_search_item(&pr_without_state, Some(ts("2026-04-15T10:00:00Z"))).expect("item");
    assert_eq!(parsed.kind, ActivityKind::PullRequest);
    assert_eq!(parsed.state, Some(ActivityState::Open));
    assert_eq!(parsed.repo, "a/b");
    let closed_issue = issue_item("closed", None);
    let parsed = issue_search_item(&closed_issue, Some(ts("2026-04-15T10:00:00Z"))).expect("item");
    assert_eq!(parsed.state, Some(ActivityState::Closed));
}

#[test]
fn repo_prefix_is_removed_repeatedly() {
    let item = obj(vec![
        ("title", s("t")),
        ("html_url", s("u")),
        (
            "repository_url",
            s("https://api.github.com/repos/https://api.github.com/repos/owner/repo"),
        ),
        ("state", s("open")),
    ]);
    let parsed = issue_search_item(&item, Some(ts("2026-04-15T10:00:00Z"))).expect("item");
    assert_eq!(parsed.repo, "owner/repo");
}

#[test]
fn parse_activity_items_parses_pr_search_response() {
    let body = obj(vec![
        ("total_count", n(2)),
        (
            "items",
            arr(vec![
                obj(vec![
                    ("title", s("feat: merge me")),
                    ("html_url", s("https://github.com/owner/repo/pull/1")),
                    ("repository_url", s("https://api.github.com/repos/owner/repo")),
                    ("created_at", s("2026-04-20T10:00:00Z")),
                    ("state", s("closed")),
                    ("pull_request", obj(vec![("merged_at", s("2026-04-21T10:00:00Z"))])),
                ]),
                obj(vec![
                    ("title", s("feat: open pr")),
                    ("html_url", s("https://github.com/owner/repo/pull/2")),
                    ("repository_url", s("https://api.github.com/repos/owner/repo")),
                    ("created_at", s("2026-04-18T08:00:00Z")),
                    ("state", s("open")),
                    ("pull_request", obj(vec![("merged_at", Json::Null)])),
                ]),
            ]),
        ),
    ]);
    let items = parse_activity_items(&body).expect("valid PR search body");
    assert_eq!(items.len(), 2);
    assert_eq!(items[0].kind, ActivityKind::PullRequest);
    assert_eq!(items[0].state, Some(ActivityState::Merged));
    assert_eq!(items[0].title, "feat: merge me");
    assert_eq!(items[0].repo, "owner/repo");
    assert_eq!(items[1].kind, ActivityKind::PullRequest);
    assert_eq!(items[1].state, Some(ActivityState::Open));
}

#[test]
fn parse_activity_items_parses_issue_search_response() {
    let body = obj(vec![
        ("total_count", n(1)),
        (
            "items",
            arr(vec![obj(vec![
                ("title", s("Bug: crash on startup")),
                ("html_url", s("https://github.com/owner/repo/issues/7")),
                ("repository_url", s("https://api.github.com/repos/owner/repo")),
                ("created_at", s("2026-03-10T12:00:00Z")),
                ("state", s("open")),
            ])]),
        ),
    ]);
    let items = parse_activity_items(&body).expect("valid issue search body");
    assert_eq!(items.len(), 1);
    assert_eq!(items[0].kind, ActivityKind::Issue);
    assert_eq!(items[0].state, Some(ActivityState::Open));
    assert_eq!(items[0].title, "Bug: crash on startup");
}

#[test]
fn parse_activity_items_errors_without_items() {
    match parse_activity_items(&obj(vec![("total_count", n(0))])) {
        Err(FetchError::Parse(m)) => assert_eq!(m, "issue search items missing"),
        other => panic!("unexpected {other:?}"),
    }
}

fn make(kind: ActivityKind, state: ActivityState, when: &str) -> ActivityItem {
    ActivityItem {
        kind,
        repo: "owner/repo".into(),
        title: when.into(),
        url: format!("https://example.com/{when}"),
        state: Some(state),
        created_at: ts(when),
    }
}

#[test]
fn merge_and_sort_activity_interleaves_by_date() {
    let prs = vec![
        make(ActivityKind::PullRequest, ActivityState::Merged, "2026-04-20T10:00:00Z"),
        make(ActivityKind::PullRequest, ActivityState::Open, "2026-04-15T10:00:00Z"),
    ];
    let issues = vec![
        make(ActivityKind::Issue, ActivityState::Open, "2026-04-18T10:00:00Z"),
        make(ActivityKind::Issue, ActivityState::Closed, "2026-04-10T10:00:00Z"),
    ];
    let merged = merge_and_sort_activity(prs, issues, 10);
    assert_eq!(merged.len(), 4);
    assert_eq!(rfc3339(&merged[0].created_at), "2026-04-20T10:00:00+00:00");
    assert_eq!(rfc3339(&merged[1].created_at), "2026-04-18T10:00:00+00:00");
    assert_eq!(rfc3339(&merged[2].created_at), "2026-04-15T10:00:00+00:00");
    assert_eq!(rfc3339(&merged[3].created_at), "2026-04-10T10:00:00+00:00");
}

#[test]
fn merge_and_sort_activity_truncates_to_limit() {
    let mk = |when: &str| make(ActivityKind::Issue, ActivityState::Open, when);
    let a = vec![mk("2026-04-20T00:00:00Z"), mk("2026-04-19T00:00:00Z"), mk("2026-04-18T00:00:00Z")];
    let b = vec![mk("2026-04-17T00:00:00Z"), mk("2026-04-16T00:00:00Z")];
    let merged = merge_and_sort_activity(a, b, 4);
    assert_eq!(merged.len(), 4);
    assert_eq!(rfc3339(&merged[3].created_at), "2026-04-17T00:00:00+00:00");
}

#[test]
fn sort_newest_first_is_stable() {
    let mut first = make(ActivityKind::Commit, ActivityState::Open, "2026-04-01T00:00:00Z");
    first.title = "first".into();
    let mut second = make(ActivityKind::Commit, ActivityState::Open, "2026-04-01T00:00:00Z");
    second.title = "second".into();
    let newer = make(ActivityKind::Commit, ActivityState::Open, "2026-05-01T00:00:00Z");
    let sorted = sort_newest_first(vec![first, second, newer]);
    let titles: Vec<&str> = sorted.iter().map(|i| i.title.as_str()).collect();
    assert_eq!(titles, vec!["2026-05-01T00:00:00Z", "first", "second"]);
}

fn graphql_answer() -> Json {
    obj(vec![(
        "data",
        obj(vec![(
            "user",
            obj(vec![
                (
                    "contributionsCollection",
                    obj(vec![
                        (
                            "contributionCalendar",
                            obj(vec![
                                ("totalContributions", n(10)),
                                (
                                    "weeks",
                                    arr(vec![obj(vec![(
                                        "contributionDays",
                                        arr(vec![obj(vec![
                                            ("date", s("2025-01-01")),
                                            ("contributionCount", n(3)),
                                        ])]),
                                    )])]),
                                ),
                            ]),
                        ),
                        ("restrictedContributionsCount", n(2)),
                        ("totalCommitContributions", n(7)),
                        ("totalPullRequestContributions", n(2)),
                        ("totalIssueContributions", n(1)),
                    ]),
                ),
                ("repositories", obj(vec![("totalCount", n(14))])),
            ]),
        )]),
    )])
}

#[test]
fn stats_from_graphql_reads_answer() {
    let fetched = ts("2026-04-28T10:00:00Z");
    let from = Date { year: 2025, month: 4, day: 28 };
    let to = Date { year: 2026, month: 4, day: 28 };
    let stats = stats_from_graphql(&graphql_answer(), fetched, from, to).expect("valid answer");
    assert_eq!(stats.total_contributions, 12);
    assert_eq!(stats.commit_contributions, 7);
    assert_eq!(stats.pr_contributions, 2);
    assert_eq!(stats.issue_contributions, 1);
    assert_eq!(stats.public_repos, 14);
    assert_eq!(stats.contribution_weeks.len(), 1);
    assert_eq!(stats.contribution_weeks[0].days[0].count, 3);
    assert!(stats.recent_activity.is_empty());
    let with = with_recent_activity(
        stats,
        vec![make(ActivityKind::Commit, ActivityState::Open, "2026-04-01T00:00:00Z")],
        vec![make(ActivityKind::Issue, ActivityState::Open, "2026-04-02T00:00:00Z")],
    );
    assert_eq!(with.recent_activity.len(), 2);
    assert_eq!(with.recent_activity[0].kind, ActivityKind::Issue);
}

#[test]
fn stats_from_graphql_requires_repository_count() {
    let answer = obj(vec![(
        "data",
        obj(vec![(
            "user",
            obj(vec![(
                "contributionsCollection",
                obj(vec![
                    ("contributionCalendar", obj(vec![("totalContributions", n(1))])),
                    ("restrictedContributionsCount", n(0)),
                    ("totalCommitContributions", n(0)),
                    ("totalPullRequestContributions", n(0)),
                    ("totalIssueContributions", n(0)),
                ]),
            )]),
        )]),
    )]);
    let t = ts("2026-04-28T10:00:00Z");
    let d = Date { year: 2026, month: 4, day: 28 };
    match stats_from_graphql(&answer, t, d, d) {
        Err(FetchError::Parse(m)) => assert_eq!(m, "totalCount missing"),
        other => panic!("unexpected {other:?}"),
    }
}
