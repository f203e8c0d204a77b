use jpellis_me::config::work::OssContrib;
use jpellis_me::integration::github::json::Json;
use jpellis_me::integration::github::stats::model::{ActivityItem, ActivityKind, ActivityState};
use jpellis_me::integration::github::time::{parse_utc, Timestamp};
use jpellis_me::maintenance::fallback_data::{
    fallback_activity, fallback_commits, fallback_counts, fallback_recent_activity, fallback_stats_query,
    read_repo_counts, read_stars, repos_query, ACTIVITY_KEEP,
};
use jpellis_me::maintenance::oss_contribs::{
    contributions_by_repository, contributions_query, patch_oss_contribs, rank_oss_contribs, select_oss_candidates,
    RepoActivity, MIN_PRS,
};

fn s(x: &str) -> Json {
    Json::Str(x.to_string())
}

fn n(x: u64) -> Json {
    Json::UInt(x)
}

fn obj(entries: Vec<(&str, Json)>) -> Json {
    Json::Object(entries.into_iter().map(|(k, v)| (k.to_string(), v)).collect())
}

fn arr(items: Vec<Json>) -> Json {
    Json::Array(items)
}

fn slugs(xs: &[&str]) -> Vec<String> {
    xs.iter().map(|x| x.to_string()).collect()
}

fn ts(text: &str) -> Timestamp {
    parse_utc(text).expect("valid timestamp")
}

fn item(repo: &str, at: &str) -> ActivityItem {
    ActivityItem {
        kind: ActivityKind::Commit,
        repo: repo.to_string(),
        title: format!("work on {repo}"),
        url: format!("https://github.com/{repo}"),
        state: None,
        created_at: ts(at),
    }
}

// ─── Batched repository query ────────────────────────────────────────────────

#[test]
fn repos_query_asks_each_repo_under_its_index() {
    let q = repos_query(&slugs(&["a/b", "nodash", "c/d/e"]), false);
    assert_eq!(
        q,
        "{\n  r0: repository(owner: \"a\", name: \"b\") { stargazerCount }\n  r2: repository(owner: \"c\", name: \"d/e\") { stargazerCount }\n}"
    );
}

#[test]
fn repos_query_with_forks_asks_for_fork_counts() {
    let q = repos_query(&slugs(&["pact-foundation/pact-python"]), true);
    assert_eq!(
        q,
        "{\n  r0: repository(owner: \"pact-foundation\", name: \"pact-python\") { stargazerCount forks { totalCount } }\n}"
    );
}

#[test]
fn repos_query_of_no_repos_is_an_empty_selection() {
    assert_eq!(repos_query(&Vec::new(), false), "{\n\n}");
}

#[test]
fn read_repo_counts_skips_missing_and_null_repos() {
    let data = obj(vec![
        ("r0", obj(vec![("stargazerCount", n(5)), ("forks", obj(vec![("totalCount", n(2))]))])),
        ("r1", Json::Null),
        ("r3", obj(vec![("stargazerCount", s("many"))])),
    ]);
    let repos = read_repo_counts(Some(&data), &slugs(&["a/b", "c/d", "e/f", "g/h"]));
    assert_eq!(repos.len(), 2);
    assert_eq!(repos[0].slug, "a/b");
    assert_eq!((repos[0].stars, repos[0].forks), (5, 2));
    assert_eq!(repos[1].slug, "g/h");
    assert_eq!((repos[1].stars, repos[1].forks), (0, 0));
    assert!(read_repo_counts(None, &slugs(&["a/b"])).is_empty());
}

#[test]
fn read_stars_keeps_the_counts_found() {
    let data = obj(vec![
        ("r0", obj(vec![("stargazerCount", n(7))])),
        ("r1", obj(vec![])),
        ("r2", obj(vec![("stargazerCount", n(0))])),
    ]);
    let stars = read_stars(Some(&data), &slugs(&["a/b", "c/d", "e/f"]));
    assert_eq!(stars, vec![("a/b".to_string(), 7), ("e/f".to_string(), 0)]);
}

// ─── Contribution summary ────────────────────────────────────────────────────

#[test]
fn fallback_stats_query_names_the_period() {
    let q = fallback_stats_query("2025-01-01T00:00:00Z", "2026-01-01T00:00:00Z");
    assert!(q.starts_with("{\n  user(login: \"JP-Ellis\") {\n    contributionsCollection(from: \"2025-01-01T00:00:00Z\", to: \"2026-01-01T00:00:00Z\") {"));
    assert!(q.contains("totalPullRequestContributions"));
    assert!(q.contains("repositories(privacy: PUBLIC) { totalCount }"));
}

#[test]
fn fallback_counts_reads_each_count_and_defaults_to_zero() {
    let gql = obj(vec![(
        "data",
        obj(vec![(
            "user",
            obj(vec![
                (
                    "contributionsCollection",
                    obj(vec![("totalCommitContributions", n(120)), ("totalIssueContributions", n(4))]),
                ),
                ("repositories", obj(vec![("totalCount", n(33))])),
            ]),
        )]),
    )]);
    assert_eq!(fallback_counts(&gql), (120, 0, 4, 33));
    assert_eq!(fallback_counts(&Json::Null), (0, 0, 0, 0));
}

#[test]
fn fallback_commits_keeps_well_formed_commits() {
    let good = obj(vec![
        ("html_url", s("https://github.com/a/b/commit/1")),
        ("repository", obj(vec![("full_name", s("a/b"))])),
        (
            "commit",
            obj(vec![
                ("message", s("Fix the thing\n\nLonger text")),
                ("author", obj(vec![("date", s("2025-03-01T10:00:00+01:00"))])),
            ]),
        ),
    ]);
    let no_date = obj(vec![
        ("html_url", s("https://github.com/a/b/commit/2")),
        ("repository", obj(vec![("full_name", s("a/b"))])),
        ("commit", obj(vec![("message", s("No date"))])),
    ]);
    let empty_title = obj(vec![
        ("html_url", s("https://github.com/a/b/commit/3")),
        ("repository", obj(vec![("full_name", s("a/b"))])),
        (
            "commit",
            obj(vec![("message", s("\nbody")), ("author", obj(vec![("date", s("2025-03-01T10:00:00Z"))]))]),
        ),
    ]);
    let body = obj(vec![("items", arr(vec![good, no_date, empty_title]))]);
    let commits = fallback_commits(&body);
    assert_eq!(commits.len(), 1);
    assert_eq!(commits[0].kind, ActivityKind::Commit);
    assert_eq!(commits[0].repo, "a/b");
    assert_eq!(commits[0].title, "Fix the thing");
    assert_eq!(commits[0].url, "https://github.com/a/b/commit/1");
    assert_eq!(commits[0].created_at, ts("2025-03-01T09:00:00Z"));
    assert!(fallback_commits(&obj(vec![])).is_empty());
}

#[test]
fn fallback_activity_reads_pull_requests_and_is_empty_without_items() {
    let pr = obj(vec![
        ("title", s("Add feature")),
        ("html_url", s("https://github.com/a/b/pull/9")),
        ("repository_url", s("https://api.github.com/repos/a/b")),
        ("created_at", s("2025-02-01T00:00:00Z")),
        ("state", s("closed")),
        ("pull_request", obj(vec![("merged_at", s("2025-02-02T00:00:00Z"))])),
    ]);
    let items = fallback_activity(&obj(vec![("items", arr(vec![pr]))]));
    assert_eq!(items.len(), 1);
    assert_eq!(items[0].kind, ActivityKind::PullRequest);
    assert_eq!(items[0].state, Some(ActivityState::Merged));
    assert_eq!(items[0].repo, "a/b");
    assert!(fallback_activity(&obj(vec![])).is_empty());
}

#[test]
fn fallback_recent_activity_keeps_the_ten_newest() {
    let commits: Vec<ActivityItem> =
        (0..6).map(|i| item(&format!("c/{i}"), &format!("2025-01-{:02}T00:00:00Z", 10 + i))).collect();
    let prs: Vec<ActivityItem> =
        (0..4).map(|i| item(&format!("p/{i}"), &format!("2025-01-{:02}T12:00:00Z", 10 + i))).collect();
    let issues: Vec<ActivityItem> =
        (0..3).map(|i| item(&format!("i/{i}"), &format!("2025-02-{:02}T00:00:00Z", 1 + i))).collect();
    let kept = fallback_recent_activity(commits, prs, issues);
    assert_eq!(kept.len(), ACTIVITY_KEEP);
    let repos: Vec<&str> = kept.iter().map(|a| a.repo.as_str()).collect();
    assert_eq!(repos, vec!["i/2", "i/1", "i/0", "c/5", "c/4", "p/3", "c/3", "p/2", "c/2", "p/1"]);
}

// ─── Open-source contributions ───────────────────────────────────────────────

fn contribution(slug: &str, private: Option<bool>, count: u64) -> Json {
    let mut repo = vec![("nameWithOwner", s(slug))];
    if let Some(p) = private {
        repo.push(("isPrivate", Json::Bool(p)));
    }
    obj(vec![("repository", obj(repo)), ("contributions", obj(vec![("totalCount", n(count))]))])
}

fn activity(slug: &str, commits: u64, prs: u64, is_private: bool) -> RepoActivity {
    RepoActivity { slug: slug.to_string(), commits, prs, is_private }
}

#[test]
fn contributions_query_names_the_period_and_both_lists() {
    let q = contributions_query("2025-01-01T00:00:00Z", "2026-01-01T00:00:00Z");
    assert!(q.starts_with("{\n  user(login: \"JP-Ellis\") {\n    contributionsCollection(from: \"2025-01-01T00:00:00Z\", to: \"2026-01-01T00:00:00Z\") {\n"));
    assert!(q.contains("commitContributionsByRepository(maxRepositories: 100)"));
    assert!(q.contains("pullRequestContributionsByRepository(maxRepositories: 100)"));
    assert!(q.ends_with("}\n    }\n  }\n}"));
}

#[test]
fn contributions_by_repository_tallies_commits_and_prs() {
    let collection = obj(vec![
        (
            "commitContributionsByRepository",
            arr(vec![
                contribution("a/one", Some(false), 10),
                contribution("", Some(false), 99),
                contribution("b/two", None, 3),
            ]),
        ),
        (
            "pullRequestContributionsByRepository",
            arr(vec![contribution("c/three", Some(false), 2), contribution("a/one", Some(true), 4)]),
        ),
    ]);
    let tally = contributions_by_repository(Some(&collection));
    assert_eq!(tally.len(), 3);
    assert_eq!(tally[0].slug, "a/one");
    assert_eq!((tally[0].commits, tally[0].prs, tally[0].is_private), (10, 4, true));
    assert_eq!(tally[1].slug, "b/two");
    assert_eq!((tally[1].commits, tally[1].prs, tally[1].is_private), (3, 0, true));
    assert_eq!(tally[2].slug, "c/three");
    assert_eq!((tally[2].commits, tally[2].prs, tally[2].is_private), (0, 2, false));
    assert!(contributions_by_repository(None).is_empty());
}

#[test]
fn select_oss_candidates_filters_and_sorts() {
    let tally = vec![
        activity("zeta/lib", 0, 3, false),
        activity("JP-Ellis/own", 5, 5, false),
        activity("hep-rs/hep", 1, 1, false),
        activity("pactflow/thing", 0, 2, false),
        activity("pact-foundation/pact-python", 0, 9, false),
        activity("secret/repo", 0, 4, true),
        activity("commits/only", 12, 0, false),
        activity("alpha/tool", 0, MIN_PRS, false),
    ];
    let tracked_slugs = slugs(&["pact-foundation/pact-python"]);
    let picked = select_oss_candidates(&tally, &tracked_slugs);
    assert_eq!(picked, slugs(&["alpha/tool", "zeta/lib"]));
}

#[test]
fn rank_oss_contribs_orders_by_stars_and_keeps_custom_names() {
    let candidates = slugs(&["alpha/tool", "beta/lib", "gamma/app", "solo"]);
    let stars = vec![("beta/lib".to_string(), 120), ("gamma/app".to_string(), 120), ("alpha/tool".to_string(), 7)];
    let existing = vec![
        OssContrib { slug: "gamma/app".to_string(), name: "Gamma".to_string(), stars: 1 },
        OssContrib { slug: "gamma/app".to_string(), name: "Gamma App".to_string(), stars: 2 },
    ];
    let ranked = rank_oss_contribs(&candidates, &stars, &existing);
    let view: Vec<(&str, &str, u64)> = ranked.iter().map(|c| (c.slug.as_str(), c.name.as_str(), c.stars)).collect();
    assert_eq!(
        view,
        vec![("beta/lib", "lib", 120), ("gamma/app", "Gamma App", 120), ("alpha/tool", "tool", 7), ("solo", "solo", 0)]
    );
}

#[test]
fn rank_oss_contribs_uses_the_last_star_count_read() {
    let candidates = slugs(&["a/b"]);
    let stars = vec![("a/b".to_string(), 3), ("a/b".to_string(), 8)];
    let ranked = rank_oss_contribs(&candidates, &stars, &Vec::new());
    assert_eq!(ranked.len(), 1);
    assert_eq!(ranked[0].stars, 8);
    assert_eq!(ranked[0].name, "b");
}

fn contrib(slug: &str, name: &str, stars: u64) -> OssContrib {
    OssContrib { slug: slug.to_string(), name: name.to_string(), stars }
}

#[test]
fn patch_oss_contribs_replaces_only_the_list() {
    let content = "# Work page\ntracked_slugs = [\"a/b\"]  # kept\n\n[[oss_contribs]]\nslug = \"old/one\"\nname = \"Old\"\nstars = 1\n";
    let entries = vec![contrib("x/first", "First", 120), contrib("y/second", "Second", 7)];
    let patched = patch_oss_contribs(content, &entries).expect("valid TOML");
    assert!(patched.starts_with("# Work page\ntracked_slugs = [\"a/b\"]  # kept\n"));
    assert!(!patched.contains("old/one"));
    let header = "\n# Misc OSS contributions - updated by: cargo scripts/update-oss-contribs.rs\n[[oss_contribs]]";
    assert_eq!(patched.matches(header).count(), 1);
    let first = patched.find("x/first").expect("first entry");
    let second = patched.find("y/second").expect("second entry");
    assert!(patched.find(header).unwrap() < first && first < second);
    let value: toml::Table = toml::from_str(&patched).expect("patched text parses");
    let list = value["oss_contribs"].as_array().expect("array of tables");
    assert_eq!(list.len(), 2);
    assert_eq!(list[0]["slug"].as_str(), Some("x/first"));
    assert_eq!(list[0]["name"].as_str(), Some("First"));
    assert_eq!(list[0]["stars"].as_integer(), Some(120));
    assert_eq!(list[1]["stars"].as_integer(), Some(7));
    assert_eq!(value["tracked_slugs"].as_array().map(|a| a.len()), Some(1));
}

#[test]
fn patch_oss_contribs_wraps_huge_star_counts_like_as() {
    let patched = patch_oss_contribs("", &vec![contrib("a/b", "b", u64::MAX)]).expect("valid TOML");
    let value: toml::Table = toml::from_str(&patched).expect("patched text parses");
    assert_eq!(value["oss_contribs"][0]["stars"].as_integer(), Some(-1));
}

#[test]
fn patch_oss_contribs_reports_unparsable_text() {
    let err = patch_oss_contribs("tracked_slugs = [", &Vec::new()).unwrap_err();
    assert!(err.starts_with("Could not parse src/config/work.toml as TOML: "), "{err}");
    assert!(err.len() > "Could not parse src/config/work.toml as TOML: ".len());
}
