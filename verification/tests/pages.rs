use jpellis_me::blog::BlogPost;
use jpellis_me::components::clock::{format_time, server_date, to_roman};
use jpellis_me::components::year_in_code::{
    build_grid_levels, cell_level_from_count, dedup_commits_against_prs, time_ago,
};
use jpellis_me::config::projects::{valid_slug, OssContrib, ProjectsConfig};
use jpellis_me::integration::github::projects::model::{ProjectsStats, RepoStats};
use jpellis_me::integration::github::stats::model::{
    ActivityItem, ActivityKind, ContributionDay, ContributionWeek, GitHubStats,
};
use jpellis_me::integration::github::time::{Date, Timestamp};
use jpellis_me::pages::blog::{all_tags, all_years, filter_posts, filter_url};
use jpellis_me::pages::contact::{EmailAddress, PgpKey};
use jpellis_me::pages::projects::{
    find_repo_stats, format_relative_date, format_short_date, github_slug, relative_date,
    total_forks, total_stars, ProjectEntry, ProjectLink, Status,
};

const NOW: Timestamp = Timestamp { secs: 1_800_000_000, nanos: 0 };

fn ago(secs: i64) -> Timestamp {
    Timestamp { secs: NOW.secs - secs, nanos: 0 }
}

// ─── Clock ───────────────────────────────────────────────────────────────────

#[test]
fn zero_returns_circle() {
    assert_eq!(to_roman(0), "○");
}

#[test]
fn additive_sequences() {
    assert_eq!(to_roman(1), "i");
    assert_eq!(to_roman(2), "ii");
    assert_eq!(to_roman(3), "iii");
    assert_eq!(to_roman(8), "viii");
}

#[test]
fn subtractive_pairs() {
    assert_eq!(to_roman(4), "iv");
    assert_eq!(to_roman(9), "ix");
    assert_eq!(to_roman(40), "xl");
    assert_eq!(to_roman(90), "xc");
    assert_eq!(to_roman(400), "cd");
    assert_eq!(to_roman(900), "cm");
}

#[test]
fn clock_boundary_values() {
    assert_eq!(to_roman(12), "xii");
    assert_eq!(to_roman(23), "xxiii");
    assert_eq!(to_roman(59), "lix");
}

#[test]
fn date_values() {
    assert_eq!(to_roman(31), "xxxi");
    assert_eq!(to_roman(2026), "mmxxvi");
    assert_eq!(to_roman(3999), "mmmcmxcix");
}

#[test]
fn format_time_pads_seconds() {
    assert_eq!(format_time(14, 5, 38), "xiv · v · xxxviii");
    assert_eq!(format_time(0, 0, 1), "○ · ○ · i\u{A0}\u{A0}\u{A0}\u{A0}\u{A0}\u{A0}");
    assert_eq!(format_time(23, 59, 0).chars().count(), "xxiii · lix · ".chars().count() + 7);
}

#[test]
fn server_date_writes_day_month_year() {
    assert_eq!(server_date(28, 4, 2026), "xxviii · iv · mmxxvi");
    assert_eq!(server_date(1, 1, -5), "i · i · ○");
}

// ─── Year in code ────────────────────────────────────────────────────────────

#[test]
fn cell_level_from_count_edge_cases() {
    assert_eq!(cell_level_from_count(0, 0), 0);
    assert_eq!(cell_level_from_count(0, 10), 0);
    assert_eq!(cell_level_from_count(10, 10), 4);
    assert_eq!(cell_level_from_count(1, 10), 1);
    assert_eq!(cell_level_from_count(3, 10), 2);
    assert_eq!(cell_level_from_count(6, 10), 3);
    assert_eq!(cell_level_from_count(8, 10), 4);
}

#[test]
fn cell_level_quarter_boundaries() {
    assert_eq!(cell_level_from_count(1, 4), 2);
    assert_eq!(cell_level_from_count(2, 4), 3);
    assert_eq!(cell_level_from_count(3, 4), 4);
    assert_eq!(cell_level_from_count(u32::MAX, u32::MAX), 4);
    assert_eq!(cell_level_from_count(1, u32::MAX), 1);
}

fn stats_with(days: Vec<u32>) -> GitHubStats {
    GitHubStats {
        fetched_at: NOW,
        total_contributions: 10,
        commit_contributions: 8,
        pr_contributions: 1,
        issue_contributions: 1,
        public_repos: 1,
        period_from: Date { year: 2025, month: 1, day: 1 },
        period_to: Date { year: 2025, month: 1, day: 7 },
        contribution_weeks: vec![ContributionWeek {
            days: days
                .into_iter()
                .enumerate()
                .map(|(i, count)| ContributionDay {
                    date: Date { year: 2025, month: 1, day: 1 + i as u32 },
                    count,
                })
                .collect(),
        }],
        recent_activity: vec![],
    }
}

#[test]
fn build_grid_levels_normalises_correctly() {
    let grid = build_grid_levels(&stats_with(vec![0, 10]));
    assert_eq!(grid.len(), 1);
    assert_eq!(grid[0][0], 0);
    assert_eq!(grid[0][1], 4);
}

#[test]
fn build_grid_levels_without_days() {
    let grid = build_grid_levels(&stats_with(vec![]));
    assert_eq!(grid, vec![Vec::<u8>::new()]);
    let grid = build_grid_levels(&stats_with(vec![1, 2, 3, 8]));
    assert_eq!(grid, vec![vec![1, 2, 2, 4]]);
}

#[test]
fn time_ago_boundaries() {
    assert_eq!(time_ago(&ago(30), NOW), "1m");
    assert_eq!(time_ago(&ago(90), NOW), "1m");
    assert_eq!(time_ago(&ago(30 * 60), NOW), "30m");
    assert_eq!(time_ago(&ago(2 * 3600), NOW), "2h");
    assert_eq!(time_ago(&ago(3 * 86_400), NOW), "3d");
    assert_eq!(time_ago(&ago(14 * 86_400), NOW), "2w");
}

#[test]
fn time_ago_future_is_one_minute() {
    assert_eq!(time_ago(&ago(-500), NOW), "1m");
}

fn make_item(kind: ActivityKind, title: &str) -> ActivityItem {
    ActivityItem {
        kind,
        repo: "owner/repo".to_owned(),
        title: title.to_owned(),
        url: "https://example.com".to_owned(),
        state: None,
        created_at: NOW,
    }
}

#[test]
fn dedup_removes_commit_when_pr_has_same_title() {
    let activity = vec![
        make_item(ActivityKind::Commit, "feat: add thing"),
        make_item(ActivityKind::PullRequest, "feat: add thing"),
        make_item(ActivityKind::Commit, "fix: unrelated"),
    ];
    let result = dedup_commits_against_prs(activity);
    assert_eq!(result.len(), 2);
    assert!(result
        .iter()
        .any(|i| i.kind == ActivityKind::PullRequest && i.title == "feat: add thing"));
    assert!(result.iter().any(|i| i.kind == ActivityKind::Commit && i.title == "fix: unrelated"));
}

#[test]
fn dedup_keeps_commit_when_no_matching_pr() {
    let activity = vec![
        make_item(ActivityKind::Commit, "feat: standalone commit"),
        make_item(ActivityKind::PullRequest, "feat: different title"),
    ];
    assert_eq!(dedup_commits_against_prs(activity).len(), 2);
}

#[test]
fn dedup_keeps_issue_even_when_title_matches_commit() {
    let activity = vec![
        make_item(ActivityKind::Commit, "fix: bug"),
        make_item(ActivityKind::Issue, "fix: bug"),
    ];
    assert_eq!(dedup_commits_against_prs(activity).len(), 2);
}

// ─── Projects ────────────────────────────────────────────────────────────────

fn entry(link: Option<ProjectLink>) -> ProjectEntry {
    ProjectEntry { name: "test", kind: "", stack: "", summary: "", status: Status::Active, link }
}

#[test]
fn mod_github_slug_returns_slug_for_github_link() {
    assert_eq!(github_slug(&entry(Some(ProjectLink::GitHub("owner/repo")))), Some("owner/repo"));
}

#[test]
fn mod_github_slug_returns_none_for_external_link() {
    assert_eq!(github_slug(&entry(Some(ProjectLink::External("https://example.com")))), None);
}

#[test]
fn mod_github_slug_returns_none_for_no_link() {
    assert_eq!(github_slug(&entry(None)), None);
}

#[test]
fn status_labels() {
    assert_eq!(Status::Active.label(), "active");
    assert_eq!(Status::Maintained.label(), "maintained");
    assert_eq!(Status::Archived.label(), "archived");
    assert_eq!(Status::Shipped.label(), "shipped");
    assert_eq!(Status::Wip.label(), "wip");
}

fn repo(slug: &str, stars: u32, forks: u32) -> RepoStats {
    RepoStats {
        slug: slug.to_owned(),
        stars,
        forks,
        open_issues: 0,
        watchers: 0,
        latest_release: None,
        recent_commits: vec![],
        open_prs: 0,
    }
}

#[test]
fn find_repo_stats_and_totals() {
    let stats = ProjectsStats {
        fetched_at: NOW,
        repos: vec![repo("JP-Ellis/tikz-feynman", 158, 22), repo("pact-foundation/pact-python", 664, 148)],
    };
    let found = find_repo_stats(&entry(Some(ProjectLink::GitHub("pact-foundation/pact-python"))), &stats);
    assert_eq!(found.map(|r| r.stars), Some(664));
    assert!(find_repo_stats(&entry(Some(ProjectLink::GitHub("nobody/none"))), &stats).is_none());
    assert!(find_repo_stats(&entry(None), &stats).is_none());
    assert_eq!(total_stars(&stats), 822);
    assert_eq!(total_forks(&stats), 170);
}

#[test]
fn format_short_date_examples() {
    assert_eq!(format_short_date("2025-01-14T10:00:00Z"), "14 Jan 2025");
    assert_eq!(format_short_date("2025-05-01"), "1 May 2025");
    assert_eq!(format_short_date("soon"), "soon");
    assert_eq!(format_short_date("2025-01T12"), "2025-01T12");
}

#[test]
fn relative_date_steps() {
    let iso = "x";
    assert_eq!(relative_date(iso, None, NOW), "x");
    assert_eq!(relative_date(iso, Some(ago(100)), NOW), "just now");
    assert_eq!(relative_date(iso, Some(ago(600)), NOW), "10m ago");
    assert_eq!(relative_date(iso, Some(ago(5 * 3600)), NOW), "5h ago");
    assert_eq!(relative_date(iso, Some(ago(3 * 86_400)), NOW), "3d ago");
    assert_eq!(relative_date(iso, Some(ago(20 * 86_400)), NOW), "2w ago");
    assert_eq!(relative_date(iso, Some(ago(90 * 86_400)), NOW), "3mo ago");
    assert_eq!(relative_date(iso, Some(ago(800 * 86_400)), NOW), "2y ago");
    assert_eq!(relative_date(iso, Some(ago(-50)), NOW), "just now");
}

#[test]
fn format_relative_date_parses_text() {
    let now = jpellis_me::integration::github::time::parse_utc("2026-04-28T10:00:00Z").unwrap();
    assert_eq!(format_relative_date("2026-04-27T10:00:00Z", now), "1d ago");
    assert_eq!(format_relative_date("not a date", now), "not a date");
}

// ─── Contact ─────────────────────────────────────────────────────────────────

#[test]
fn pgp_key_url_and_spacing() {
    let key = PgpKey("ABCD1234EF56");
    assert_eq!(key.url(), "https://keys.openpgp.org/vks/v1/by-fingerprint/ABCD1234EF56");
    assert_eq!(key.to_string(), "ABCD 1234 EF56");
    assert_eq!(PgpKey("ABC").to_string(), "ABC");
    assert_eq!(PgpKey("").to_string(), "");
}

#[test]
fn email_display_parts() {
    let email = EmailAddress("me@example.co.uk");
    let (local, name, tld) = email.display_parts();
    assert_eq!((local.as_str(), name.as_str(), tld.as_str()), ("me", "example", "co.uk"));
    let (local, name, tld) = EmailAddress("root@localhost").display_parts();
    assert_eq!((local.as_str(), name.as_str(), tld.as_str()), ("root", "localhost", ""));
    assert_eq!(email.to_string(), "me@example.co.uk");
    assert_eq!(email.as_str(), "me@example.co.uk");
}

#[test]
fn email_display_parts_rejoin_to_the_address() {
    for address in ["me@example.co.uk", "a.b@c.d", "x@y.z"] {
        let (local, name, tld) = EmailAddress(address).display_parts();
        assert_eq!(format!("{local}@{name}.{tld}"), address);
    }
}

// ─── Blog list ───────────────────────────────────────────────────────────────

#[test]
fn filter_url_combinations() {
    assert_eq!(filter_url(None, None), "/blog");
    assert_eq!(filter_url(Some("rust"), None), "/blog?tag=rust");
    assert_eq!(filter_url(None, Some("2024")), "/blog?year=2024");
    assert_eq!(filter_url(Some("rust"), Some("2024")), "/blog?tag=rust&year=2024");
}

fn post(slug: &'static str, date: &'static str, tags: &'static [&'static str]) -> BlogPost {
    BlogPost {
        slug,
        title: slug,
        date,
        description: None,
        source: None,
        tags,
        excerpt_html: "<p>x</p>",
        body_html: "<p>x</p>",
    }
}

#[test]
fn filter_posts_by_tag_and_year() {
    let posts = vec![
        post("a", "2024-01-01", &["rust", "python"]),
        post("b", "2023-05-05", &["rust"]),
        post("c", "2024-07-07", &["meta"]),
    ];
    let slugs = |v: Vec<&BlogPost>| v.iter().map(|p| p.slug).collect::<Vec<_>>();
    assert_eq!(slugs(filter_posts(&posts, None, None)), vec!["a", "b", "c"]);
    assert_eq!(slugs(filter_posts(&posts, Some("rust"), None)), vec!["a", "b"]);
    assert_eq!(slugs(filter_posts(&posts, None, Some("2024"))), vec!["a", "c"]);
    assert_eq!(slugs(filter_posts(&posts, Some("rust"), Some("2024"))), vec!["a"]);
    assert!(filter_posts(&posts, Some("go"), None).is_empty());
}

// ─── Configuration ───────────────────────────────────────────────────────────

#[test]
fn slug_validation() {
    assert!(valid_slug("JP-Ellis/tikz-feynman"));
    assert!(!valid_slug(""));
    assert!(!valid_slug("no-slash"));
    let config = ProjectsConfig {
        tracked_slugs: vec!["a/b".to_owned()],
        oss_contribs: vec![OssContrib { slug: "c/d".to_owned(), name: "D".to_owned(), stars: 3 }],
    };
    assert!(config.is_valid());
    let config = ProjectsConfig {
        tracked_slugs: vec!["a/b".to_owned()],
        oss_contribs: vec![OssContrib { slug: "c/d".to_owned(), name: String::new(), stars: 3 }],
    };
    assert!(!config.is_valid());
}

#[test]
fn tag_and_year_lists() {
    let posts = vec![
        post("a", "2024-01-01", &["rust", "python"]),
        post("b", "2023-05-05", &["rust", "go"]),
        post("c", "2024-07-07", &["meta"]),
        post("d", "99", &["rust"]),
    ];
    assert_eq!(all_tags(&posts), vec!["go", "meta", "python", "rust"]);
    assert_eq!(all_years(&posts), vec!["2024", "2023"]);
    assert!(all_tags(&[]).is_empty());
}

// ─── Project tables ──────────────────────────────────────────────────────────

#[test]
fn mod_projects_list_has_expected_length() {
    assert_eq!(jpellis_me::pages::projects::projects().len(), 14);
    assert_eq!(jpellis_me::pages::work::projects().len(), 10);
}

#[test]
fn mod_all_github_projects_have_slash_in_slug() {
    let all = jpellis_me::pages::projects::projects().into_iter().chain(jpellis_me::pages::work::projects());
    for p in all {
        if let Some(ProjectLink::GitHub(slug)) = p.link {
            assert!(slug.contains('/'), "project '{}' slug missing slash: {slug}", p.name);
        }
    }
}
