use jpellis_me::build::projects::ProjectActivityFrontmatter;
use jpellis_me::integration::github::projects::model::{CommitInfo, ReleaseInfo, RepoStats};
use jpellis_me::pages::blog::{tag_link, toggle_filter, year_link};
use jpellis_me::pages::projects::{open_prs_label, release_label, shows_recent_commits};
use jpellis_me::pages::resume::{split_featured, Role};

fn role(title: &str, featured: bool) -> Role {
    Role {
        from: "2020".to_string(),
        to: "present".to_string(),
        org: "Org".to_string(),
        loc: "Remote".to_string(),
        title: title.to_string(),
        sub: String::new(),
        body: "Work.".to_string(),
        tags: vec!["rust".to_string()],
        featured,
    }
}

#[test]
fn toggle_filter_sets_and_clears() {
    assert_eq!(toggle_filter(None, "rust"), Some("rust".to_string()));
    assert_eq!(toggle_filter(Some("rust"), "rust"), None);
    assert_eq!(toggle_filter(Some("python"), "rust"), Some("rust".to_string()));
}

#[test]
fn tag_link_toggles_the_tag_and_keeps_the_year() {
    assert_eq!(tag_link(None, None, "rust"), "/blog?tag=rust");
    assert_eq!(tag_link(None, Some("2024"), "rust"), "/blog?tag=rust&year=2024");
    assert_eq!(tag_link(Some("rust"), Some("2024"), "rust"), "/blog?year=2024");
    assert_eq!(tag_link(Some("rust"), None, "rust"), "/blog");
    assert_eq!(tag_link(Some("python"), None, "rust"), "/blog?tag=rust");
}

#[test]
fn year_link_toggles_the_year_and_keeps_the_tag() {
    assert_eq!(year_link(None, None, "2023"), "/blog?year=2023");
    assert_eq!(year_link(Some("rust"), None, "2023"), "/blog?tag=rust&year=2023");
    assert_eq!(year_link(Some("rust"), Some("2023"), "2023"), "/blog?tag=rust");
    assert_eq!(year_link(None, Some("2022"), "2023"), "/blog?year=2023");
}

#[test]
fn split_featured_takes_the_one_featured_role() {
    let roles = vec![role("Engineer", false), role("Lead", true), role("Researcher", false)];
    let (featured, rest) = split_featured(roles).expect("one featured role");
    assert_eq!(featured.title, "Lead");
    let titles: Vec<&str> = rest.iter().map(|r| r.title.as_str()).collect();
    assert_eq!(titles, vec!["Engineer", "Researcher"]);
}

#[test]
fn split_featured_counts_when_not_exactly_one() {
    assert_eq!(split_featured(vec![role("A", false)]).err(), Some(0));
    assert_eq!(split_featured(vec![role("A", true), role("B", true)]).err(), Some(2));
    assert_eq!(split_featured(Vec::new()).err(), Some(0));
}

fn stats_with_commits(n: usize) -> RepoStats {
    RepoStats {
        slug: "a/b".to_string(),
        stars: 1,
        forks: 0,
        open_issues: 0,
        watchers: 0,
        latest_release: None,
        recent_commits: (0..n)
            .map(|i| CommitInfo {
                sha: format!("abc{i}def"),
                message: "Fix".to_string(),
                date: "2025-01-14T10:00:00Z".to_string(),
                author: "someone".to_string(),
                url: "https://github.com/a/b/commit/abc".to_string(),
            })
            .collect(),
        open_prs: 0,
    }
}

#[test]
fn release_label_writes_tag_and_short_date() {
    let rel = ReleaseInfo {
        tag: "v3.1.0".to_string(),
        date: "2025-01-14T10:00:00Z".to_string(),
        url: "https://github.com/a/b/releases/tag/v3.1.0".to_string(),
    };
    assert_eq!(release_label(&rel), "v3.1.0 · 14 Jan 2025");
}

#[test]
fn open_prs_label_is_singular_for_one() {
    assert_eq!(open_prs_label(1), "1 open PR");
    assert_eq!(open_prs_label(0), "0 open PRs");
    assert_eq!(open_prs_label(12), "12 open PRs");
}

#[test]
fn shows_recent_commits_needs_the_setting_and_commits() {
    let on = ProjectActivityFrontmatter { release: true, recent_commits: true, open_prs: true };
    let off = ProjectActivityFrontmatter { release: true, recent_commits: false, open_prs: true };
    assert!(shows_recent_commits(&on, Some(&stats_with_commits(2))));
    assert!(!shows_recent_commits(&on, Some(&stats_with_commits(0))));
    assert!(!shows_recent_commits(&on, None));
    assert!(!shows_recent_commits(&off, Some(&stats_with_commits(2))));
}
