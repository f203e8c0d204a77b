use jpellis_me::integration::github::json::Json;
use jpellis_me::integration::github::projects::fetch::{
    parse_commit, parse_commits_response, parse_prs_count, parse_release_response,
    parse_repo_response,
};

fn s(x: &str) -> Json {
    Json::Str(x.to_string())
}

fn n(x: u64) -> Json {
    Json::UInt(x)
}

fn obj(entries: Vec<(&str, Json)>) -> Json {
    Json::Object(entries.into_iter().map(|(k, v)| (k.to_string(), v)).collect())
}

fn arr(items: Vec<Json>) -> Json {
    Json::Array(items)
}

#[test]
fn parse_repo_response_extracts_all_four_fields() {
    let body = obj(vec![
        ("stargazers_count", n(158)),
        ("forks_count", n(22)),
        ("open_issues_count", n(5)),
        ("watchers_count", n(12)),
    ]);
    let (stars, forks, open_issues, watchers) =
        parse_repo_response("JP-Ellis/tikz-feynman", &body).expect("valid");
    assert_eq!(stars, 158_u32);
    assert_eq!(forks, 22_u32);
    assert_eq!(open_issues, 5_u32);
    assert_eq!(watchers, 12_u32);
}

#[test]
fn parse_repo_response_errors_on_missing_stars() {
    let body = obj(vec![
        ("forks_count", n(5)),
        ("open_issues_count", n(0)),
        ("watchers_count", n(1)),
    ]);
    let result = parse_repo_response("owner/repo", &body);
    assert!(result.is_err());
    assert!(result.unwrap_err().to_string().contains("stargazers_count"));
}

#[test]
fn parse_repo_response_errors_on_missing_forks() {
    let body = obj(vec![
        ("stargazers_count", n(100)),
        ("open_issues_count", n(0)),
        ("watchers_count", n(1)),
    ]);
    let result = parse_repo_response("owner/repo", &body);
    assert!(result.is_err());
    assert!(result.unwrap_err().to_string().contains("forks_count"));
}

#[test]
fn parse_repo_response_error_messages() {
    let body = obj(vec![("stargazers_count", n(1))]);
    let e = parse_repo_response("owner/repo", &body).unwrap_err();
    assert_eq!(e.to_string(), "Parse error: owner/repo: forks_count missing");
    let body = obj(vec![
        ("stargazers_count", n(5_000_000_000)),
        ("forks_count", n(0)),
        ("open_issues_count", n(0)),
        ("watchers_count", n(0)),
    ]);
    let e = parse_repo_response("o/r", &body).unwrap_err();
    let expected = format!("Parse error: o/r: stargazers_count exceeds u32: {}", u32::try_from(5_000_000_000u64).unwrap_err());
    assert_eq!(e.to_string(), expected);
}

#[test]
fn parse_release_response_extracts_release_info() {
    let body = obj(vec![
        ("tag_name", s("v3.1.0")),
        ("published_at", s("2025-01-14T10:00:00Z")),
        ("html_url", s("https://github.com/JP-Ellis/tikz-feynman/releases/tag/v3.1.0")),
    ]);
    let info = parse_release_response(&body).expect("should parse");
    assert_eq!(info.tag, "v3.1.0");
    assert_eq!(info.date, "2025-01-14T10:00:00Z");
    assert_eq!(info.url, "https://github.com/JP-Ellis/tikz-feynman/releases/tag/v3.1.0");
}

#[test]
fn parse_release_response_returns_none_on_missing_fields() {
    let body = obj(vec![("message", s("Not Found"))]);
    assert!(parse_release_response(&body).is_none());
}

#[test]
fn parse_commit_skips_bot_by_type() {
    let commit = obj(vec![
        ("sha", s("abc1234567890")),
        (
            "commit",
            obj(vec![
                ("message", s("chore(deps): update deps\nMore details")),
                ("author", obj(vec![("name", s("renovate[bot]")), ("date", s("2025-05-01T09:00:00Z"))])),
            ]),
        ),
        ("author", obj(vec![("login", s("renovate[bot]")), ("type", s("Bot"))])),
        ("html_url", s("https://github.com/owner/repo/commit/abc1234")),
    ]);
    assert!(parse_commit(&commit).is_none());
}

#[test]
fn parse_commit_accepts_null_author_as_human() {
    let commit = obj(vec![
        ("sha", s("abc1234567890")),
        (
            "commit",
            obj(vec![
                ("message", s("Initial commit")),
                ("author", obj(vec![("name", s("Someone")), ("date", s("2025-05-01T09:00:00Z"))])),
            ]),
        ),
        ("author", Json::Null),
        ("html_url", s("https://github.com/owner/repo/commit/abc1234")),
    ]);
    let info = parse_commit(&commit).expect("null author is not a bot");
    assert_eq!(info.author, "Someone");
}

#[test]
fn parse_commit_returns_commit_info_for_human() {
    let commit = obj(vec![
        ("sha", s("a1b2c3d4e5f6")),
        (
            "commit",
            obj(vec![
                ("message", s("Fix diagram spacing\n\nLonger description here")),
                ("author", obj(vec![("name", s("Joshua Ellis")), ("date", s("2025-05-01T09:00:00Z"))])),
            ]),
        ),
        ("author", obj(vec![("login", s("JP-Ellis")), ("type", s("User"))])),
        ("html_url", s("https://github.com/JP-Ellis/tikz-feynman/commit/a1b2c3d")),
    ]);
    let info = parse_commit(&commit).expect("human commit");
    assert_eq!(info.sha, "a1b2c3d");
    assert_eq!(info.message, "Fix diagram spacing");
    assert_eq!(info.author, "JP-Ellis");
    assert_eq!(info.date, "2025-05-01T09:00:00Z");
}

#[test]
fn parse_commit_truncates_long_message() {
    let long_msg = format!("{}\nSecond line", "🚀".repeat(80));
    let commit = obj(vec![
        ("sha", s("a1b2c3d4e5f6")),
        (
            "commit",
            obj(vec![
                ("message", Json::Str(long_msg)),
                ("author", obj(vec![("name", s("JP-Ellis")), ("date", s("2025-01-01T00:00:00Z"))])),
            ]),
        ),
        ("author", obj(vec![("login", s("JP-Ellis")), ("type", s("User"))])),
        ("html_url", s("https://example.com/commit/abc")),
    ]);
    let info = parse_commit(&commit).expect("human commit");
    assert!(info.message.ends_with('…'));
    assert_eq!(info.message.chars().count(), 73);
}

#[test]
fn parse_commit_defaults_and_short_shas() {
    let commit = obj(vec![("sha", s("abc"))]);
    let info = parse_commit(&commit).expect("sha present");
    assert_eq!(info.sha, "abc");
    assert_eq!(info.message, "");
    assert_eq!(info.date, "");
    assert_eq!(info.author, "unknown");
    assert_eq!(info.url, "");
    // Seven bytes would split the third character: the SHA is kept whole.
    let commit = obj(vec![("sha", s("ééééé")), ("commit", obj(vec![("message", s("  padded title  \nrest"))]))]);
    let info = parse_commit(&commit).expect("sha present");
    assert_eq!(info.sha, "ééééé");
    assert_eq!(info.message, "padded title");
    assert!(parse_commit(&obj(vec![])).is_none());
}

#[test]
fn parse_commits_response_filters_bots_and_caps_at_five() {
    let mut commits = Vec::new();
    for i in 0..5 {
        commits.push(obj(vec![
            ("sha", Json::Str(format!("human{i}abcdef"))),
            (
                "commit",
                obj(vec![
                    ("message", Json::Str(format!("Human commit {i}"))),
                    ("author", obj(vec![("name", s("JP-Ellis")), ("date", s("2025-05-01T09:00:00Z"))])),
                ]),
            ),
            ("author", obj(vec![("login", s("JP-Ellis")), ("type", s("User"))])),
            ("html_url", s("https://example.com/commit/abc")),
        ]));
    }
    for i in 0..2 {
        commits.push(obj(vec![
            ("sha", Json::Str(format!("bot{i}abcdefgh"))),
            (
                "commit",
                obj(vec![
                    ("message", Json::Str(format!("chore(deps): bot commit {i}"))),
                    ("author", obj(vec![("name", s("renovate[bot]")), ("date", s("2025-05-01T09:00:00Z"))])),
                ]),
            ),
            ("author", obj(vec![("login", s("renovate[bot]")), ("type", s("Bot"))])),
            ("html_url", s("https://example.com/commit/bot")),
        ]));
    }
    let body = Json::Array(commits);
    let result = parse_commits_response(&body);
    assert_eq!(result.len(), 5);
    assert!(result.iter().all(|c| !c.author.contains("bot")));
}

#[test]
fn parse_commits_response_non_array_is_empty() {
    assert!(parse_commits_response(&obj(vec![])).is_empty());
}

#[test]
fn parse_prs_count_counts_array_length() {
    let body = arr(vec![
        obj(vec![("number", n(1))]),
        obj(vec![("number", n(2))]),
        obj(vec![("number", n(3))]),
    ]);
    assert_eq!(parse_prs_count(&body), 3_u32);
}

#[test]
fn parse_prs_count_returns_zero_for_empty() {
    let body = arr(vec![]);
    assert_eq!(parse_prs_count(&body), 0);
    assert_eq!(parse_prs_count(&obj(vec![])), 0);
}
