//! Reading the GitHub GraphQL and search API answers into statistics.
//!
//! The requests themselves are made by the HTTP layer; everything that is
//! decided about their answers is decided here.

use vstd::prelude::*;
use crate::integration::github::json::{
    array_of, as_array, as_str, as_u64, at, at_key, get, is_str, is_string, opt_val, str_of,
    u64_of, Json,
};
use crate::integration::github::stats::model::{
    ActivityItem, ActivityKind, ActivityState, ActivityView, ContributionDay, ContributionWeek,
    GitHubStats,
};
use crate::integration::github::time::{
    date_of, earlier, no_later, parse_rfc3339, parse_utc, parse_ymd, rfc3339_parse, stamp,
    utc_parse, ymd_parse, Date, Timestamp,
};
use crate::sort::{filter_some, insert_point, lemma_insert_at, sort_by, truncated};
use crate::sort::{lemma_sort_by, sorted_by, total_preorder};
use crate::text::{
    contains, first_line, first_line_len, lemma_find_from, occurs_at, str_eq, string_of,
    strip_prefixes, strip_prefixes_from, to_chars,
};

verus! {

broadcast use vstd::string::group_string_axioms;

// ─── Errors ──────────────────────────────────────────────────────────────────

/// Why fetching GitHub statistics failed.
#[derive(Debug)]
pub enum FetchError {
    /// The request failed or answered with an error status.
    Http(String),
    /// The answer lacked a field or had one of the wrong type.
    Parse(String),
}

/// The message a fetch error is reported with.
pub open spec fn error_message(e: FetchError) -> Seq<char> {
    match e {
        FetchError::Http(m) => "HTTP error: "@ + m@,
        FetchError::Parse(m) => "Parse error: "@ + m@,
    }
}

impl FetchError {
    /// The message this error is reported with.
    pub fn to_string(&self) -> (s: String)
        ensures
            s@ == error_message(*self),
    {
        match self {
            FetchError::Http(m) => {
                let mut s = "HTTP error: ".to_owned();
                s.append(m.as_str());
                s
            },
            FetchError::Parse(m) => {
                let mut s = "Parse error: ".to_owned();
                s.append(m.as_str());
                s
            },
        }
    }
}

/// A parse outcome agrees with its specification, whose error is the text
/// of a [`FetchError::Parse`].
pub open spec fn agrees<T>(r: Result<T, FetchError>, s: Result<T, Seq<char>>) -> bool {
    match r {
        Ok(t) => s matches Ok(u) && u == t,
        Err(e) => s matches Err(m) && e matches FetchError::Parse(msg) && msg@ == m,
    }
}

fn parse_error(msg: &str) -> (e: FetchError)
    ensures
        e matches FetchError::Parse(m) && m@ == msg@,
{
    FetchError::Parse(msg.to_owned())
}

// ─── The GraphQL query ───────────────────────────────────────────────────────

/// The GraphQL query for the contribution calendar between `from` and `to`
/// and the number of public repositories.
pub open spec fn graphql_query(from: Seq<char>, to: Seq<char>) -> Seq<char> {
    "{\n  user(login: \"JP-Ellis\") {\n    contributionsCollection(from: \""@ + from
        + "\", to: \""@ + to + query_tail()
}

/// The part of the query after the period.
pub open spec fn query_tail() -> Seq<char> {
    "\") {\n      contributionCalendar {\n        totalContributions\n        weeks {\n          contributionDays { date contributionCount }\n        }\n      }\n      "@
        + "restrictedContributionsCount"@
        + "\n      totalCommitContributions\n      totalPullRequestContributions\n      totalIssueContributions\n    }\n    repositories(privacy: PUBLIC) { totalCount }\n  }\n}"@
}

/// Builds the GraphQL query for the contribution calendar over `from`–`to`
/// (ISO 8601 timestamps) and the public repository count.
pub fn build_graphql_query(from: &str, to: &str) -> (q: String)
    ensures
        q@ == graphql_query(from@, to@),
{
    let mut q = "{\n  user(login: \"JP-Ellis\") {\n    contributionsCollection(from: \"".to_owned();
    q.append(from);
    q.append("\", to: \"");
    q.append(to);
    q.append(
        "\") {\n      contributionCalendar {\n        totalContributions\n        weeks {\n          contributionDays { date contributionCount }\n        }\n      }\n      ",
    );
    q.append("restrictedContributionsCount");
    q.append(
        "\n      totalCommitContributions\n      totalPullRequestContributions\n      totalIssueContributions\n    }\n    repositories(privacy: PUBLIC) { totalCount }\n  }\n}",
    );
    q
}

/// Law: whatever the period, the query asks for the restricted (private)
/// contribution count, so that private work is counted in the total.
pub proof fn lemma_query_counts_private_work(from: Seq<char>, to: Seq<char>)
    ensures
        contains(graphql_query(from, to), "restrictedContributionsCount"@),
{
    let a = "{\n  user(login: \"JP-Ellis\") {\n    contributionsCollection(from: \""@ + from
        + "\", to: \""@ + to
        + "\") {\n      contributionCalendar {\n        totalContributions\n        weeks {\n          contributionDays { date contributionCount }\n        }\n      }\n      "@;
    let n = "restrictedContributionsCount"@;
    let b = "\n      totalCommitContributions\n      totalPullRequestContributions\n      totalIssueContributions\n    }\n    repositories(privacy: PUBLIC) { totalCount }\n  }\n}"@;
    let h = graphql_query(from, to);
    assert(h =~= a + n + b);
    assert(h.subrange(a.len() as int, (a.len() + n.len()) as int) =~= n);
    assert(occurs_at(h, a.len() as int, n));
    lemma_find_from(h, n, 0);
}

// ─── Contribution totals ─────────────────────────────────────────────────────

/// The calendar total in a `contributionsCollection` object.
pub open spec fn calendar_total(c: Option<Json>) -> Option<u64> {
    u64_of(at(at(c, "contributionCalendar"@), "totalContributions"@))
}

/// The restricted (private) contribution count in a `contributionsCollection`.
pub open spec fn restricted_count(c: Option<Json>) -> Option<u64> {
    u64_of(at(c, "restrictedContributionsCount"@))
}

/// The two counts that are added fit in a `u32` once each is cut to 32 bits.
pub open spec fn totals_fit(c: Option<Json>) -> bool {
    calendar_total(c) matches Some(t) && restricted_count(c) matches Some(r) ==> (t as u32) + (
    r as u32) <= u32::MAX
}

/// The `(total, commits, pull requests, issues)` counts of a
/// `contributionsCollection`, the total including restricted contributions,
/// each count cut to 32 bits; or the text of the first missing field's error.
pub open spec fn contribution_totals(c: Option<Json>) -> Result<(u32, u32, u32, u32), Seq<char>> {
    let commits = u64_of(at(c, "totalCommitContributions"@));
    let prs = u64_of(at(c, "totalPullRequestContributions"@));
    let issues = u64_of(at(c, "totalIssueContributions"@));
    if calendar_total(c) is None {
        Err("totalContributions missing"@)
    } else if restricted_count(c) is None {
        Err("restrictedContributionsCount missing"@)
    } else if commits is None {
        Err("totalCommitContributions missing"@)
    } else if prs is None {
        Err("totalPullRequestContributions missing"@)
    } else if issues is None {
        Err("totalIssueContributions missing"@)
    } else {
        Ok(
            (
                ((calendar_total(c)->0 as u32) + (restricted_count(c)->0 as u32)) as u32,
                commits->0 as u32,
                prs->0 as u32,
                issues->0 as u32,
            ),
        )
    }
}

/// Reads the contribution counts of a `contributionsCollection` object,
/// adding the restricted count into the total so that contributions to
/// private repositories are reflected in it.
pub fn parse_contribution_totals(contributions: Option<&Json>) -> (r: Result<
    (u32, u32, u32, u32),
    FetchError,
>)
    requires
        totals_fit(opt_val(contributions)),
    ensures
        agrees(r, contribution_totals(opt_val(contributions))),
{
    let c = contributions;
    let calendar = match as_u64(at_key(at_key(c, "contributionCalendar"), "totalContributions")) {
        Some(n) => n as u32,
        None => return Err(parse_error("totalContributions missing")),
    };
    let restricted = match as_u64(at_key(c, "restrictedContributionsCount")) {
        Some(n) => n as u32,
        None => return Err(parse_error("restrictedContributionsCount missing")),
    };
    let commits = match as_u64(at_key(c, "totalCommitContributions")) {
        Some(n) => n as u32,
        None => return Err(parse_error("totalCommitContributions missing")),
    };
    let prs = match as_u64(at_key(c, "totalPullRequestContributions")) {
        Some(n) => n as u32,
        None => return Err(parse_error("totalPullRequestContributions missing")),
    };
    let issues = match as_u64(at_key(c, "totalIssueContributions")) {
        Some(n) => n as u32,
        None => return Err(parse_error("totalIssueContributions missing")),
    };
    Ok((calendar + restricted, commits, prs, issues))
}

// ─── Contribution calendar ───────────────────────────────────────────────────

/// A day of the calendar from its parsed date (or the error text) and its
/// count, cut to 32 bits.
pub open spec fn day_result(date: Result<Date, Seq<char>>, count: Option<u64>) -> Result<
    ContributionDay,
    Seq<char>,
> {
    match date {
        Err(e) => Err(e),
        Ok(d) => match count {
            None => Err("contributionCount missing"@),
            Some(n) => Ok(ContributionDay { date: d, count: n as u32 }),
        },
    }
}

/// The date of a calendar day object: its `date` member parsed as
/// `YYYY-MM-DD`.
pub open spec fn day_date(d: Json) -> Result<Date, Seq<char>> {
    match str_of(get(d, "date"@)) {
        None => Err("date missing"@),
        Some(s) => date_of(ymd_parse(s)),
    }
}

/// A calendar day object read as a contribution day.
pub open spec fn day_of(d: Json) -> Result<ContributionDay, Seq<char>> {
    day_result(day_date(d), u64_of(get(d, "contributionCount"@)))
}

/// All days, or the first day's error.
pub open spec fn collect_days(ds: Seq<Json>) -> Result<Seq<ContributionDay>, Seq<char>>
    decreases ds.len(),
{
    if ds.len() == 0 {
        Ok(Seq::empty())
    } else {
        match collect_days(ds.drop_last()) {
            Err(e) => Err(e),
            Ok(xs) => match day_of(ds.last()) {
                Err(e) => Err(e),
                Ok(x) => Ok(xs.push(x)),
            },
        }
    }
}

/// A calendar week object read as its days.
pub open spec fn week_of(w: Json) -> Result<Seq<ContributionDay>, Seq<char>> {
    match array_of(get(w, "contributionDays"@)) {
        None => Err("contributionDays not an array"@),
        Some(ds) => collect_days(ds),
    }
}

/// All weeks, or the first week's error.
pub open spec fn collect_weeks(ws: Seq<Json>) -> Result<Seq<Seq<ContributionDay>>, Seq<char>>
    decreases ws.len(),
{
    if ws.len() == 0 {
        Ok(Seq::empty())
    } else {
        match collect_weeks(ws.drop_last()) {
            Err(e) => Err(e),
            Ok(xs) => match week_of(ws.last()) {
                Err(e) => Err(e),
                Ok(x) => Ok(xs.push(x)),
            },
        }
    }
}

/// The `weeks` array of a contribution calendar read as weeks of days.
pub open spec fn contribution_weeks(v: Option<Json>) -> Result<Seq<Seq<ContributionDay>>, Seq<char>> {
    match array_of(v) {
        None => Err("weeks not an array"@),
        Some(ws) => collect_weeks(ws),
    }
}

/// The weeks as sequences of days.
pub open spec fn weeks_view(ws: Seq<ContributionWeek>) -> Seq<Seq<ContributionDay>> {
    ws.map_values(|w: ContributionWeek| w.days@)
}

/// A contribution day from its parsed date, or the date's error, and its
/// count.
pub fn contribution_day(date: Result<Date, String>, count: Option<u64>) -> (r: Result<
    ContributionDay,
    FetchError,
>)
    ensures
        agrees(
            r,
            day_result(
                match date {
                    Ok(d) => Ok(d),
                    Err(e) => Err(e@),
                },
                count,
            ),
        ),
{
    match date {
        Err(e) => Err(FetchError::Parse(e)),
        Ok(d) => match count {
            None => Err(parse_error("contributionCount missing")),
            Some(n) => Ok(ContributionDay { date: d, count: n as u32 }),
        },
    }
}

fn parse_day(d: &Json) -> (r: Result<ContributionDay, FetchError>)
    ensures
        agrees(r, day_of(*d)),
{
    let date = match as_str(at_key(Some(d), "date")) {
        None => Err("date missing".to_owned()),
        Some(s) => parse_ymd(s),
    };
    contribution_day(date, as_u64(at_key(Some(d), "contributionCount")))
}

fn parse_week(w: &Json) -> (r: Result<ContributionWeek, FetchError>)
    ensures
        r matches Ok(x) ==> week_of(*w) == Ok::<Seq<ContributionDay>, Seq<char>>(x.days@),
        r matches Err(e) ==> agrees(Err::<Seq<ContributionDay>, FetchError>(e), week_of(*w)),
{
    let ds = match as_array(at_key(Some(w), "contributionDays")) {
        None => return Err(parse_error("contributionDays not an array")),
        Some(a) => a,
    };
    assert(week_of(*w) == collect_days(ds@));
    let mut days: Vec<ContributionDay> = Vec::new();
    let mut i: usize = 0;
    while i < ds.len()
        invariant
            i <= ds@.len(),
            week_of(*w) == collect_days(ds@),
            collect_days(ds@.take(i as int)) == Ok::<Seq<ContributionDay>, Seq<char>>(days@),
        decreases ds.len() - i,
    {
        proof {
            assert(ds@.take(i + 1).drop_last() =~= ds@.take(i as int));
        }
        match parse_day(&ds[i]) {
            Ok(x) => days.push(x),
            Err(e) => {
                proof {
                    assert(ds@.take(i + 1).last() == ds@[i as int]);
                    assert(day_of(ds@[i as int]) matches Err(m) && collect_days(ds@.take(i + 1)) == Err::<Seq<ContributionDay>, Seq<char>>(m));
                    lemma_collect_days_err(ds@, (i + 1) as int);
                }
                return Err(e);
            },
        }
        i = i + 1;
    }
    assert(ds@.take(ds@.len() as int) =~= ds@);
    Ok(ContributionWeek { days })
}

/// An error in the first `k` days is the error of all of them.
proof fn lemma_collect_days_err(ds: Seq<Json>, k: int)
    requires
        0 <= k <= ds.len(),
        collect_days(ds.take(k)) is Err,
    ensures
        collect_days(ds) == collect_days(ds.take(k)),
    decreases ds.len() - k,
{
    if k < ds.len() {
        assert(ds.take(k + 1).drop_last() =~= ds.take(k));
        lemma_collect_days_err(ds, k + 1);
    } else {
        assert(ds.take(k) =~= ds);
    }
}

/// An error in the first `k` weeks is the error of all of them.
proof fn lemma_collect_weeks_err(ws: Seq<Json>, k: int)
    requires
        0 <= k <= ws.len(),
        collect_weeks(ws.take(k)) is Err,
    ensures
        collect_weeks(ws) == collect_weeks(ws.take(k)),
    decreases ws.len() - k,
{
    if k < ws.len() {
        assert(ws.take(k + 1).drop_last() =~= ws.take(k));
        lemma_collect_weeks_err(ws, k + 1);
    } else {
        assert(ws.take(k) =~= ws);
    }
}

/// Reads the `weeks` array of a contribution calendar.
pub fn parse_contribution_weeks(weeks_json: Option<&Json>) -> (r: Result<
    Vec<ContributionWeek>,
    FetchError,
>)
    ensures
        r matches Ok(ws) ==> contribution_weeks(opt_val(weeks_json)) == Ok::<
            Seq<Seq<ContributionDay>>,
            Seq<char>,
        >(weeks_view(ws@)),
        r matches Err(e) ==> agrees(
            Err::<Seq<Seq<ContributionDay>>, FetchError>(e),
            contribution_weeks(opt_val(weeks_json)),
        ),
{
    let arr = match as_array(weeks_json) {
        None => return Err(parse_error("weeks not an array")),
        Some(a) => a,
    };
    assert(contribution_weeks(opt_val(weeks_json)) == collect_weeks(arr@));
    let mut weeks: Vec<ContributionWeek> = Vec::new();
    let mut i: usize = 0;
    assert(arr@.take(0) =~= Seq::<Json>::empty());
    assert(weeks_view(weeks@) =~= Seq::<Seq<ContributionDay>>::empty());
    while i < arr.len()
        invariant
            i <= arr@.len(),
            contribution_weeks(opt_val(weeks_json)) == collect_weeks(arr@),
            collect_weeks(arr@.take(i as int)) == Ok::<Seq<Seq<ContributionDay>>, Seq<char>>(
                weeks_view(weeks@),
            ),
        decreases arr.len() - i,
    {
        proof {
            assert(arr@.take(i + 1).drop_last() =~= arr@.take(i as int));
        }
        match parse_week(&arr[i]) {
            Ok(w) => {
                let ghost before = weeks@;
                weeks.push(w);
                assert(weeks_view(weeks@) =~= weeks_view(before).push(w.days@));
            },
            Err(e) => {
                proof {
                    assert(arr@.take(i + 1).last() == arr@[i as int]);
                    assert(week_of(arr@[i as int]) matches Err(m) && collect_weeks(arr@.take(i + 1)) == Err::<Seq<Seq<ContributionDay>>, Seq<char>>(m));
                    lemma_collect_weeks_err(arr@, (i + 1) as int);
                }
                return Err(e);
            },
        }
        i = i + 1;
    }
    assert(arr@.take(arr@.len() as int) =~= arr@);
    Ok(weeks)
}

// ─── Search results ──────────────────────────────────────────────────────────

/// The items as views.
pub open spec fn views(s: Seq<ActivityItem>) -> Seq<ActivityView> {
    s.map_values(|a: ActivityItem| a@)
}

/// An optional item as an optional view.
pub open spec fn view_opt(o: Option<ActivityItem>) -> Option<ActivityView> {
    match o {
        Some(a) => Some(a@),
        None => None,
    }
}

/// The repository of an issue search item, from its API URL.
pub open spec fn repo_of_url(u: Seq<char>) -> Seq<char> {
    strip_prefixes(u, "https://api.github.com/repos/"@)
}

/// An issue search item read as activity, given its parsed creation time.
/// Items with a `pull_request` member are pull requests, merged when that
/// member has a `merged_at` string; others are issues. Items without a
/// title, URL, repository URL or creation time are skipped.
pub open spec fn issue_item(item: Json, created_at: Option<Timestamp>) -> Option<ActivityView> {
    let title = str_of(get(item, "title"@));
    let url = str_of(get(item, "html_url"@));
    let repo_url = str_of(get(item, "repository_url"@));
    if title is None || url is None || repo_url is None || created_at is None {
        None
    } else {
        let pr = get(item, "pull_request"@);
        let state_text = str_of(get(item, "state"@));
        let kind = if pr is Some {
            ActivityKind::PullRequest
        } else {
            ActivityKind::Issue
        };
        let state = if pr is Some {
            let raw = match state_text {
                Some(t) => t,
                None => "open"@,
            };
            if raw == "open"@ {
                ActivityState::Open
            } else if is_str(at(pr, "merged_at"@)) {
                ActivityState::Merged
            } else {
                ActivityState::Closed
            }
        } else if state_text == Some("open"@) {
            ActivityState::Open
        } else {
            ActivityState::Closed
        };
        Some(
            ActivityView {
                kind,
                repo: repo_of_url(repo_url->0),
                title: title->0,
                url: url->0,
                state: Some(state),
                created_at: created_at->0,
            },
        )
    }
}

/// The creation time of an issue search item.
pub open spec fn issue_created_at(item: Json) -> Option<Timestamp> {
    match str_of(get(item, "created_at"@)) {
        Some(t) => stamp(utc_parse(t)),
        None => None,
    }
}

/// The activity in an issue search answer.
pub open spec fn activity_items(body: Json) -> Result<Seq<ActivityView>, Seq<char>> {
    match array_of(get(body, "items"@)) {
        None => Err("issue search items missing"@),
        Some(items) => Ok(
            filter_some(items.map_values(|it: Json| issue_item(it, issue_created_at(it)))),
        ),
    }
}

fn owned(s: &str) -> (r: String)
    ensures
        r@ == s@,
{
    s.to_owned()
}

/// Reads one issue search item, given its creation time as parsed.
pub fn issue_search_item(item: &Json, created_at: Option<Timestamp>) -> (r: Option<ActivityItem>)
    ensures
        view_opt(r) == issue_item(*item, created_at),
{
    let it = Some(item);
    let title = match as_str(at_key(it, "title")) {
        Some(t) => owned(t),
        None => return None,
    };
    let url = match as_str(at_key(it, "html_url")) {
        Some(t) => owned(t),
        None => return None,
    };
    let repo_url = match as_str(at_key(it, "repository_url")) {
        Some(t) => t,
        None => return None,
    };
    let created = match created_at {
        Some(t) => t,
        None => return None,
    };
    let chars = to_chars(repo_url);
    let prefix = to_chars("https://api.github.com/repos/");
    let start = strip_prefixes_from(&chars, 0, &prefix);
    assert(chars@.skip(0) =~= chars@);
    let repo = string_of(&chars, start, chars.len());
    assert(chars@.subrange(start as int, chars@.len() as int) =~= chars@.skip(start as int));
    let pr = at_key(it, "pull_request");
    let state_text = as_str(at_key(it, "state"));
    let (kind, state) = if pr.is_some() {
        let is_open = match state_text {
            Some(t) => str_eq(t, "open"),
            None => true,
        };
        let state = if is_open {
            ActivityState::Open
        } else if is_string(at_key(pr, "merged_at")) {
            ActivityState::Merged
        } else {
            ActivityState::Closed
        };
        (ActivityKind::PullRequest, state)
    } else {
        let is_open = match state_text {
            Some(t) => str_eq(t, "open"),
            None => false,
        };
        (ActivityKind::Issue, if is_open {
            ActivityState::Open
        } else {
            ActivityState::Closed
        })
    };
    Some(ActivityItem { kind, repo, title, url, state: Some(state), created_at: created })
}

/// Reads the `items` of a GitHub issue search answer into activity, skipping
/// items that lack a field.
pub fn parse_activity_items(body: &Json) -> (r: Result<Vec<ActivityItem>, FetchError>)
    ensures
        r matches Ok(v) ==> activity_items(*body) == Ok::<Seq<ActivityView>, Seq<char>>(views(v@)),
        r matches Err(e) ==> agrees(Err::<Seq<ActivityView>, FetchError>(e), activity_items(*body)),
{
    let items = match as_array(at_key(Some(body), "items")) {
        Some(a) => a,
        None => return Err(parse_error("issue search items missing")),
    };
    let ghost f = |it: Json| issue_item(it, issue_created_at(it));
    let mut out: Vec<ActivityItem> = Vec::new();
    let mut i: usize = 0;
    assert(items@.take(0).map_values(f) =~= Seq::<Option<ActivityView>>::empty());
    while i < items.len()
        invariant
            i <= items@.len(),
            f == (|it: Json| issue_item(it, issue_created_at(it))),
            views(out@) == filter_some(items@.take(i as int).map_values(f)),
        decreases items.len() - i,
    {
        let item = &items[i];
        let created = match as_str(at_key(Some(item), "created_at")) {
            Some(t) => parse_utc(t),
            None => None,
        };
        let ghost before = out@;
        let o = issue_search_item(item, created);
        proof {
            assert(items@.take(i + 1).map_values(f).drop_last() =~= items@.take(i as int).map_values(f));
        }
        match o {
            Some(a) => {
                out.push(a);
                assert(views(out@) =~= views(before).push(a@));
            },
            None => {},
        }
        i = i + 1;
    }
    assert(items@.take(items@.len() as int) =~= items@);
    Ok(out)
}

/// A commit search item read as activity, given its parsed author date: the
/// title is the first line of the commit message; items without a SHA, URL,
/// repository, message, non-empty title or date are skipped.
pub open spec fn commit_item(item: Json, created_at: Option<Timestamp>) -> Option<ActivityView> {
    if str_of(get(item, "sha"@)) is None {
        None
    } else {
        commit_fields(item, created_at)
    }
}

/// A commit search item read as activity whether or not it has a SHA.
pub open spec fn commit_fields(item: Json, created_at: Option<Timestamp>) -> Option<ActivityView> {
    let url = str_of(get(item, "html_url"@));
    let repo = str_of(at(get(item, "repository"@), "full_name"@));
    let message = str_of(at(get(item, "commit"@), "message"@));
    if url is None || repo is None || message is None {
        None
    } else if first_line(message->0).len() == 0 || created_at is None {
        None
    } else {
        Some(
            ActivityView {
                kind: ActivityKind::Commit,
                repo: repo->0,
                title: first_line(message->0),
                url: url->0,
                state: None,
                created_at: created_at->0,
            },
        )
    }
}

/// The author date of a commit search item.
pub open spec fn commit_created_at(item: Json) -> Option<Timestamp> {
    match str_of(at(at(get(item, "commit"@), "author"@), "date"@)) {
        Some(t) => stamp(rfc3339_parse(t)),
        None => None,
    }
}

/// The activity in a commit search answer.
pub open spec fn commit_items(body: Json) -> Result<Seq<ActivityView>, Seq<char>> {
    match array_of(get(body, "items"@)) {
        None => Err("commit search items missing"@),
        Some(items) => Ok(
            filter_some(items.map_values(|it: Json| commit_item(it, commit_created_at(it)))),
        ),
    }
}

/// Reads one commit search item, given its author date as parsed.
pub fn commit_search_item(item: &Json, created_at: Option<Timestamp>) -> (r: Option<ActivityItem>)
    ensures
        view_opt(r) == commit_item(*item, created_at),
{
    if as_str(at_key(Some(item), "sha")).is_none() {
        return None;
    }
    commit_from_fields(item, created_at)
}

/// Reads one commit search item whether or not it has a SHA.
pub fn commit_from_fields(item: &Json, created_at: Option<Timestamp>) -> (r: Option<ActivityItem>)
    ensures
        view_opt(r) == commit_fields(*item, created_at),
{
    let it = Some(item);
    let url = match as_str(at_key(it, "html_url")) {
        Some(t) => owned(t),
        None => return None,
    };
    let repo = match as_str(at_key(at_key(it, "repository"), "full_name")) {
        Some(t) => owned(t),
        None => return None,
    };
    let message = match as_str(at_key(at_key(it, "commit"), "message")) {
        Some(t) => t,
        None => return None,
    };
    let chars = to_chars(message);
    let n = first_line_len(&chars);
    if n == 0 {
        return None;
    }
    let created = match created_at {
        Some(t) => t,
        None => return None,
    };
    let title = string_of(&chars, 0, n);
    assert(chars@.subrange(0, n as int) =~= chars@.take(n as int));
    Some(ActivityItem { kind: ActivityKind::Commit, repo, title, url, state: None, created_at: created })
}

/// Reads the `items` of a GitHub commit search answer into commit activity.
pub fn parse_commit_search_items(body: &Json) -> (r: Result<Vec<ActivityItem>, FetchError>)
    ensures
        r matches Ok(v) ==> commit_items(*body) == Ok::<Seq<ActivityView>, Seq<char>>(views(v@)),
        r matches Err(e) ==> agrees(Err::<Seq<ActivityView>, FetchError>(e), commit_items(*body)),
{
    let items = match as_array(at_key(Some(body), "items")) {
        Some(a) => a,
        None => return Err(parse_error("commit search items missing")),
    };
    let ghost f = |it: Json| commit_item(it, commit_created_at(it));
    let mut out: Vec<ActivityItem> = Vec::new();
    let mut i: usize = 0;
    assert(items@.take(0).map_values(f) =~= Seq::<Option<ActivityView>>::empty());
    while i < items.len()
        invariant
            i <= items@.len(),
            f == (|it: Json| commit_item(it, commit_created_at(it))),
            views(out@) == filter_some(items@.take(i as int).map_values(f)),
        decreases items.len() - i,
    {
        let item = &items[i];
        let created = match as_str(at_key(at_key(at_key(Some(item), "commit"), "author"), "date")) {
            Some(t) => parse_rfc3339(t),
            None => None,
        };
        let ghost before = out@;
        let o = commit_search_item(item, created);
        proof {
            assert(items@.take(i + 1).map_values(f).drop_last() =~= items@.take(i as int).map_values(f));
        }
        match o {
            Some(a) => {
                out.push(a);
                assert(views(out@) =~= views(before).push(a@));
            },
            None => {},
        }
        i = i + 1;
    }
    assert(items@.take(items@.len() as int) =~= items@);
    Ok(out)
}

// ─── Ordering activity ───────────────────────────────────────────────────────

/// `a` may stay in front of `b` when it is no older.
pub open spec fn newest_first() -> spec_fn(ActivityItem, ActivityItem) -> bool {
    |a: ActivityItem, b: ActivityItem| no_later(b.created_at, a.created_at)
}

/// Law: ordering by creation time, newest first, is a total preorder.
pub proof fn lemma_newest_first_total()
    ensures
        total_preorder(newest_first()),
{
}

/// Sorts activity newest first, keeping items created at the same instant in
/// their given order.
pub fn sort_newest_first(items: Vec<ActivityItem>) -> (r: Vec<ActivityItem>)
    ensures
        r@ == sort_by(items@, newest_first()),
{
    let ghost orig = items@;
    let ghost keep = newest_first();
    let mut input = items;
    let mut out: Vec<ActivityItem> = Vec::new();
    assert(orig.take(0) =~= Seq::<ActivityItem>::empty());
    assert(orig.skip(0) =~= orig);
    while input.len() > 0
        invariant
            keep == newest_first(),
            input@.len() <= orig.len(),
            input@ == orig.skip(orig.len() - input@.len()),
            out@ == sort_by(orig.take(orig.len() - input@.len()), keep),
        decreases input.len(),
    {
        let ghost k = orig.len() - input@.len();
        let x = input.remove(0);
        assert(x == orig[k]);
        assert(input@ =~= orig.skip(k + 1));
        let mut j = out.len();
        while j > 0 && earlier(&out[j - 1].created_at, &x.created_at)
            invariant
                j <= out@.len(),
                keep == newest_first(),
                forall|m: int| j <= m < out@.len() ==> !keep(#[trigger] out@[m], x),
            decreases j,
        {
            j = j - 1;
        }
        proof {
            assert(insert_point(out@, x, keep, j as int));
            lemma_insert_at(out@, x, keep, j as int);
            assert(orig.take(k + 1).drop_last() =~= orig.take(k));
        }
        out.insert(j, x);
    }
    assert(orig.take(orig.len() as int) =~= orig);
    out
}

/// Merges two activity lists, newest first (items of `a` before items of `b`
/// created at the same instant), and keeps the first `limit`.
pub fn merge_and_sort_activity(a: Vec<ActivityItem>, b: Vec<ActivityItem>, limit: usize) -> (r: Vec<
    ActivityItem,
>)
    ensures
        r@ == truncated(sort_by(a@ + b@, newest_first()), limit as int),
{
    let mut combined = a;
    let mut rest = b;
    combined.append(&mut rest);
    let mut sorted = sort_newest_first(combined);
    sorted.truncate(limit);
    sorted
}

/// Law: merged activity comes newest first, holds no more than `limit` items,
/// and is made of the items given.
pub proof fn lemma_merge_and_sort_activity(a: Seq<ActivityItem>, b: Seq<ActivityItem>, limit: nat)
    ensures
        sorted_by(truncated(sort_by(a + b, newest_first()), limit as int), newest_first()),
        truncated(sort_by(a + b, newest_first()), limit as int).len() == if a.len() + b.len()
            <= limit {
            a.len() + b.len()
        } else {
            limit
        },
        forall|x: ActivityItem| #[trigger]
            truncated(sort_by(a + b, newest_first()), limit as int).contains(x) ==> (a + b).contains(
                x,
            ),
{
    broadcast use vstd::seq_lib::group_to_multiset_ensures;

    let s = sort_by(a + b, newest_first());
    lemma_sort_by(a + b, newest_first());
    let t = truncated(s, limit as int);
    assert forall|x: ActivityItem| #[trigger] t.contains(x) implies (a + b).contains(x) by {
        let i = choose|i: int| 0 <= i < t.len() && t[i] == x;
        assert(s[i] == x);
        assert(s.to_multiset().count(x) > 0);
    }
}

// ─── Assembling the statistics ───────────────────────────────────────────────

/// The `contributionsCollection` of a GraphQL answer.
pub open spec fn collection_of(gql: Json) -> Option<Json> {
    at(at(at(Some(gql), "data"@), "user"@), "contributionsCollection"@)
}

/// The public repository count of a GraphQL answer, cut to 32 bits.
pub open spec fn public_repos_of(gql: Json) -> Result<u32, Seq<char>> {
    match u64_of(at(at(at(at(Some(gql), "data"@), "user"@), "repositories"@), "totalCount"@)) {
        Some(n) => Ok(n as u32),
        None => Err("totalCount missing"@),
    }
}

/// The statistics of a GraphQL answer fetched at `fetched_at` for the period
/// `period_from`–`period_to`, before any recent activity is added; or the
/// first error among the counts, the repository count and the calendar.
pub open spec fn graphql_stats_ok(
    gql: Json,
    fetched_at: Timestamp,
    period_from: Date,
    period_to: Date,
    st: GitHubStats,
) -> bool {
    let c = collection_of(gql);
    &&& contribution_totals(c) == Ok::<(u32, u32, u32, u32), Seq<char>>(
        (
            st.total_contributions,
            st.commit_contributions,
            st.pr_contributions,
            st.issue_contributions,
        ),
    )
    &&& public_repos_of(gql) == Ok::<u32, Seq<char>>(st.public_repos)
    &&& contribution_weeks(at(at(c, "contributionCalendar"@), "weeks"@)) == Ok::<
        Seq<Seq<ContributionDay>>,
        Seq<char>,
    >(weeks_view(st.contribution_weeks@))
    &&& st.fetched_at == fetched_at
    &&& st.period_from == period_from
    &&& st.period_to == period_to
    &&& st.recent_activity@.len() == 0
}

/// The error text of a GraphQL answer that cannot be read, if any: the
/// counts are read first, then the repository count, then the calendar.
pub open spec fn graphql_error(gql: Json) -> Option<Seq<char>> {
    let c = collection_of(gql);
    if let Err(e) = contribution_totals(c) {
        Some(e)
    } else if let Err(e) = public_repos_of(gql) {
        Some(e)
    } else if let Err(e) = contribution_weeks(at(at(c, "contributionCalendar"@), "weeks"@)) {
        Some(e)
    } else {
        None
    }
}

/// Reads the contribution counts, repository count and calendar of the
/// GraphQL answer into statistics with no recent activity yet.
pub fn stats_from_graphql(
    gql: &Json,
    fetched_at: Timestamp,
    period_from: Date,
    period_to: Date,
) -> (r: Result<GitHubStats, FetchError>)
    requires
        totals_fit(collection_of(*gql)),
    ensures
        r matches Ok(st) ==> graphql_error(*gql) is None && graphql_stats_ok(
            *gql,
            fetched_at,
            period_from,
            period_to,
            st,
        ),
        r matches Err(e) ==> graphql_error(*gql) matches Some(m) && e matches FetchError::Parse(
            msg,
        ) && msg@ == m,
{
    let user = at_key(at_key(Some(gql), "data"), "user");
    let contributions = at_key(user, "contributionsCollection");
    let (total, commits, prs, issues) = match parse_contribution_totals(contributions) {
        Ok(t) => t,
        Err(e) => return Err(e),
    };
    let public_repos = match as_u64(at_key(at_key(user, "repositories"), "totalCount")) {
        Some(n) => n as u32,
        None => return Err(parse_error("totalCount missing")),
    };
    let weeks = match parse_contribution_weeks(
        at_key(at_key(contributions, "contributionCalendar"), "weeks"),
    ) {
        Ok(w) => w,
        Err(e) => return Err(e),
    };
    Ok(
        GitHubStats {
            fetched_at,
            total_contributions: total,
            commit_contributions: commits,
            pr_contributions: prs,
            issue_contributions: issues,
            public_repos,
            period_from,
            period_to,
            contribution_weeks: weeks,
            recent_activity: Vec::new(),
        },
    )
}

/// Adds the recent commits and other activity to the statistics, all of it
/// newest first (commits before other items created at the same instant).
pub fn with_recent_activity(
    stats: GitHubStats,
    commits: Vec<ActivityItem>,
    others: Vec<ActivityItem>,
) -> (r: GitHubStats)
    ensures
        r.recent_activity@ == sort_by(commits@ + others@, newest_first()),
        r.fetched_at == stats.fetched_at,
        r.total_contributions == stats.total_contributions,
        r.commit_contributions == stats.commit_contributions,
        r.pr_contributions == stats.pr_contributions,
        r.issue_contributions == stats.issue_contributions,
        r.public_repos == stats.public_repos,
        r.period_from == stats.period_from,
        r.period_to == stats.period_to,
        r.contribution_weeks@ == stats.contribution_weeks@,
{
    let mut all = commits;
    let mut rest = others;
    all.append(&mut rest);
    let recent_activity = sort_newest_first(all);
    GitHubStats { recent_activity, ..stats }
}

/// Law: an activity item read from an issue search item links to the
/// item's page (its `html_url`) and carries its title; an item without
/// either is not read.
pub proof fn lemma_issue_item_links_page(item: Json, created_at: Option<Timestamp>)
    ensures
        issue_item(item, created_at) matches Some(v) ==> {
            &&& str_of(get(item, "html_url"@)) == Some(v.url)
            &&& str_of(get(item, "title"@)) == Some(v.title)
        },
        str_of(get(item, "html_url"@)) is None ==> issue_item(item, created_at) is None,
        str_of(get(item, "title"@)) is None ==> issue_item(item, created_at) is None,
{
}

} // verus!
