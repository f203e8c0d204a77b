//! The projects pages: project entries, their repository statistics and the
//! dates shown beside releases and commits.

use vstd::prelude::*;
use crate::blog::{format_date, format_date_of};
use crate::components::year_in_code::elapsed_nonneg;
use crate::build::projects::ProjectActivityFrontmatter;
use crate::integration::github::projects::model::{ProjectsStats, ReleaseInfo, RepoStats};
use crate::integration::github::time::{in_range, parse_utc, seconds_between, stamp, utc_parse, Timestamp};
use crate::text::{decimal, push_decimal, push_range, split_chars, split_on, str_eq, to_chars};

verus! {

broadcast use vstd::string::group_string_axioms;

/// How a project stands.
#[derive(Debug, Clone, Copy, PartialEq, Eq, Structural)]
pub enum Status {
    Active,
    Maintained,
    Archived,
    Shipped,
    Wip,
}

/// The label a status is shown with.
pub open spec fn status_label(s: Status) -> Seq<char> {
    match s {
        Status::Active => "active"@,
        Status::Maintained => "maintained"@,
        Status::Archived => "archived"@,
        Status::Shipped => "shipped"@,
        Status::Wip => "wip"@,
    }
}

impl Status {
    /// The label this status is shown with.
    pub fn label(self) -> (r: &'static str)
        ensures
            r@ == status_label(self),
    {
        match self {
            Status::Active => "active",
            Status::Maintained => "maintained",
            Status::Archived => "archived",
            Status::Shipped => "shipped",
            Status::Wip => "wip",
        }
    }
}

/// Where a project links to.
#[derive(Debug, Clone, Copy)]
pub enum ProjectLink {
    /// A GitHub repository, as `owner/name`; its statistics are fetched.
    GitHub(&'static str),
    /// Any other URL.
    External(&'static str),
}

/// A project listed on the projects page.
#[derive(Debug, Clone, Copy)]
pub struct ProjectEntry {
    pub name: &'static str,
    pub kind: &'static str,
    pub stack: &'static str,
    pub summary: &'static str,
    pub status: Status,
    pub link: Option<ProjectLink>,
}

/// The repository of a project, when it links to GitHub.
pub open spec fn slug_of(entry: ProjectEntry) -> Option<Seq<char>> {
    match entry.link {
        Some(ProjectLink::GitHub(slug)) => Some(slug@),
        _ => None,
    }
}

/// The GitHub repository of a project, if it links to one.
pub fn github_slug(entry: &ProjectEntry) -> (r: Option<&'static str>)
    ensures
        r matches Some(s) ==> slug_of(*entry) == Some(s@),
        r is None ==> slug_of(*entry) is None,
{
    match entry.link {
        Some(ProjectLink::GitHub(slug)) => Some(slug),
        _ => None,
    }
}

/// `i` is the first repository in `repos` with the slug `slug`.
pub open spec fn first_repo(repos: Seq<RepoStats>, slug: Seq<char>, i: int) -> bool {
    &&& 0 <= i < repos.len()
    &&& repos[i].slug@ == slug
    &&& forall|j: int| 0 <= j < i ==> repos[j].slug@ != slug
}

/// The fetched statistics of a project's repository: the first entry with
/// its slug, when it links to GitHub.
pub fn find_repo_stats<'a>(entry: &ProjectEntry, stats: &'a ProjectsStats) -> (r: Option<
    &'a RepoStats,
>)
    ensures
        r matches Some(x) ==> exists|i: int|
            slug_of(*entry) == Some(stats.repos@[i].slug@) && first_repo(
                stats.repos@,
                stats.repos@[i].slug@,
                i,
            ) && *x == stats.repos@[i],
        r is None ==> slug_of(*entry) is None || forall|j: int|
            0 <= j < stats.repos@.len() ==> Some(stats.repos@[j].slug@) != slug_of(*entry),
{
    let slug = match github_slug(entry) {
        Some(s) => s,
        None => return None,
    };
    let repos = &stats.repos;
    let mut i: usize = 0;
    while i < repos.len()
        invariant
            i <= repos@.len(),
            repos@ == stats.repos@,
            slug_of(*entry) == Some(slug@),
            forall|j: int| 0 <= j < i ==> repos@[j].slug@ != slug@,
        decreases repos.len() - i,
    {
        if str_eq(repos[i].slug.as_str(), slug) {
            assert(first_repo(repos@, repos@[i as int].slug@, i as int));
            return Some(&repos[i]);
        }
        i = i + 1;
    }
    None
}

/// The sum of the stars of `repos`.
pub open spec fn stars_sum(repos: Seq<RepoStats>) -> int
    decreases repos.len(),
{
    if repos.len() == 0 {
        0
    } else {
        stars_sum(repos.drop_last()) + repos.last().stars
    }
}

/// The sum of the forks of `repos`.
pub open spec fn forks_sum(repos: Seq<RepoStats>) -> int
    decreases repos.len(),
{
    if repos.len() == 0 {
        0
    } else {
        forks_sum(repos.drop_last()) + repos.last().forks
    }
}

proof fn lemma_stars_sum_prefix(repos: Seq<RepoStats>, i: int)
    requires
        0 <= i <= repos.len(),
    ensures
        stars_sum(repos.take(i)) <= stars_sum(repos),
        forks_sum(repos.take(i)) <= forks_sum(repos),
    decreases repos.len() - i,
{
    if i < repos.len() {
        lemma_stars_sum_prefix(repos, i + 1);
        assert(repos.take(i + 1).drop_last() =~= repos.take(i));
    } else {
        assert(repos.take(i) =~= repos);
    }
}

/// The stars of all tracked repositories together.
pub fn total_stars(stats: &ProjectsStats) -> (r: u32)
    requires
        stars_sum(stats.repos@) <= u32::MAX,
    ensures
        r == stars_sum(stats.repos@),
{
    let repos = &stats.repos;
    let mut sum: u32 = 0;
    let mut i: usize = 0;
    assert(repos@.take(0) =~= Seq::<RepoStats>::empty());
    while i < repos.len()
        invariant
            i <= repos@.len(),
            stars_sum(repos@) <= u32::MAX,
            sum == stars_sum(repos@.take(i as int)),
        decreases repos.len() - i,
    {
        proof {
            assert(repos@.take(i + 1).drop_last() =~= repos@.take(i as int));
            lemma_stars_sum_prefix(repos@, i + 1);
        }
        sum = sum + repos[i].stars;
        i = i + 1;
    }
    assert(repos@.take(repos@.len() as int) =~= repos@);
    sum
}

/// The forks of all tracked repositories together.
pub fn total_forks(stats: &ProjectsStats) -> (r: u32)
    requires
        forks_sum(stats.repos@) <= u32::MAX,
    ensures
        r == forks_sum(stats.repos@),
{
    let repos = &stats.repos;
    let mut sum: u32 = 0;
    let mut i: usize = 0;
    assert(repos@.take(0) =~= Seq::<RepoStats>::empty());
    while i < repos.len()
        invariant
            i <= repos@.len(),
            forks_sum(repos@) <= u32::MAX,
            sum == forks_sum(repos@.take(i as int)),
        decreases repos.len() - i,
    {
        proof {
            assert(repos@.take(i + 1).drop_last() =~= repos@.take(i as int));
            lemma_stars_sum_prefix(repos@, i + 1);
        }
        sum = sum + repos[i].forks;
        i = i + 1;
    }
    assert(repos@.take(repos@.len() as int) =~= repos@);
    sum
}

// ─── Dates ───────────────────────────────────────────────────────────────────

/// An ISO 8601 timestamp's date written as `14 Jan 2025`: the part before
/// the first `T` formatted as a blog date; the text itself when that part
/// has fewer than three `-`-separated fields.
pub open spec fn short_date_of(iso: Seq<char>) -> Seq<char> {
    let date_part = split_on(iso, 'T')[0];
    if split_on(date_part, '-').len() < 3 {
        iso
    } else {
        format_date_of(date_part)
    }
}

/// Formats an ISO 8601 timestamp as a short date, such as `14 Jan 2025`.
pub fn format_short_date(iso: &str) -> (r: String)
    ensures
        r@ == short_date_of(iso@),
{
    let chars = to_chars(iso);
    let pieces = split_chars(&chars, 'T');
    proof {
        crate::text::lemma_split_on_len(iso@, 'T');
    }
    let first = &pieces[0];
    let mut date_part = String::new();
    push_range(&mut date_part, first.as_slice(), 0, first.len());
    assert(first@.subrange(0, first@.len() as int) =~= first@);
    assert(Seq::<char>::empty() + first@ =~= first@);
    let fields = split_chars(first.as_slice(), '-');
    if fields.len() < 3 {
        let mut out = String::new();
        push_range(&mut out, chars.as_slice(), 0, chars.len());
        assert(chars@.subrange(0, chars@.len() as int) =~= iso@);
        assert(Seq::<char>::empty() + iso@ =~= iso@);
        return out;
    }
    format_date(date_part.as_str())
}

/// How long ago something happened `secs` seconds back: `just now` up to
/// two minutes, then minutes, hours, days, weeks, months of thirty days and
/// years of 365 days.
pub open spec fn relative_text(secs: int) -> Seq<char> {
    let days = secs / 86_400;
    if secs < 3600 {
        if secs / 60 <= 1 {
            "just now"@
        } else {
            decimal((secs / 60) as nat) + "m ago"@
        }
    } else if secs / 3600 < 24 {
        decimal((secs / 3600) as nat) + "h ago"@
    } else if days < 7 {
        decimal(days as nat) + "d ago"@
    } else if days / 7 < 5 {
        decimal((days / 7) as nat) + "w ago"@
    } else if days / 30 < 12 {
        decimal((days / 30) as nat) + "mo ago"@
    } else {
        decimal((days / 365) as nat) + "y ago"@
    }
}

/// An ISO 8601 timestamp, parsed as `parsed`, written relative to `now`;
/// the text itself when it did not parse.
pub open spec fn relative_date_of(iso: Seq<char>, parsed: Option<Timestamp>, now: Timestamp) -> Seq<
    char,
> {
    match parsed {
        None => iso,
        Some(t) => relative_text(elapsed_nonneg(now, t)),
    }
}

fn number_with(n: u64, suffix: &str) -> (r: String)
    ensures
        r@ == decimal(n as nat) + suffix@,
{
    let mut r = String::new();
    push_decimal(&mut r, n);
    r.append(suffix);
    assert(Seq::<char>::empty() + decimal(n as nat) =~= decimal(n as nat));
    r
}

/// Writes a timestamp, parsed as `parsed` from the text `iso`, relative to
/// `now`.
pub fn relative_date(iso: &str, parsed: Option<Timestamp>, now: Timestamp) -> (r: String)
    requires
        in_range(now),
        parsed matches Some(t) ==> in_range(t),
    ensures
        r@ == relative_date_of(iso@, parsed, now),
{
    let t = match parsed {
        None => return iso.to_owned(),
        Some(t) => t,
    };
    let s = seconds_between(now, t);
    let secs: u64 = if s > 0 {
        s as u64
    } else {
        0
    };
    let days = secs / 86_400;
    if secs < 3600 {
        if secs / 60 <= 1 {
            "just now".to_owned()
        } else {
            number_with(secs / 60, "m ago")
        }
    } else if secs / 3600 < 24 {
        number_with(secs / 3600, "h ago")
    } else if days < 7 {
        number_with(days, "d ago")
    } else if days / 7 < 5 {
        number_with(days / 7, "w ago")
    } else if days / 30 < 12 {
        number_with(days / 30, "mo ago")
    } else {
        number_with(days / 365, "y ago")
    }
}

/// Writes an ISO 8601 timestamp relative to `now`, such as `3d ago`; text
/// that does not parse is shown as it is.
pub fn format_relative_date(iso: &str, now: Timestamp) -> (r: String)
    requires
        in_range(now),
    ensures
        r@ == relative_date_of(iso@, stamp(utc_parse(iso@)), now),
{
    let parsed = parse_utc(iso);
    relative_date(iso, parsed, now)
}

// ─── The statistics panel ────────────────────────────────────────────────────

/// The label of the latest release: its tag and short date, `v3.1.0 · 14 Jan 2025`.
pub open spec fn release_text(tag: Seq<char>, date: Seq<char>) -> Seq<char> {
    tag + " · "@ + short_date_of(date)
}

/// Labels the latest release.
pub fn release_label(rel: &ReleaseInfo) -> (r: String)
    ensures
        r@ == release_text(rel.tag@, rel.date@),
{
    let mut r = rel.tag.clone();
    r.append(" · ");
    let d = format_short_date(rel.date.as_str());
    r.append(d.as_str());
    r
}

/// The open pull request count as written: `1 open PR`, `3 open PRs`.
pub open spec fn open_prs_text(count: u32) -> Seq<char> {
    if count == 1 {
        "1 open PR"@
    } else {
        decimal(count as nat) + " open PRs"@
    }
}

/// Labels the open pull request count.
pub fn open_prs_label(count: u32) -> (r: String)
    ensures
        r@ == open_prs_text(count),
{
    if count == 1 {
        "1 open PR".to_owned()
    } else {
        let mut r = String::new();
        push_decimal(&mut r, count as u64);
        r.append(" open PRs");
        assert(r@ =~= open_prs_text(count));
        r
    }
}

/// Whether the panel lists recent commits: the page asks for them and the
/// repository has some.
pub fn shows_recent_commits(activity: &ProjectActivityFrontmatter, repo: Option<&RepoStats>) -> (r: bool)
    ensures
        r == (activity.recent_commits && match repo {
            Some(x) => x.recent_commits@.len() > 0,
            None => false,
        }),
{
    activity.recent_commits && match repo {
        Some(x) => x.recent_commits.len() > 0,
        None => false,
    }
}

// ─── Project data ────────────────────────────────────────────────────────────

/// The projects listed on the projects page, in the order shown.
pub open spec fn project_table() -> Seq<ProjectEntry> {
    seq![
        ProjectEntry {
            name: "pact-python",
            kind: "OSS · library",
            stack: "rust · python · ffi",
            summary: "Python bindings for Pact, rebuilt over a Rust FFI core. The version most pact-python users actually reach for.",
            status: Status::Active,
            link: Some(ProjectLink::GitHub("pact-foundation/pact-python")),
        },
        ProjectEntry {
            name: "tikz-feynman",
            kind: "OSS · LaTeX",
            stack: "tex · tikz",
            summary: "A LaTeX package for typesetting Feynman diagrams with TikZ; adopted across particle physics with 400+ academic citations.",
            status: Status::Maintained,
            link: Some(ProjectLink::GitHub("JP-Ellis/tikz-feynman")),
        },
        ProjectEntry {
            name: "rust-skiplist",
            kind: "OSS · library",
            stack: "rust",
            summary: "Skiplist data structure implementation in Rust.",
            status: Status::Maintained,
            link: Some(ProjectLink::GitHub("JP-Ellis/rust-skiplist")),
        },
        ProjectEntry {
            name: "mathematica-notebook-filter",
            kind: "OSS · tool",
            stack: "rust",
            summary: "Filters Mathematica notebooks for clean version-control diffs.",
            status: Status::Maintained,
            link: Some(ProjectLink::GitHub("JP-Ellis/mathematica-notebook-filter")),
        },
        ProjectEntry {
            name: "simpler-wick",
            kind: "OSS · LaTeX",
            stack: "tex · tikz",
            summary: "LaTeX macros for Wick contractions in quantum field theory.",
            status: Status::Maintained,
            link: Some(ProjectLink::GitHub("JP-Ellis/simpler-wick")),
        },
        ProjectEntry {
            name: "boltzmann-solver",
            kind: "research · numerics",
            stack: "rust",
            summary: "Solver for highly-coupled Boltzmann equations with rates spanning many decades; custom quadrature.",
            status: Status::Archived,
            link: Some(ProjectLink::GitHub("hep-rs/boltzmann-solver")),
        },
        ProjectEntry {
            name: "dotfiles",
            kind: "personal · glue",
            stack: "nix · shell",
            summary: "Opinionated dotfiles: nix flake, fish prompt, helix config, backup scripts.",
            status: Status::Maintained,
            link: Some(ProjectLink::GitHub("JP-Ellis/dotfiles")),
        },
        ProjectEntry {
            name: "jpellis.me",
            kind: "personal · site",
            stack: "rust · leptos",
            summary: "This site, rewritten in Rust and Leptos.",
            status: Status::Wip,
            link: Some(ProjectLink::GitHub("JP-Ellis/jpellis.me")),
        },
        ProjectEntry {
            name: "borrow-checker",
            kind: "personal · app",
            stack: "rust",
            summary: "Personal finance app for tracking accounts, spending, and cashflow — named for the compiler feature that stops you spending twice.",
            status: Status::Wip,
            link: Some(ProjectLink::GitHub("JP-Ellis/borrow-checker")),
        },
        ProjectEntry {
            name: "amber-api",
            kind: "personal · library",
            stack: "rust",
            summary: "Rust client for Amber Electric's real-time energy pricing API.",
            status: Status::Maintained,
            link: Some(ProjectLink::GitHub("JP-Ellis/amber-api")),
        },
        ProjectEntry {
            name: "enphase-api",
            kind: "personal · library",
            stack: "rust",
            summary: "Rust client for the Enphase solar monitoring API.",
            status: Status::Maintained,
            link: Some(ProjectLink::GitHub("JP-Ellis/enphase-api")),
        },
        ProjectEntry {
            name: "repo-manage",
            kind: "personal · tool",
            stack: "python",
            summary: "Convenience CLI for applying consistent settings and CI workflows across a fleet of personal repositories.",
            status: Status::Maintained,
            link: Some(ProjectLink::GitHub("JP-Ellis/repo-manage")),
        },
        ProjectEntry {
            name: "azure data accelerator",
            kind: "consulting · internal",
            stack: "azure · bicep · python",
            summary: "Modular, configuration-driven accelerator for deploying standardised Azure data-platform infrastructure; used as an internal KPMG template.",
            status: Status::Shipped,
            link: None,
        },
        ProjectEntry {
            name: "pactflow-ai",
            kind: "work · internal",
            stack: "rust · python · ai",
            summary: "AI-powered platform that automates the creation and maintenance of contract tests, integrating into existing development tools to save teams up to 60% of manual testing time.",
            status: Status::Active,
            link: Some(ProjectLink::External("https://pactflow.io/ai/")),
        },
    ]
}

/// Every GitHub slug of the projects page's projects names an owner and a
/// repository.
pub proof fn lemma_project_table_slugs()
    ensures
        project_table().len() == 14,
        forall|i: int| 0 <= i < project_table().len() ==> (#[trigger] slug_of(project_table()[i]) matches Some(s) ==> s.contains('/')),
{
    let t = project_table();
    assert(t.len() == 14);
        reveal_strlit("pact-foundation/pact-python");
        assert("pact-foundation/pact-python"@[15] == '/');
        assert(slug_of(t[0]) == Some("pact-foundation/pact-python"@));
        reveal_strlit("JP-Ellis/tikz-feynman");
        assert("JP-Ellis/tikz-feynman"@[8] == '/');
        assert(slug_of(t[1]) == Some("JP-Ellis/tikz-feynman"@));
        reveal_strlit("JP-Ellis/rust-skiplist");
        assert("JP-Ellis/rust-skiplist"@[8] == '/');
        assert(slug_of(t[2]) == Some("JP-Ellis/rust-skiplist"@));
        reveal_strlit("JP-Ellis/mathematica-notebook-filter");
        assert("JP-Ellis/mathematica-notebook-filter"@[8] == '/');
        assert(slug_of(t[3]) == Some("JP-Ellis/mathematica-notebook-filter"@));
        reveal_strlit("JP-Ellis/simpler-wick");
        assert("JP-Ellis/simpler-wick"@[8] == '/');
        assert(slug_of(t[4]) == Some("JP-Ellis/simpler-wick"@));
        reveal_strlit("hep-rs/boltzmann-solver");
        assert("hep-rs/boltzmann-solver"@[6] == '/');
        assert(slug_of(t[5]) == Some("hep-rs/boltzmann-solver"@));
        reveal_strlit("JP-Ellis/dotfiles");
        assert("JP-Ellis/dotfiles"@[8] == '/');
        assert(slug_of(t[6]) == Some("JP-Ellis/dotfiles"@));
        reveal_strlit("JP-Ellis/jpellis.me");
        assert("JP-Ellis/jpellis.me"@[8] == '/');
        assert(slug_of(t[7]) == Some("JP-Ellis/jpellis.me"@));
        reveal_strlit("JP-Ellis/borrow-checker");
        assert("JP-Ellis/borrow-checker"@[8] == '/');
        assert(slug_of(t[8]) == Some("JP-Ellis/borrow-checker"@));
        reveal_strlit("JP-Ellis/amber-api");
        assert("JP-Ellis/amber-api"@[8] == '/');
        assert(slug_of(t[9]) == Some("JP-Ellis/amber-api"@));
        reveal_strlit("JP-Ellis/enphase-api");
        assert("JP-Ellis/enphase-api"@[8] == '/');
        assert(slug_of(t[10]) == Some("JP-Ellis/enphase-api"@));
        reveal_strlit("JP-Ellis/repo-manage");
        assert("JP-Ellis/repo-manage"@[8] == '/');
        assert(slug_of(t[11]) == Some("JP-Ellis/repo-manage"@));
        assert(slug_of(t[12]) is None);
        assert(slug_of(t[13]) is None);
    assert forall|i: int| 0 <= i < t.len() implies (#[trigger] slug_of(t[i]) matches Some(s) ==> s.contains('/')) by {
        if let Some(s) = slug_of(t[i]) {
            let k = choose|k: int| 0 <= k < s.len() && s[k] == '/';
        }
    }
}

/// The projects listed on the projects page: the entries of `project_table`.
pub fn projects() -> (r: Vec<ProjectEntry>)
    ensures
        r@ == project_table(),
        r@.len() == 14,
        forall|i: int| 0 <= i < r@.len() ==> (#[trigger] slug_of(r@[i]) matches Some(s) ==> s.contains('/')),
{
    let r = vec![
        ProjectEntry {
            name: "pact-python",
            kind: "OSS · library",
            stack: "rust · python · ffi",
            summary: "Python bindings for Pact, rebuilt over a Rust FFI core. The version most pact-python users actually reach for.",
            status: Status::Active,
            link: Some(ProjectLink::GitHub("pact-foundation/pact-python")),
        },
        ProjectEntry {
            name: "tikz-feynman",
            kind: "OSS · LaTeX",
            stack: "tex · tikz",
            summary: "A LaTeX package for typesetting Feynman diagrams with TikZ; adopted across particle physics with 400+ academic citations.",
            status: Status::Maintained,
            link: Some(ProjectLink::GitHub("JP-Ellis/tikz-feynman")),
        },
        ProjectEntry {
            name: "rust-skiplist",
            kind: "OSS · library",
            stack: "rust",
            summary: "Skiplist data structure implementation in Rust.",
            status: Status::Maintained,
            link: Some(ProjectLink::GitHub("JP-Ellis/rust-skiplist")),
        },
        ProjectEntry {
            name: "mathematica-notebook-filter",
            kind: "OSS · tool",
            stack: "rust",
            summary: "Filters Mathematica notebooks for clean version-control diffs.",
            status: Status::Maintained,
            link: Some(ProjectLink::GitHub("JP-Ellis/mathematica-notebook-filter")),
        },
        ProjectEntry {
            name: "simpler-wick",
            kind: "OSS · LaTeX",
            stack: "tex · tikz",
            summary: "LaTeX macros for Wick contractions in quantum field theory.",
            status: Status::Maintained,
            link: Some(ProjectLink::GitHub("JP-Ellis/simpler-wick")),
        },
        ProjectEntry {
            name: "boltzmann-solver",
            kind: "research · numerics",
            stack: "rust",
            summary: "Solver for highly-coupled Boltzmann equations with rates spanning many decades; custom quadrature.",
            status: Status::Archived,
            link: Some(ProjectLink::GitHub("hep-rs/boltzmann-solver")),
        },
        ProjectEntry {
            name: "dotfiles",
            kind: "personal · glue",
            stack: "nix · shell",
            summary: "Opinionated dotfiles: nix flake, fish prompt, helix config, backup scripts.",
            status: Status::Maintained,
            link: Some(ProjectLink::GitHub("JP-Ellis/dotfiles")),
        },
        ProjectEntry {
            name: "jpellis.me",
            kind: "personal · site",
            stack: "rust · leptos",
            summary: "This site, rewritten in Rust and Leptos.",
            status: Status::Wip,
            link: Some(ProjectLink::GitHub("JP-Ellis/jpellis.me")),
        },
        ProjectEntry {
            name: "borrow-checker",
            kind: "personal · app",
            stack: "rust",
            summary: "Personal finance app for tracking accounts, spending, and cashflow — named for the compiler feature that stops you spending twice.",
            status: Status::Wip,
            link: Some(ProjectLink::GitHub("JP-Ellis/borrow-checker")),
        },
        ProjectEntry {
            name: "amber-api",
            kind: "personal · library",
            stack: "rust",
            summary: "Rust client for Amber Electric's real-time energy pricing API.",
            status: Status::Maintained,
            link: Some(ProjectLink::GitHub("JP-Ellis/amber-api")),
        },
        ProjectEntry {
            name: "enphase-api",
            kind: "personal · library",
            stack: "rust",
            summary: "Rust client for the Enphase solar monitoring API.",
            status: Status::Maintained,
            link: Some(ProjectLink::GitHub("JP-Ellis/enphase-api")),
        },
        ProjectEntry {
            name: "repo-manage",
            kind: "personal · tool",
            stack: "python",
            summary: "Convenience CLI for applying consistent settings and CI workflows across a fleet of personal repositories.",
            status: Status::Maintained,
            link: Some(ProjectLink::GitHub("JP-Ellis/repo-manage")),
        },
        ProjectEntry {
            name: "azure data accelerator",
            kind: "consulting · internal",
            stack: "azure · bicep · python",
            summary: "Modular, configuration-driven accelerator for deploying standardised Azure data-platform infrastructure; used as an internal KPMG template.",
            status: Status::Shipped,
            link: None,
        },
        ProjectEntry {
            name: "pactflow-ai",
            kind: "work · internal",
            stack: "rust · python · ai",
            summary: "AI-powered platform that automates the creation and maintenance of contract tests, integrating into existing development tools to save teams up to 60% of manual testing time.",
            status: Status::Active,
            link: Some(ProjectLink::External("https://pactflow.io/ai/")),
        },
    ];
    proof {
        assert(r@ =~= project_table());
        lemma_project_table_slugs();
    }
    r
}

} // verus!
