//! The work page: work projects and the statistics of their repositories.

use vstd::prelude::*;
use crate::integration::github::work::model::{RepoStats, WorkStats};
use crate::pages::projects::{ProjectEntry, ProjectLink, Status, slug_of, github_slug};
use crate::text::str_eq;

verus! {

broadcast use vstd::string::group_string_axioms;

/// `i` is the first repository in `repos` with the slug `slug`.
pub open spec fn first_repo(repos: Seq<RepoStats>, slug: Seq<char>, i: int) -> bool {
    &&& 0 <= i < repos.len()
    &&& repos[i].slug@ == slug
    &&& forall|j: int| 0 <= j < i ==> repos[j].slug@ != slug
}

/// The fetched statistics of a work project's repository: the first entry
/// with its slug, when it links to GitHub.
pub fn find_repo_stats<'a>(entry: &ProjectEntry, stats: &'a WorkStats) -> (r: Option<&'a RepoStats>)
    ensures
        r matches Some(x) ==> exists|i: int|
            slug_of(*entry) == Some(stats.repos@[i].slug@) && first_repo(
                stats.repos@,
                stats.repos@[i].slug@,
                i,
            ) && *x == stats.repos@[i],
        r is None ==> slug_of(*entry) is None || forall|j: int|
            0 <= j < stats.repos@.len() ==> Some(stats.repos@[j].slug@) != slug_of(*entry),
{
    let slug = match github_slug(entry) {
        Some(s) => s,
        None => return None,
    };
    let repos = &stats.repos;
    let mut i: usize = 0;
    while i < repos.len()
        invariant
            i <= repos@.len(),
            repos@ == stats.repos@,
            slug_of(*entry) == Some(slug@),
            forall|j: int| 0 <= j < i ==> repos@[j].slug@ != slug@,
        decreases repos.len() - i,
    {
        if str_eq(repos[i].slug.as_str(), slug) {
            assert(first_repo(repos@, repos@[i as int].slug@, i as int));
            return Some(&repos[i]);
        }
        i = i + 1;
    }
    None
}

// ─── Project data ────────────────────────────────────────────────────────────

/// The projects listed on the work page, in the order shown.
pub open spec fn work_project_table() -> Seq<ProjectEntry> {
    seq![
        ProjectEntry {
            name: "pact-python",
            kind: "OSS · library",
            stack: "rust · python · ffi",
            summary: "Python bindings for Pact, rebuilt over a Rust FFI core. The version most pact-python users actually reach for.",
            status: Status::Active,
            link: Some(ProjectLink::GitHub("pact-foundation/pact-python")),
        },
        ProjectEntry {
            name: "tikz-feynman",
            kind: "OSS · LaTeX",
            stack: "tex · tikz",
            summary: "A LaTeX package for typesetting Feynman diagrams with TikZ; adopted across particle physics with 400+ academic citations.",
            status: Status::Maintained,
            link: Some(ProjectLink::GitHub("JP-Ellis/tikz-feynman")),
        },
        ProjectEntry {
            name: "rust-skiplist",
            kind: "OSS · library",
            stack: "rust",
            summary: "Skiplist data structure implementation in Rust.",
            status: Status::Maintained,
            link: Some(ProjectLink::GitHub("JP-Ellis/rust-skiplist")),
        },
        ProjectEntry {
            name: "mathematica-notebook-filter",
            kind: "OSS · tool",
            stack: "rust",
            summary: "Filters Mathematica notebooks for clean version-control diffs.",
            status: Status::Maintained,
            link: Some(ProjectLink::GitHub("JP-Ellis/mathematica-notebook-filter")),
        },
        ProjectEntry {
            name: "simpler-wick",
            kind: "OSS · LaTeX",
            stack: "tex · tikz",
            summary: "LaTeX macros for Wick contractions in quantum field theory.",
            status: Status::Maintained,
            link: Some(ProjectLink::GitHub("JP-Ellis/simpler-wick")),
        },
        ProjectEntry {
            name: "boltzmann-solver",
            kind: "research · numerics",
            stack: "rust",
            summary: "Solver for highly-coupled Boltzmann equations with rates spanning many decades; custom quadrature.",
            status: Status::Archived,
            link: Some(ProjectLink::GitHub("hep-rs/boltzmann-solver")),
        },
        ProjectEntry {
            name: "dotfiles",
            kind: "personal · glue",
            stack: "nix · shell",
            summary: "Opinionated dotfiles: nix flake, fish prompt, helix config, backup scripts.",
            status: Status::Maintained,
            link: Some(ProjectLink::GitHub("JP-Ellis/dotfiles")),
        },
        ProjectEntry {
            name: "jpellis.me",
            kind: "personal · site",
            stack: "rust · leptos",
            summary: "This site, rewritten in Rust and Leptos.",
            status: Status::Wip,
            link: Some(ProjectLink::GitHub("JP-Ellis/jpellis.me")),
        },
        ProjectEntry {
            name: "azure data accelerator",
            kind: "consulting · internal",
            stack: "azure · bicep · python",
            summary: "Modular, configuration-driven accelerator for deploying standardised Azure data-platform infrastructure; used as an internal KPMG template.",
            status: Status::Shipped,
            link: None,
        },
        ProjectEntry {
            name: "pactflow-ai",
            kind: "work · internal",
            stack: "rust · python · ai",
            summary: "AI-powered platform that automates the creation and maintenance of contract tests, integrating into existing development tools to save teams up to 60% of manual testing time.",
            status: Status::Active,
            link: Some(ProjectLink::External("https://pactflow.io/ai/")),
        },
    ]
}

/// Every GitHub slug of the work page's projects names an owner and a
/// repository.
pub proof fn lemma_work_project_table_slugs()
    ensures
        work_project_table().len() == 10,
        forall|i: int| 0 <= i < work_project_table().len() ==> (#[trigger] slug_of(work_project_table()[i]) matches Some(s) ==> s.contains('/')),
{
    let t = work_project_table();
    assert(t.len() == 10);
        reveal_strlit("pact-foundation/pact-python");
        assert("pact-foundation/pact-python"@[15] == '/');
        assert(slug_of(t[0]) == Some("pact-foundation/pact-python"@));
        reveal_strlit("JP-Ellis/tikz-feynman");
        assert("JP-Ellis/tikz-feynman"@[8] == '/');
        assert(slug_of(t[1]) == Some("JP-Ellis/tikz-feynman"@));
        reveal_strlit("JP-Ellis/rust-skiplist");
        assert("JP-Ellis/rust-skiplist"@[8] == '/');
        assert(slug_of(t[2]) == Some("JP-Ellis/rust-skiplist"@));
        reveal_strlit("JP-Ellis/mathematica-notebook-filter");
        assert("JP-Ellis/mathematica-notebook-filter"@[8] == '/');
        assert(slug_of(t[3]) == Some("JP-Ellis/mathematica-notebook-filter"@));
        reveal_strlit("JP-Ellis/simpler-wick");
        assert("JP-Ellis/simpler-wick"@[8] == '/');
        assert(slug_of(t[4]) == Some("JP-Ellis/simpler-wick"@));
        reveal_strlit("hep-rs/boltzmann-solver");
        assert("hep-rs/boltzmann-solver"@[6] == '/');
        assert(slug_of(t[5]) == Some("hep-rs/boltzmann-solver"@));
        reveal_strlit("JP-Ellis/dotfiles");
        assert("JP-Ellis/dotfiles"@[8] == '/');
        assert(slug_of(t[6]) == Some("JP-Ellis/dotfiles"@));
        reveal_strlit("JP-Ellis/jpellis.me");
        assert("JP-Ellis/jpellis.me"@[8] == '/');
        assert(slug_of(t[7]) == Some("JP-Ellis/jpellis.me"@));
        assert(slug_of(t[8]) is None);
        assert(slug_of(t[9]) is None);
    assert forall|i: int| 0 <= i < t.len() implies (#[trigger] slug_of(t[i]) matches Some(s) ==> s.contains('/')) by {
        if let Some(s) = slug_of(t[i]) {
            let k = choose|k: int| 0 <= k < s.len() && s[k] == '/';
        }
    }
}

/// The projects listed on the work page: the entries of `work_project_table`.
pub fn projects() -> (r: Vec<ProjectEntry>)
    ensures
        r@ == work_project_table(),
        r@.len() == 10,
        forall|i: int| 0 <= i < r@.len() ==> (#[trigger] slug_of(r@[i]) matches Some(s) ==> s.contains('/')),
{
    let r = vec![
        ProjectEntry {
            name: "pact-python",
            kind: "OSS · library",
            stack: "rust · python · ffi",
            summary: "Python bindings for Pact, rebuilt over a Rust FFI core. The version most pact-python users actually reach for.",
            status: Status::Active,
            link: Some(ProjectLink::GitHub("pact-foundation/pact-python")),
        },
        ProjectEntry {
            name: "tikz-feynman",
            kind: "OSS · LaTeX",
            stack: "tex · tikz",
            summary: "A LaTeX package for typesetting Feynman diagrams with TikZ; adopted across particle physics with 400+ academic citations.",
            status: Status::Maintained,
            link: Some(ProjectLink::GitHub("JP-Ellis/tikz-feynman")),
        },
        ProjectEntry {
            name: "rust-skiplist",
            kind: "OSS · library",
            stack: "rust",
            summary: "Skiplist data structure implementation in Rust.",
            status: Status::Maintained,
            link: Some(ProjectLink::GitHub("JP-Ellis/rust-skiplist")),
        },
        ProjectEntry {
            name: "mathematica-notebook-filter",
            kind: "OSS · tool",
            stack: "rust",
            summary: "Filters Mathematica notebooks for clean version-control diffs.",
            status: Status::Maintained,
            link: Some(ProjectLink::GitHub("JP-Ellis/mathematica-notebook-filter")),
        },
        ProjectEntry {
            name: "simpler-wick",
            kind: "OSS · LaTeX",
            stack: "tex · tikz",
            summary: "LaTeX macros for Wick contractions in quantum field theory.",
            status: Status::Maintained,
            link: Some(ProjectLink::GitHub("JP-Ellis/simpler-wick")),
        },
        ProjectEntry {
            name: "boltzmann-solver",
            kind: "research · numerics",
            stack: "rust",
            summary: "Solver for highly-coupled Boltzmann equations with rates spanning many decades; custom quadrature.",
            status: Status::Archived,
            link: Some(ProjectLink::GitHub("hep-rs/boltzmann-solver")),
        },
        ProjectEntry {
            name: "dotfiles",
            kind: "personal · glue",
            stack: "nix · shell",
            summary: "Opinionated dotfiles: nix flake, fish prompt, helix config, backup scripts.",
            status: Status::Maintained,
            link: Some(ProjectLink::GitHub("JP-Ellis/dotfiles")),
        },
        ProjectEntry {
            name: "jpellis.me",
            kind: "personal · site",
            stack: "rust · leptos",
            summary: "This site, rewritten in Rust and Leptos.",
            status: Status::Wip,
            link: Some(ProjectLink::GitHub("JP-Ellis/jpellis.me")),
        },
        ProjectEntry {
            name: "azure data accelerator",
            kind: "consulting · internal",
            stack: "azure · bicep · python",
            summary: "Modular, configuration-driven accelerator for deploying standardised Azure data-platform infrastructure; used as an internal KPMG template.",
            status: Status::Shipped,
            link: None,
        },
        ProjectEntry {
            name: "pactflow-ai",
            kind: "work · internal",
            stack: "rust · python · ai",
            summary: "AI-powered platform that automates the creation and maintenance of contract tests, integrating into existing development tools to save teams up to 60% of manual testing time.",
            status: Status::Active,
            link: Some(ProjectLink::External("https://pactflow.io/ai/")),
        },
    ];
    proof {
        assert(r@ =~= work_project_table());
        lemma_work_project_table_slugs();
    }
    r
}

} // verus!
