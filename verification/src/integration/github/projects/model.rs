//! Per-repository statistics of the projects shown on the site.

use vstd::prelude::*;
use crate::integration::github::time::Timestamp;

verus! {

/// The latest release of a repository.
#[derive(Debug, Clone)]
pub struct ReleaseInfo {
    /// Release tag, such as `v3.1.0`.
    pub tag: String,
    /// Publication time as given by GitHub (ISO 8601).
    pub date: String,
    pub url: String,
}

/// A commit made by a person (not a bot).
#[derive(Debug, Clone)]
pub struct CommitInfo {
    /// The first seven bytes of the SHA.
    pub sha: String,
    /// First line of the message, cut to 72 characters.
    pub message: String,
    /// Commit time as given by GitHub (ISO 8601).
    pub date: String,
    pub author: String,
    pub url: String,
}

/// Stars, forks and recent activity of one repository.
#[derive(Debug, Clone)]
pub struct RepoStats {
    /// Repository, as `owner/name`.
    pub slug: String,
    pub stars: u32,
    pub forks: u32,
    pub open_issues: u32,
    pub watchers: u32,
    pub latest_release: Option<ReleaseInfo>,
    /// Recent commits by people, at most five.
    pub recent_commits: Vec<CommitInfo>,
    /// Open pull requests (at most one page of a hundred is counted).
    pub open_prs: u32,
}

/// Statistics of all tracked repositories.
#[derive(Debug, Clone)]
pub struct ProjectsStats {
    pub fetched_at: Timestamp,
    /// One entry per tracked repository that could be fetched.
    pub repos: Vec<RepoStats>,
}

/// A release with its text read as character sequences.
pub struct ReleaseView {
    pub tag: Seq<char>,
    pub date: Seq<char>,
    pub url: Seq<char>,
}

impl View for ReleaseInfo {
    type V = ReleaseView;

    open spec fn view(&self) -> ReleaseView {
        ReleaseView { tag: self.tag@, date: self.date@, url: self.url@ }
    }
}

/// A commit with its text read as character sequences.
pub struct CommitView {
    pub sha: Seq<char>,
    pub message: Seq<char>,
    pub date: Seq<char>,
    pub author: Seq<char>,
    pub url: Seq<char>,
}

impl View for CommitInfo {
    type V = CommitView;

    open spec fn view(&self) -> CommitView {
        CommitView {
            sha: self.sha@,
            message: self.message@,
            date: self.date@,
            author: self.author@,
            url: self.url@,
        }
    }
}

} // verus!
