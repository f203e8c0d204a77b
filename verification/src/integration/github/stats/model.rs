//! GitHub contribution statistics and recent activity.

use vstd::prelude::*;
use crate::integration::github::time::{Date, Timestamp};

verus! {

/// GitHub statistics: contribution counts over a period and recent activity.
#[derive(Debug, Clone)]
pub struct GitHubStats {
    /// When the statistics were fetched.
    pub fetched_at: Timestamp,
    /// All contributions in the period, private ones included.
    pub total_contributions: u32,
    pub commit_contributions: u32,
    pub pr_contributions: u32,
    pub issue_contributions: u32,
    pub public_repos: u32,
    pub period_from: Date,
    pub period_to: Date,
    pub contribution_weeks: Vec<ContributionWeek>,
    pub recent_activity: Vec<ActivityItem>,
}

/// A week of daily contribution counts.
#[derive(Debug, Clone)]
pub struct ContributionWeek {
    pub days: Vec<ContributionDay>,
}

/// One day's contribution count.
#[derive(Debug, Clone, Copy, PartialEq, Eq, Structural)]
pub struct ContributionDay {
    pub date: Date,
    pub count: u32,
}

/// A commit, pull request or issue.
#[derive(Debug, Clone)]
pub struct ActivityItem {
    pub kind: ActivityKind,
    /// Repository, as `owner/name`.
    pub repo: String,
    /// Commit message title, or pull request or issue title.
    pub title: String,
    pub url: String,
    pub state: Option<ActivityState>,
    pub created_at: Timestamp,
}

/// Kind of a GitHub activity.
#[derive(Debug, Clone, Copy, PartialEq, Eq, Structural)]
pub enum ActivityKind {
    Commit,
    PullRequest,
    Issue,
}

/// State of a pull request or issue.
#[derive(Debug, Clone, Copy, PartialEq, Eq, Structural)]
pub enum ActivityState {
    Open,
    Closed,
    /// A merged pull request.
    Merged,
}

/// An activity item with its text read as character sequences.
pub struct ActivityView {
    pub kind: ActivityKind,
    pub repo: Seq<char>,
    pub title: Seq<char>,
    pub url: Seq<char>,
    pub state: Option<ActivityState>,
    pub created_at: Timestamp,
}

impl View for ActivityItem {
    type V = ActivityView;

    open spec fn view(&self) -> ActivityView {
        ActivityView {
            kind: self.kind,
            repo: self.repo@,
            title: self.title@,
            url: self.url@,
            state: self.state,
            created_at: self.created_at,
        }
    }
}

/// The week as its sequence of days.
pub open spec fn week_days(w: ContributionWeek) -> Seq<ContributionDay> {
    w.days@
}

} // verus!
