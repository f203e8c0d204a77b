//! The statistics shown when GitHub cannot be reached: the counts and
//! activity kept in the fallback data, over a heat map made up for the
//! period.

use vstd::prelude::*;
use crate::integration::github::stats::model::{ActivityItem, ContributionWeek, GitHubStats};
use crate::integration::github::time::{Date, Timestamp};

verus! {

/// The counts and recent activity kept in the fallback data.
#[derive(Debug, Clone)]
pub struct FallbackData {
    pub commit_contributions: u32,
    pub pr_contributions: u32,
    pub issue_contributions: u32,
    pub public_repos: u32,
    pub recent_activity: Vec<ActivityItem>,
}

/// The contributions of the first `n` days of a week.
pub open spec fn week_total(w: ContributionWeek, n: int) -> int
    decreases n,
{
    if n <= 0 {
        0
    } else {
        week_total(w, n - 1) + w.days@[n - 1].count
    }
}

/// The contributions of the first `n` weeks.
pub open spec fn grid_total(weeks: Seq<ContributionWeek>, n: int) -> int
    decreases n,
{
    if n <= 0 {
        0
    } else {
        grid_total(weeks, n - 1) + week_total(weeks[n - 1], weeks[n - 1].days@.len() as int)
    }
}

/// All contributions of the heat map.
pub open spec fn heat_map_total(weeks: Seq<ContributionWeek>) -> int {
    grid_total(weeks, weeks.len() as int)
}

proof fn lemma_week_total_monotone(w: ContributionWeek, a: int, b: int)
    requires
        0 <= a <= b <= w.days@.len(),
    ensures
        week_total(w, a) <= week_total(w, b),
    decreases b - a,
{
    if a < b {
        lemma_week_total_monotone(w, a, b - 1);
    }
}

proof fn lemma_grid_total_monotone(weeks: Seq<ContributionWeek>, a: int, b: int)
    requires
        0 <= a <= b <= weeks.len(),
    ensures
        grid_total(weeks, a) <= grid_total(weeks, b),
    decreases b - a,
{
    if a < b {
        lemma_grid_total_monotone(weeks, a, b - 1);
        lemma_week_total_monotone(weeks[b - 1], 0, weeks[b - 1].days@.len() as int);
    }
}

/// The statistics shown without GitHub: fetched at `now`, over the period
/// `period_from`–`period_to`, with the heat map `weeks` and its total, and
/// the counts and activity of the fallback data.
pub fn fallback_stats(
    now: Timestamp,
    period_from: Date,
    period_to: Date,
    weeks: Vec<ContributionWeek>,
    data: FallbackData,
) -> (r: GitHubStats)
    requires
        heat_map_total(weeks@) <= u32::MAX,
    ensures
        r.fetched_at == now,
        r.total_contributions == heat_map_total(weeks@),
        r.commit_contributions == data.commit_contributions,
        r.pr_contributions == data.pr_contributions,
        r.issue_contributions == data.issue_contributions,
        r.public_repos == data.public_repos,
        r.period_from == period_from,
        r.period_to == period_to,
        r.contribution_weeks@ == weeks@,
        r.recent_activity@ == data.recent_activity@,
{
    let mut total: u32 = 0;
    let mut i: usize = 0;
    while i < weeks.len()
        invariant
            i <= weeks@.len(),
            total == grid_total(weeks@, i as int),
            heat_map_total(weeks@) <= u32::MAX,
        decreases weeks.len() - i,
    {
        let w = &weeks[i];
        let mut j: usize = 0;
        let mut week_sum: u32 = 0;
        proof {
            lemma_grid_total_monotone(weeks@, i + 1, weeks@.len() as int);
        }
        while j < w.days.len()
            invariant
                i < weeks@.len(),
                *w == weeks@[i as int],
                j <= w.days@.len(),
                week_sum == week_total(*w, j as int),
                total == grid_total(weeks@, i as int),
                grid_total(weeks@, i + 1) <= u32::MAX,
            decreases w.days.len() - j,
        {
            proof {
                lemma_week_total_monotone(*w, j + 1, w.days@.len() as int);
            }
            week_sum = week_sum + w.days[j].count;
            j = j + 1;
        }
        total = total + week_sum;
        i = i + 1;
    }
    GitHubStats {
        fetched_at: now,
        total_contributions: total,
        commit_contributions: data.commit_contributions,
        pr_contributions: data.pr_contributions,
        issue_contributions: data.issue_contributions,
        public_repos: data.public_repos,
        period_from,
        period_to,
        contribution_weeks: weeks,
        recent_activity: data.recent_activity,
    }
}

} // verus!
