//! The year-in-code band: the contribution heat map and the recent
//! activity list.

use vstd::prelude::*;
use crate::integration::github::stats::model::{
    ActivityItem, ActivityKind, ActivityState, ContributionWeek, GitHubStats,
};
use crate::integration::github::time::{elapsed_secs, in_range, seconds_between, Date, Timestamp};
use crate::sort::truncated;
use crate::text::{decimal, decimal_string, push_char, push_decimal, str_eq};

verus! {

broadcast use vstd::string::group_string_axioms;

// ─── Heat map ────────────────────────────────────────────────────────────────

/// The shade (0–4) of a day with `count` contributions when the busiest day
/// had `max`: 0 for no contributions, then one shade per quarter of `max`
/// (below a quarter, below a half, below three quarters, the rest).
///
/// The quarters are compared exactly: `count / max < 1/4` is `4 * count <
/// max`, and so on.
pub open spec fn cell_level(count: int, max: int) -> u8 {
    if max == 0 || count == 0 {
        0
    } else if 4 * count < max {
        1
    } else if 2 * count < max {
        2
    } else if 4 * count < 3 * max {
        3
    } else {
        4
    }
}

/// Law: a shade lies between 0 and 4; a day without contributions is
/// shaded 0, any other day at least 1, the busiest day 4, and a day with
/// more contributions is never shaded lighter.
pub proof fn lemma_cell_level(a: int, b: int, max: int)
    requires
        0 <= a <= b <= max,
    ensures
        cell_level(a, max) <= cell_level(b, max) <= 4,
        cell_level(0, max) == 0,
        a > 0 ==> cell_level(a, max) >= 1,
        max > 0 ==> cell_level(max, max) == 4,
{
}

/// The shade of a heat-map cell.
pub fn cell_level_from_count(count: u32, max: u32) -> (r: u8)
    ensures
        r == cell_level(count as int, max as int),
{
    if max == 0 || count == 0 {
        return 0;
    }
    let c = count as u64;
    let m = max as u64;
    if 4 * c < m {
        1
    } else if 2 * c < m {
        2
    } else if 4 * c < 3 * m {
        3
    } else {
        4
    }
}

/// `m` is the largest daily count of the weeks, or 1 when there are no days.
pub open spec fn is_max_count(weeks: Seq<ContributionWeek>, m: u32) -> bool {
    &&& forall|i: int, j: int|
        0 <= i < weeks.len() && 0 <= j < weeks[i].days@.len() ==> #[trigger] weeks[i].days@[j].count
            <= m
    &&& (exists|i: int, j: int|
        0 <= i < weeks.len() && 0 <= j < weeks[i].days@.len() && #[trigger] weeks[i].days@[j].count
            == m) || (m == 1 && forall|i: int| 0 <= i < weeks.len() ==> #[trigger] weeks[i].days@.len()
        == 0)
}

/// The heat map of the statistics: for each week, the shade of each day
/// relative to the busiest day of the period.
pub fn build_grid_levels(stats: &GitHubStats) -> (grid: Vec<Vec<u8>>)
    ensures
        grid@.len() == stats.contribution_weeks@.len(),
        exists|m: u32|
            is_max_count(stats.contribution_weeks@, m) && forall|i: int|
                0 <= i < grid@.len() ==> {
                    &&& #[trigger] grid@[i]@.len() == stats.contribution_weeks@[i].days@.len()
                    &&& forall|j: int|
                        0 <= j < grid@[i]@.len() ==> #[trigger] grid@[i]@[j] == cell_level(
                            stats.contribution_weeks@[i].days@[j].count as int,
                            m as int,
                        )
                },
{
    let weeks = &stats.contribution_weeks;
    let mut max: u32 = 0;
    let mut any = false;
    let mut i: usize = 0;
    let ghost mut wi: int = 0;
    let ghost mut wj: int = 0;
    while i < weeks.len()
        invariant
            i <= weeks@.len(),
            forall|a: int, b: int|
                0 <= a < i && 0 <= b < weeks@[a].days@.len() ==> #[trigger] weeks@[a].days@[b].count
                    <= max,
            any ==> 0 <= wi < i && 0 <= wj < weeks@[wi].days@.len() && weeks@[wi].days@[wj].count
                == max,
            !any ==> max == 0 && forall|a: int| 0 <= a < i ==> #[trigger] weeks@[a].days@.len() == 0,
        decreases weeks.len() - i,
    {
        let days = &weeks[i].days;
        let mut j: usize = 0;
        while j < days.len()
            invariant
                i < weeks@.len(),
                days@ == weeks@[i as int].days@,
                j <= days@.len(),
                forall|a: int, b: int|
                    0 <= a < i && 0 <= b < weeks@[a].days@.len() ==> #[trigger] weeks@[a].days@[b].count
                        <= max,
                forall|b: int| 0 <= b < j ==> #[trigger] days@[b].count <= max,
                any ==> (0 <= wi < i && 0 <= wj < weeks@[wi].days@.len() && weeks@[wi].days@[wj].count
                    == max) || (wi == i && 0 <= wj < j && days@[wj].count == max),
                !any ==> max == 0 && j == 0 && forall|a: int|
                    0 <= a < i ==> #[trigger] weeks@[a].days@.len() == 0,
            decreases days.len() - j,
        {
            if !any || days[j].count > max {
                max = days[j].count;
                any = true;
                proof {
                    wi = i as int;
                    wj = j as int;
                }
            }
            j = j + 1;
        }
        i = i + 1;
    }
    let m: u32 = if any {
        max
    } else {
        1
    };
    assert(is_max_count(weeks@, m)) by {
        if any {
            assert(weeks@[wi].days@[wj].count == m);
        }
    }
    let mut grid: Vec<Vec<u8>> = Vec::new();
    let mut k: usize = 0;
    while k < weeks.len()
        invariant
            k <= weeks@.len(),
            grid@.len() == k,
            forall|a: int|
                0 <= a < k ==> {
                    &&& #[trigger] grid@[a]@.len() == weeks@[a].days@.len()
                    &&& forall|b: int|
                        0 <= b < grid@[a]@.len() ==> #[trigger] grid@[a]@[b] == cell_level(
                            weeks@[a].days@[b].count as int,
                            m as int,
                        )
                },
        decreases weeks.len() - k,
    {
        let days = &weeks[k].days;
        let mut row: Vec<u8> = Vec::new();
        let mut j: usize = 0;
        while j < days.len()
            invariant
                k < weeks@.len(),
                days@ == weeks@[k as int].days@,
                j <= days@.len(),
                row@.len() == j,
                forall|b: int|
                    0 <= b < j ==> #[trigger] row@[b] == cell_level(days@[b].count as int, m as int),
            decreases days.len() - j,
        {
            row.push(cell_level_from_count(days[j].count, m));
            j = j + 1;
        }
        grid.push(row);
        k = k + 1;
    }
    grid
}

// ─── Activity list ───────────────────────────────────────────────────────────

/// How long ago something happened `secs` seconds back, in the band's
/// compact form: whole minutes (at least one) under an hour, then hours,
/// days and weeks.
pub open spec fn ago_text(secs: int) -> Seq<char> {
    if secs < 3600 {
        decimal((if secs / 60 > 1 { secs / 60 } else { 1 }) as nat) + "m"@
    } else if secs < 86_400 {
        decimal((secs / 3600) as nat) + "h"@
    } else if secs < 604_800 {
        decimal((secs / 86_400) as nat) + "d"@
    } else {
        decimal((secs / 604_800) as nat) + "w"@
    }
}

/// The time elapsed from `then` to `now`, never below zero.
pub open spec fn elapsed_nonneg(now: Timestamp, then: Timestamp) -> int {
    let s = elapsed_secs(now, then);
    if s > 0 {
        s
    } else {
        0
    }
}

/// How long before `now` the instant `dt` was, such as `3d`.
pub fn time_ago(dt: &Timestamp, now: Timestamp) -> (r: String)
    requires
        in_range(*dt),
        in_range(now),
    ensures
        r@ == ago_text(elapsed_nonneg(now, *dt)),
{
    let s = seconds_between(now, *dt);
    let secs: u64 = if s > 0 {
        s as u64
    } else {
        0
    };
    let mut r = String::new();
    if secs < 3600 {
        let mins = if secs / 60 > 1 {
            secs / 60
        } else {
            1
        };
        push_decimal(&mut r, mins);
        push_char(&mut r, 'm');
        assert(r@ =~= decimal(mins as nat) + "m"@) by {
            reveal_strlit("m");
        }
    } else if secs < 86_400 {
        push_decimal(&mut r, secs / 3600);
        push_char(&mut r, 'h');
        assert(r@ =~= decimal((secs / 3600) as nat) + "h"@) by {
            reveal_strlit("h");
        }
    } else if secs < 604_800 {
        push_decimal(&mut r, secs / 86_400);
        push_char(&mut r, 'd');
        assert(r@ =~= decimal((secs / 86_400) as nat) + "d"@) by {
            reveal_strlit("d");
        }
    } else {
        push_decimal(&mut r, secs / 604_800);
        push_char(&mut r, 'w');
        assert(r@ =~= decimal((secs / 604_800) as nat) + "w"@) by {
            reveal_strlit("w");
        }
    }
    r
}

/// Whether some pull request in `items` has the title `t`.
pub open spec fn has_pr_titled(items: Seq<ActivityItem>, t: Seq<char>) -> bool {
    exists|j: int|
        0 <= j < items.len() && items[j].kind == ActivityKind::PullRequest && #[trigger] items[j].title@
            == t
}

/// The items that are not commits repeating the title of a pull request in
/// `all`.
pub open spec fn not_duplicate(all: Seq<ActivityItem>) -> spec_fn(ActivityItem) -> bool {
    |i: ActivityItem| !(i.kind == ActivityKind::Commit && has_pr_titled(all, i.title@))
}

/// Drops the commits whose title is that of a pull request in the list (a
/// branch of one commit merged as a pull request would show twice); every
/// other item is kept, in order.
pub fn dedup_commits_against_prs(activity: Vec<ActivityItem>) -> (r: Vec<ActivityItem>)
    ensures
        r@ == activity@.filter(not_duplicate(activity@)),
{
    let ghost all = activity@;
    let mut keep: Vec<bool> = Vec::new();
    let mut i: usize = 0;
    while i < activity.len()
        invariant
            i <= activity@.len(),
            all == activity@,
            keep@.len() == i,
            forall|a: int| 0 <= a < i ==> #[trigger] keep@[a] == not_duplicate(all)(all[a]),
        decreases activity.len() - i,
    {
        let mut dup = false;
        if activity[i].kind == ActivityKind::Commit {
            let mut j: usize = 0;
            while j < activity.len()
                invariant
                    i < all.len(),
                    all == activity@,
                    j <= all.len(),
                    dup == exists|m: int|
                        0 <= m < j && all[m].kind == ActivityKind::PullRequest
                            && #[trigger] all[m].title@ == all[i as int].title@,
                decreases activity.len() - j,
            {
                if activity[j].kind == ActivityKind::PullRequest && str_eq(
                    activity[j].title.as_str(),
                    activity[i].title.as_str(),
                ) {
                    dup = true;
                }
                j = j + 1;
            }
        }
        keep.push(!dup);
        i = i + 1;
    }
    let total = keep.len();
    let mut input = activity;
    let mut out: Vec<ActivityItem> = Vec::new();
    let mut n: usize = 0;
    let ghost pred = not_duplicate(all);
    assert(all.take(0).filter(pred) =~= Seq::<ActivityItem>::empty()) by {
        reveal(Seq::filter);
    }
    assert(all.skip(0) =~= all);
    while input.len() > 0
        invariant
            n + input@.len() == all.len(),
            all.len() == keep@.len(),
            total == all.len(),
            keep@.len() == all.len(),
            pred == not_duplicate(all),
            forall|a: int| 0 <= a < all.len() ==> #[trigger] keep@[a] == pred(all[a]),
            input@ == all.skip(n as int),
            out@ == all.take(n as int).filter(pred),
        decreases input.len(),
    {
        let x = input.remove(0);
        assert(x == all[n as int]);
        assert(input@ =~= all.skip(n + 1));
        assert(all.take(n + 1).drop_last() =~= all.take(n as int));
        assert(all.take(n + 1).last() == all[n as int]);
        let ghost before = out@;
        if keep[n] {
            out.push(x);
        }
        assert(out@ == all.take(n + 1).filter(pred)) by {
            reveal(Seq::filter);
            let t = all.take(n + 1);
            assert(t.len() > 0);
            assert(t.drop_last() == all.take(n as int));
            assert(t.last() == all[n as int]);
            assert(keep@[n as int] == pred(all[n as int]));
            if pred(all[n as int]) {
                assert(t.filter(pred) == t.drop_last().filter(pred).push(t.last()));
                assert(out@ == before.push(all[n as int]));
            } else {
                assert(t.filter(pred) == t.drop_last().filter(pred));
            }
        }
        n = n + 1;
    }
    assert(all.take(all.len() as int) =~= all);
    out
}

// ─── Latest activity ─────────────────────────────────────────────────────────

/// How many commits the band lists.
pub const LATEST_COMMITS: usize = 6;

/// The commits.
pub open spec fn is_commit() -> spec_fn(ActivityItem) -> bool {
    |i: ActivityItem| i.kind == ActivityKind::Commit
}

/// The issues and pull requests.
pub open spec fn not_commit() -> spec_fn(ActivityItem) -> bool {
    |i: ActivityItem| i.kind != ActivityKind::Commit
}

/// The band's two lists, once the commits that repeat a pull request are
/// dropped: the first six commits, and the issues and pull requests; each
/// in the order given.
pub fn latest_activity(activity: Vec<ActivityItem>) -> (r: (Vec<ActivityItem>, Vec<ActivityItem>))
    ensures
        r.0@ == truncated(
            activity@.filter(not_duplicate(activity@)).filter(is_commit()),
            LATEST_COMMITS as int,
        ),
        r.1@ == activity@.filter(not_duplicate(activity@)).filter(not_commit()),
{
    broadcast use vstd::seq_lib::group_filter_ensures;

    let deduped = dedup_commits_against_prs(activity);
    let ghost all = deduped@;
    assert(all.len() == deduped.len());
    let mut input = deduped;
    let mut commits: Vec<ActivityItem> = Vec::new();
    let mut others: Vec<ActivityItem> = Vec::new();
    let mut n: usize = 0;
    assert(all.take(0) =~= Seq::<ActivityItem>::empty());
    assert(all.skip(0) =~= all);
    proof {
        reveal(Seq::filter);
    }
    while input.len() > 0
        invariant
            n + input@.len() == all.len(),
            all.len() <= usize::MAX,
            input@ == all.skip(n as int),
            commits@ == truncated(all.take(n as int).filter(is_commit()), LATEST_COMMITS as int),
            others@ == all.take(n as int).filter(not_commit()),
        decreases input.len(),
    {
        let x = input.remove(0);
        assert(x == all[n as int]);
        assert(input@ =~= all.skip(n + 1));
        let ghost t = all.take(n as int);
        assert(all.take(n + 1) =~= t.push(x));
        proof {
            t.lemma_filter_push(x, is_commit());
            t.lemma_filter_push(x, not_commit());
        }
        let ghost cs = t.filter(is_commit());
        if x.kind == ActivityKind::Commit {
            if commits.len() < LATEST_COMMITS {
                commits.push(x);
                assert(commits@ =~= truncated(cs.push(x), LATEST_COMMITS as int));
            } else {
                assert(truncated(cs.push(x), LATEST_COMMITS as int) =~= truncated(cs, LATEST_COMMITS as int));
            }
        } else {
            others.push(x);
        }
        n = n + 1;
    }
    assert(all.take(n as int) =~= all);
    (commits, others)
}

/// How the band names a kind of activity.
pub open spec fn kind_label(k: ActivityKind) -> Seq<char> {
    match k {
        ActivityKind::PullRequest => "PR"@,
        ActivityKind::Issue => "issue"@,
        ActivityKind::Commit => "commit"@,
    }
}

/// How the band names a state.
pub open spec fn state_label(s: ActivityState) -> Seq<char> {
    match s {
        ActivityState::Open => "open"@,
        ActivityState::Closed => "closed"@,
        ActivityState::Merged => "merged"@,
    }
}

/// The badge of an issue or pull request: `[PR · merged]`, or `[issue]`
/// when it has no state.
pub open spec fn badge_text(kind: ActivityKind, state: Option<ActivityState>) -> Seq<char> {
    match state {
        Some(s) => "["@ + kind_label(kind) + " · "@ + state_label(s) + "]"@,
        None => "["@ + kind_label(kind) + "]"@,
    }
}

/// The badge shown beside an issue or pull request.
pub fn activity_badge(kind: ActivityKind, state: Option<ActivityState>) -> (r: String)
    ensures
        r@ == badge_text(kind, state),
{
    let mut r = "[".to_owned();
    match kind {
        ActivityKind::PullRequest => r.append("PR"),
        ActivityKind::Issue => r.append("issue"),
        ActivityKind::Commit => r.append("commit"),
    }
    match state {
        Some(s) => {
            r.append(" · ");
            match s {
                ActivityState::Open => r.append("open"),
                ActivityState::Closed => r.append("closed"),
                ActivityState::Merged => r.append("merged"),
            }
        },
        None => {},
    }
    r.append("]");
    r
}

/// The three-letter English name of month `m` (1–12), as `%b` writes it.
pub open spec fn month_name(m: u32) -> Seq<char> {
    if m == 1 {
        "Jan"@
    } else if m == 2 {
        "Feb"@
    } else if m == 3 {
        "Mar"@
    } else if m == 4 {
        "Apr"@
    } else if m == 5 {
        "May"@
    } else if m == 6 {
        "Jun"@
    } else if m == 7 {
        "Jul"@
    } else if m == 8 {
        "Aug"@
    } else if m == 9 {
        "Sep"@
    } else if m == 10 {
        "Oct"@
    } else if m == 11 {
        "Nov"@
    } else {
        "Dec"@
    }
}

/// Zeros in front of `s` up to four characters.
pub open spec fn pad4(s: Seq<char>) -> Seq<char> {
    if s.len() < 4 {
        Seq::new((4 - s.len()) as nat, |i: int| '0') + s
    } else {
        s
    }
}

/// A year as `%Y` writes it: four digits with leading zeros for years 0 to
/// 9999; otherwise signed, with at least four digits.
pub open spec fn year_text(y: i32) -> Seq<char> {
    if 0 <= y <= 9999 {
        pad4(decimal(y as nat))
    } else if y > 9999 {
        "+"@ + decimal(y as nat)
    } else {
        "-"@ + pad4(decimal((-y) as nat))
    }
}

/// A date as `%b %Y` writes it: `Mar 2025`.
pub open spec fn month_year(d: Date) -> Seq<char> {
    month_name(d.month) + " "@ + year_text(d.year)
}

/// The band's period: `Mar 2025 — Mar 2026`.
pub open spec fn period_text(from: Date, to: Date) -> Seq<char> {
    month_year(from) + " — "@ + month_year(to)
}

fn push_padded(s: &mut String, n: u64)
    ensures
        final(s)@ == old(s)@ + pad4(decimal(n as nat)),
{
    let digits = decimal_string(n);
    let len = digits.as_str().unicode_len();
    let mut k: usize = len;
    let ghost start = s@;
    while k < 4
        invariant
            len == decimal(n as nat).len(),
            len <= k <= 4 || (k == len && len > 4),
            s@ == start + Seq::new((k - len) as nat, |i: int| '0'),
        decreases 4 - k,
    {
        push_char(s, '0');
        assert(s@ =~= start + Seq::new((k + 1 - len) as nat, |i: int| '0'));
        k = k + 1;
    }
    s.append(digits.as_str());
    proof {
        if len < 4 {
            assert(s@ =~= start + pad4(decimal(n as nat)));
        } else {
            assert(Seq::new((k - len) as nat, |i: int| '0') =~= Seq::<char>::empty());
            assert(s@ =~= start + pad4(decimal(n as nat)));
        }
    }
}

fn push_month_year(s: &mut String, d: Date)
    requires
        1 <= d.month <= 12,
    ensures
        final(s)@ == old(s)@ + month_year(d),
{
    let name = if d.month == 1 {
        "Jan"
    } else if d.month == 2 {
        "Feb"
    } else if d.month == 3 {
        "Mar"
    } else if d.month == 4 {
        "Apr"
    } else if d.month == 5 {
        "May"
    } else if d.month == 6 {
        "Jun"
    } else if d.month == 7 {
        "Jul"
    } else if d.month == 8 {
        "Aug"
    } else if d.month == 9 {
        "Sep"
    } else if d.month == 10 {
        "Oct"
    } else if d.month == 11 {
        "Nov"
    } else {
        "Dec"
    };
    s.append(name);
    s.append(" ");
    let y = d.year;
    if 0 <= y && y <= 9999 {
        push_padded(s, y as u64);
    } else if y > 9999 {
        s.append("+");
        push_decimal(s, y as u64);
    } else {
        s.append("-");
        let a: i64 = -(y as i64);
        push_padded(s, a as u64);
    }
    assert(final(s)@ =~= old(s)@ + month_year(d));
}

/// The band's period label, `%b %Y — %b %Y` of the period's first and last
/// days.
pub fn period_label(from: Date, to: Date) -> (r: String)
    requires
        1 <= from.month <= 12,
        1 <= to.month <= 12,
    ensures
        r@ == period_text(from, to),
{
    let mut r = String::new();
    push_month_year(&mut r, from);
    r.append(" — ");
    push_month_year(&mut r, to);
    assert(r@ =~= period_text(from, to));
    r
}

} // verus!
