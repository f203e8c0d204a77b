//! Refreshing the fallback statistics baked into the site: the batched
//! repository query and the counts read from its answer.

use vstd::prelude::*;
use crate::integration::github::json::{array_of, as_array, as_u64, at, at_key, get, opt_val, u64_of, Json};
use crate::integration::github::stats::fetch::{
    activity_items, commit_created_at, commit_fields, commit_from_fields, merge_and_sort_activity,
    newest_first, parse_activity_items, views,
};
use crate::integration::github::stats::model::{ActivityItem, ActivityView};
use crate::integration::github::time::parse_rfc3339;
use crate::integration::github::json::as_str;
use crate::sort::{sort_by, truncated};
use crate::sort::filter_some;
use crate::text::{decimal, find, find_at, lemma_find_from, occurs_at, push_decimal, push_range, to_chars};

verus! {

broadcast use vstd::string::group_string_axioms;

/// The alias `r{i}` under which the `i`-th repository is queried.
pub open spec fn alias(i: nat) -> Seq<char> {
    seq!['r'] + decimal(i)
}

/// The query field for the `i`-th slug, asking for its stars (and forks),
/// or `None` when the slug has no `/` between owner and name.
pub open spec fn repo_field(i: nat, slug: Seq<char>, with_forks: bool) -> Option<Seq<char>> {
    match find(slug, seq!['/']) {
        None => None,
        Some(k) => Some(
            "  "@ + alias(i) + ": repository(owner: \""@ + slug.take(k) + "\", name: \""@
                + slug.skip(k + 1) + "\") "@ + if with_forks {
                "{ stargazerCount forks { totalCount } }"@
            } else {
                "{ stargazerCount }"@
            },
        ),
    }
}

/// The fields of the first `n` slugs.
pub open spec fn repo_fields(slugs: Seq<Seq<char>>, with_forks: bool, n: nat) -> Seq<Seq<char>>
    decreases n,
{
    if n == 0 {
        Seq::empty()
    } else {
        let rest = repo_fields(slugs, with_forks, (n - 1) as nat);
        match repo_field((n - 1) as nat, slugs[n - 1], with_forks) {
            Some(f) => rest.push(f),
            None => rest,
        }
    }
}

/// The lines joined with line breaks.
pub open spec fn join_lines(ls: Seq<Seq<char>>) -> Seq<char>
    decreases ls.len(),
{
    if ls.len() == 0 {
        Seq::empty()
    } else if ls.len() == 1 {
        ls[0]
    } else {
        join_lines(ls.drop_last()) + "\n"@ + ls.last()
    }
}

/// The slugs as character sequences.
pub open spec fn slug_texts(slugs: Seq<String>) -> Seq<Seq<char>> {
    slugs.map_values(|s: String| s@)
}

/// One GraphQL query asking for every repository at once, each under its
/// alias.
pub open spec fn repos_query_text(slugs: Seq<Seq<char>>, with_forks: bool) -> Seq<char> {
    "{\n"@ + join_lines(repo_fields(slugs, with_forks, slugs.len())) + "\n}"@
}

fn push_field(q: &mut String, i: usize, slug: &str, with_forks: bool) -> (added: bool)
    ensures
        match repo_field(i as nat, slug@, with_forks) {
            Some(f) => added && final(q)@ == old(q)@ + f,
            None => !added && final(q)@ == old(q)@,
        },
{
    let chars = to_chars(slug);
    let slash: Vec<char> = vec!['/'];
    assert(slash@ =~= seq!['/']);
    proof {
        lemma_find_from(chars@, slash@, 0);
    }
    let k = match find_at(chars.as_slice(), slash.as_slice(), 0) {
        Some(k) => k,
        None => return false,
    };
    let n = chars.len();
    assert(occurs_at(chars@, k as int, slash@));
    q.append("  ");
    q.append("r");
    push_decimal(q, i as u64);
    q.append(": repository(owner: \"");
    push_range(q, chars.as_slice(), 0, k);
    q.append("\", name: \"");
    push_range(q, chars.as_slice(), k + 1, n);
    q.append("\") ");
    if with_forks {
        q.append("{ stargazerCount forks { totalCount } }");
    } else {
        q.append("{ stargazerCount }");
    }
    proof {
        reveal_strlit("r");
        assert(chars@.subrange(0, k as int) =~= slug@.take(k as int));
        assert(chars@.subrange(k + 1, n as int) =~= slug@.skip(k + 1));
        assert(final(q)@ =~= old(q)@ + repo_field(i as nat, slug@, with_forks)->0);
    }
    true
}

/// Builds the batched query for the repositories `slugs`, asking for their
/// stars and, when `with_forks`, their forks.
pub fn repos_query(slugs: &Vec<String>, with_forks: bool) -> (q: String)
    requires
        slugs@.len() < u64::MAX,
    ensures
        q@ == repos_query_text(slug_texts(slugs@), with_forks),
{
    let ghost ss = slug_texts(slugs@);
    let mut body = String::new();
    let mut count: usize = 0;
    let mut i: usize = 0;
    while i < slugs.len()
        invariant
            i <= slugs@.len(),
            slugs@.len() < u64::MAX,
            ss == slug_texts(slugs@),
            count == repo_fields(ss, with_forks, i as nat).len(),
            count <= i,
            body@ == join_lines(repo_fields(ss, with_forks, i as nat)),
        decreases slugs.len() - i,
    {
        let ghost before = body@;
        let ghost fs = repo_fields(ss, with_forks, i as nat);
        let mut line = String::new();
        let added = push_field(&mut line, i, slugs[i].as_str(), with_forks);
        assert(ss[i as int] == slugs@[i as int]@);
        if added {
            if count > 0 {
                body.append("\n");
            }
            body.append(line.as_str());
            proof {
                let f = repo_field(i as nat, ss[i as int], with_forks)->0;
                assert(line@ =~= f);
                assert(fs.push(f).drop_last() =~= fs);
                if fs.len() == 0 {
                    assert(body@ =~= f);
                }
            }
            count = count + 1;
        }
        i = i + 1;
    }
    let mut q = "{\n".to_owned();
    q.append(body.as_str());
    q.append("\n}");
    q
}

/// The star and fork counts of one repository, as stored in the work
/// fallback data.
#[derive(Debug, Clone)]
pub struct FallbackRepo {
    pub slug: String,
    pub stars: u64,
    pub forks: u64,
}

/// A count, or zero when it is not a non-negative integer.
pub open spec fn count_or_zero(o: Option<Json>) -> u64 {
    match u64_of(o) {
        Some(n) => n,
        None => 0,
    }
}

/// The node of the answer under the `i`-th alias, unless absent or null.
pub open spec fn repo_node(data: Option<Json>, i: nat) -> Option<Json> {
    match at(data, alias(i)) {
        Some(Json::Null) => None,
        o => o,
    }
}

/// The `(slug, stars, forks)` read for the `i`-th slug.
pub open spec fn repo_counts_of(data: Option<Json>, slug: Seq<char>, i: nat) -> Option<(Seq<char>, u64, u64)> {
    match repo_node(data, i) {
        None => None,
        Some(node) => Some(
            (
                slug,
                count_or_zero(at(Some(node), "stargazerCount"@)),
                count_or_zero(at(at(Some(node), "forks"@), "totalCount"@)),
            ),
        ),
    }
}

/// The repositories found in the answer's `data`, in the order of `slugs`;
/// repositories that were not found are left out.
pub open spec fn repos_found(data: Option<Json>, slugs: Seq<Seq<char>>) -> Seq<(Seq<char>, u64, u64)> {
    filter_some(Seq::new(slugs.len(), |i: int| repo_counts_of(data, slugs[i], i as nat)))
}

/// A repository read as `(slug, stars, forks)`.
pub open spec fn repo_view(r: FallbackRepo) -> (Seq<char>, u64, u64) {
    (r.slug@, r.stars, r.forks)
}

fn alias_text(i: usize) -> (r: String)
    ensures
        r@ == alias(i as nat),
{
    let mut r = String::new();
    push_char_r(&mut r);
    push_decimal(&mut r, i as u64);
    assert(r@ =~= alias(i as nat));
    r
}

fn push_char_r(s: &mut String)
    ensures
        final(s)@ == old(s)@ + seq!['r'],
{
    crate::text::push_char(s, 'r');
    assert(old(s)@.push('r') =~= old(s)@ + seq!['r']);
}

/// Reads the star and fork counts of the batched query's answer.
pub fn read_repo_counts(data: Option<&Json>, slugs: &Vec<String>) -> (r: Vec<FallbackRepo>)
    ensures
        r@.map_values(|x: FallbackRepo| repo_view(x)) == repos_found(opt_val(data), slug_texts(slugs@)),
{
    let ghost ss = slug_texts(slugs@);
    let ghost f = Seq::new(ss.len(), |i: int| repo_counts_of(opt_val(data), ss[i], i as nat));
    let mut out: Vec<FallbackRepo> = Vec::new();
    let mut i: usize = 0;
    assert(f.take(0) =~= Seq::<Option<(Seq<char>, u64, u64)>>::empty());
    assert(out@.map_values(|x: FallbackRepo| repo_view(x)) =~= Seq::<(Seq<char>, u64, u64)>::empty());
    while i < slugs.len()
        invariant
            i <= slugs@.len(),
            ss == slug_texts(slugs@),
            f == Seq::new(ss.len(), |i: int| repo_counts_of(opt_val(data), ss[i], i as nat)),
            out@.map_values(|x: FallbackRepo| repo_view(x)) == filter_some(f.take(i as int)),
        decreases slugs.len() - i,
    {
        let key = alias_text(i);
        let node = match at_key(data, key.as_str()) {
            Some(Json::Null) => None,
            o => o,
        };
        let ghost before = out@;
        assert(f.take(i + 1).drop_last() =~= f.take(i as int));
        assert(f.take(i + 1).last() == f[i as int]);
        assert(ss[i as int] == slugs@[i as int]@);
        match node {
            Some(n) => {
                let stars = match as_u64(at_key(Some(n), "stargazerCount")) {
                    Some(v) => v,
                    None => 0,
                };
                let forks = match as_u64(at_key(at_key(Some(n), "forks"), "totalCount")) {
                    Some(v) => v,
                    None => 0,
                };
                let slug = slugs[i].clone();
                out.push(FallbackRepo { slug, stars, forks });
                assert(out@.map_values(|x: FallbackRepo| repo_view(x)) =~= before.map_values(
                    |x: FallbackRepo| repo_view(x),
                ).push(f[i as int]->0));
            },
            None => {},
        }
        i = i + 1;
    }
    assert(f.take(slugs@.len() as int) =~= f);
    out
}

/// The star count of each slug present in the answer, in the order of
/// `slugs`.
pub open spec fn stars_found(data: Option<Json>, slugs: Seq<Seq<char>>) -> Seq<(Seq<char>, u64)> {
    filter_some(
        Seq::new(
            slugs.len(),
            |i: int|
                match u64_of(at(at(data, alias(i as nat)), "stargazerCount"@)) {
                    Some(n) => Some((slugs[i], n)),
                    None => None,
                },
        ),
    )
}

/// Reads the star counts of the batched query's answer.
pub fn read_stars(data: Option<&Json>, slugs: &Vec<String>) -> (r: Vec<(String, u64)>)
    ensures
        r@.map_values(|x: (String, u64)| (x.0@, x.1)) == stars_found(opt_val(data), slug_texts(slugs@)),
{
    let ghost ss = slug_texts(slugs@);
    let ghost f = Seq::new(
        ss.len(),
        |i: int|
            match u64_of(at(at(opt_val(data), alias(i as nat)), "stargazerCount"@)) {
                Some(n) => Some((ss[i], n)),
                None => None,
            },
    );
    let mut out: Vec<(String, u64)> = Vec::new();
    let mut i: usize = 0;
    assert(f.take(0) =~= Seq::<Option<(Seq<char>, u64)>>::empty());
    assert(out@.map_values(|x: (String, u64)| (x.0@, x.1)) =~= Seq::<(Seq<char>, u64)>::empty());
    while i < slugs.len()
        invariant
            i <= slugs@.len(),
            ss == slug_texts(slugs@),
            f == Seq::new(
                ss.len(),
                |i: int|
                    match u64_of(at(at(opt_val(data), alias(i as nat)), "stargazerCount"@)) {
                        Some(n) => Some((ss[i], n)),
                        None => None,
                    },
            ),
            out@.map_values(|x: (String, u64)| (x.0@, x.1)) == filter_some(f.take(i as int)),
        decreases slugs.len() - i,
    {
        let key = alias_text(i);
        let ghost before = out@;
        assert(f.take(i + 1).drop_last() =~= f.take(i as int));
        assert(f.take(i + 1).last() == f[i as int]);
        assert(ss[i as int] == slugs@[i as int]@);
        match as_u64(at_key(at_key(data, key.as_str()), "stargazerCount")) {
            Some(n) => {
                out.push((slugs[i].clone(), n));
                assert(out@.map_values(|x: (String, u64)| (x.0@, x.1)) =~= before.map_values(
                    |x: (String, u64)| (x.0@, x.1),
                ).push(f[i as int]->0));
            },
            None => {},
        }
        i = i + 1;
    }
    assert(f.take(slugs@.len() as int) =~= f);
    out
}

// ─── Contribution summary ────────────────────────────────────────────────────

/// The GraphQL query for the contribution counts and public repository count
/// between `from` and `to`.
pub open spec fn summary_query(from: Seq<char>, to: Seq<char>) -> Seq<char> {
    "{\n  user(login: \"JP-Ellis\") {\n    contributionsCollection(from: \""@ + from + "\", to: \""@ + to
        + "\") {\n      totalCommitContributions\n      totalPullRequestContributions\n      totalIssueContributions\n    }\n    repositories(privacy: PUBLIC) { totalCount }\n  }\n}"@
}

/// Builds the query for the contribution counts of the fallback data.
pub fn fallback_stats_query(from: &str, to: &str) -> (q: String)
    ensures
        q@ == summary_query(from@, to@),
{
    let mut q = "{\n  user(login: \"JP-Ellis\") {\n    contributionsCollection(from: \"".to_owned();
    q.append(from);
    q.append("\", to: \"");
    q.append(to);
    q.append(
        "\") {\n      totalCommitContributions\n      totalPullRequestContributions\n      totalIssueContributions\n    }\n    repositories(privacy: PUBLIC) { totalCount }\n  }\n}",
    );
    q
}

/// The user object of a GraphQL answer.
pub open spec fn user_of(gql: Json) -> Option<Json> {
    at(at(Some(gql), "data"@), "user"@)
}

/// The `(commits, pull requests, issues, public repositories)` counts of the
/// answer, each zero when missing and cut to 32 bits.
pub open spec fn summary_counts(gql: Json) -> (u32, u32, u32, u32) {
    let c = at(user_of(gql), "contributionsCollection"@);
    (
        count_or_zero(at(c, "totalCommitContributions"@)) as u32,
        count_or_zero(at(c, "totalPullRequestContributions"@)) as u32,
        count_or_zero(at(c, "totalIssueContributions"@)) as u32,
        count_or_zero(at(at(user_of(gql), "repositories"@), "totalCount"@)) as u32,
    )
}

fn count_of(o: Option<&Json>) -> (r: u64)
    ensures
        r == count_or_zero(opt_val(o)),
{
    match as_u64(o) {
        Some(n) => n,
        None => 0,
    }
}

/// Reads the contribution counts of the fallback data.
pub fn fallback_counts(gql: &Json) -> (r: (u32, u32, u32, u32))
    ensures
        r == summary_counts(*gql),
{
    let user = at_key(at_key(Some(gql), "data"), "user");
    let c = at_key(user, "contributionsCollection");
    (
        count_of(at_key(c, "totalCommitContributions")) as u32,
        count_of(at_key(c, "totalPullRequestContributions")) as u32,
        count_of(at_key(c, "totalIssueContributions")) as u32,
        count_of(at_key(at_key(user, "repositories"), "totalCount")) as u32,
    )
}

/// The commits of a commit search answer as the fallback data keeps them:
/// like the site's own reading, but without asking for a SHA, and with no
/// commits when the answer has no items.
pub open spec fn fallback_commit_views(body: Json) -> Seq<ActivityView> {
    match array_of(get(body, "items"@)) {
        None => Seq::empty(),
        Some(items) => filter_some(
            items.map_values(|it: Json| commit_fields(it, commit_created_at(it))),
        ),
    }
}

/// Reads the commits of a commit search answer for the fallback data.
pub fn fallback_commits(body: &Json) -> (r: Vec<ActivityItem>)
    ensures
        views(r@) == fallback_commit_views(*body),
{
    let items = match as_array(at_key(Some(body), "items")) {
        Some(a) => a,
        None => {
            let v: Vec<ActivityItem> = Vec::new();
            assert(views(v@) =~= Seq::<ActivityView>::empty());
            return v;
        },
    };
    let ghost f = |it: Json| commit_fields(it, commit_created_at(it));
    let mut out: Vec<ActivityItem> = Vec::new();
    let mut i: usize = 0;
    assert(items@.take(0).map_values(f) =~= Seq::<Option<ActivityView>>::empty());
    assert(views(out@) =~= Seq::<ActivityView>::empty());
    while i < items.len()
        invariant
            i <= items@.len(),
            f == (|it: Json| commit_fields(it, commit_created_at(it))),
            views(out@) == filter_some(items@.take(i as int).map_values(f)),
        decreases items.len() - i,
    {
        let item = &items[i];
        let created = match as_str(at_key(at_key(at_key(Some(item), "commit"), "author"), "date")) {
            Some(t) => parse_rfc3339(t),
            None => None,
        };
        let ghost before = out@;
        let o = commit_from_fields(item, created);
        proof {
            assert(items@.take(i + 1).map_values(f).drop_last() =~= items@.take(i as int).map_values(f));
        }
        match o {
            Some(a) => {
                out.push(a);
                assert(views(out@) =~= views(before).push(a@));
            },
            None => {},
        }
        i = i + 1;
    }
    assert(items@.take(items@.len() as int) =~= items@);
    out
}

/// Reads the pull requests or issues of an issue search answer for the
/// fallback data: none when the answer has no items.
pub fn fallback_activity(body: &Json) -> (r: Vec<ActivityItem>)
    ensures
        activity_items(*body) matches Ok(v) ==> views(r@) == v,
        activity_items(*body) is Err ==> r@.len() == 0,
{
    match parse_activity_items(body) {
        Ok(v) => v,
        Err(_) => Vec::new(),
    }
}

/// How many activity items the fallback data keeps.
pub const ACTIVITY_KEEP: usize = 10;

/// The activity kept in the fallback data: commits, pull requests and
/// issues together, newest first, the first ten.
pub fn fallback_recent_activity(
    commits: Vec<ActivityItem>,
    prs: Vec<ActivityItem>,
    issues: Vec<ActivityItem>,
) -> (r: Vec<ActivityItem>)
    ensures
        r@ == truncated(sort_by(commits@ + prs@ + issues@, newest_first()), ACTIVITY_KEEP as int),
{
    let mut first = commits;
    let mut rest = prs;
    first.append(&mut rest);
    merge_and_sort_activity(first, issues, ACTIVITY_KEEP)
}

} // verus!
