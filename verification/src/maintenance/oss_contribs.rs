//! Refreshing the list of open-source contributions on the work page: the
//! contributions of the past year are tallied by repository, filtered, and
//! ordered by the repositories' stars.

use vstd::prelude::*;
use crate::config::work::OssContrib;
use crate::integration::github::json::{array_of, as_array, as_str, as_u64, at, at_key, opt_val, str_of, Json};
use crate::maintenance::fallback_data::{count_or_zero, slug_texts};
use crate::sort::{
    filter_some, insert_point, lemma_filter_some_contains, lemma_filter_some_prefix, lemma_insert_at, lemma_sort_by,
    lemma_sort_by_contains, lemma_sort_by_map, sort_by, sorted_by, total_preorder,
};
use crate::text::{lemma_lex_le_total_order, lemma_split_on_len, lex_le, split_chars, split_on, str_eq, str_le, string_of, to_chars};

verus! {

broadcast use vstd::string::group_string_axioms;

// ─── The contributions query ─────────────────────────────────────────────────

/// The GraphQL query for the author's commit and pull request
/// contributions over `from`–`to` (ISO 8601 timestamps), by repository.
pub open spec fn contributions_query_text(from: Seq<char>, to: Seq<char>) -> Seq<char> {
    "{\n  user(login: \"JP-Ellis\") {\n    contributionsCollection(from: \""@ + from + "\", to: \""@ + to
        + "\") {\n      commitContributionsByRepository(maxRepositories: 100) {\n        repository { nameWithOwner isPrivate }\n        contributions { totalCount }\n      }\n      pullRequestContributionsByRepository(maxRepositories: 100) {\n        repository { nameWithOwner isPrivate }\n        contributions { totalCount }\n      }\n    }\n  }\n}"@
}

/// Builds the contributions query for the period `from`–`to`.
pub fn contributions_query(from: &str, to: &str) -> (q: String)
    ensures
        q@ == contributions_query_text(from@, to@),
{
    let mut q = "{\n  user(login: \"JP-Ellis\") {\n    contributionsCollection(from: \"".to_owned();
    q.append(from);
    q.append("\", to: \"");
    q.append(to);
    q.append(
        "\") {\n      commitContributionsByRepository(maxRepositories: 100) {\n        repository { nameWithOwner isPrivate }\n        contributions { totalCount }\n      }\n      pullRequestContributionsByRepository(maxRepositories: 100) {\n        repository { nameWithOwner isPrivate }\n        contributions { totalCount }\n      }\n    }\n  }\n}",
    );
    q
}

// ─── Tallying contributions ──────────────────────────────────────────────────

/// One repository's contributions of the past year.
#[derive(Debug, Clone)]
pub struct RepoActivity {
    /// Repository, as `owner/name`.
    pub slug: String,
    pub commits: u64,
    pub prs: u64,
    pub is_private: bool,
}

/// One entry of the contributions answer: the repository, the number of
/// contributions, whether the repository is private, and whether the
/// contributions are pull requests (else commits).
pub type Entry = (Seq<char>, u64, bool, bool);

/// The value as a `bool`, if it is one.
pub open spec fn bool_of(o: Option<Json>) -> Option<bool> {
    match o {
        Some(Json::Bool(b)) => Some(b),
        _ => None,
    }
}

/// An item of a by-repository contribution list, unless its repository has
/// no name. A repository whose privacy is not given counts as private.
pub open spec fn entry_of(item: Json, is_pr: bool) -> Option<Entry> {
    let repo = at(Some(item), "repository"@);
    let slug = match str_of(at(repo, "nameWithOwner"@)) {
        Some(s) => s,
        None => Seq::empty(),
    };
    if slug.len() == 0 {
        None
    } else {
        Some(
            (
                slug,
                count_or_zero(at(at(Some(item), "contributions"@), "totalCount"@)),
                match bool_of(at(repo, "isPrivate"@)) {
                    Some(b) => b,
                    None => true,
                },
                is_pr,
            ),
        )
    }
}

/// The entries of one by-repository list of the contributions collection.
pub open spec fn list_entries(collection: Option<Json>, key: Seq<char>, is_pr: bool) -> Seq<Entry> {
    match array_of(at(collection, key)) {
        None => Seq::empty(),
        Some(items) => filter_some(items.map_values(|it: Json| entry_of(it, is_pr))),
    }
}

/// The commit entries followed by the pull request entries.
pub open spec fn all_entries(collection: Option<Json>) -> Seq<Entry> {
    list_entries(collection, "commitContributionsByRepository"@, false) + list_entries(
        collection,
        "pullRequestContributionsByRepository"@,
        true,
    )
}

/// The repositories of the entries, each once, in order of first appearance.
pub open spec fn repos_in_order(es: Seq<Entry>) -> Seq<Seq<char>>
    decreases es.len(),
{
    if es.len() == 0 {
        Seq::empty()
    } else {
        let r = repos_in_order(es.drop_last());
        if r.contains(es.last().0) {
            r
        } else {
            r.push(es.last().0)
        }
    }
}

/// The sum of the counts of the entries for `slug` of one kind.
pub open spec fn count_sum(es: Seq<Entry>, slug: Seq<char>, is_pr: bool) -> int
    decreases es.len(),
{
    if es.len() == 0 {
        0
    } else {
        count_sum(es.drop_last(), slug, is_pr) + if es.last().0 == slug && es.last().3 == is_pr {
            es.last().1 as int
        } else {
            0
        }
    }
}

/// Whether the repository is private, by the last entry for it.
pub open spec fn last_private(es: Seq<Entry>, slug: Seq<char>) -> bool
    decreases es.len(),
{
    if es.len() == 0 {
        true
    } else if es.last().0 == slug {
        es.last().2
    } else {
        last_private(es.drop_last(), slug)
    }
}

/// No repository's commits or pull requests add up beyond a `u64`.
pub open spec fn sums_fit(es: Seq<Entry>) -> bool {
    forall|s: Seq<char>, p: bool| #[trigger] count_sum(es, s, p) <= u64::MAX
}

/// The tally agrees with the entries: one record per repository, in order
/// of first appearance, with its commits, pull requests and privacy.
pub open spec fn tallies(r: Seq<RepoActivity>, es: Seq<Entry>) -> bool {
    &&& r.len() == repos_in_order(es).len()
    &&& forall|k: int| 0 <= k < r.len() ==> #[trigger] record_agrees(r[k], es, repos_in_order(es)[k])
}

/// The record is the tally of the entries for `slug`.
pub open spec fn record_agrees(rec: RepoActivity, es: Seq<Entry>, slug: Seq<char>) -> bool {
    &&& rec.slug@ == slug
    &&& rec.commits == count_sum(es, slug, false)
    &&& rec.prs == count_sum(es, slug, true)
    &&& rec.is_private == last_private(es, slug)
}

proof fn lemma_count_sum_prefix(es: Seq<Entry>, i: int, s: Seq<char>, p: bool)
    requires
        0 <= i <= es.len(),
    ensures
        count_sum(es.take(i), s, p) <= count_sum(es, s, p),
    decreases es.len() - i,
{
    if i < es.len() {
        lemma_count_sum_prefix(es, i + 1, s, p);
        assert(es.take(i + 1).drop_last() =~= es.take(i));
    } else {
        assert(es.take(i) =~= es);
    }
}

proof fn lemma_repos_distinct(es: Seq<Entry>)
    ensures
        forall|a: int, b: int|
            0 <= a < b < repos_in_order(es).len() ==> repos_in_order(es)[a] != repos_in_order(es)[b],
    decreases es.len(),
{
    if es.len() > 0 {
        lemma_repos_distinct(es.drop_last());
        let r = repos_in_order(es.drop_last());
        let x = es.last().0;
        if !r.contains(x) {
            assert forall|a: int, b: int| 0 <= a < b < r.push(x).len() implies r.push(x)[a] != r.push(x)[b] by {
                if b == r.len() {
                    if r[a] == x {
                        assert(r.contains(x));
                    }
                } else {
                    assert(r.push(x)[a] == r[a] && r.push(x)[b] == r[b]);
                }
            }
        }
    }
}

proof fn lemma_absent_sums(es: Seq<Entry>, s: Seq<char>)
    requires
        !repos_in_order(es).contains(s),
    ensures
        count_sum(es, s, false) == 0,
        count_sum(es, s, true) == 0,
        last_private(es, s),
    decreases es.len(),
{
    if es.len() > 0 {
        let r = repos_in_order(es.drop_last());
        if !r.contains(es.last().0) {
            assert(repos_in_order(es).last() == es.last().0);
        }
        if r.contains(s) {
            let k = choose|k: int| 0 <= k < r.len() && r[k] == s;
            assert(repos_in_order(es)[k] == s);
        }
        lemma_absent_sums(es.drop_last(), s);
    }
}

fn entry_from(item: &Json, is_pr: bool) -> (r: Option<(String, u64, bool)>)
    ensures
        match r {
            Some(e) => entry_of(*item, is_pr) == Some((e.0@, e.1, e.2, is_pr)),
            None => entry_of(*item, is_pr) is None,
        },
{
    let repo = at_key(Some(item), "repository");
    let slug = match as_str(at_key(repo, "nameWithOwner")) {
        Some(s) => s,
        None => "",
    };
    proof {
        reveal_strlit("");
    }
    if slug.unicode_len() == 0 {
        return None;
    }
    let private = match at_key(repo, "isPrivate") {
        Some(Json::Bool(b)) => *b,
        _ => true,
    };
    let count = match as_u64(at_key(at_key(Some(item), "contributions"), "totalCount")) {
        Some(n) => n,
        None => 0,
    };
    Some((slug.to_owned(), count, private))
}

/// Whether the `k`-th record is for `slug`.
fn record_is(tally: &Vec<RepoActivity>, k: usize, slug: &str) -> (r: bool)
    requires
        k < tally@.len(),
    ensures
        r == (tally@[k as int].slug@ == slug@),
{
    str_eq(tally[k].slug.as_str(), slug)
}

/// How one more entry changes the tally's specification.
proof fn lemma_push_entry(es: Seq<Entry>, e: Entry)
    ensures
        repos_in_order(es.push(e)) == if repos_in_order(es).contains(e.0) {
            repos_in_order(es)
        } else {
            repos_in_order(es).push(e.0)
        },
        forall|t: Seq<char>, q: bool| #[trigger] count_sum(es.push(e), t, q) == count_sum(es, t, q) + if t == e.0 && q == e.3 {
            e.1 as int
        } else {
            0
        },
        forall|t: Seq<char>| #[trigger] last_private(es.push(e), t) == if t == e.0 {
            e.2
        } else {
            last_private(es, t)
        },
{
    assert(es.push(e).drop_last() =~= es);
}

/// Adds the entry `all[i]` to the tally of the entries before it.
fn add_entry(
    tally: &mut Vec<RepoActivity>,
    slug: String,
    count: u64,
    private: bool,
    is_pr: bool,
    Ghost(all): Ghost<Seq<Entry>>,
    Ghost(i): Ghost<int>,
)
    requires
        0 <= i < all.len(),
        all[i] == (slug@, count, private, is_pr),
        sums_fit(all),
        tallies(old(tally)@, all.take(i)),
    ensures
        tallies(final(tally)@, all.take(i + 1)),
{
    let ghost es = all.take(i);
    let ghost e = all[i];
    let ghost es2 = all.take(i + 1);
    let ghost order = repos_in_order(es);
    proof {
        assert(es2 =~= es.push(e));
        lemma_push_entry(es, e);
        lemma_repos_distinct(es);
        lemma_count_sum_prefix(all, i + 1, slug@, is_pr);
        assert(count_sum(all, slug@, is_pr) <= u64::MAX);
    }
    let mut k: usize = 0;
    while k < tally.len() && !record_is(tally, k, slug.as_str())
        invariant
            k <= tally@.len(),
            tallies(tally@, es),
            forall|m: int| 0 <= m < k ==> #[trigger] tally@[m].slug@ != slug@,
        decreases tally.len() - k,
    {
        k = k + 1;
    }
    if k == tally.len() {
        proof {
            assert(!order.contains(slug@)) by {
                if order.contains(slug@) {
                    let m = choose|m: int| 0 <= m < order.len() && order[m] == slug@;
                    assert(record_agrees(tally@[m], es, order[m]));
                }
            }
            lemma_absent_sums(es, slug@);
        }
        let (c, p) = if is_pr {
            (0u64, count)
        } else {
            (count, 0u64)
        };
        let ghost before = tally@;
        tally.push(RepoActivity { slug, commits: c, prs: p, is_private: private });
        proof {
            let order2 = repos_in_order(es2);
            assert(order2 == order.push(e.0));
            assert forall|m: int| 0 <= m < tally@.len() implies #[trigger] record_agrees(tally@[m], es2, order2[m]) by {
                if m < before.len() {
                    assert(tally@[m] == before[m]);
                    assert(order2[m] == order[m]);
                    assert(record_agrees(before[m], es, order[m]));
                    assert(order[m] != e.0);
                    assert(count_sum(es2, order[m], false) == count_sum(es, order[m], false));
                    assert(count_sum(es2, order[m], true) == count_sum(es, order[m], true));
                    assert(last_private(es2, order[m]) == last_private(es, order[m]));
                } else {
                    assert(m == before.len());
                    assert(order2[m] == e.0);
                    assert(count_sum(es2, e.0, false) == count_sum(es, e.0, false) + if !is_pr { count as int } else { 0 });
                    assert(count_sum(es2, e.0, true) == count_sum(es, e.0, true) + if is_pr { count as int } else { 0 });
                    assert(last_private(es2, e.0) == private);
                }
            }
            assert(before.len() == order.len());
            assert(tally@.len() == order2.len());
            assert(tallies(tally@, es2));
        }
    } else {
        let ghost before = tally@;
        let old_c = tally[k].commits;
        let old_p = tally[k].prs;
        let old_slug = tally[k].slug.clone();
        proof {
            assert(record_agrees(tally@[k as int], es, order[k as int]));
            assert(order[k as int] == slug@);
            assert(order.contains(slug@));
        }
        if is_pr {
            tally.set(k, RepoActivity { slug: old_slug, commits: old_c, prs: old_p + count, is_private: private });
        } else {
            tally.set(k, RepoActivity { slug: old_slug, commits: old_c + count, prs: old_p, is_private: private });
        }
        proof {
            let order2 = repos_in_order(es2);
            assert(order2 == order);
            assert forall|m: int| 0 <= m < tally@.len() implies #[trigger] record_agrees(tally@[m], es2, order2[m]) by {
                assert(record_agrees(before[m], es, order[m]));
                if m != k {
                    assert(tally@[m] == before[m]);
                    assert(order[m] != order[k as int]);
                    assert(count_sum(es2, order[m], false) == count_sum(es, order[m], false));
                    assert(count_sum(es2, order[m], true) == count_sum(es, order[m], true));
                    assert(last_private(es2, order[m]) == last_private(es, order[m]));
                } else {
                    assert(count_sum(es2, e.0, false) == count_sum(es, e.0, false) + if !is_pr { count as int } else { 0 });
                    assert(count_sum(es2, e.0, true) == count_sum(es, e.0, true) + if is_pr { count as int } else { 0 });
                    assert(last_private(es2, e.0) == private);
                }
            }
            assert(tallies(tally@, es2));
        }
    }
}

/// Tallies the commit and pull request contributions of the answer's
/// `contributionsCollection` by repository.
pub fn contributions_by_repository(collection: Option<&Json>) -> (r: Vec<RepoActivity>)
    requires
        sums_fit(all_entries(opt_val(collection))),
    ensures
        tallies(r@, all_entries(opt_val(collection))),
{
    let ghost all = all_entries(opt_val(collection));
    let ghost commits = list_entries(opt_val(collection), "commitContributionsByRepository"@, false);
    let mut tally: Vec<RepoActivity> = Vec::new();
    assert(all.take(0) =~= Seq::<Entry>::empty());
    assert(repos_in_order(all.take(0)).len() == 0);
    let empty: Vec<Json> = Vec::new();
    let lists: [(&str, bool); 2] = [
        ("commitContributionsByRepository", false),
        ("pullRequestContributionsByRepository", true),
    ];
    let mut done: usize = 0;
    let ghost mut base: int = 0;
    proof {
        assert(all =~= commits + list_entries(opt_val(collection), "pullRequestContributionsByRepository"@, true));
    }
    let mut li: usize = 0;
    while li < 2
        invariant
            li <= 2,
            all == all_entries(opt_val(collection)),
            commits == list_entries(opt_val(collection), "commitContributionsByRepository"@, false),
            lists@ == seq![("commitContributionsByRepository", false), ("pullRequestContributionsByRepository", true)],
            sums_fit(all),
            base == if li == 0 {
                0
            } else if li == 1 {
                commits.len() as int
            } else {
                all.len() as int
            },
            0 <= base <= all.len(),
            tallies(tally@, all.take(base)),
            empty@ == Seq::<Json>::empty(),
        decreases 2 - li,
    {
        let (key, is_pr) = lists[li];
        let ghost list = list_entries(opt_val(collection), key@, is_pr);
        proof {
            if li == 0 {
                assert(all.take(commits.len() as int) =~= commits);
                assert(list == commits);
            } else {
                assert(all.skip(commits.len() as int) =~= list);
            }
        }
        let items = match as_array(at_key(collection, key)) {
            Some(a) => a,
            None => &empty,
        };
        let ghost f = |it: Json| entry_of(it, is_pr);
        proof {
            if array_of(at(opt_val(collection), key@)) is None {
                assert(list == Seq::<Entry>::empty());
                assert(items@.map_values(f) =~= Seq::<Option<Entry>>::empty());
            }
        }
        assert(filter_some(items@.map_values(f)) == list);
        let mut j: usize = 0;
        assert(items@.map_values(f).take(0) =~= Seq::<Option<Entry>>::empty());
        while j < items.len()
            invariant
                j <= items@.len(),
                f == (|it: Json| entry_of(it, is_pr)),
                filter_some(items@.map_values(f)) == list,
                all.take(base + list.len()) == all.take(base) + list,
                base + list.len() <= all.len(),
                0 <= base,
                sums_fit(all),
                tallies(tally@, all.take(base + filter_some(items@.map_values(f).take(j as int)).len())),
                filter_some(items@.map_values(f).take(j as int)).len() <= list.len(),
                filter_some(items@.map_values(f).take(j as int)) == list.take(filter_some(items@.map_values(f).take(j as int)).len() as int),
            decreases items.len() - j,
        {
            let ghost s = items@.map_values(f);
            let ghost n = filter_some(s.take(j as int)).len();
            proof {
                assert(s.take(j + 1).drop_last() =~= s.take(j as int));
                assert(s.take(j + 1).last() == f(items@[j as int]));
                lemma_filter_some_prefix(s, j + 1);
            }
            match entry_from(&items[j], is_pr) {
                Some((slug, count, private)) => {
                    proof {
                        let e = (slug@, count, private, is_pr);
                        assert(filter_some(s.take(j + 1)) == filter_some(s.take(j as int)).push(e));
                        assert(filter_some(s).take(n + 1 as int) == filter_some(s.take(j + 1)));
                        assert(list.take(n + 1 as int) == filter_some(s.take(j as int)).push(e));
                        assert(list[n as int] == list.take(n + 1 as int)[n as int]);
                        assert(list[n as int] == e);
                        assert(all[base + n] == (all.take(base) + list)[base + n]);
                    }
                    add_entry(&mut tally, slug, count, private, is_pr, Ghost(all), Ghost(base + n));
                },
                None => {},
            }
            j = j + 1;
        }
        proof {
            assert(items@.map_values(f).take(items@.len() as int) =~= items@.map_values(f));
            if li == 0 {
                base = commits.len() as int;
            } else {
                base = all.len() as int;
            }
        }
        li = li + 1;
    }
    assert(all.take(all.len() as int) =~= all);
    tally
}

// ─── Choosing the contributions to list ──────────────────────────────────────

/// Fewest pull requests a repository needs to be listed.
pub const MIN_PRS: u64 = 1;

/// Owners whose repositories are never listed: the author's own account and
/// the organisations worked for.
pub open spec fn skipped_owner(owner: Seq<char>) -> bool {
    owner == "JP-Ellis"@ || owner == "hep-rs"@ || owner == "pactflow"@
}

/// The owner part of a slug: what comes before its first `/`.
pub open spec fn owner_of(slug: Seq<char>) -> Seq<char> {
    split_on(slug, '/')[0]
}

/// Whether a repository is listed: its owner is not skipped, it is not one
/// of the projects in `tracked_slugs`, it is public, and it has enough pull requests.
pub open spec fn qualifies(r: RepoActivity, tracked_slugs: Seq<Seq<char>>) -> bool {
    &&& !skipped_owner(owner_of(r.slug@))
    &&& !tracked_slugs.contains(r.slug@)
    &&& !r.is_private
    &&& r.prs >= MIN_PRS
}

/// The repository's slug, if it is listed.
pub open spec fn qualifying_slug(r: RepoActivity, tracked_slugs: Seq<Seq<char>>) -> Option<Seq<char>> {
    if qualifies(r, tracked_slugs) {
        Some(r.slug@)
    } else {
        None
    }
}

/// Alphabetical order of slugs.
pub open spec fn by_slug() -> spec_fn(Seq<char>, Seq<char>) -> bool {
    |a: Seq<char>, b: Seq<char>| lex_le(a, b)
}

/// The slugs of the listed repositories, in alphabetical order.
pub open spec fn candidates(activity: Seq<RepoActivity>, tracked_slugs: Seq<Seq<char>>) -> Seq<Seq<char>> {
    sort_by(filter_some(activity.map_values(|r: RepoActivity| qualifying_slug(r, tracked_slugs))), by_slug())
}

fn is_skipped_owner(slug: &str) -> (r: bool)
    ensures
        r == skipped_owner(owner_of(slug@)),
{
    let chars = to_chars(slug);
    let parts = split_chars(chars.as_slice(), '/');
    proof {
        lemma_split_on_len(slug@, '/');
    }
    let first = &parts[0];
    let owner = string_of(first.as_slice(), 0, first.len());
    assert(owner@ =~= owner_of(slug@));
    str_eq(owner.as_str(), "JP-Ellis") || str_eq(owner.as_str(), "hep-rs") || str_eq(owner.as_str(), "pactflow")
}

fn in_tracked_slugs(slug: &str, tracked_slugs: &Vec<String>) -> (r: bool)
    ensures
        r == slug_texts(tracked_slugs@).contains(slug@),
{
    let ghost ts = slug_texts(tracked_slugs@);
    let mut i: usize = 0;
    while i < tracked_slugs.len()
        invariant
            i <= tracked_slugs@.len(),
            ts == slug_texts(tracked_slugs@),
            forall|k: int| 0 <= k < i ==> #[trigger] ts[k] != slug@,
        decreases tracked_slugs.len() - i,
    {
        if str_eq(tracked_slugs[i].as_str(), slug) {
            assert(ts[i as int] == slug@);
            return true;
        }
        i = i + 1;
    }
    assert(!ts.contains(slug@)) by {
        if ts.contains(slug@) {
            let k = choose|k: int| 0 <= k < ts.len() && ts[k] == slug@;
            assert(ts[k] != slug@);
        }
    }
    false
}

/// Alphabetical order of the strings' characters.
pub open spec fn by_text() -> spec_fn(String, String) -> bool {
    |a: String, b: String| lex_le(a@, b@)
}

fn sort_slugs(items: Vec<String>) -> (r: Vec<String>)
    ensures
        r@ == sort_by(items@, by_text()),
{
    let ghost orig = items@;
    let ghost keep = by_text();
    let mut input = items;
    let mut out: Vec<String> = Vec::new();
    assert(orig.take(0) =~= Seq::<String>::empty());
    assert(orig.skip(0) =~= orig);
    while input.len() > 0
        invariant
            keep == by_text(),
            input@.len() <= orig.len(),
            input@ == orig.skip(orig.len() - input@.len()),
            out@ == sort_by(orig.take(orig.len() - input@.len()), keep),
        decreases input.len(),
    {
        let ghost k = orig.len() - input@.len();
        let x = input.remove(0);
        assert(x == orig[k]);
        assert(input@ =~= orig.skip(k + 1));
        let mut j = out.len();
        while j > 0 && !str_le(out[j - 1].as_str(), x.as_str())
            invariant
                j <= out@.len(),
                keep == by_text(),
                forall|m: int| j <= m < out@.len() ==> !keep(#[trigger] out@[m], x),
            decreases j,
        {
            j = j - 1;
        }
        proof {
            assert(insert_point(out@, x, keep, j as int));
            lemma_insert_at(out@, x, keep, j as int);
            assert(orig.take(k + 1).drop_last() =~= orig.take(k));
        }
        out.insert(j, x);
    }
    assert(orig.take(orig.len() as int) =~= orig);
    out
}

/// Picks the repositories to list from the year's tally (leaving out the
/// skipped owners, the projects in `tracked_slugs`, private repositories and those
/// with too few pull requests), in alphabetical order of their slugs.
pub fn select_oss_candidates(activity: &Vec<RepoActivity>, tracked_slugs: &Vec<String>) -> (r: Vec<String>)
    ensures
        slug_texts(r@) == candidates(activity@, slug_texts(tracked_slugs@)),
{
    let ghost ts = slug_texts(tracked_slugs@);
    let ghost f = |r: RepoActivity| qualifying_slug(r, ts);
    let ghost s = activity@.map_values(f);
    let mut kept: Vec<String> = Vec::new();
    let mut i: usize = 0;
    assert(s.take(0) =~= Seq::<Option<Seq<char>>>::empty());
    assert(slug_texts(kept@) =~= Seq::<Seq<char>>::empty());
    while i < activity.len()
        invariant
            i <= activity@.len(),
            ts == slug_texts(tracked_slugs@),
            f == (|r: RepoActivity| qualifying_slug(r, ts)),
            s == activity@.map_values(f),
            slug_texts(kept@) == filter_some(s.take(i as int)),
        decreases activity.len() - i,
    {
        let a = &activity[i];
        let ghost before = kept@;
        assert(s.take(i + 1).drop_last() =~= s.take(i as int));
        assert(s.take(i + 1).last() == f(activity@[i as int]));
        if !is_skipped_owner(a.slug.as_str()) && !in_tracked_slugs(a.slug.as_str(), tracked_slugs) && !a.is_private && a.prs
            >= MIN_PRS {
            kept.push(a.slug.clone());
            assert(slug_texts(kept@) =~= slug_texts(before).push(a.slug@));
        }
        i = i + 1;
    }
    assert(s.take(activity@.len() as int) =~= s);
    let ghost unsorted = kept@;
    let sorted = sort_slugs(kept);
    proof {
        lemma_sort_by_map(unsorted, by_text(), by_slug(), |s: String| s@);
    }
    sorted
}

// ─── Ranking the listed contributions ────────────────────────────────────────

/// A listed contribution read as `(slug, name, stars)`.
pub open spec fn contrib_view(c: OssContrib) -> (Seq<char>, Seq<char>, u64) {
    (c.slug@, c.name@, c.stars)
}

/// The star counts read from the answer, as `(slug, stars)`.
pub open spec fn pair_texts(ps: Seq<(String, u64)>) -> Seq<(Seq<char>, u64)> {
    ps.map_values(|x: (String, u64)| (x.0@, x.1))
}

/// The stars of `slug`: the last count read for it, or 0 when none was.
pub open spec fn stars_of(found: Seq<(Seq<char>, u64)>, slug: Seq<char>) -> u64
    decreases found.len(),
{
    if found.len() == 0 {
        0
    } else if found.last().0 == slug {
        found.last().1
    } else {
        stars_of(found.drop_last(), slug)
    }
}

/// The name the configuration already gives `slug` (the last entry for it
/// wins).
pub open spec fn custom_name(existing: Seq<OssContrib>, slug: Seq<char>) -> Option<Seq<char>>
    decreases existing.len(),
{
    if existing.len() == 0 {
        None
    } else if existing.last().slug@ == slug {
        Some(existing.last().name@)
    } else {
        custom_name(existing.drop_last(), slug)
    }
}

/// The name of a repository not named yet: the part of the slug after its
/// first `/` (up to the next one), or the whole slug when it has no `/`.
pub open spec fn default_name(slug: Seq<char>) -> Seq<char> {
    if split_on(slug, '/').len() > 1 {
        split_on(slug, '/')[1]
    } else {
        slug
    }
}

/// The name a listed repository is shown under.
pub open spec fn display_name(existing: Seq<OssContrib>, slug: Seq<char>) -> Seq<char> {
    match custom_name(existing, slug) {
        Some(n) => n,
        None => default_name(slug),
    }
}

/// The entry listed for `slug`.
pub open spec fn entry_for(slug: Seq<char>, found: Seq<(Seq<char>, u64)>, existing: Seq<OssContrib>) -> (
    Seq<char>,
    Seq<char>,
    u64,
) {
    (slug, display_name(existing, slug), stars_of(found, slug))
}

/// Most stars first; among equal counts, alphabetical order of the slug.
pub open spec fn most_starred_first() -> spec_fn((Seq<char>, Seq<char>, u64), (Seq<char>, Seq<char>, u64)) -> bool {
    |a: (Seq<char>, Seq<char>, u64), b: (Seq<char>, Seq<char>, u64)| a.2 > b.2 || (a.2 == b.2 && lex_le(a.0, b.0))
}

/// The entries listed for the candidates, most starred first.
pub open spec fn ranked_contribs(cands: Seq<Seq<char>>, found: Seq<(Seq<char>, u64)>, existing: Seq<OssContrib>) -> Seq<
    (Seq<char>, Seq<char>, u64),
> {
    sort_by(cands.map_values(|s: Seq<char>| entry_for(s, found, existing)), most_starred_first())
}

fn stars_for(stars: &Vec<(String, u64)>, slug: &str) -> (n: u64)
    ensures
        n == stars_of(pair_texts(stars@), slug@),
{
    let ghost ps = pair_texts(stars@);
    let mut i = stars.len();
    assert(ps.take(i as int) =~= ps);
    while i > 0
        invariant
            i <= stars@.len(),
            ps == pair_texts(stars@),
            stars_of(ps, slug@) == stars_of(ps.take(i as int), slug@),
        decreases i,
    {
        assert(ps.take(i as int).last() == ps[i - 1]);
        assert(ps.take(i as int).drop_last() =~= ps.take(i - 1));
        if str_eq(stars[i - 1].0.as_str(), slug) {
            return stars[i - 1].1;
        }
        i = i - 1;
    }
    0
}

fn custom_name_for(existing: &Vec<OssContrib>, slug: &str) -> (r: Option<String>)
    ensures
        match r {
            Some(n) => custom_name(existing@, slug@) == Some(n@),
            None => custom_name(existing@, slug@) is None,
        },
{
    let mut i = existing.len();
    assert(existing@.take(i as int) =~= existing@);
    while i > 0
        invariant
            i <= existing@.len(),
            custom_name(existing@, slug@) == custom_name(existing@.take(i as int), slug@),
        decreases i,
    {
        assert(existing@.take(i as int).last() == existing@[i - 1]);
        assert(existing@.take(i as int).drop_last() =~= existing@.take(i - 1));
        if str_eq(existing[i - 1].slug.as_str(), slug) {
            return Some(existing[i - 1].name.clone());
        }
        i = i - 1;
    }
    None
}

fn default_name_of(slug: &str) -> (r: String)
    ensures
        r@ == default_name(slug@),
{
    let chars = to_chars(slug);
    let parts = split_chars(chars.as_slice(), '/');
    if parts.len() > 1 {
        let second = &parts[1];
        let r = string_of(second.as_slice(), 0, second.len());
        assert(r@ =~= default_name(slug@));
        r
    } else {
        slug.to_owned()
    }
}

/// Stars first as an order of the configuration's entries.
pub open spec fn by_stars() -> spec_fn(OssContrib, OssContrib) -> bool {
    |a: OssContrib, b: OssContrib| most_starred_first()(contrib_view(a), contrib_view(b))
}

fn sort_contribs(items: Vec<OssContrib>) -> (r: Vec<OssContrib>)
    ensures
        r@ == sort_by(items@, by_stars()),
{
    let ghost orig = items@;
    let ghost keep = by_stars();
    let mut input = items;
    let mut out: Vec<OssContrib> = Vec::new();
    assert(orig.take(0) =~= Seq::<OssContrib>::empty());
    assert(orig.skip(0) =~= orig);
    while input.len() > 0
        invariant
            keep == by_stars(),
            input@.len() <= orig.len(),
            input@ == orig.skip(orig.len() - input@.len()),
            out@ == sort_by(orig.take(orig.len() - input@.len()), keep),
        decreases input.len(),
    {
        let ghost k = orig.len() - input@.len();
        let x = input.remove(0);
        assert(x == orig[k]);
        assert(input@ =~= orig.skip(k + 1));
        let mut j = out.len();
        while j > 0 && !(out[j - 1].stars > x.stars || (out[j - 1].stars == x.stars && str_le(
            out[j - 1].slug.as_str(),
            x.slug.as_str(),
        )))
            invariant
                j <= out@.len(),
                keep == by_stars(),
                forall|m: int| j <= m < out@.len() ==> !keep(#[trigger] out@[m], x),
            decreases j,
        {
            j = j - 1;
        }
        proof {
            assert(insert_point(out@, x, keep, j as int));
            lemma_insert_at(out@, x, keep, j as int);
            assert(orig.take(k + 1).drop_last() =~= orig.take(k));
        }
        out.insert(j, x);
    }
    assert(orig.take(orig.len() as int) =~= orig);
    out
}

/// The entries of the configuration's contribution list: each candidate
/// with its name (the one the configuration already gives it, else the
/// repository's name) and its stars (0 when none were read), most starred
/// first and, among equal counts, in alphabetical order of the slug.
pub fn rank_oss_contribs(candidates: &Vec<String>, stars: &Vec<(String, u64)>, existing: &Vec<OssContrib>) -> (r: Vec<
    OssContrib,
>)
    ensures
        r@.map_values(|c: OssContrib| contrib_view(c)) == ranked_contribs(
            slug_texts(candidates@),
            pair_texts(stars@),
            existing@,
        ),
{
    let ghost cs = slug_texts(candidates@);
    let ghost found = pair_texts(stars@);
    let ghost g = |s: Seq<char>| entry_for(s, found, existing@);
    let mut entries: Vec<OssContrib> = Vec::new();
    let mut i: usize = 0;
    while i < candidates.len()
        invariant
            i <= candidates@.len(),
            cs == slug_texts(candidates@),
            found == pair_texts(stars@),
            g == (|s: Seq<char>| entry_for(s, found, existing@)),
            entries@.map_values(|c: OssContrib| contrib_view(c)) == cs.take(i as int).map_values(g),
        decreases candidates.len() - i,
    {
        let slug = candidates[i].as_str();
        let name = match custom_name_for(existing, slug) {
            Some(n) => n,
            None => default_name_of(slug),
        };
        let n = stars_for(stars, slug);
        let ghost before = entries@;
        entries.push(OssContrib { slug: candidates[i].clone(), name, stars: n });
        proof {
            assert(cs[i as int] == candidates@[i as int]@);
            assert(cs.take(i + 1) =~= cs.take(i as int).push(cs[i as int]));
            assert(entries@.map_values(|c: OssContrib| contrib_view(c)) =~= before.map_values(
                |c: OssContrib| contrib_view(c),
            ).push(g(cs[i as int])));
            assert(cs.take(i + 1).map_values(g) =~= cs.take(i as int).map_values(g).push(g(cs[i as int])));
        }
        i = i + 1;
    }
    assert(cs.take(candidates@.len() as int) =~= cs);
    let ghost unsorted = entries@;
    let sorted = sort_contribs(entries);
    proof {
        lemma_sort_by_map(unsorted, by_stars(), most_starred_first(), |c: OssContrib| contrib_view(c));
    }
    sorted
}

// ─── Writing the list back ───────────────────────────────────────────────────

/// What toml_edit's parser reports for `content`: `None` when it parses as
/// a TOML document, else the text of the parse error.
pub uninterp spec fn toml_parse_error(content: Seq<char>) -> Option<Seq<char>>;

/// What toml_edit renders for the TOML document `content` once the entry
/// `key` of its root table is removed and set again to an array of tables,
/// one per row in order: the row's two strings and its integer under the
/// three column names of `columns`, and the row's last text as the prefix
/// written before the table.
pub uninterp spec fn toml_tables_written(
    content: Seq<char>,
    key: Seq<char>,
    columns: (Seq<char>, Seq<char>, Seq<char>),
    rows: Seq<(Seq<char>, Seq<char>, i64, Seq<char>)>,
) -> Seq<char>;

/// The rows read as character sequences.
pub open spec fn rows_view(rows: Seq<(String, String, i64, String)>) -> Seq<(Seq<char>, Seq<char>, i64, Seq<char>)> {
    rows.map_values(|t: (String, String, i64, String)| (t.0@, t.1@, t.2, t.3@))
}

/// Rewrites one array of tables of a TOML document.
///
/// Trusted: toml_edit's `DocumentMut` parse, `Table::remove`,
/// `ArrayOfTables::new`/`push`, `Table::new`, key assignment with `value`,
/// `Decor::set_prefix` and `Display`, each row converted into one table.
/// Whether the text parses and the error's text are `toml_parse_error` of
/// the text; the rendered document is `toml_tables_written` of the
/// arguments. Both are functions of the arguments alone.
#[verifier::external_body]
fn write_tables(
    content: &str,
    key: &str,
    columns: (&str, &str, &str),
    rows: &Vec<(String, String, i64, String)>,
) -> (r: Result<String, String>)
    ensures
        r is Ok <==> toml_parse_error(content@) is None,
        r matches Err(e) ==> toml_parse_error(content@) == Some(e@),
        r matches Ok(t) ==> t@ == toml_tables_written(
            content@,
            key@,
            (columns.0@, columns.1@, columns.2@),
            rows_view(rows@),
        ),
{
    let mut doc = content.parse::<toml_edit::DocumentMut>().map_err(|e| e.to_string())?;
    doc.remove(key);
    let mut tables = toml_edit::ArrayOfTables::new();
    for (a, b, n, prefix) in rows {
        let mut t = toml_edit::Table::new();
        t[columns.0] = toml_edit::value(a.as_str());
        t[columns.1] = toml_edit::value(b.as_str());
        t[columns.2] = toml_edit::value(*n);
        t.decor_mut().set_prefix(prefix.as_str());
        tables.push(t);
    }
    doc[key] = toml_edit::Item::ArrayOfTables(tables);
    Ok(doc.to_string())
}

/// The comment written before the first contribution table.
pub open spec fn oss_header() -> Seq<char> {
    "\n# Misc OSS contributions - updated by: cargo scripts/update-oss-contribs.rs\n"@
}

/// The row written for the `i`-th entry: its slug, name and stars (as
/// `i64`, wrapping as `as` does), and the comment before the first table or
/// a blank line before the others.
pub open spec fn oss_row(e: OssContrib, i: int) -> (Seq<char>, Seq<char>, i64, Seq<char>) {
    (e.slug@, e.name@, e.stars as i64, if i == 0 { oss_header() } else { "\n"@ })
}

/// The rows written for the entries, in order.
pub open spec fn oss_rows(es: Seq<OssContrib>) -> Seq<(Seq<char>, Seq<char>, i64, Seq<char>)> {
    Seq::new(es.len(), |i: int| oss_row(es[i], i))
}

/// Replaces the contribution list of the work configuration text with
/// `entries`: the `oss_contribs` entry is written again as an array of
/// tables, one per entry in order, with the columns `slug`, `name` and
/// `stars`, each other part of the document rendered as it was. Fails with
/// the parse error when the text is not a TOML document.
pub fn patch_oss_contribs(content: &str, entries: &Vec<OssContrib>) -> (r: Result<String, String>)
    ensures
        r is Ok <==> toml_parse_error(content@) is None,
        r matches Err(m) ==> m@ == "Could not parse src/config/work.toml as TOML: "@ + toml_parse_error(
            content@,
        )->0,
        r matches Ok(t) ==> t@ == toml_tables_written(
            content@,
            "oss_contribs"@,
            ("slug"@, "name"@, "stars"@),
            oss_rows(entries@),
        ),
{
    let mut rows: Vec<(String, String, i64, String)> = Vec::new();
    let mut i: usize = 0;
    while i < entries.len()
        invariant
            i <= entries@.len(),
            rows_view(rows@) == oss_rows(entries@).take(i as int),
        decreases entries.len() - i,
    {
        let e = &entries[i];
        let prefix = if i == 0 {
            "\n# Misc OSS contributions - updated by: cargo scripts/update-oss-contribs.rs\n".to_owned()
        } else {
            "\n".to_owned()
        };
        #[verifier::truncate]
        let stars = e.stars as i64;
        let ghost before = rows@;
        rows.push((e.slug.clone(), e.name.clone(), stars, prefix));
        assert(rows_view(rows@) =~= rows_view(before).push(oss_row(entries@[i as int], i as int)));
        assert(oss_rows(entries@).take(i + 1) =~= oss_rows(entries@).take(i as int).push(
            oss_row(entries@[i as int], i as int),
        ));
        i = i + 1;
    }
    assert(oss_rows(entries@).take(entries@.len() as int) =~= oss_rows(entries@));
    match write_tables(content, "oss_contribs", ("slug", "name", "stars"), &rows) {
        Ok(t) => Ok(t),
        Err(e) => {
            let mut m = "Could not parse src/config/work.toml as TOML: ".to_owned();
            m.append(e.as_str());
            Err(m)
        },
    }
}

// ─── Laws ────────────────────────────────────────────────────────────────────

/// Law: the candidates are in alphabetical order, and a slug is a candidate
/// exactly when some repository of the tally with that slug qualifies: its
/// owner is not skipped, it is not in `tracked_slugs`, it is public, and it
/// has at least `MIN_PRS` pull requests.
pub proof fn lemma_candidates(activity: Seq<RepoActivity>, tracked_slugs: Seq<Seq<char>>, slug: Seq<char>)
    ensures
        sorted_by(candidates(activity, tracked_slugs), by_slug()),
        candidates(activity, tracked_slugs).contains(slug) <==> exists|i: int|
            0 <= i < activity.len() && #[trigger] qualifies(activity[i], tracked_slugs) && activity[i].slug@ == slug,
{
    let f = |r: RepoActivity| qualifying_slug(r, tracked_slugs);
    let s = activity.map_values(f);
    assert(total_preorder(by_slug())) by {
        assert forall|a: Seq<char>, b: Seq<char>| #[trigger] by_slug()(a, b) || #[trigger] by_slug()(b, a) by {
            lemma_lex_le_total_order(a, b, b);
        }
        assert forall|a: Seq<char>, b: Seq<char>, c: Seq<char>|
            #[trigger] by_slug()(a, b) && #[trigger] by_slug()(b, c) implies by_slug()(a, c) by {
            lemma_lex_le_total_order(a, b, c);
        }
    }
    lemma_sort_by(filter_some(s), by_slug());
    lemma_sort_by_contains(filter_some(s), by_slug(), slug);
    lemma_filter_some_contains(s, slug);
    if exists|i: int| 0 <= i < s.len() && s[i] == Some(slug) {
        let i = choose|i: int| 0 <= i < s.len() && s[i] == Some(slug);
        assert(s[i] == f(activity[i]));
        assert(qualifies(activity[i], tracked_slugs));
    }
    if exists|i: int| 0 <= i < activity.len() && #[trigger] qualifies(activity[i], tracked_slugs) && activity[i].slug@
        == slug {
        let i = choose|i: int|
            0 <= i < activity.len() && #[trigger] qualifies(activity[i], tracked_slugs) && activity[i].slug@ == slug;
        assert(s[i] == Some(slug));
    }
}

/// Law: the listed entries are ordered by stars, most first, and among
/// equal counts alphabetically by slug; they are the candidates' entries,
/// each kept once; and every entry keeps the name the configuration already
/// gave its repository (else the repository's name) and carries the stars
/// read for it (0 when none were read).
pub proof fn lemma_ranked_contribs(
    cands: Seq<Seq<char>>,
    found: Seq<(Seq<char>, u64)>,
    existing: Seq<OssContrib>,
)
    ensures
        sorted_by(ranked_contribs(cands, found, existing), most_starred_first()),
        ranked_contribs(cands, found, existing).to_multiset() == cands.map_values(
            |s: Seq<char>| entry_for(s, found, existing),
        ).to_multiset(),
        forall|k: int|
            0 <= k < ranked_contribs(cands, found, existing).len() ==> {
                let e = #[trigger] ranked_contribs(cands, found, existing)[k];
                &&& cands.contains(e.0)
                &&& e.1 == display_name(existing, e.0)
                &&& e.2 == stars_of(found, e.0)
            },
{
    let g = |s: Seq<char>| entry_for(s, found, existing);
    let input = cands.map_values(g);
    let keep = most_starred_first();
    assert(total_preorder(keep)) by {
        assert forall|a: (Seq<char>, Seq<char>, u64), b: (Seq<char>, Seq<char>, u64)| #[trigger]
            keep(a, b) || #[trigger] keep(b, a) by {
            lemma_lex_le_total_order(a.0, b.0, b.0);
        }
        assert forall|a: (Seq<char>, Seq<char>, u64), b: (Seq<char>, Seq<char>, u64), c: (Seq<char>, Seq<char>, u64)|
            #[trigger] keep(a, b) && #[trigger] keep(b, c) implies keep(a, c) by {
            lemma_lex_le_total_order(a.0, b.0, c.0);
        }
    }
    lemma_sort_by(input, keep);
    let r = ranked_contribs(cands, found, existing);
    assert forall|k: int| 0 <= k < r.len() implies {
        let e = #[trigger] r[k];
        &&& cands.contains(e.0)
        &&& e.1 == display_name(existing, e.0)
        &&& e.2 == stars_of(found, e.0)
    } by {
        lemma_sort_by_contains(input, keep, r[k]);
        assert(r.contains(r[k]));
        let m = choose|m: int| 0 <= m < input.len() && input[m] == r[k];
        assert(input[m] == g(cands[m]));
        assert(cands.contains(cands[m]));
    }
}

} // verus!
