//! Stable sorting, specified as insertion.
//!
//! `keep(a, b)` says that `a` may stay in front of `b`. For a total preorder
//! there is exactly one stable ordering of a sequence, so the insertion order
//! below is the order every stable sort (such as `slice::sort_by`) produces.

use vstd::prelude::*;

verus! {

/// Inserts `x` after the last element of `s` that may stay in front of it
/// (scanning from the back), keeping later-equal elements after earlier ones.
pub open spec fn insert_by<A>(s: Seq<A>, x: A, keep: spec_fn(A, A) -> bool) -> Seq<A>
    decreases s.len(),
{
    if s.len() == 0 || keep(s.last(), x) {
        s.push(x)
    } else {
        insert_by(s.drop_last(), x, keep).push(s.last())
    }
}

/// The stable sort of `s` by `keep`.
pub open spec fn sort_by<A>(s: Seq<A>, keep: spec_fn(A, A) -> bool) -> Seq<A>
    decreases s.len(),
{
    if s.len() == 0 {
        s
    } else {
        insert_by(sort_by(s.drop_last(), keep), s.last(), keep)
    }
}

/// `keep` is a total preorder.
pub open spec fn total_preorder<A>(keep: spec_fn(A, A) -> bool) -> bool {
    &&& forall|a: A, b: A| #[trigger] keep(a, b) || #[trigger] keep(b, a)
    &&& forall|a: A, b: A, c: A| #[trigger] keep(a, b) && #[trigger] keep(b, c) ==> keep(a, c)
}

/// Every element may stay in front of every later one.
pub open spec fn sorted_by<A>(s: Seq<A>, keep: spec_fn(A, A) -> bool) -> bool {
    forall|i: int, j: int| 0 <= i < j < s.len() ==> keep(#[trigger] s[i], #[trigger] s[j])
}

/// Where the insertion scan stops: `j` such that `x` goes between `s[..j]`
/// and `s[j..]`.
pub open spec fn insert_point<A>(s: Seq<A>, x: A, keep: spec_fn(A, A) -> bool, j: int) -> bool {
    &&& 0 <= j <= s.len()
    &&& j == 0 || keep(s[j - 1], x)
    &&& forall|k: int| j <= k < s.len() ==> !keep(#[trigger] s[k], x)
}

/// Insertion places `x` at its insertion point.
pub proof fn lemma_insert_at<A>(s: Seq<A>, x: A, keep: spec_fn(A, A) -> bool, j: int)
    requires
        insert_point(s, x, keep, j),
    ensures
        insert_by(s, x, keep) == s.insert(j, x),
    decreases s.len(),
{
    if s.len() == 0 {
        assert(s.insert(j, x) =~= s.push(x));
    } else if keep(s.last(), x) {
        assert(j == s.len());
        assert(s.insert(j, x) =~= s.push(x));
    } else {
        let t = s.drop_last();
        assert(j < s.len());
        assert forall|k: int| j <= k < t.len() implies !keep(#[trigger] t[k], x) by {
            assert(t[k] == s[k]);
        }
        if j > 0 {
            assert(t[j - 1] == s[j - 1]);
        }
        lemma_insert_at(t, x, keep, j);
        assert(s.insert(j, x) =~= t.insert(j, x).push(s.last()));
    }
}

/// Insertion adds exactly `x` to the elements.
pub proof fn lemma_insert_multiset<A>(s: Seq<A>, x: A, keep: spec_fn(A, A) -> bool)
    ensures
        insert_by(s, x, keep).to_multiset() == s.to_multiset().insert(x),
        insert_by(s, x, keep).len() == s.len() + 1,
    decreases s.len(),
{
    broadcast use vstd::seq_lib::group_to_multiset_ensures;

    if s.len() == 0 || keep(s.last(), x) {
    } else {
        let t = s.drop_last();
        lemma_insert_multiset(t, x, keep);
        assert(s =~= t.push(s.last()));
        assert(insert_by(s, x, keep).to_multiset() =~= s.to_multiset().insert(x));
    }
}

/// Insertion into a sorted sequence keeps it sorted.
pub proof fn lemma_insert_sorted<A>(s: Seq<A>, x: A, keep: spec_fn(A, A) -> bool)
    requires
        total_preorder(keep),
        sorted_by(s, keep),
    ensures
        sorted_by(insert_by(s, x, keep), keep),
        forall|k: int|
            0 <= k < insert_by(s, x, keep).len() ==> #[trigger] insert_by(s, x, keep)[k] == x
                || s.contains(insert_by(s, x, keep)[k]),
    decreases s.len(),
{
    let r = insert_by(s, x, keep);
    if s.len() == 0 || keep(s.last(), x) {
        assert forall|i: int, j: int| 0 <= i < j < r.len() implies keep(
            #[trigger] r[i],
            #[trigger] r[j],
        ) by {
            if j == s.len() {
                if i < s.len() - 1 {
                    assert(keep(s[i], s[s.len() - 1]));
                }
            }
        }
        assert forall|k: int| 0 <= k < r.len() implies #[trigger] r[k] == x || s.contains(r[k]) by {
            if k < s.len() {
                assert(r[k] == s[k]);
            }
        }
    } else {
        let t = s.drop_last();
        assert(sorted_by(t, keep)) by {
            assert forall|i: int, j: int| 0 <= i < j < t.len() implies keep(
                #[trigger] t[i],
                #[trigger] t[j],
            ) by {
                assert(t[i] == s[i] && t[j] == s[j]);
            }
        }
        lemma_insert_sorted(t, x, keep);
        lemma_insert_multiset(t, x, keep);
        let u = insert_by(t, x, keep);
        assert(keep(x, s.last()));
        assert forall|k: int| 0 <= k < u.len() implies keep(#[trigger] u[k], s.last()) by {
            if u[k] != x {
                assert(t.contains(u[k]));
                let m = choose|m: int| 0 <= m < t.len() && t[m] == u[k];
                assert(s[m] == t[m]);
                assert(keep(s[m], s[s.len() - 1]));
            }
        }
        assert forall|i: int, j: int| 0 <= i < j < r.len() implies keep(
            #[trigger] r[i],
            #[trigger] r[j],
        ) by {
            if j == u.len() {
                assert(r[i] == u[i]);
            } else {
                assert(r[i] == u[i] && r[j] == u[j]);
            }
        }
        assert forall|k: int| 0 <= k < r.len() implies #[trigger] r[k] == x || s.contains(r[k]) by {
            if k < u.len() {
                assert(r[k] == u[k]);
                if u[k] != x {
                    let m = choose|m: int| 0 <= m < t.len() && t[m] == u[k];
                    assert(s[m] == t[m]);
                }
            } else {
                assert(s[s.len() - 1] == r[k]);
            }
        }
    }
}

/// Law: sorting yields a sorted arrangement of the same elements.
pub proof fn lemma_sort_by<A>(s: Seq<A>, keep: spec_fn(A, A) -> bool)
    requires
        total_preorder(keep),
    ensures
        sorted_by(sort_by(s, keep), keep),
        sort_by(s, keep).to_multiset() == s.to_multiset(),
        sort_by(s, keep).len() == s.len(),
    decreases s.len(),
{
    broadcast use vstd::seq_lib::group_to_multiset_ensures;

    if s.len() > 0 {
        let t = s.drop_last();
        lemma_sort_by(t, keep);
        lemma_insert_sorted(sort_by(t, keep), s.last(), keep);
        lemma_insert_multiset(sort_by(t, keep), s.last(), keep);
        assert(s =~= t.push(s.last()));
    }
}

/// Inserting and then mapping is mapping and then inserting, when `kb`
/// orders the images as `ka` orders the originals.
pub proof fn lemma_insert_by_map<A, B>(
    s: Seq<A>,
    x: A,
    ka: spec_fn(A, A) -> bool,
    kb: spec_fn(B, B) -> bool,
    f: spec_fn(A) -> B,
)
    requires
        forall|a: A, b: A| #[trigger] ka(a, b) == kb(f(a), f(b)),
    ensures
        insert_by(s, x, ka).map_values(f) == insert_by(s.map_values(f), f(x), kb),
    decreases s.len(),
{
    if s.len() == 0 {
        assert(s.push(x).map_values(f) =~= s.map_values(f).push(f(x)));
    } else {
        let t = s.drop_last();
        assert(s.map_values(f).drop_last() =~= t.map_values(f));
        assert(s.map_values(f).last() == f(s.last()));
        assert(ka(s.last(), x) == kb(f(s.last()), f(x)));
        if ka(s.last(), x) {
            assert(s.push(x).map_values(f) =~= s.map_values(f).push(f(x)));
        } else {
            lemma_insert_by_map(t, x, ka, kb, f);
            assert(insert_by(t, x, ka).push(s.last()).map_values(f) =~= insert_by(t, x, ka).map_values(f).push(
                f(s.last()),
            ));
        }
    }
}

/// Sorting and then mapping is mapping and then sorting, when `kb` orders
/// the images as `ka` orders the originals.
pub proof fn lemma_sort_by_map<A, B>(s: Seq<A>, ka: spec_fn(A, A) -> bool, kb: spec_fn(B, B) -> bool, f: spec_fn(A) -> B)
    requires
        forall|a: A, b: A| #[trigger] ka(a, b) == kb(f(a), f(b)),
    ensures
        sort_by(s, ka).map_values(f) == sort_by(s.map_values(f), kb),
    decreases s.len(),
{
    if s.len() == 0 {
        assert(s.map_values(f) =~= Seq::<B>::empty());
    } else {
        let t = s.drop_last();
        lemma_sort_by_map(t, ka, kb, f);
        lemma_insert_by_map(sort_by(t, ka), s.last(), ka, kb, f);
        assert(s.map_values(f).drop_last() =~= t.map_values(f));
        assert(s.map_values(f).last() == f(s.last()));
    }
}

/// The prefix `s[..n]` of `s`, or all of `s` when it is shorter
/// (`Vec::truncate`).
pub open spec fn truncated<A>(s: Seq<A>, n: int) -> Seq<A> {
    if s.len() <= n {
        s
    } else {
        s.take(n)
    }
}

/// The present values, in order (`filter_map`).
pub open spec fn filter_some<T>(s: Seq<Option<T>>) -> Seq<T>
    decreases s.len(),
{
    if s.len() == 0 {
        Seq::empty()
    } else {
        let r = filter_some(s.drop_last());
        match s.last() {
            Some(x) => r.push(x),
            None => r,
        }
    }
}

/// Filtering a longer prefix only adds items at the end.
pub proof fn lemma_filter_some_prefix<T>(s: Seq<Option<T>>, i: int)
    requires
        0 <= i <= s.len(),
    ensures
        filter_some(s.take(i)).len() <= filter_some(s).len(),
        filter_some(s).take(filter_some(s.take(i)).len() as int) == filter_some(s.take(i)),
    decreases s.len() - i,
{
    if i < s.len() {
        lemma_filter_some_prefix(s, i + 1);
        assert(s.take(i + 1).drop_last() =~= s.take(i));
        let a = filter_some(s.take(i));
        let b = filter_some(s.take(i + 1));
        let c = filter_some(s);
        assert(c.take(a.len() as int) =~= b.take(a.len() as int));
    } else {
        assert(s.take(i) =~= s);
        assert(filter_some(s).take(filter_some(s).len() as int) =~= filter_some(s));
    }
}

/// What `filter_some` keeps: the values present somewhere in `s`.
pub proof fn lemma_filter_some_contains<T>(s: Seq<Option<T>>, x: T)
    ensures
        filter_some(s).contains(x) <==> exists|i: int| 0 <= i < s.len() && s[i] == Some(x),
    decreases s.len(),
{
    if s.len() > 0 {
        let t = s.drop_last();
        lemma_filter_some_contains(t, x);
        let r = filter_some(t);
        if exists|i: int| 0 <= i < t.len() && t[i] == Some(x) {
            let i = choose|i: int| 0 <= i < t.len() && t[i] == Some(x);
            assert(s[i] == Some(x));
        }
        if exists|i: int| 0 <= i < s.len() && s[i] == Some(x) {
            let i = choose|i: int| 0 <= i < s.len() && s[i] == Some(x);
            if i < t.len() {
                assert(t[i] == Some(x));
            }
        }
        match s.last() {
            Some(y) => {
                assert(filter_some(s) == r.push(y));
                assert(r.push(y).contains(x) <==> (r.contains(x) || y == x)) by {
                    if r.contains(x) {
                        let k = choose|k: int| 0 <= k < r.len() && r[k] == x;
                        assert(r.push(y)[k] == x);
                    }
                    if y == x {
                        assert(r.push(y)[r.len() as int] == x);
                    }
                    if r.push(y).contains(x) {
                        let k = choose|k: int| 0 <= k < r.len() + 1 && r.push(y)[k] == x;
                        if k < r.len() {
                            assert(r[k] == x);
                        }
                    }
                }
            },
            None => {},
        }
    }
}

/// Sorting keeps exactly the elements it was given.
pub proof fn lemma_sort_by_contains<A>(s: Seq<A>, keep: spec_fn(A, A) -> bool, x: A)
    requires
        total_preorder(keep),
    ensures
        sort_by(s, keep).contains(x) <==> s.contains(x),
{
    broadcast use vstd::seq_lib::group_to_multiset_ensures;

    lemma_sort_by(s, keep);
    assert(sort_by(s, keep).to_multiset().count(x) == s.to_multiset().count(x));
}

} // verus!
