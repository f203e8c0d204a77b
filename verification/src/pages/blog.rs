//! The blog list page: filtering posts by tag and year, and the links that
//! set the filters.

use vstd::prelude::*;
use crate::blog::BlogPost;
use crate::text::{
    byte_prefix, byte_prefix_len, lemma_lex_le_total_order, lex_le, starts_with, starts_with_at,
    str_eq, str_le, string_of, to_chars,
};

verus! {

broadcast use vstd::string::group_string_axioms;

/// An optional string as optional text.
pub open spec fn opt_text(o: Option<&str>) -> Option<Seq<char>> {
    match o {
        Some(s) => Some(s@),
        None => None,
    }
}

/// The link to the blog list filtered by `tag` and `year`, each when given.
pub open spec fn filter_link(tag: Option<Seq<char>>, year: Option<Seq<char>>) -> Seq<char> {
    match (tag, year) {
        (None, None) => "/blog"@,
        (Some(t), None) => "/blog?tag="@ + t,
        (None, Some(y)) => "/blog?year="@ + y,
        (Some(t), Some(y)) => "/blog?tag="@ + t + "&year="@ + y,
    }
}

/// The link to the blog list with the given filters.
pub fn filter_url(tag: Option<&str>, year: Option<&str>) -> (r: String)
    ensures
        r@ == filter_link(opt_text(tag), opt_text(year)),
{
    match (tag, year) {
        (None, None) => "/blog".to_owned(),
        (Some(t), None) => {
            let mut r = "/blog?tag=".to_owned();
            r.append(t);
            r
        },
        (None, Some(y)) => {
            let mut r = "/blog?year=".to_owned();
            r.append(y);
            r
        },
        (Some(t), Some(y)) => {
            let mut r = "/blog?tag=".to_owned();
            r.append(t);
            r.append("&year=");
            r.append(y);
            r
        },
    }
}

/// The filter after its pill `clicked` is pressed: cleared when `clicked`
/// was the active value, else set to `clicked`.
pub open spec fn toggled(active: Option<Seq<char>>, clicked: Seq<char>) -> Option<Seq<char>> {
    if active == Some(clicked) {
        None
    } else {
        Some(clicked)
    }
}

/// The new value of a filter whose pill `clicked` is pressed.
pub fn toggle_filter(active: Option<&str>, clicked: &str) -> (r: Option<String>)
    ensures
        match r {
            Some(v) => toggled(opt_text(active), clicked@) == Some(v@),
            None => toggled(opt_text(active), clicked@) is None,
        },
{
    match active {
        Some(a) => {
            if str_eq(a, clicked) {
                None
            } else {
                Some(clicked.to_owned())
            }
        },
        None => Some(clicked.to_owned()),
    }
}

/// The link of a tag pill: the year filter kept, the tag toggled.
pub fn tag_link(active_tag: Option<&str>, active_year: Option<&str>, tag: &str) -> (r: String)
    ensures
        r@ == filter_link(toggled(opt_text(active_tag), tag@), opt_text(active_year)),
{
    let clears = match active_tag {
        Some(a) => str_eq(a, tag),
        None => false,
    };
    if clears {
        filter_url(None, active_year)
    } else {
        filter_url(Some(tag), active_year)
    }
}

/// The link of a year pill: the tag filter kept, the year toggled.
pub fn year_link(active_tag: Option<&str>, active_year: Option<&str>, year: &str) -> (r: String)
    ensures
        r@ == filter_link(opt_text(active_tag), toggled(opt_text(active_year), year@)),
{
    let clears = match active_year {
        Some(a) => str_eq(a, year),
        None => false,
    };
    if clears {
        filter_url(active_tag, None)
    } else {
        filter_url(active_tag, Some(year))
    }
}

/// Law: pressing a pill makes it the active filter exactly when it was not
/// active, and pressing it again restores the filter it was pressed on when
/// that filter was empty or was the pill itself.
pub proof fn lemma_toggle(active: Option<Seq<char>>, clicked: Seq<char>)
    ensures
        toggled(active, clicked) == Some(clicked) <==> active != Some(clicked),
        toggled(active, clicked) is None <==> active == Some(clicked),
        (active is None || active == Some(clicked)) ==> toggled(toggled(active, clicked), clicked) == active,
{
}

/// Whether a post is shown under the filters: it has the tag, and its date
/// starts with the year, for each filter that is set.
pub open spec fn post_visible(p: BlogPost, tag: Option<Seq<char>>, year: Option<Seq<char>>) -> bool {
    &&& (tag matches Some(t) ==> exists|i: int| 0 <= i < p.tags@.len() && #[trigger] p.tags@[i]@ == t)
    &&& (year matches Some(y) ==> starts_with(p.date@, y))
}

/// The predicate of the filters.
pub open spec fn visible_under(tag: Option<Seq<char>>, year: Option<Seq<char>>) -> spec_fn(
    BlogPost,
) -> bool {
    |p: BlogPost| post_visible(p, tag, year)
}

fn has_tag(tags: &[&str], t: &str) -> (r: bool)
    ensures
        r == exists|i: int| 0 <= i < tags@.len() && #[trigger] tags@[i]@ == t@,
{
    let mut i: usize = 0;
    while i < tags.len()
        invariant
            i <= tags@.len(),
            forall|j: int| 0 <= j < i ==> #[trigger] tags@[j]@ != t@,
        decreases tags.len() - i,
    {
        if str_eq(tags[i], t) {
            return true;
        }
        i = i + 1;
    }
    false
}

/// Whether a post is shown under the filters.
pub fn is_visible(p: &BlogPost, tag: Option<&str>, year: Option<&str>) -> (r: bool)
    ensures
        r == post_visible(*p, opt_text(tag), opt_text(year)),
{
    let tag_ok = match tag {
        Some(t) => has_tag(p.tags, t),
        None => true,
    };
    let year_ok = match year {
        Some(y) => {
            let d = to_chars(p.date);
            let yc = to_chars(y);
            let b = starts_with_at(&d, 0, &yc);
            assert(d@.skip(0) =~= d@);
            b
        },
        None => true,
    };
    tag_ok && year_ok
}

/// The posts shown under the filters, in order.
pub fn filter_posts<'a>(posts: &'a [BlogPost], tag: Option<&str>, year: Option<&str>) -> (r: Vec<
    &'a BlogPost,
>)
    ensures
        r@.map_values(|p: &BlogPost| *p) == posts@.filter(visible_under(opt_text(tag), opt_text(year))),
{
    let ghost pred = visible_under(opt_text(tag), opt_text(year));
    let mut out: Vec<&'a BlogPost> = Vec::new();
    let mut i: usize = 0;
    assert(posts@.take(0).filter(pred) =~= Seq::<BlogPost>::empty()) by {
        reveal(Seq::filter);
    }
    assert(out@.map_values(|p: &BlogPost| *p) =~= Seq::<BlogPost>::empty());
    while i < posts.len()
        invariant
            i <= posts@.len(),
            pred == visible_under(opt_text(tag), opt_text(year)),
            out@.map_values(|p: &BlogPost| *p) == posts@.take(i as int).filter(pred),
        decreases posts.len() - i,
    {
        let ghost before = out@;
        let v = is_visible(&posts[i], tag, year);
        if v {
            out.push(&posts[i]);
        }
        proof {
            reveal(Seq::filter);
            let t = posts@.take(i + 1);
            assert(t.drop_last() =~= posts@.take(i as int));
            assert(t.last() == posts@[i as int]);
            if v {
                assert(out@.map_values(|p: &BlogPost| *p) =~= before.map_values(|p: &BlogPost| *p).push(
                    posts@[i as int],
                ));
            } else {
                assert(out@ == before);
            }
        }
        i = i + 1;
    }
    assert(posts@.take(posts@.len() as int) =~= posts@);
    out
}

// ─── Tag and year lists ──────────────────────────────────────────────────────

/// `a` comes strictly before `b`: before it in string order when `desc` is
/// false, after it when `desc` is true.
pub open spec fn before(a: Seq<char>, b: Seq<char>, desc: bool) -> bool {
    if desc {
        lex_le(b, a) && a != b
    } else {
        lex_le(a, b) && a != b
    }
}

/// Each entry comes strictly before the next (so none is repeated).
pub open spec fn strictly_ordered(s: Seq<Seq<char>>, desc: bool) -> bool {
    forall|i: int, j: int| 0 <= i < j < s.len() ==> before(#[trigger] s[i], #[trigger] s[j], desc)
}

/// The strings as character sequences.
pub open spec fn texts(v: Seq<String>) -> Seq<Seq<char>> {
    v.map_values(|s: String| s@)
}

proof fn lemma_before_order(a: Seq<char>, b: Seq<char>, c: Seq<char>, desc: bool)
    ensures
        a != b ==> before(a, b, desc) || before(b, a, desc),
        before(a, b, desc) && before(b, c, desc) ==> before(a, c, desc),
        !before(a, a, desc),
{
    lemma_lex_le_total_order(a, b, c);
    lemma_lex_le_total_order(c, b, a);
    lemma_lex_le_total_order(a, c, b);
    lemma_lex_le_total_order(b, a, c);
}

/// Whether `a` comes strictly before `b`.
fn goes_before(a: &str, b: &str, desc: bool) -> (r: bool)
    ensures
        r == before(a@, b@, desc),
{
    if desc {
        str_le(b, a) && !str_eq(a, b)
    } else {
        str_le(a, b) && !str_eq(a, b)
    }
}

/// Inserts `x` into the strictly ordered list `v` unless it is there.
fn insert_unique(v: &mut Vec<String>, x: &str, desc: bool)
    requires
        strictly_ordered(texts(old(v)@), desc),
    ensures
        strictly_ordered(texts(final(v)@), desc),
        forall|t: Seq<char>| texts(final(v)@).contains(t) <==> (texts(old(v)@).contains(t) || t == x@),
{
    let ghost old_t = texts(v@);
    let mut j: usize = 0;
    while j < v.len() && goes_before(v[j].as_str(), x, desc)
        invariant
            j <= v@.len(),
            old_t == texts(v@),
            strictly_ordered(old_t, desc),
            forall|k: int| 0 <= k < j ==> before(#[trigger] old_t[k], x@, desc),
        decreases v.len() - j,
    {
        assert(old_t[j as int] == v@[j as int]@);
        j = j + 1;
    }
    if j < v.len() && str_eq(v[j].as_str(), x) {
        assert(old_t[j as int] == x@);
        assert(old_t.contains(x@));
        return;
    }
    proof {
        if j < v@.len() {
            assert(old_t[j as int] == v@[j as int]@);
            lemma_before_order(old_t[j as int], x@, x@, desc);
            assert(before(x@, old_t[j as int], desc));
            assert forall|k: int| j < k < old_t.len() implies before(x@, #[trigger] old_t[k], desc) by {
                lemma_before_order(x@, old_t[j as int], old_t[k], desc);
            }
        }
    }
    let ghost before_v = v@;
    v.insert(j, x.to_owned());
    proof {
        let nt = texts(v@);
        assert(nt =~= old_t.insert(j as int, x@));
        assert forall|a: int, b: int| 0 <= a < b < nt.len() implies before(
            #[trigger] nt[a],
            #[trigger] nt[b],
            desc,
        ) by {
            if b < j {
            } else if a < j && b == j {
            } else if a < j {
                assert(nt[b] == old_t[b - 1]);
            } else if a == j {
                assert(nt[b] == old_t[b - 1]);
            } else {
                assert(nt[a] == old_t[a - 1] && nt[b] == old_t[b - 1]);
            }
        }
        assert forall|t: Seq<char>| nt.contains(t) <==> (old_t.contains(t) || t == x@) by {
            if nt.contains(t) {
                let k = choose|k: int| 0 <= k < nt.len() && nt[k] == t;
                if k < j {
                    assert(old_t[k] == t);
                } else if k > j {
                    assert(old_t[k - 1] == t);
                }
            }
            if old_t.contains(t) {
                let k = choose|k: int| 0 <= k < old_t.len() && old_t[k] == t;
                if k < j {
                    assert(nt[k] == t);
                } else {
                    assert(nt[k + 1] == t);
                }
            }
            if t == x@ {
                assert(nt[j as int] == t);
            }
        }
    }
}

/// Whether some post has the tag `t`.
pub open spec fn post_has_tag(posts: Seq<BlogPost>, t: Seq<char>) -> bool {
    exists|i: int, j: int|
        0 <= i < posts.len() && 0 <= j < posts[i].tags@.len() && #[trigger] posts[i].tags@[j]@ == t
}

/// Every tag of the posts, once each, in string order.
pub fn all_tags(posts: &[BlogPost]) -> (r: Vec<String>)
    ensures
        strictly_ordered(texts(r@), false),
        forall|t: Seq<char>| texts(r@).contains(t) <==> post_has_tag(posts@, t),
{
    let mut r: Vec<String> = Vec::new();
    let mut i: usize = 0;
    while i < posts.len()
        invariant
            i <= posts@.len(),
            strictly_ordered(texts(r@), false),
            forall|t: Seq<char>| texts(r@).contains(t) <==> post_has_tag(posts@.take(i as int), t),
        decreases posts.len() - i,
    {
        let tags = posts[i].tags;
        let mut j: usize = 0;
        while j < tags.len()
            invariant
                i < posts@.len(),
                tags@ == posts@[i as int].tags@,
                j <= tags@.len(),
                strictly_ordered(texts(r@), false),
                forall|t: Seq<char>|
                    texts(r@).contains(t) <==> (post_has_tag(posts@.take(i as int), t) || exists|k: int|
                        0 <= k < j && #[trigger] tags@[k]@ == t),
            decreases tags.len() - j,
        {
            insert_unique(&mut r, tags[j], false);
            j = j + 1;
        }
        proof {
            assert forall|t: Seq<char>| texts(r@).contains(t) <==> post_has_tag(posts@.take(i + 1), t) by {
                let p = posts@.take(i + 1);
                if post_has_tag(p, t) {
                    let (a, b) = choose|a: int, b: int|
                        0 <= a < p.len() && 0 <= b < p[a].tags@.len() && #[trigger] p[a].tags@[b]@ == t;
                    if a < i {
                        assert(posts@.take(i as int)[a] == p[a]);
                        assert(post_has_tag(posts@.take(i as int), t));
                    } else {
                        assert(tags@[b]@ == t);
                    }
                }
                if post_has_tag(posts@.take(i as int), t) {
                    let (a, b) = choose|a: int, b: int|
                        0 <= a < i && 0 <= b < posts@.take(i as int)[a].tags@.len()
                            && #[trigger] posts@.take(i as int)[a].tags@[b]@ == t;
                    assert(p[a] == posts@.take(i as int)[a]);
                    assert(p[a].tags@[b]@ == t);
                }
                if exists|k: int| 0 <= k < tags@.len() && #[trigger] tags@[k]@ == t {
                    let k = choose|k: int| 0 <= k < tags@.len() && #[trigger] tags@[k]@ == t;
                    assert(p[i as int] == posts@[i as int]);
                    assert(p[i as int].tags@[k]@ == t);
                }
            }
        }
        i = i + 1;
    }
    assert(posts@.take(posts@.len() as int) =~= posts@);
    r
}

/// Whether some post's date starts with the four bytes `y`.
pub open spec fn post_year(posts: Seq<BlogPost>, y: Seq<char>) -> bool {
    exists|i: int| 0 <= i < posts.len() && byte_prefix(#[trigger] posts[i].date@, 4) == Some(y)
}

/// The years of the posts (the first four bytes of their dates), once each,
/// latest first.
pub fn all_years(posts: &[BlogPost]) -> (r: Vec<String>)
    ensures
        strictly_ordered(texts(r@), true),
        forall|t: Seq<char>| texts(r@).contains(t) <==> post_year(posts@, t),
{
    let mut r: Vec<String> = Vec::new();
    let mut i: usize = 0;
    while i < posts.len()
        invariant
            i <= posts@.len(),
            strictly_ordered(texts(r@), true),
            forall|t: Seq<char>| texts(r@).contains(t) <==> post_year(posts@.take(i as int), t),
        decreases posts.len() - i,
    {
        let d = to_chars(posts[i].date);
        match byte_prefix_len(&d, 4) {
            Some(k) => {
                let y = string_of(&d, 0, k);
                assert(d@.subrange(0, k as int) =~= d@.take(k as int));
                insert_unique(&mut r, y.as_str(), true);
            },
            None => {},
        }
        proof {
            assert forall|t: Seq<char>| texts(r@).contains(t) <==> post_year(posts@.take(i + 1), t) by {
                let p = posts@.take(i + 1);
                if post_year(p, t) {
                    let a = choose|a: int| 0 <= a < p.len() && byte_prefix(#[trigger] p[a].date@, 4) == Some(t);
                    if a < i {
                        assert(posts@.take(i as int)[a] == p[a]);
                        assert(post_year(posts@.take(i as int), t));
                    }
                }
                if post_year(posts@.take(i as int), t) {
                    let a = choose|a: int|
                        0 <= a < i && byte_prefix(#[trigger] posts@.take(i as int)[a].date@, 4) == Some(t);
                    assert(p[a] == posts@.take(i as int)[a]);
                }
                if byte_prefix(posts@[i as int].date@, 4) == Some(t) {
                    assert(p[i as int] == posts@[i as int]);
                }
            }
        }
        i = i + 1;
    }
    assert(posts@.take(posts@.len() as int) =~= posts@);
    r
}

} // verus!
