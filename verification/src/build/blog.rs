//! Blog post collection and Rust code generation.
//!
//! Turns parsed TOML frontmatter and Markdown bodies into [`Post`]s and
//! emits a `static POSTS: &[BlogPost]` array for inclusion in the site.

use vstd::prelude::*;

use crate::sort::{insert_point, lemma_insert_at, lemma_sort_by, sort_by, sorted_by, total_preorder};
use crate::text::{lemma_lex_le_total_order, lex_le, str_le};
use crate::build::markdown::{
    count_tab_groups, lemma_pymdownx_counter_offset, markdown_html, postprocess_pymdownx,
    pymdownx, render,
};
use crate::text::{
    lemma_split_on_len, split_on,
    debug_literal, debug_str, starts_with, starts_with_at, decimal, find, find_in, lemma_lead_trail_len, push_char, push_decimal, to_chars,
    lead_len, trail_len, trim, trim_end, trim_end_range, trim_range, trim_start, trim_start_range,
};

verus! {

broadcast use vstd::string::group_string_axioms;

// ─── Slugs ───────────────────────────────────────────────────────────────────

/// `c` is an ASCII digit.
pub open spec fn is_ascii_digit(c: char) -> bool {
    '0' <= c && c <= '9'
}

/// `c` is an ASCII letter or digit.
pub open spec fn is_ascii_alnum(c: char) -> bool {
    is_ascii_digit(c) || ('a' <= c && c <= 'z') || ('A' <= c && c <= 'Z')
}

/// The ASCII lower-case form of `c`.
pub open spec fn ascii_lower(c: char) -> char {
    if 'A' <= c && c <= 'Z' {
        ((c as u32) + 32) as char
    } else {
        c
    }
}

/// The slug character standing for `c`: lower-cased ASCII alphanumerics,
/// `-` for everything else.
pub open spec fn slug_char(c: char) -> char {
    if is_ascii_alnum(c) {
        ascii_lower(c)
    } else {
        '-'
    }
}

/// `s` begins with a `NN-NN ` date prefix followed by at least one character.
pub open spec fn has_date_prefix(s: Seq<char>) -> bool {
    &&& s.len() > 6
    &&& is_ascii_digit(s[0]) && is_ascii_digit(s[1])
    &&& s[2] == '-'
    &&& is_ascii_digit(s[3]) && is_ascii_digit(s[4])
    &&& s[5] == ' '
}

/// The stem with its `NN-NN ` date prefix removed, if it has one.
pub open spec fn short_stem(s: Seq<char>) -> Seq<char> {
    if has_date_prefix(s) {
        s.skip(6)
    } else {
        s
    }
}

/// The non-empty pieces, in order.
pub open spec fn nonempty(ps: Seq<Seq<char>>) -> Seq<Seq<char>>
    decreases ps.len(),
{
    if ps.len() == 0 {
        Seq::empty()
    } else if ps.last().len() > 0 {
        nonempty(ps.drop_last()).push(ps.last())
    } else {
        nonempty(ps.drop_last())
    }
}

/// The pieces joined with `-` (`[..].join("-")`).
pub open spec fn join_dash(ps: Seq<Seq<char>>) -> Seq<char>
    decreases ps.len(),
{
    if ps.len() == 0 {
        Seq::empty()
    } else if ps.len() == 1 {
        ps[0]
    } else {
        join_dash(ps.drop_last()) + seq!['-'] + ps.last()
    }
}

/// The URL slug of a file stem: date prefix dropped, ASCII alphanumerics
/// lower-cased, every run of other characters turned into a single `-`,
/// with no `-` at either end.
pub open spec fn slug_of_stem(stem: Seq<char>) -> Seq<char> {
    join_dash(nonempty(split_on(short_stem(stem).map_values(|c: char| slug_char(c)), '-')))
}

/// Joining one more piece.
pub proof fn lemma_join_push(x: Seq<Seq<char>>, p: Seq<char>)
    ensures
        join_dash(x.push(p)) == (if x.len() == 0 {
            p
        } else {
            join_dash(x) + seq!['-'] + p
        }),
{
    assert(x.push(p).drop_last() =~= x);
    if x.len() == 0 {
        assert(x.push(p)[0] == p);
    }
}

/// Filtering one more piece.
pub proof fn lemma_nonempty_push(x: Seq<Seq<char>>, p: Seq<char>)
    ensures
        nonempty(x.push(p)) == (if p.len() > 0 {
            nonempty(x).push(p)
        } else {
            nonempty(x)
        }),
{
    assert(x.push(p).drop_last() =~= x);
}

/// `c` may appear inside a slug word: an ASCII lower-case letter or digit.
pub open spec fn slug_word_char(c: char) -> bool {
    is_ascii_digit(c) || ('a' <= c && c <= 'z')
}

/// `s` is a well-formed slug: lower-case ASCII words joined by single `-`,
/// with no `-` at either end.
pub open spec fn well_formed_slug(s: Seq<char>) -> bool {
    &&& forall|i: int| 0 <= i < s.len() ==> slug_word_char(#[trigger] s[i]) || s[i] == '-'
    &&& s.len() > 0 ==> s[0] != '-' && s.last() != '-'
    &&& forall|i: int| 0 <= i < s.len() - 1 ==> !(#[trigger] s[i] == '-' && s[i + 1] == '-')
}

/// Every piece of `split_on(s, sep)` is free of `sep` and made of
/// characters of `s`.
proof fn lemma_split_pieces(s: Seq<char>, sep: char, ok: spec_fn(char) -> bool)
    requires
        forall|i: int| 0 <= i < s.len() && s[i] != sep ==> ok(#[trigger] s[i]),
    ensures
        forall|k: int, j: int|
            0 <= k < split_on(s, sep).len() && 0 <= j < split_on(s, sep)[k].len() ==> ok(
                #[trigger] split_on(s, sep)[k][j],
            ) && split_on(s, sep)[k][j] != sep,
    decreases s.len(),
{
    lemma_split_on_len(s, sep);
    if s.len() > 0 {
        let t = s.drop_last();
        assert forall|i: int| 0 <= i < t.len() && t[i] != sep implies ok(#[trigger] t[i]) by {
            assert(t[i] == s[i]);
        }
        lemma_split_pieces(t, sep, ok);
        lemma_split_on_len(t, sep);
        let ps = split_on(t, sep);
        assert forall|k: int, j: int|
            0 <= k < split_on(s, sep).len() && 0 <= j < split_on(s, sep)[k].len() implies ok(
            #[trigger] split_on(s, sep)[k][j],
        ) && split_on(s, sep)[k][j] != sep by {
            if s.last() != sep && k == ps.len() - 1 && j == ps[k].len() {
                assert(split_on(s, sep)[k] == ps.last().push(s.last()));
                assert(ok(s[s.len() - 1]));
            } else if s.last() != sep && k == ps.len() - 1 {
                assert(split_on(s, sep)[k][j] == ps[k][j]);
            } else if k < ps.len() {
                assert(split_on(s, sep)[k] == ps[k]);
            }
        }
    }
}

/// The non-empty pieces are pieces.
proof fn lemma_nonempty_pieces(ps: Seq<Seq<char>>, ok: spec_fn(char) -> bool)
    requires
        forall|k: int, j: int| 0 <= k < ps.len() && 0 <= j < ps[k].len() ==> ok(#[trigger] ps[k][j]),
    ensures
        forall|k: int| 0 <= k < nonempty(ps).len() ==> #[trigger] nonempty(ps)[k].len() > 0,
        forall|k: int, j: int|
            0 <= k < nonempty(ps).len() && 0 <= j < nonempty(ps)[k].len() ==> ok(
                #[trigger] nonempty(ps)[k][j],
            ),
    decreases ps.len(),
{
    if ps.len() > 0 {
        let t = ps.drop_last();
        assert forall|k: int, j: int| 0 <= k < t.len() && 0 <= j < t[k].len() implies ok(
            #[trigger] t[k][j],
        ) by {
            assert(t[k] == ps[k]);
        }
        lemma_nonempty_pieces(t, ok);
        assert forall|k: int, j: int|
            0 <= k < nonempty(ps).len() && 0 <= j < nonempty(ps)[k].len() implies ok(
            #[trigger] nonempty(ps)[k][j],
        ) by {
            if ps.last().len() > 0 && k == nonempty(t).len() {
                assert(nonempty(ps)[k] == ps[ps.len() - 1]);
            } else {
                assert(nonempty(ps)[k] == nonempty(t)[k]);
            }
        }
        assert forall|k: int| 0 <= k < nonempty(ps).len() implies #[trigger] nonempty(ps)[k].len() > 0 by {
            if ps.last().len() > 0 && k == nonempty(t).len() {
            } else {
                assert(nonempty(ps)[k] == nonempty(t)[k]);
            }
        }
    }
}

/// Joining non-empty words of slug characters gives a well-formed slug.
proof fn lemma_join_well_formed(ps: Seq<Seq<char>>)
    requires
        forall|k: int| 0 <= k < ps.len() ==> #[trigger] ps[k].len() > 0,
        forall|k: int, j: int| 0 <= k < ps.len() && 0 <= j < ps[k].len() ==> slug_word_char(#[trigger] ps[k][j]),
    ensures
        well_formed_slug(join_dash(ps)),
        ps.len() > 0 ==> join_dash(ps).len() > 0,
    decreases ps.len(),
{
    if ps.len() == 1 {
        assert(join_dash(ps) == ps[0]);
        assert forall|i: int| 0 <= i < ps[0].len() implies slug_word_char(#[trigger] ps[0][i]) by {
        }
    } else if ps.len() > 1 {
        let t = ps.drop_last();
        assert forall|k: int| 0 <= k < t.len() implies #[trigger] t[k].len() > 0 by {
            assert(t[k] == ps[k]);
        }
        assert forall|k: int, j: int| 0 <= k < t.len() && 0 <= j < t[k].len() implies slug_word_char(
            #[trigger] t[k][j],
        ) by {
            assert(t[k] == ps[k]);
        }
        lemma_join_well_formed(t);
        let a = join_dash(t);
        let p = ps.last();
        let r = a + seq!['-'] + p;
        assert(join_dash(ps) == r);
        assert(p.len() > 0 && slug_word_char(p[0]) && slug_word_char(p[p.len() - 1])) by {
            assert(p == ps[ps.len() - 1]);
        }
        assert forall|i: int| 0 <= i < r.len() implies slug_word_char(#[trigger] r[i]) || r[i] == '-' by {
            if i >= a.len() + 1 {
                assert(r[i] == p[i - a.len() - 1]);
                assert(slug_word_char(ps[ps.len() - 1][i - a.len() - 1]));
            } else if i < a.len() {
                assert(r[i] == a[i]);
            }
        }
        assert forall|i: int| 0 <= i < r.len() - 1 implies !(#[trigger] r[i] == '-' && r[i + 1] == '-') by {
            if i < a.len() - 1 {
                assert(r[i] == a[i] && r[i + 1] == a[i + 1]);
            } else if i == a.len() - 1 {
                assert(r[i] == a.last());
            } else if i == a.len() {
                assert(r[i + 1] == p[0]);
            } else {
                assert(r[i] == p[i - a.len() - 1]);
                assert(slug_word_char(ps[ps.len() - 1][i - a.len() - 1]));
            }
        }
        assert(r[0] == a[0]);
        assert(r.last() == p.last());
    }
}

/// Law: a slug derived from a file stem is always well formed: lower-case
/// ASCII letters and digits in words joined by single hyphens, with no
/// hyphen at either end.
pub proof fn lemma_slug_well_formed(stem: Seq<char>)
    ensures
        well_formed_slug(slug_of_stem(stem)),
{
    let mapped = short_stem(stem).map_values(|c: char| slug_char(c));
    let ok = |c: char| slug_word_char(c);
    assert forall|i: int| 0 <= i < mapped.len() && mapped[i] != '-' implies ok(#[trigger] mapped[i]) by {
        let c = short_stem(stem)[i];
        if 'A' <= c && c <= 'Z' {
            assert(((c as u32) + 32) as char >= 'a');
        }
    }
    lemma_split_pieces(mapped, '-', ok);
    let ps = split_on(mapped, '-');
    lemma_nonempty_pieces(ps, ok);
    lemma_join_well_formed(nonempty(ps));
}

/// Whether `c` is an ASCII digit.
fn ascii_digit(c: char) -> (b: bool)
    ensures
        b == is_ascii_digit(c),
{
    '0' <= c && c <= '9'
}

/// The slug character standing for `c`.
fn slug_char_of(c: char) -> (r: char)
    ensures
        r == slug_char(c),
{
    if 'A' <= c && c <= 'Z' {
        let u = c as u32 + 32;
        char_from(u)
    } else if ('a' <= c && c <= 'z') || ('0' <= c && c <= '9') {
        c
    } else {
        '-'
    }
}

/// The character with code `u` for an ASCII lower-case letter.
fn char_from(u: u32) -> (c: char)
    requires
        97 <= u <= 122,
    ensures
        c == u as char,
{
    let b = u as u8;
    b as char
}

/// Derive a URL slug from a file stem (the file name without extension).
///
/// A numeric date prefix of the form `NN-NN ` (e.g. `01-15 `) is stripped;
/// then ASCII letters and digits are kept lower-cased and every run of other
/// characters becomes one `-`, with none at either end.
pub fn slug_from_stem(stem: &str) -> (slug: String)
    ensures
        slug@ == slug_of_stem(stem@),
{
    let v = to_chars(stem);
    let start: usize = if v.len() > 6 && ascii_digit(v[0]) && ascii_digit(v[1]) && v[2] == '-'
        && ascii_digit(v[3]) && ascii_digit(v[4]) && v[5] == ' ' {
        6
    } else {
        0
    };
    let ghost m = short_stem(stem@).map_values(|c: char| slug_char(c));
    proof {
        assert(short_stem(stem@) =~= v@.skip(start as int));
    }
    let mut out = String::new();
    let mut any = false;
    let mut cur: Vec<char> = Vec::new();
    let mut i = start;
    proof {
        assert(m.take(0) =~= Seq::<char>::empty());
        assert(split_on(m.take(0), '-') =~= seq![Seq::<char>::empty()]);
        assert(split_on(m.take(0), '-').drop_last() =~= Seq::<Seq<char>>::empty());
    }
    while i < v.len()
        invariant
            start <= i <= v@.len(),
            v@ == stem@,
            m == short_stem(stem@).map_values(|c: char| slug_char(c)),
            m.len() == v@.len() - start,
            forall|k: int| 0 <= k < m.len() ==> m[k] == slug_char(v@[start + k]),
            split_on(m.take(i - start), '-').len() >= 1,
            cur@ == split_on(m.take(i - start), '-').last(),
            out@ == join_dash(nonempty(split_on(m.take(i - start), '-').drop_last())),
            any == (nonempty(split_on(m.take(i - start), '-').drop_last()).len() > 0),
        decreases v.len() - i,
    {
        let c = slug_char_of(v[i]);
        let ghost pre = m.take(i - start);
        let ghost next = m.take(i + 1 - start);
        proof {
            assert(next.drop_last() =~= pre);
            assert(next.last() == c);
            lemma_split_on_len(pre, '-');
        }
        if c == '-' {
            if cur.len() > 0 {
                if any {
                    push_char(&mut out, '-');
                }
                let mut k: usize = 0;
                let ghost before = out@;
                while k < cur.len()
                    invariant
                        k <= cur@.len(),
                        out@ == before + cur@.take(k as int),
                    decreases cur.len() - k,
                {
                    push_char(&mut out, cur[k]);
                    assert(cur@.take(k + 1) =~= cur@.take(k as int).push(cur@[k as int]));
                    k = k + 1;
                }
                assert(cur@.take(cur@.len() as int) =~= cur@);
                any = true;
            }
            proof {
                let ps = split_on(pre, '-');
                assert(split_on(next, '-') == ps.push(Seq::empty()));
                assert(split_on(next, '-').drop_last() =~= ps);
                assert(ps =~= ps.drop_last().push(ps.last()));
                lemma_nonempty_push(ps.drop_last(), ps.last());
                lemma_join_push(nonempty(ps.drop_last()), ps.last());
                assert(split_on(next, '-').last() =~= Seq::<char>::empty());
            }
            cur = Vec::new();
        } else {
            cur.push(c);
            proof {
                let ps = split_on(pre, '-');
                assert(split_on(next, '-') == ps.update(ps.len() - 1, ps.last().push(c)));
                assert(split_on(next, '-').drop_last() =~= ps.drop_last());
            }
        }
        i = i + 1;
    }
    proof {
        assert(m.take(i - start) =~= m);
        lemma_split_on_len(m, '-');
    }
    if cur.len() > 0 {
        if any {
            push_char(&mut out, '-');
        }
        let mut k: usize = 0;
        let ghost before = out@;
        while k < cur.len()
            invariant
                k <= cur@.len(),
                out@ == before + cur@.take(k as int),
            decreases cur.len() - k,
        {
            push_char(&mut out, cur[k]);
            assert(cur@.take(k + 1) =~= cur@.take(k as int).push(cur@[k as int]));
            k = k + 1;
        }
        assert(cur@.take(cur@.len() as int) =~= cur@);
    }
    proof {
        let ps = split_on(m, '-');
        assert(ps =~= ps.drop_last().push(ps.last()));
        lemma_nonempty_push(ps.drop_last(), ps.last());
        lemma_join_push(nonempty(ps.drop_last()), ps.last());
    }
    out
}

/// What `Path::new(path).file_stem()` read as UTF-8 gives for the path text
/// `path`: the final component without its extension, if there is one and
/// it is valid UTF-8.
pub uninterp spec fn file_stem_text(path: Seq<char>) -> Option<Seq<char>>;

/// The file stem of the path `path` (`Path::file_stem` then `OsStr::to_str`).
///
/// Trusted: std's path parsing; the result is `file_stem_text` of the path
/// text, a function of the text alone.
#[verifier::external_body]
fn path_file_stem(path: &str) -> (stem: Option<String>)
    ensures
        match stem {
            Some(s) => file_stem_text(path@) == Some(s@),
            None => file_stem_text(path@) is None,
        },
{
    match std::path::Path::new(path).file_stem() {
        Some(s) => s.to_str().map(str::to_owned),
        None => None,
    }
}

/// The slug derived for a post at `path`: the frontmatter's slug when given,
/// else the slug of the file stem (of the empty text when the path has no
/// UTF-8 stem).
pub open spec fn derived_slug(path: Seq<char>, fm_slug: Option<Seq<char>>) -> Seq<char> {
    match fm_slug {
        Some(s) => s,
        None => slug_of_stem(
            match file_stem_text(path) {
                Some(st) => st,
                None => Seq::empty(),
            },
        ),
    }
}

/// Derive a URL slug from a file path or an explicit frontmatter override.
///
/// If no slug is supplied, the file stem is used (empty when the path has no
/// UTF-8 stem) and passed through [`slug_from_stem`].
pub fn derive_slug(path: &str, fm_slug: Option<&str>) -> (slug: String)
    ensures
        slug@ == derived_slug(
            path@,
            match fm_slug {
                Some(s) => Some(s@),
                None => None,
            },
        ),
{
    match fm_slug {
        Some(s) => s.to_owned(),
        None => {
            let stem = match path_file_stem(path) {
                Some(st) => st,
                None => String::new(),
            };
            slug_from_stem(stem.as_str())
        },
    }
}

// ─── Headings and excerpts ───────────────────────────────────────────────────

/// The opening tag prefix `<hN` of a level-`n` heading.
pub open spec fn heading_open(n: nat) -> Seq<char> {
    "<h"@ + decimal(n)
}

/// The closing tag `</hN>` of a level-`n` heading.
pub open spec fn heading_close(n: nat) -> Seq<char> {
    "</h"@ + decimal(n) + ">"@
}

/// Rejoin the text around a removed heading: the non-empty side alone, or
/// both sides separated by a newline.
pub open spec fn rejoin(prefix: Seq<char>, suffix: Seq<char>) -> Seq<char> {
    if prefix.len() == 0 {
        suffix
    } else if suffix.len() == 0 {
        prefix
    } else {
        prefix + "\n"@ + suffix
    }
}

/// Remove every level-`n` heading element from `s`, first to last, stopping
/// at the first `<hN` that is not a heading tag or has no closing tag.
pub open spec fn strip_level(s: Seq<char>, n: nat) -> Seq<char>
    decreases s.len(),
{
    let open = heading_open(n);
    let close = heading_close(n);
    match find(s, open) {
        None => s,
        Some(start) => {
            let after = s.skip(start + open.len());
            if !(after.len() > 0 && (after[0] == '>' || after[0] == ' ')) {
                s
            } else {
                match find(s.skip(start), close) {
                    None => s,
                    Some(rel_end) => {
                        let end = start + rel_end + close.len();
                        let next = rejoin(trim_end(s.take(start)), trim_start(s.skip(end)));
                        proof {
                            lemma_strip_step_shrinks(s, n, start, rel_end);
                        }
                        strip_level(next, n)
                    },
                }
            }
        },
    }
}

/// The heading levels `1..=k` removed in turn.
pub open spec fn strip_levels(s: Seq<char>, k: nat) -> Seq<char>
    decreases k,
{
    if k == 0 {
        s
    } else {
        strip_level(strip_levels(s, (k - 1) as nat), k)
    }
}

/// `html` with all heading elements `<h1>`–`<h6>` removed, trimmed.
pub open spec fn without_headings(html: Seq<char>) -> Seq<char> {
    trim(strip_levels(html, 6))
}

/// Removing one heading shortens the text.
pub proof fn lemma_strip_step_shrinks(s: Seq<char>, n: nat, start: int, rel_end: int)
    requires
        find(s, heading_open(n)) == Some(start),
        find(s.skip(start), heading_close(n)) == Some(rel_end),
    ensures
        rejoin(
            trim_end(s.take(start)),
            trim_start(s.skip(start + rel_end + heading_close(n).len())),
        ).len() < s.len(),
{
    crate::text::lemma_find_from(s, heading_open(n), 0);
    crate::text::lemma_find_from(s.skip(start), heading_close(n), 0);
    reveal_strlit("</h");
    reveal_strlit(">");
    reveal_strlit("\n");
    let end = start + rel_end + heading_close(n).len();
    let p = s.take(start);
    let q = s.skip(end);
    lemma_lead_trail_len(p, |c: char| crate::text::is_ws(c));
    lemma_lead_trail_len(q, |c: char| crate::text::is_ws(c));
}

/// The excerpt of a post: the HTML before the first `<!-- more -->` marker
/// (trimmed, headings removed); else `<p>description</p>`; else the first
/// `<p>…</p>` paragraph; else the whole body.
pub open spec fn excerpt(body: Seq<char>, description: Option<Seq<char>>) -> Seq<char> {
    match find(body, "<!-- more -->"@) {
        Some(pos) => without_headings(trim(body.take(pos))),
        None => match description {
            Some(d) => "<p>"@ + d + "</p>"@,
            None => match find(body, "<p>"@) {
                Some(start) => match find(body.skip(start), "</p>"@) {
                    Some(rel_end) => body.subrange(start, start + rel_end + "</p>"@.len()),
                    None => body,
                },
                None => body,
            },
        },
    }
}

/// Remove the level-`n` headings from `s`.
fn strip_level_exec(s: Vec<char>, n: u64) -> (r: Vec<char>)
    ensures
        r@ == strip_level(s@, n as nat),
{
    let mut open = String::new();
    open.append("<h");
    push_decimal(&mut open, n);
    let mut close = String::new();
    close.append("</h");
    push_decimal(&mut close, n);
    close.append(">");
    let open = to_chars(open.as_str());
    let close = to_chars(close.as_str());
    let ghost target = strip_level(s@, n as nat);
    let mut cur = s;
    loop
        invariant
            open@ == heading_open(n as nat),
            close@ == heading_close(n as nat),
            target == strip_level(s@, n as nat),
            strip_level(cur@, n as nat) == target,
        decreases cur@.len(),
    {
        let start = match find_in(&cur, 0, &open) {
            Some(k) => k,
            None => {
                proof {
                    assert(cur@.skip(0) =~= cur@);
                }
                return cur;
            },
        };
        proof {
            assert(cur@.skip(0) =~= cur@);
        }
        let a = start + open.len();
        if !(a < cur.len() && (cur[a] == '>' || cur[a] == ' ')) {
            return cur;
        }
        let rel_end = match find_in(&cur, start, &close) {
            Some(k) => k,
            None => {
                return cur;
            },
        };
        let end = start + rel_end + close.len();
        let p_end = trim_end_range(&cur, 0, start);
        let q_start = trim_start_range(&cur, end, cur.len());
        let ghost old_cur = cur@;
        let mut next: Vec<char> = Vec::new();
        let mut i: usize = 0;
        while i < p_end
            invariant
                i <= p_end <= start <= cur@.len(),
                next@ == cur@.subrange(0, i as int),
            decreases p_end - i,
        {
            next.push(cur[i]);
            assert(next@ =~= cur@.subrange(0, i + 1));
            i = i + 1;
        }
        if p_end > 0 && q_start < cur.len() {
            next.push('\n');
        }
        let ghost mid = next@;
        let mut j: usize = q_start;
        while j < cur.len()
            invariant
                q_start <= j <= cur@.len(),
                next@ == mid + cur@.subrange(q_start as int, j as int),
            decreases cur.len() - j,
        {
            next.push(cur[j]);
            assert(next@ =~= mid + cur@.subrange(q_start as int, j + 1));
            j = j + 1;
        }
        proof {
            reveal_strlit("\n");
            assert(cur@.take(start as int) =~= cur@.subrange(0, start as int));
            assert(cur@.skip(end as int) =~= cur@.subrange(end as int, cur@.len() as int));
            let p = trim_end(cur@.take(start as int));
            let q = trim_start(cur@.skip(end as int));
            assert(p =~= cur@.subrange(0, p_end as int));
            assert(q =~= cur@.subrange(q_start as int, cur@.len() as int));
            assert(next@ =~= rejoin(p, q));
            lemma_strip_step_shrinks(old_cur, n as nat, start as int, rel_end as int);
        }
        cur = next;
    }
}

/// Remove all heading elements (`<h1>`–`<h6>`) from an HTML string.
pub fn strip_headings(html: &str) -> (out: String)
    ensures
        out@ == without_headings(html@),
{
    let mut cur = to_chars(html);
    let mut n: u64 = 1;
    while n <= 6
        invariant
            1 <= n <= 7,
            cur@ == strip_levels(html@, (n - 1) as nat),
        decreases 7 - n,
    {
        cur = strip_level_exec(cur, n);
        n = n + 1;
    }
    let (a, b) = trim_range(&cur, 0, cur.len());
    assert(cur@.subrange(0, cur@.len() as int) =~= cur@);
    crate::text::string_of(&cur, a, b)
}

/// Extract the excerpt HTML from a post's rendered body.
///
/// Resolution order:
/// 1. HTML up to the first `<!-- more -->` marker (headings stripped).
/// 2. `<p>description</p>` if a description is provided in frontmatter.
/// 3. The first `<p>…</p>` paragraph in the body.
/// 4. The full body as a fallback.
pub fn split_excerpt(body_html: &str, description: Option<&str>) -> (out: String)
    ensures
        out@ == excerpt(
            body_html@,
            match description {
                Some(d) => Some(d@),
                None => None,
            },
        ),
{
    let h = to_chars(body_html);
    let more = to_chars("<!-- more -->");
    proof {
        assert(h@.skip(0) =~= h@);
    }
    if let Some(pos) = find_in(&h, 0, &more) {
        let (a, b) = trim_range(&h, 0, pos);
        let part = crate::text::string_of(&h, a, b);
        proof {
            assert(h@.subrange(0, pos as int) =~= h@.take(pos as int));
        }
        return strip_headings(part.as_str());
    }
    if let Some(desc) = description {
        let mut out = String::new();
        out.append("<p>");
        out.append(desc);
        out.append("</p>");
        return out;
    }
    let p_open = to_chars("<p>");
    let p_close = to_chars("</p>");
    if let Some(start) = find_in(&h, 0, &p_open) {
        if let Some(rel_end) = find_in(&h, start, &p_close) {
            return crate::text::string_of(&h, start, start + rel_end + p_close.len());
        }
    }
    body_html.to_owned()
}

// ─── Frontmatter and posts ───────────────────────────────────────────────────

/// TOML frontmatter fields for a blog post.
pub struct Frontmatter {
    /// Post title shown in listings and the post header.
    pub title: String,
    /// Publication date, as the text of the TOML datetime (e.g. `2025-01-14`).
    pub date: String,
    /// Optional short description used as the excerpt when no `<!-- more -->` marker exists.
    pub description: Option<String>,
    /// Optional URL pointing to the original source of the post.
    pub source: Option<String>,
    /// Classification tags for the post.
    pub tags: Vec<String>,
    /// Explicit URL slug; derived from the filename when absent.
    pub slug: Option<String>,
}

/// A fully processed blog post ready for code generation.
pub struct Post {
    /// URL-safe slug used to construct the post's route.
    pub slug: String,
    /// Display title of the post.
    pub title: String,
    /// ISO 8601 date string (from the TOML `Datetime`).
    pub date: String,
    /// Optional short description of the post.
    pub description: Option<String>,
    /// Optional URL to the original source.
    pub source: Option<String>,
    /// Classification tags.
    pub tags: Vec<String>,
    /// HTML excerpt shown in post listings.
    pub excerpt_html: String,
    /// Full HTML body of the post.
    pub body_html: String,
}

/// A Markdown post file as read from disk: its path, its parsed frontmatter
/// and its Markdown body.
pub struct PostSource {
    /// The path of the file.
    pub path: String,
    /// The parsed TOML frontmatter.
    pub frontmatter: Frontmatter,
    /// The Markdown text after the frontmatter.
    pub body_markdown: String,
}

/// The model of a frontmatter.
pub struct FrontmatterModel {
    pub title: Seq<char>,
    pub date: Seq<char>,
    pub description: Option<Seq<char>>,
    pub source: Option<Seq<char>>,
    pub tags: Seq<Seq<char>>,
    pub slug: Option<Seq<char>>,
}

/// The model of a post.
pub struct PostModel {
    pub slug: Seq<char>,
    pub title: Seq<char>,
    pub date: Seq<char>,
    pub description: Option<Seq<char>>,
    pub source: Option<Seq<char>>,
    pub tags: Seq<Seq<char>>,
    pub excerpt_html: Seq<char>,
    pub body_html: Seq<char>,
}

/// The model of a post source.
pub struct PostSourceModel {
    pub path: Seq<char>,
    pub frontmatter: FrontmatterModel,
    pub body_markdown: Seq<char>,
}

/// The text of an optional string.
pub open spec fn opt_text(o: Option<String>) -> Option<Seq<char>> {
    match o {
        Some(s) => Some(s@),
        None => None,
    }
}

/// The texts of a list of strings.
pub open spec fn texts(v: Seq<String>) -> Seq<Seq<char>> {
    v.map_values(|s: String| s@)
}

impl View for Frontmatter {
    type V = FrontmatterModel;

    open spec fn view(&self) -> FrontmatterModel {
        FrontmatterModel {
            title: self.title@,
            date: self.date@,
            description: opt_text(self.description),
            source: opt_text(self.source),
            tags: texts(self.tags@),
            slug: opt_text(self.slug),
        }
    }
}

impl View for Post {
    type V = PostModel;

    open spec fn view(&self) -> PostModel {
        PostModel {
            slug: self.slug@,
            title: self.title@,
            date: self.date@,
            description: opt_text(self.description),
            source: opt_text(self.source),
            tags: texts(self.tags@),
            excerpt_html: self.excerpt_html@,
            body_html: self.body_html@,
        }
    }
}

impl View for PostSource {
    type V = PostSourceModel;

    open spec fn view(&self) -> PostSourceModel {
        PostSourceModel {
            path: self.path@,
            frontmatter: self.frontmatter@,
            body_markdown: self.body_markdown@,
        }
    }
}

/// The post built from a source whose Markdown rendered to `raw_html`,
/// numbering its tab groups from `counter`; with the counter after it.
pub open spec fn post_from_html(
    path: Seq<char>,
    fm: FrontmatterModel,
    raw_html: Seq<char>,
    counter: nat,
) -> (PostModel, nat) {
    let (body, c) = pymdownx(raw_html, counter);
    (
        PostModel {
            slug: derived_slug(path, fm.slug),
            title: fm.title,
            date: fm.date,
            description: fm.description,
            source: fm.source,
            tags: fm.tags,
            excerpt_html: excerpt(body, fm.description),
            body_html: body,
        },
        c,
    )
}

/// The number of tab groups a source's Markdown renders to.
pub open spec fn source_tab_groups(src: PostSourceModel) -> nat {
    pymdownx(markdown_html(src.body_markdown), 0).1
}

/// Whether processing `src` from `counter` keeps the counter within `usize`.
pub open spec fn fits_counter(src: PostSourceModel, counter: nat) -> bool {
    counter + source_tab_groups(src) <= usize::MAX
}

/// The posts of the first `n` sources processed in order from `counter`
/// (a source whose tab groups would overflow the counter is skipped), with
/// the final counter.
pub open spec fn collected(srcs: Seq<PostSourceModel>, counter: nat, n: nat) -> (Seq<PostModel>, nat)
    decreases n,
{
    if n == 0 {
        (Seq::empty(), counter)
    } else {
        let (ps, c) = collected(srcs, counter, (n - 1) as nat);
        let src = srcs[n - 1];
        if fits_counter(src, c) {
            let (p, c2) = post_from_html(
                src.path,
                src.frontmatter,
                markdown_html(src.body_markdown),
                c,
            );
            (ps.push(p), c2)
        } else {
            (ps, c)
        }
    }
}

/// Law: processing posts in order only ever advances the shared tab-group
/// counter, each post by exactly the number of tab groups it holds, so that
/// every tab group of every post gets its own number.
pub proof fn lemma_collected_counter(srcs: Seq<PostSourceModel>, counter: nat, m: nat, n: nat)
    requires
        m <= n <= srcs.len(),
    ensures
        collected(srcs, counter, m).1 <= collected(srcs, counter, n).1,
        n > 0 ==> collected(srcs, counter, n).1 == collected(srcs, counter, (n - 1) as nat).1 + (
        if fits_counter(srcs[n - 1], collected(srcs, counter, (n - 1) as nat).1) {
            source_tab_groups(srcs[n - 1])
        } else {
            0
        }),
    decreases n,
{
    if n > 0 {
        let c = collected(srcs, counter, (n - 1) as nat).1;
        lemma_pymdownx_counter_offset(markdown_html(srcs[n - 1].body_markdown), c);
        if m < n {
            lemma_collected_counter(srcs, counter, m, (n - 1) as nat);
        }
    }
}

/// Copy an optional string.
fn clone_opt(o: &Option<String>) -> (r: Option<String>)
    ensures
        opt_text(r) == opt_text(*o),
{
    match o {
        Some(s) => Some(s.clone()),
        None => None,
    }
}

/// Copy a list of strings.
fn clone_texts(v: &Vec<String>) -> (r: Vec<String>)
    ensures
        texts(r@) == texts(v@),
{
    let mut r: Vec<String> = Vec::new();
    let mut i: usize = 0;
    while i < v.len()
        invariant
            i <= v@.len(),
            texts(r@) == texts(v@.take(i as int)),
        decreases v.len() - i,
    {
        let ghost before = r@;
        let c = v[i].clone();
        r.push(c);
        assert(r@ =~= before.push(c));
        assert(v@.take(i + 1) =~= v@.take(i as int).push(v@[i as int]));
        assert(texts(before.push(c)) =~= texts(before).push(c@));
        assert(texts(v@.take(i as int).push(v@[i as int])) =~= texts(v@.take(i as int)).push(v@[i as int]@));
        assert(texts(r@) =~= texts(v@.take(i + 1)));
        i = i + 1;
    }
    assert(v@.take(v@.len() as int) =~= v@);
    r
}

/// Build the [`Post`] for a source whose Markdown rendered to `raw_html`.
pub fn finish_post(path: &str, fm: &Frontmatter, raw_html: &str, tab_counter: &mut usize) -> (post: Post)
    requires
        pymdownx(raw_html@, *old(tab_counter) as nat).1 <= usize::MAX,
    ensures
        (post@, *final(tab_counter) as nat) == post_from_html(
            path@,
            fm@,
            raw_html@,
            *old(tab_counter) as nat,
        ),
{
    let slug = match &fm.slug {
        Some(s) => derive_slug(path, Some(s.as_str())),
        None => derive_slug(path, None),
    };
    let body_html = postprocess_pymdownx(raw_html, tab_counter);
    let excerpt_html = match &fm.description {
        Some(d) => split_excerpt(body_html.as_str(), Some(d.as_str())),
        None => split_excerpt(body_html.as_str(), None),
    };
    Post {
        slug,
        title: fm.title.clone(),
        date: fm.date.clone(),
        description: clone_opt(&fm.description),
        source: clone_opt(&fm.source),
        tags: clone_texts(&fm.tags),
        excerpt_html,
        body_html,
    }
}

/// Parse a single Markdown post into a [`Post`]: derive the slug, render
/// the Markdown, post-process PyMdown blocks and extract the excerpt.
///
/// Returns `None` when numbering the post's tab groups from `tab_counter`
/// would overflow the counter.
pub fn process_file(src: &PostSource, tab_counter: &mut usize) -> (post: Option<Post>)
    ensures
        fits_counter(src@, *old(tab_counter) as nat) ==> (post matches Some(p) && (
            p@,
            *final(tab_counter) as nat,
        ) == post_from_html(
            src@.path,
            src@.frontmatter,
            markdown_html(src@.body_markdown),
            *old(tab_counter) as nat,
        )),
        !fits_counter(src@, *old(tab_counter) as nat) ==> post is None && *final(tab_counter)
            == *old(tab_counter),
{
    let raw_html = render(src.body_markdown.as_str());
    let groups = count_tab_groups(raw_html.as_str());
    if groups > usize::MAX - *tab_counter {
        return None;
    }
    proof {
        lemma_pymdownx_counter_offset(raw_html@, *tab_counter as nat);
    }
    Some(finish_post(src.path.as_str(), &src.frontmatter, raw_html.as_str(), tab_counter))
}

/// Process all post sources in order, numbering tab groups across posts.
///
/// A source whose tab groups would overflow the counter is skipped.
pub fn collect_posts(sources: &Vec<PostSource>, tab_counter: &mut usize) -> (posts: Vec<Post>)
    ensures
        (posts@.map_values(|p: Post| p@), *final(tab_counter) as nat) == collected(
            sources@.map_values(|s: PostSource| s@),
            *old(tab_counter) as nat,
            sources@.len(),
        ),
{
    let ghost srcs = sources@.map_values(|s: PostSource| s@);
    let ghost c0 = *tab_counter as nat;
    let mut posts: Vec<Post> = Vec::new();
    let mut i: usize = 0;
    while i < sources.len()
        invariant
            i <= sources@.len(),
            srcs == sources@.map_values(|s: PostSource| s@),
            c0 == *old(tab_counter) as nat,
            (posts@.map_values(|p: Post| p@), *tab_counter as nat) == collected(srcs, c0, i as nat),
        decreases sources.len() - i,
    {
        let ghost before = posts@;
        match process_file(&sources[i], tab_counter) {
            Some(p) => {
                posts.push(p);
                assert(posts@.map_values(|p: Post| p@) =~= before.map_values(|p: Post| p@).push(
                    posts@[before.len() as int]@));
            },
            None => {},
        }
        proof {
            assert(srcs[i as int] == sources@[i as int]@);
        }
        i = i + 1;
    }
    posts
}

// ─── Frontmatter splitting ───────────────────────────────────────────────────

/// The frontmatter text and Markdown body of a post file: the file must
/// start (after leading white space) with a `+++` line, and the frontmatter
/// runs up to the next line that starts with `+++`.
pub open spec fn frontmatter_parts(raw: Seq<char>) -> Option<(Seq<char>, Seq<char>)> {
    let content = trim_start(raw);
    let after_open = if starts_with(content, "+++\n"@) {
        Some(content.skip("+++\n"@.len() as int))
    } else if starts_with(content, "+++\r\n"@) {
        Some(content.skip("+++\r\n"@.len() as int))
    } else {
        None
    };
    match after_open {
        None => None,
        Some(ao) => match find(ao, "\n+++"@) {
            None => None,
            Some(cp) => {
                let rest = ao.skip(cp + "\n+++"@.len());
                let body = if starts_with(rest, "\n"@) {
                    rest.skip("\n"@.len() as int)
                } else if starts_with(rest, "\r\n"@) {
                    rest.skip("\r\n"@.len() as int)
                } else {
                    rest
                };
                Some((ao.take(cp), body))
            },
        },
    }
}

/// Split raw post file content into its TOML frontmatter text and its
/// Markdown body. Frontmatter must be delimited by `+++` lines at the start
/// of the file.
pub fn split_frontmatter(raw_content: &str) -> (r: Option<(String, String)>)
    ensures
        match r {
            Some((fm, body)) => frontmatter_parts(raw_content@) == Some((fm@, body@)),
            None => frontmatter_parts(raw_content@) is None,
        },
{
    let h = to_chars(raw_content);
    let start = trim_start_range(&h, 0, h.len());
    proof {
        assert(h@.subrange(0, h@.len() as int) =~= raw_content@);
        assert(h@.subrange(start as int, h@.len() as int) =~= h@.skip(start as int));
    }
    let open_lf = to_chars("+++\n");
    let open_crlf = to_chars("+++\r\n");
    let ao = if starts_with_at(&h, start, &open_lf) {
        assert(h@.skip(start as int).skip(open_lf@.len() as int) =~= h@.skip(start + open_lf@.len()));
        start + open_lf.len()
    } else if starts_with_at(&h, start, &open_crlf) {
        assert(h@.skip(start as int).skip(open_crlf@.len() as int) =~= h@.skip(start + open_crlf@.len()));
        start + open_crlf.len()
    } else {
        return None;
    };
    let close = to_chars("\n+++");
    let cp = match find_in(&h, ao, &close) {
        Some(cp) => cp,
        None => {
            return None;
        },
    };
    let rest = ao + cp + close.len();
    proof {
        assert(h@.skip(ao as int).skip(cp + close@.len()) =~= h@.skip(rest as int));
        assert(h@.skip(ao as int).take(cp as int) =~= h@.subrange(ao as int, ao + cp));
    }
    let lf = to_chars("\n");
    let crlf = to_chars("\r\n");
    let body_start = if starts_with_at(&h, rest, &lf) {
        assert(h@.skip(rest as int).skip(lf@.len() as int) =~= h@.skip(rest + lf@.len()));
        rest + lf.len()
    } else if starts_with_at(&h, rest, &crlf) {
        assert(h@.skip(rest as int).skip(crlf@.len() as int) =~= h@.skip(rest + crlf@.len()));
        rest + crlf.len()
    } else {
        rest
    };
    let fm = crate::text::string_of(&h, ao, ao + cp);
    let body = crate::text::string_of(&h, body_start, h.len());
    proof {
        assert(h@.subrange(body_start as int, h@.len() as int) =~= h@.skip(body_start as int));
    }
    Some((fm, body))
}

// ─── Code generation ─────────────────────────────────────────────────────────

/// The tag literals of a post, each followed by `, `.
pub open spec fn tags_code(tags: Seq<Seq<char>>, n: nat) -> Seq<char>
    decreases n,
{
    if n == 0 {
        Seq::empty()
    } else {
        tags_code(tags, (n - 1) as nat) + debug_literal(tags[n - 1]) + ", "@
    }
}

/// An optional string field: `Some("…")` or `None`.
pub open spec fn opt_code(name: Seq<char>, o: Option<Seq<char>>) -> Seq<char> {
    match o {
        Some(d) => "        "@ + name + ": Some("@ + debug_literal(d) + "),\n"@,
        None => "        "@ + name + ": None,\n"@,
    }
}

/// The `BlogPost { … }` entry for one post.
pub open spec fn post_code(p: PostModel) -> Seq<char> {
    "    BlogPost {\n"@
        + "        slug: "@ + debug_literal(p.slug) + ",\n"@
        + "        title: "@ + debug_literal(p.title) + ",\n"@
        + "        date: "@ + debug_literal(p.date) + ",\n"@
        + opt_code("description"@, p.description)
        + opt_code("source"@, p.source)
        + "        tags: &["@ + tags_code(p.tags, p.tags.len()) + "],\n"@
        + "        excerpt_html: "@ + debug_literal(p.excerpt_html) + ",\n"@
        + "        body_html: "@ + debug_literal(p.body_html) + ",\n"@
        + "    },\n"@
}

/// The entries of the first `n` posts.
pub open spec fn posts_code(posts: Seq<PostModel>, n: nat) -> Seq<char>
    decreases n,
{
    if n == 0 {
        Seq::empty()
    } else {
        posts_code(posts, (n - 1) as nat) + post_code(posts[n - 1])
    }
}

/// The Rust source defining `POSTS` for the given posts.
pub open spec fn blog_code(posts: Seq<PostModel>) -> Seq<char> {
    "/// Compiled blog posts (generated by the build script from Markdown).\n"@
        + "pub static POSTS: &[BlogPost] = &[\n"@ + posts_code(posts, posts.len()) + "];\n"@
}

/// Append an optional string field.
fn push_opt_field(code: &mut String, name: &str, o: &Option<String>)
    ensures
        final(code)@ == old(code)@ + opt_code(name@, opt_text(*o)),
{
    match o {
        Some(d) => {
            code.append("        ");
            code.append(name);
            code.append(": Some(");
            code.append(debug_str(d.as_str()).as_str());
            code.append("),\n");
        },
        None => {
            code.append("        ");
            code.append(name);
            code.append(": None,\n");
        },
    }
    assert(code@ =~= old(code)@ + opt_code(name@, opt_text(*o)));
}

/// Append the `BlogPost { … }` entry for one post.
fn push_post_code(code: &mut String, post: &Post)
    ensures
        final(code)@ == old(code)@ + post_code(post@),
{
    code.append("    BlogPost {\n");
    code.append("        slug: ");
    code.append(debug_str(post.slug.as_str()).as_str());
    code.append(",\n");
    code.append("        title: ");
    code.append(debug_str(post.title.as_str()).as_str());
    code.append(",\n");
    code.append("        date: ");
    code.append(debug_str(post.date.as_str()).as_str());
    code.append(",\n");
    push_opt_field(code, "description", &post.description);
    push_opt_field(code, "source", &post.source);
    code.append("        tags: &[");
    let ghost before_tags = code@;
    let ghost tags = texts(post.tags@);
    let mut i: usize = 0;
    while i < post.tags.len()
        invariant
            i <= post.tags@.len(),
            tags == texts(post.tags@),
            code@ == before_tags + tags_code(tags, i as nat),
        decreases post.tags.len() - i,
    {
        code.append(debug_str(post.tags[i].as_str()).as_str());
        code.append(", ");
        assert(code@ =~= before_tags + tags_code(tags, (i + 1) as nat));
        i = i + 1;
    }
    code.append("],\n");
    code.append("        excerpt_html: ");
    code.append(debug_str(post.excerpt_html.as_str()).as_str());
    code.append(",\n");
    code.append("        body_html: ");
    code.append(debug_str(post.body_html.as_str()).as_str());
    code.append(",\n");
    code.append("    },\n");
    assert(code@ =~= old(code)@ + post_code(post@));
}

/// Generate a Rust source file containing a `static POSTS: &[BlogPost]` array.
pub fn generate_code(posts: &[Post]) -> (code: String)
    ensures
        code@ == blog_code(posts@.map_values(|p: Post| p@)),
{
    let ghost ms = posts@.map_values(|p: Post| p@);
    let mut code = String::new();
    code.append("/// Compiled blog posts (generated by the build script from Markdown).\n");
    code.append("pub static POSTS: &[BlogPost] = &[\n");
    let ghost start = code@;
    let mut i: usize = 0;
    while i < posts.len()
        invariant
            i <= posts@.len(),
            ms == posts@.map_values(|p: Post| p@),
            code@ == start + posts_code(ms, i as nat),
        decreases posts.len() - i,
    {
        push_post_code(&mut code, &posts[i]);
        assert(code@ =~= start + posts_code(ms, (i + 1) as nat));
        i = i + 1;
    }
    code.append("];\n");
    assert(code@ =~= blog_code(ms));
    code
}

// ─── Ordering ────────────────────────────────────────────────────────────────

/// A post may stay in front of another when its date sorts no earlier.
pub open spec fn newest_post_first() -> spec_fn(Post, Post) -> bool {
    |a: Post, b: Post| lex_le(b.date@, a.date@)
}

/// Law: posts come out ordered by date, latest first, and are exactly the posts given.
pub proof fn lemma_posts_newest_first(items: Seq<Post>)
    ensures
        total_preorder(newest_post_first()),
        sorted_by(sort_by(items, newest_post_first()), newest_post_first()),
        sort_by(items, newest_post_first()).to_multiset() == items.to_multiset(),
{
    assert forall|a: Post, b: Post| #[trigger] newest_post_first()(a, b) || #[trigger] newest_post_first()(b, a) by {
        lemma_lex_le_total_order(a.date@, b.date@, b.date@);
    }
    assert forall|a: Post, b: Post, c: Post|
        #[trigger] newest_post_first()(a, b) && #[trigger] newest_post_first()(b, c) implies newest_post_first()(a, c) by {
        lemma_lex_le_total_order(a.date@, b.date@, c.date@);
        lemma_lex_le_total_order(c.date@, b.date@, a.date@);
    }
    lemma_sort_by(items, newest_post_first());
}

/// Orders posts by date, latest first; posts with the same date keep their order.
pub fn sort_posts_newest_first(items: Vec<Post>) -> (r: Vec<Post>)
    ensures
        r@ == sort_by(items@, newest_post_first()),
{
    let ghost orig = items@;
    let ghost keep = newest_post_first();
    let mut input = items;
    let mut out: Vec<Post> = Vec::new();
    assert(orig.take(0) =~= Seq::<Post>::empty());
    assert(orig.skip(0) =~= orig);
    while input.len() > 0
        invariant
            keep == newest_post_first(),
            input@.len() <= orig.len(),
            input@ == orig.skip(orig.len() - input@.len()),
            out@ == sort_by(orig.take(orig.len() - input@.len()), keep),
        decreases input.len(),
    {
        let ghost k = orig.len() - input@.len();
        let x = input.remove(0);
        assert(x == orig[k]);
        assert(input@ =~= orig.skip(k + 1));
        let mut j = out.len();
        while j > 0 && !str_le(x.date.as_str(), out[j - 1].date.as_str())
            invariant
                j <= out@.len(),
                keep == newest_post_first(),
                forall|m: int| j <= m < out@.len() ==> !keep(#[trigger] out@[m], x),
            decreases j,
        {
            j = j - 1;
        }
        proof {
            assert(insert_point(out@, x, keep, j as int));
            lemma_insert_at(out@, x, keep, j as int);
            assert(orig.take(k + 1).drop_last() =~= orig.take(k));
        }
        out.insert(j, x);
    }
    assert(orig.take(orig.len() as int) =~= orig);
    out
}

// ─── Headings in excerpts ────────────────────────────────────────────────────

/// No occurrence of a needle starting with `<` where the text has no `<`.
proof fn lemma_no_lt_no_match(x: Seq<char>, n: Seq<char>)
    requires
        n.len() > 0,
        n[0] == '<',
        forall|j: int| 0 <= j < x.len() ==> x[j] != '<',
    ensures
        find(x, n) is None,
{
    assert forall|j: int| 0 <= j implies !crate::text::occurs_at(x, j, n) by {
        if crate::text::occurs_at(x, j, n) {
            assert(x.subrange(j, j + n.len())[0] == x[j]);
        }
    }
    crate::text::lemma_find_from_none(x, n, 0);
}

/// Stripping levels from text without `<` changes nothing.
proof fn lemma_strip_levels_plain(x: Seq<char>, k: nat)
    requires
        forall|j: int| 0 <= j < x.len() ==> x[j] != '<',
    ensures
        strip_levels(x, k) == x,
    decreases k,
{
    reveal_strlit("<h");
    if k > 0 {
        lemma_strip_levels_plain(x, (k - 1) as nat);
        lemma_no_lt_no_match(x, heading_open(k));
    }
}

/// The heading element `<hN>t</hN>` followed by the text `p`.
pub open spec fn heading_then(n: nat, t: Seq<char>, p: Seq<char>) -> Seq<char> {
    heading_open(n) + ">"@ + t + heading_close(n) + p
}

/// Stripping the levels `1..=k` from a heading followed by plain text.
proof fn lemma_strip_levels_heading(n: nat, t: Seq<char>, p: Seq<char>, k: nat)
    requires
        1 <= n <= 6,
        k <= 6,
        forall|j: int| 0 <= j < t.len() ==> t[j] != '<',
        forall|j: int| 0 <= j < p.len() ==> p[j] != '<',
        p.len() > 0,
        !crate::text::is_ws(p[0]),
    ensures
        strip_levels(heading_then(n, t, p), k) == if k < n {
            heading_then(n, t, p)
        } else {
            p
        },
    decreases k,
{
    reveal_strlit("<h");
    reveal_strlit("</h");
    reveal_strlit(">");
    reveal_strlit("\n");
    let dg = crate::text::digit(n as int);
    let x = heading_then(n, t, p);
    let tl = t.len() as int;
    assert(decimal(n) == seq![dg]);
    assert(x =~= seq!['<', 'h', dg, '>'] + t + seq!['<', '/', 'h', dg, '>'] + p);
    assert(forall|j: int| 0 <= j < x.len() && x[j] == '<' ==> j == 0 || j == 4 + tl) by {
        assert forall|j: int| 0 <= j < x.len() && x[j] == '<' implies j == 0 || j == 4 + tl by {
            if 4 <= j < 4 + tl {
                assert(x[j] == t[j - 4]);
            } else if j >= 9 + tl {
                assert(x[j] == p[j - 9 - tl]);
            }
        }
    }
    if k > 0 {
        lemma_strip_levels_heading(n, t, p, (k - 1) as nat);
        let prev = strip_levels(x, (k - 1) as nat);
        let dk = crate::text::digit(k as int);
        assert(decimal(k) == seq![dk]);
        let open = heading_open(k);
        assert(open =~= seq!['<', 'h', dk]);
        if k < n {
            // `<hk` does not occur: the `<` are those of `<hn` and `</hn`.
            assert forall|j: int| 0 <= j implies !crate::text::occurs_at(x, j, open) by {
                if crate::text::occurs_at(x, j, open) {
                    assert(x.subrange(j, j + 3) == open);
                    assert(x[j] == '<' && x[j + 1] == 'h' && x[j + 2] == dk);
                }
            }
            crate::text::lemma_find_from_none(x, open, 0);
            assert(prev == x);
            assert(strip_level(x, k) == x);
        } else if k == n {
            let close = heading_close(n);
            assert(close =~= seq!['<', '/', 'h', dg, '>']);
            assert(x.subrange(0, 3) =~= open);
            crate::text::lemma_find_from_unique(x, open, 0, 0);
            let after = x.skip(3);
            assert(after[0] == '>');
            assert(x.skip(0) =~= x);
            assert(x.subrange(4 + tl, 9 + tl) =~= close);
            assert forall|j: int| 0 <= j < 4 + tl implies !crate::text::occurs_at(x, j, close) by {
                if crate::text::occurs_at(x, j, close) {
                    assert(x.subrange(j, j + 5) == close);
                    assert(x[j] == '<' && x[j + 1] == '/');
                }
            }
            crate::text::lemma_find_from_unique(x, close, 0, 4 + tl);
            let end = 9 + tl;
            assert(x.take(0) =~= Seq::<char>::empty());
            assert(x.skip(end) =~= p);
            let ws = |c: char| crate::text::is_ws(c);
            assert(trail_len(Seq::<char>::empty(), ws) == 0);
            assert(trim_end(x.take(0)) =~= Seq::<char>::empty());
            assert(lead_len(p, ws) == 0);
            assert(trim_start(p) =~= p);
            assert(rejoin(trim_end(x.take(0)), trim_start(x.skip(end))) == p);
            lemma_no_lt_no_match(p, open);
            assert(strip_level(p, n) == p);
            assert(prev == x);
            assert(strip_level(x, n) == strip_level(p, n));
        } else {
            lemma_no_lt_no_match(p, open);
            assert(prev == p);
            assert(strip_level(p, k) == p);
        }
    }
}

/// Law: a post whose text before `<!-- more -->` is a heading element
/// `<hN>…</hN>` (N from 1 to 6) followed by plain text gets that text as
/// its excerpt, with the heading removed.
pub proof fn lemma_excerpt_drops_heading(
    n: nat,
    t: Seq<char>,
    p: Seq<char>,
    rest: Seq<char>,
    description: Option<Seq<char>>,
)
    requires
        1 <= n <= 6,
        forall|j: int| 0 <= j < t.len() ==> t[j] != '<',
        forall|j: int| 0 <= j < p.len() ==> p[j] != '<',
        p.len() > 0,
        !crate::text::is_ws(p[0]),
        !crate::text::is_ws(p.last()),
    ensures
        excerpt(heading_then(n, t, p) + "<!-- more -->"@ + rest, description) == p,
{
    reveal_strlit("<h");
    reveal_strlit("</h");
    reveal_strlit(">");
    reveal_strlit("<!-- more -->");
    let dg = crate::text::digit(n as int);
    let x = heading_then(n, t, p);
    let tl = t.len() as int;
    assert(decimal(n) == seq![dg]);
    assert(x =~= seq!['<', 'h', dg, '>'] + t + seq!['<', '/', 'h', dg, '>'] + p);
    let marker = "<!-- more -->"@;
    let body = x + marker + rest;
    let pos = x.len() as int;
    assert(body.subrange(pos, pos + marker.len()) =~= marker);
    assert forall|j: int| 0 <= j < pos implies !crate::text::occurs_at(body, j, marker) by {
        if crate::text::occurs_at(body, j, marker) {
            assert(body.subrange(j, j + marker.len()) == marker);
            assert(marker[0] == '<' && marker[1] == '!');
            assert(body[j] == body.subrange(j, j + marker.len())[0]);
            assert(body[j + 1] == body.subrange(j, j + marker.len())[1]);
            if 4 <= j < 4 + tl {
                assert(body[j] == t[j - 4]);
            } else if j >= 9 + tl {
                assert(body[j] == p[j - 9 - tl]);
            }
        }
    }
    crate::text::lemma_find_from_unique(body, marker, 0, pos);
    assert(body.take(pos) =~= x);
    let ws = |c: char| crate::text::is_ws(c);
    assert(lead_len(x, ws) == 0);
    assert(x.skip(0) =~= x);
    assert(trim_start(x) == x);
    assert(x.last() == p.last());
    assert(trail_len(x, ws) == 0);
    assert(trim(x) =~= x);
    lemma_strip_levels_heading(n, t, p, 6);
    assert(lead_len(p, ws) == 0);
    assert(trail_len(p, ws) == 0);
    assert(p.skip(0) =~= p);
    assert(trim(p) =~= p);
}

} // verus!
