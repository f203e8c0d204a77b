//! Blog posts as served at run time, and the helpers the blog pages use.

use vstd::prelude::*;
use crate::text::{
    lead_len, lemma_lead_trail_len, push_char, push_range, split_chars,
    split_on, str_eq, to_chars, trim_start_by,
};

verus! {

broadcast use vstd::string::group_string_axioms;

/// A published blog post, as the build step lays it out.
#[derive(Debug)]
pub struct BlogPost {
    pub slug: &'static str,
    pub title: &'static str,
    pub date: &'static str,
    pub description: Option<&'static str>,
    pub source: Option<&'static str>,
    pub tags: &'static [&'static str],
    pub excerpt_html: &'static str,
    pub body_html: &'static str,
}

// ─── find_post ───────────────────────────────────────────────────────────────

/// `i` is the first position in `posts` whose slug is `slug`.
pub open spec fn first_with_slug(posts: Seq<BlogPost>, slug: Seq<char>, i: int) -> bool {
    &&& 0 <= i < posts.len()
    &&& posts[i].slug@ == slug
    &&& forall|j: int| 0 <= j < i ==> posts[j].slug@ != slug
}

/// The first post whose slug is `slug`, or `None` when no post has it.
pub fn find_post<'a>(posts: &'a [BlogPost], slug: &str) -> (r: Option<&'a BlogPost>)
    ensures
        r is None <==> (forall|j: int| 0 <= j < posts@.len() ==> posts@[j].slug@ != slug@),
        r matches Some(p) ==> exists|i: int| first_with_slug(posts@, slug@, i) && *p == posts@[i],
{
    let mut i: usize = 0;
    while i < posts.len()
        invariant
            i <= posts@.len(),
            forall|j: int| 0 <= j < i ==> posts@[j].slug@ != slug@,
        decreases posts.len() - i,
    {
        if str_eq(posts[i].slug, slug) {
            assert(first_with_slug(posts@, slug@, i as int));
            return Some(&posts[i]);
        }
        i = i + 1;
    }
    None
}

// ─── source_domain ───────────────────────────────────────────────────────────

/// The host part of a URL: the text between its second and third `/`
/// (`url.splitn(3, '/').nth(2)` cut at the next `/`), or `None` when the URL
/// has fewer than two slashes.
pub open spec fn source_domain_of(url: Seq<char>) -> Option<Seq<char>> {
    let parts = split_on(url, '/');
    if parts.len() < 3 {
        None
    } else {
        Some(parts[2])
    }
}

/// The domain a post's source link points at, shown beside the link.
pub fn source_domain(url: &str) -> (r: Option<String>)
    ensures
        r matches Some(d) ==> source_domain_of(url@) == Some(d@),
        r is None ==> source_domain_of(url@) is None,
{
    let chars = to_chars(url);
    let parts = split_chars(&chars, '/');
    if parts.len() < 3 {
        return None;
    }
    let piece = &parts[2];
    let mut out = String::new();
    push_range(&mut out, piece.as_slice(), 0, piece.len());
    proof {
        assert(piece@.subrange(0, piece@.len() as int) =~= piece@);
        assert(Seq::<char>::empty() + piece@ =~= piece@);
    }
    Some(out)
}

// ─── format_date ─────────────────────────────────────────────────────────────

/// The three-letter English name of a two-digit month number `"01"`–`"12"`.
pub open spec fn month_abbrev(m: Seq<char>) -> Option<Seq<char>> {
    if m.len() != 2 {
        None
    } else if m[0] == '0' && m[1] == '1' {
        Some(seq!['J', 'a', 'n'])
    } else if m[0] == '0' && m[1] == '2' {
        Some(seq!['F', 'e', 'b'])
    } else if m[0] == '0' && m[1] == '3' {
        Some(seq!['M', 'a', 'r'])
    } else if m[0] == '0' && m[1] == '4' {
        Some(seq!['A', 'p', 'r'])
    } else if m[0] == '0' && m[1] == '5' {
        Some(seq!['M', 'a', 'y'])
    } else if m[0] == '0' && m[1] == '6' {
        Some(seq!['J', 'u', 'n'])
    } else if m[0] == '0' && m[1] == '7' {
        Some(seq!['J', 'u', 'l'])
    } else if m[0] == '0' && m[1] == '8' {
        Some(seq!['A', 'u', 'g'])
    } else if m[0] == '0' && m[1] == '9' {
        Some(seq!['S', 'e', 'p'])
    } else if m[0] == '1' && m[1] == '0' {
        Some(seq!['O', 'c', 't'])
    } else if m[0] == '1' && m[1] == '1' {
        Some(seq!['N', 'o', 'v'])
    } else if m[0] == '1' && m[1] == '2' {
        Some(seq!['D', 'e', 'c'])
    } else {
        None
    }
}

/// `s` without its leading zeros (`trim_start_matches('0')`).
pub open spec fn strip_zeros(s: Seq<char>) -> Seq<char> {
    trim_start_by(s, |c: char| c == '0')
}

/// A `YYYY-MM-DD` date written as `D Mon YYYY`: the day without leading
/// zeros (`1` when nothing is left), the month's short name (the month text
/// itself when it is no month number), then the year. A date with fewer than
/// three `-`-separated parts is returned as it is.
pub open spec fn format_date_of(date: Seq<char>) -> Seq<char> {
    let parts = split_on(date, '-');
    if parts.len() < 3 {
        date
    } else {
        let month = match month_abbrev(parts[1]) {
            Some(m) => m,
            None => parts[1],
        };
        let day = strip_zeros(parts[2]);
        let day = if day.len() == 0 { seq!['1'] } else { day };
        day + seq![' '] + month + seq![' '] + parts[0]
    }
}

pub(crate) fn month_chars(m: &[char]) -> (r: Option<(char, char, char)>)
    ensures
        r matches Some(t) ==> month_abbrev(m@) == Some(seq![t.0, t.1, t.2]),
        r is None ==> month_abbrev(m@) is None,
{
    if m.len() != 2 {
        return None;
    }
    let a = m[0];
    let b = m[1];
    if a == '0' && b == '1' {
        Some(('J', 'a', 'n'))
    } else if a == '0' && b == '2' {
        Some(('F', 'e', 'b'))
    } else if a == '0' && b == '3' {
        Some(('M', 'a', 'r'))
    } else if a == '0' && b == '4' {
        Some(('A', 'p', 'r'))
    } else if a == '0' && b == '5' {
        Some(('M', 'a', 'y'))
    } else if a == '0' && b == '6' {
        Some(('J', 'u', 'n'))
    } else if a == '0' && b == '7' {
        Some(('J', 'u', 'l'))
    } else if a == '0' && b == '8' {
        Some(('A', 'u', 'g'))
    } else if a == '0' && b == '9' {
        Some(('S', 'e', 'p'))
    } else if a == '1' && b == '0' {
        Some(('O', 'c', 't'))
    } else if a == '1' && b == '1' {
        Some(('N', 'o', 'v'))
    } else if a == '1' && b == '2' {
        Some(('D', 'e', 'c'))
    } else {
        None
    }
}

/// Number of leading `'0'` characters of `s`.
pub(crate) fn zeros_prefix(s: &[char]) -> (n: usize)
    ensures
        n <= s@.len(),
        s@.skip(n as int) == strip_zeros(s@),
{
    let mut i: usize = 0;
    assert(s@.skip(0) =~= s@);
    while i < s.len() && s[i] == '0'
        invariant
            i <= s@.len(),
            lead_len(s@, |c: char| c == '0') == i + lead_len(s@.skip(i as int), |c: char| c == '0'),
        decreases s.len() - i,
    {
        proof {
            assert(s@.skip(i as int).drop_first() =~= s@.skip(i + 1));
        }
        i = i + 1;
    }
    proof {
        if i < s@.len() {
            assert(s@.skip(i as int)[0] == s@[i as int]);
        }
        assert(lead_len(s@.skip(i as int), |c: char| c == '0') == 0);
        lemma_lead_trail_len(s@, |c: char| c == '0');
    }
    i
}

/// A `YYYY-MM-DD` date in the blog's display form, such as `5 Mar 2024`.
pub fn format_date(date: &str) -> (r: String)
    ensures
        r@ == format_date_of(date@),
{
    let chars = to_chars(date);
    let parts = split_chars(&chars, '-');
    if parts.len() < 3 {
        let mut out = String::new();
        push_range(&mut out, chars.as_slice(), 0, chars.len());
        proof {
            assert(chars@.subrange(0, chars@.len() as int) =~= date@);
            assert(Seq::<char>::empty() + date@ =~= date@);
        }
        return out;
    }
    let ghost ps = split_on(date@, '-');
    assert(parts@[0]@ == ps[0]);
    assert(parts@[1]@ == ps[1]);
    assert(parts@[2]@ == ps[2]);
    let year = &parts[0];
    let mon = &parts[1];
    let day = &parts[2];
    let mut out = String::new();
    let z = zeros_prefix(day.as_slice());
    if z == day.len() {
        push_char(&mut out, '1');
    } else {
        push_range(&mut out, day.as_slice(), z, day.len());
    }
    let ghost d = if z == day.len() { seq!['1'] } else { strip_zeros(ps[2]) };
    proof {
        assert(day@.subrange(z as int, day@.len() as int) =~= day@.skip(z as int));
        assert(Seq::<char>::empty() + d =~= d);
        assert(Seq::<char>::empty().push('1') =~= seq!['1']);
    }
    assert(out@ == d);
    push_char(&mut out, ' ');
    match month_chars(mon.as_slice()) {
        Some((a, b, c)) => {
            push_char(&mut out, a);
            push_char(&mut out, b);
            push_char(&mut out, c);
            assert(out@ =~= d + seq![' '] + seq![a, b, c]);
        },
        None => {
            push_range(&mut out, mon.as_slice(), 0, mon.len());
            assert(mon@.subrange(0, mon@.len() as int) =~= mon@);
            assert(out@ =~= d + seq![' '] + ps[1]);
        },
    }
    push_char(&mut out, ' ');
    push_range(&mut out, year.as_slice(), 0, year.len());
    proof {
        assert(year@.subrange(0, year@.len() as int) =~= year@);
        let month = match month_abbrev(ps[1]) {
            Some(m) => m,
            None => ps[1],
        };
        assert(out@ =~= d + seq![' '] + month + seq![' '] + ps[0]);
    }
    out
}

// ─── Month names ─────────────────────────────────────────────────────────────

/// The two-digit month number `01`–`12` of month `m`.
pub open spec fn two_digit_month(m: u32) -> Seq<char> {
    if m < 10 {
        seq!['0', crate::text::digit(m as int)]
    } else {
        seq!['1', crate::text::digit(m - 10)]
    }
}

/// Law: the name written for each two-digit month number `01`–`12` is that
/// month's English three-letter abbreviation, the same one `%b` writes
/// (as the year-in-code band's `month_name` does), and no two month
/// numbers are given the same name.
pub proof fn lemma_month_abbrev_names()
    ensures
        forall|m: u32| 1 <= m <= 12 ==> #[trigger] month_abbrev(two_digit_month(m)) == Some(
            crate::components::year_in_code::month_name(m),
        ),
        forall|a: Seq<char>, b: Seq<char>|
            #[trigger] month_abbrev(a) is Some && #[trigger] month_abbrev(b) is Some && month_abbrev(a)
                == month_abbrev(b) ==> a == b,
{
    reveal_strlit("Jan");
    reveal_strlit("Feb");
    reveal_strlit("Mar");
    reveal_strlit("Apr");
    reveal_strlit("May");
    reveal_strlit("Jun");
    reveal_strlit("Jul");
    reveal_strlit("Aug");
    reveal_strlit("Sep");
    reveal_strlit("Oct");
    reveal_strlit("Nov");
    reveal_strlit("Dec");
    assert forall|m: u32| 1 <= m <= 12 implies #[trigger] month_abbrev(two_digit_month(m)) == Some(
        crate::components::year_in_code::month_name(m),
    ) by {
        let t = two_digit_month(m);
        assert(t.len() == 2);
        if m < 10 {
            assert(t[0] == '0' && t[1] == (48 + m) as char);
        } else {
            assert(t[0] == '1' && t[1] == (48 + m - 10) as char);
        }
        assert(month_abbrev(t) =~= Some(crate::components::year_in_code::month_name(m)));
    }
    assert forall|a: Seq<char>, b: Seq<char>|
        #[trigger] month_abbrev(a) is Some && #[trigger] month_abbrev(b) is Some && month_abbrev(a)
            == month_abbrev(b) implies a == b by {
        assert(a.len() == 2 && b.len() == 2);
        let x = month_abbrev(a)->0;
        assert(x.len() == 3);
        assert(a[0] == b[0] && a[1] == b[1]);
        assert(a =~= b);
    }
}

} // verus!
