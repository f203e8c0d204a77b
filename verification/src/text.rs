//! Character-level string utilities with specifications over `Seq<char>`.
//!
//! The page and build logic of this crate is written against `Seq<char>`
//! models of strings. Positions are character indices; since every pattern
//! searched for is matched character by character, a character position
//! found here corresponds exactly to the byte position `str::find` reports.

use vstd::prelude::*;

verus! {

broadcast use vstd::string::group_string_axioms;

// ─── Specifications ──────────────────────────────────────────────────────────

/// `n` occurs in `h` starting at position `i`.
pub open spec fn occurs_at(h: Seq<char>, i: int, n: Seq<char>) -> bool {
    &&& 0 <= i
    &&& i + n.len() <= h.len()
    &&& h.subrange(i, i + n.len()) == n
}

/// The first position at or after `start` where `n` occurs in `h`.
pub open spec fn find_from(h: Seq<char>, n: Seq<char>, start: int) -> Option<int>
    decreases h.len() - start,
{
    if start < 0 || start + n.len() > h.len() {
        None
    } else if occurs_at(h, start, n) {
        Some(start)
    } else if start >= h.len() {
        None
    } else {
        find_from(h, n, start + 1)
    }
}

/// The first position where `n` occurs in `h` (`str::find`).
pub open spec fn find(h: Seq<char>, n: Seq<char>) -> Option<int> {
    find_from(h, n, 0)
}

/// `h` contains `n` (`str::contains`).
pub open spec fn contains(h: Seq<char>, n: Seq<char>) -> bool {
    find(h, n) is Some
}

/// `s` starts with `p` (`str::starts_with`).
pub open spec fn starts_with(s: Seq<char>, p: Seq<char>) -> bool {
    p.len() <= s.len() && s.take(p.len() as int) == p
}

/// `s` with the prefix `p` removed, if it has it (`str::strip_prefix`).
pub open spec fn strip_prefix(s: Seq<char>, p: Seq<char>) -> Option<Seq<char>> {
    if starts_with(s, p) {
        Some(s.skip(p.len() as int))
    } else {
        None
    }
}

/// `s` with `p` removed from its start when present, else `s` unchanged
/// (`s.strip_prefix(p).unwrap_or(s)`).
pub open spec fn drop_prefix(s: Seq<char>, p: Seq<char>) -> Seq<char> {
    if starts_with(s, p) {
        s.skip(p.len() as int)
    } else {
        s
    }
}

/// Whether `c` has the Unicode `White_Space` property (`char::is_whitespace`).
pub open spec fn is_ws(c: char) -> bool {
    ||| c == '\t' || c == '\n' || c == '\u{0B}' || c == '\u{0C}' || c == '\r' || c == ' '
    ||| c == '\u{85}' || c == '\u{A0}' || c == '\u{1680}'
    ||| ('\u{2000}' <= c && c <= '\u{200A}')
    ||| c == '\u{2028}' || c == '\u{2029}' || c == '\u{202F}' || c == '\u{205F}'
    ||| c == '\u{3000}'
}

/// Number of leading characters of `s` satisfying `p`.
pub open spec fn lead_len(s: Seq<char>, p: spec_fn(char) -> bool) -> nat
    decreases s.len(),
{
    if s.len() > 0 && p(s[0]) {
        1 + lead_len(s.drop_first(), p)
    } else {
        0
    }
}

/// Number of trailing characters of `s` satisfying `p`.
pub open spec fn trail_len(s: Seq<char>, p: spec_fn(char) -> bool) -> nat
    decreases s.len(),
{
    if s.len() > 0 && p(s.last()) {
        1 + trail_len(s.drop_last(), p)
    } else {
        0
    }
}

/// `s` without leading characters satisfying `p` (`str::trim_start_matches`).
pub open spec fn trim_start_by(s: Seq<char>, p: spec_fn(char) -> bool) -> Seq<char> {
    s.skip(lead_len(s, p) as int)
}

/// `s` without trailing characters satisfying `p` (`str::trim_end_matches`).
pub open spec fn trim_end_by(s: Seq<char>, p: spec_fn(char) -> bool) -> Seq<char> {
    s.take(s.len() - trail_len(s, p))
}

/// `str::trim_start`.
pub open spec fn trim_start(s: Seq<char>) -> Seq<char> {
    trim_start_by(s, |c: char| is_ws(c))
}

/// `str::trim_end`.
pub open spec fn trim_end(s: Seq<char>) -> Seq<char> {
    trim_end_by(s, |c: char| is_ws(c))
}

/// `str::trim`.
pub open spec fn trim(s: Seq<char>) -> Seq<char> {
    trim_end(trim_start(s))
}

/// `Option<usize>` read as an optional mathematical position.
pub open spec fn opt_pos(r: Option<usize>) -> Option<int> {
    match r {
        Some(i) => Some(i as int),
        None => None,
    }
}

/// The pieces of `s` between `sep` separators (`str::split(sep)`).
pub open spec fn split_on(s: Seq<char>, sep: char) -> Seq<Seq<char>>
    decreases s.len(),
{
    if s.len() == 0 {
        seq![Seq::empty()]
    } else {
        let ps = split_on(s.drop_last(), sep);
        if s.last() == sep {
            ps.push(Seq::empty())
        } else {
            ps.update(ps.len() - 1, ps.last().push(s.last()))
        }
    }
}

// ─── Lemmas ──────────────────────────────────────────────────────────────────

/// `split_on` always yields at least one piece.
pub proof fn lemma_split_on_len(s: Seq<char>, sep: char)
    ensures
        split_on(s, sep).len() >= 1,
    decreases s.len(),
{
    if s.len() > 0 {
        lemma_split_on_len(s.drop_last(), sep);
    }
}


/// What `find_from` returns: the least occurrence at or after `start`.
pub proof fn lemma_find_from(h: Seq<char>, n: Seq<char>, start: int)
    requires
        0 <= start,
    ensures
        find_from(h, n, start) matches Some(i) ==> {
            &&& start <= i
            &&& occurs_at(h, i, n)
            &&& forall|j: int| start <= j < i ==> !occurs_at(h, j, n)
        },
        find_from(h, n, start) is None ==> forall|j: int| start <= j ==> !occurs_at(h, j, n),
    decreases h.len() - start,
{
    if start + n.len() > h.len() {
    } else if occurs_at(h, start, n) {
    } else if start >= h.len() {
        assert(h.subrange(start, start + n.len()) =~= n);
    } else {
        lemma_find_from(h, n, start + 1);
    }
}

/// `find_from` is determined by the least occurrence.
pub proof fn lemma_find_from_unique(h: Seq<char>, n: Seq<char>, start: int, i: int)
    requires
        0 <= start <= i,
        occurs_at(h, i, n),
        forall|j: int| start <= j < i ==> !occurs_at(h, j, n),
    ensures
        find_from(h, n, start) == Some(i),
    decreases i - start,
{
    if start < i {
        assert(!occurs_at(h, start, n));
        assert(start < h.len());
        lemma_find_from_unique(h, n, start + 1, i);
    }
}

/// No occurrence at or after `start` means `find_from` is `None`.
pub proof fn lemma_find_from_none(h: Seq<char>, n: Seq<char>, start: int)
    requires
        0 <= start,
        forall|j: int| start <= j ==> !occurs_at(h, j, n),
    ensures
        find_from(h, n, start) is None,
    decreases h.len() - start,
{
    if start + n.len() <= h.len() {
        assert(!occurs_at(h, start, n));
        if start < h.len() {
            lemma_find_from_none(h, n, start + 1);
        }
    }
}

/// Searching a suffix is searching the whole sequence from the suffix start.
pub proof fn lemma_find_skip(h: Seq<char>, n: Seq<char>, pos: int)
    requires
        0 <= pos <= h.len(),
    ensures
        find(h.skip(pos), n) == (match find_from(h, n, pos) {
            Some(i) => Some(i - pos),
            None => None,
        }),
{
    let t = h.skip(pos);
    assert forall|j: int| 0 <= j implies occurs_at(t, j, n) == occurs_at(h, j + pos, n) by {
        if j + n.len() <= t.len() {
            assert(t.subrange(j, j + n.len()) =~= h.subrange(j + pos, j + pos + n.len()));
        }
    }
    lemma_find_from(h, n, pos);
    lemma_find_from(t, n, 0);
    match find_from(h, n, pos) {
        Some(i) => {
            assert(occurs_at(t, i - pos, n));
            lemma_find_from_unique(t, n, 0, i - pos);
        },
        None => {
            lemma_find_from_none(t, n, 0);
        },
    }
}

// ─── Executable helpers ──────────────────────────────────────────────────────

/// Appends one character to a `String` (`String::push`).
///
/// Trusted: `String::push` appends exactly `c` to the end of the string.
#[verifier::external_body]
pub fn push_char(s: &mut String, c: char)
    ensures
        final(s)@ == old(s)@.push(c),
{
    s.push(c);
}

/// Collects the characters of `s` into a vector.
pub fn to_chars(s: &str) -> (v: Vec<char>)
    ensures
        v@ == s@,
{
    let mut v: Vec<char> = Vec::new();
    for c in it: s.chars()
        invariant
            v@ == it.seq().take(it.index() as int),
            it.seq() == s@,
    {
        v.push(c);
    }
    v
}

/// Appends the characters `h[from..to]` to `s`.
pub fn push_range(s: &mut String, h: &[char], from: usize, to: usize)
    requires
        from <= to <= h@.len(),
    ensures
        final(s)@ == old(s)@ + h@.subrange(from as int, to as int),
{
    let mut i = from;
    while i < to
        invariant
            from <= i <= to <= h@.len(),
            s@ == old(s)@ + h@.subrange(from as int, i as int),
        decreases to - i,
    {
        push_char(s, h[i]);
        assert(h@.subrange(from as int, i + 1) =~= h@.subrange(from as int, i as int).push(h@[i as int]));
        i = i + 1;
    }
}

/// Builds a `String` from the characters `h[from..to]`.
pub fn string_of(h: &[char], from: usize, to: usize) -> (s: String)
    requires
        from <= to <= h@.len(),
    ensures
        s@ == h@.subrange(from as int, to as int),
{
    let mut s = String::new();
    push_range(&mut s, h, from, to);
    assert(Seq::<char>::empty() + h@.subrange(from as int, to as int) =~= h@.subrange(from as int, to as int));
    s
}

/// Whether `n` occurs in `h` at position `i`.
pub fn matches_at(h: &[char], i: usize, n: &[char]) -> (b: bool)
    ensures
        b == occurs_at(h@, i as int, n@),
{
    if i > h.len() || n.len() > h.len() - i {
        return false;
    }
    let mut k: usize = 0;
    while k < n.len()
        invariant
            i + n.len() <= h.len(),
            k <= n@.len(),
            forall|m: int| 0 <= m < k ==> h@[i + m] == n@[m],
        decreases n.len() - k,
    {
        if h[i + k] != n[k] {
            assert(h@.subrange(i as int, i + n@.len())[k as int] != n@[k as int]);
            return false;
        }
        k = k + 1;
    }
    assert(h@.subrange(i as int, i + n@.len()) =~= n@);
    true
}

/// The first position at or after `start` where `n` occurs in `h`.
pub fn find_at(h: &[char], n: &[char], start: usize) -> (r: Option<usize>)
    ensures
        opt_pos(r) == find_from(h@, n@, start as int),
{
    let mut i = start;
    while i <= h.len() && n.len() <= h.len() - i
        invariant
            start <= i,
            forall|j: int| start <= j < i ==> !occurs_at(h@, j, n@),
        decreases h.len() + 1 - i,
    {
        if matches_at(h, i, n) {
            proof {
                lemma_find_from_unique(h@, n@, start as int, i as int);
            }
            return Some(i);
        }
        if n.len() == 0 {
            assert(h@.subrange(i as int, i as int) =~= n@);
        }
        i = i + 1;
    }
    proof {
        assert forall|j: int| start <= j implies !occurs_at(h@, j, n@) by {
            if j >= i {
                assert(j + n@.len() > h@.len());
            }
        }
        lemma_find_from_none(h@, n@, start as int);
    }
    None
}

/// Whether `c` is white space (`char::is_whitespace`).
pub fn is_whitespace(c: char) -> (b: bool)
    ensures
        b == is_ws(c),
{
    c == '\t' || c == '\n' || c == '\u{0B}' || c == '\u{0C}' || c == '\r' || c == ' '
        || c == '\u{85}' || c == '\u{A0}' || c == '\u{1680}' || ('\u{2000}' <= c && c
        <= '\u{200A}') || c == '\u{2028}' || c == '\u{2029}' || c == '\u{202F}' || c
        == '\u{205F}' || c == '\u{3000}'
}


/// Relative position of the first occurrence of `n` in `h[pos..]`.
pub fn find_in(h: &[char], pos: usize, n: &[char]) -> (r: Option<usize>)
    requires
        pos <= h@.len(),
    ensures
        opt_pos(r) == find(h@.skip(pos as int), n@),
        r matches Some(k) ==> pos + k + n@.len() <= h.len(),
{
    let hl = h.len();
    proof {
        lemma_find_skip(h@, n@, pos as int);
        lemma_find_from(h@, n@, pos as int);
    }
    match find_at(h, n, pos) {
        Some(i) => Some(i - pos),
        None => None,
    }
}

/// Whether `h[pos..]` starts with `p`.
pub fn starts_with_at(h: &[char], pos: usize, p: &[char]) -> (b: bool)
    requires
        pos <= h@.len(),
    ensures
        b == starts_with(h@.skip(pos as int), p@),
{
    let b = matches_at(h, pos, p);
    proof {
        if b {
            assert(h@.skip(pos as int).take(p@.len() as int) =~= h@.subrange(pos as int, pos + p@.len()));
        } else if p@.len() <= h@.len() - pos {
            assert(h@.skip(pos as int).take(p@.len() as int) =~= h@.subrange(pos as int, pos + p@.len()));
        }
    }
    b
}

/// The position just past the prefix `p` of `h[pos..]` if it has it, else `pos`.
pub fn skip_prefix_at(h: &[char], pos: usize, p: &[char]) -> (r: usize)
    requires
        pos <= h@.len(),
    ensures
        pos <= r <= h@.len(),
        h@.skip(r as int) == drop_prefix(h@.skip(pos as int), p@),
{
    let hl = h.len();
    if starts_with_at(h, pos, p) {
        assert(p@.len() <= h@.skip(pos as int).len());
        assert(pos + p@.len() <= hl);
        assert(h@.skip(pos + p@.len()) =~= h@.skip(pos as int).skip(p@.len() as int));
        pos + p.len()
    } else {
        pos
    }
}

/// Stepping into a subrange drops its first element.
pub proof fn lemma_subrange_drop_first(h: Seq<char>, i: int, to: int)
    requires
        0 <= i < to <= h.len(),
    ensures
        h.subrange(i, to).drop_first() == h.subrange(i + 1, to),
        h.subrange(i, to)[0] == h[i],
{
    assert(h.subrange(i, to).drop_first() =~= h.subrange(i + 1, to));
}

/// Stepping back from the end of a subrange drops its last element.
pub proof fn lemma_subrange_drop_last(h: Seq<char>, from: int, j: int)
    requires
        0 <= from < j <= h.len(),
    ensures
        h.subrange(from, j).drop_last() == h.subrange(from, j - 1),
        h.subrange(from, j).last() == h[j - 1],
{
    assert(h.subrange(from, j).drop_last() =~= h.subrange(from, j - 1));
}

/// Leading and trailing lengths are bounded by the length.
pub proof fn lemma_lead_trail_len(s: Seq<char>, p: spec_fn(char) -> bool)
    ensures
        lead_len(s, p) <= s.len(),
        trail_len(s, p) <= s.len(),
    decreases s.len(),
{
    if s.len() > 0 {
        lemma_lead_trail_len(s.drop_first(), p);
        lemma_lead_trail_len(s.drop_last(), p);
    }
}

/// Trimming past a leading character that satisfies `p`.
pub proof fn lemma_trim_start_by_step(s: Seq<char>, p: spec_fn(char) -> bool)
    requires
        s.len() > 0,
        p(s[0]),
    ensures
        trim_start_by(s, p) == trim_start_by(s.drop_first(), p),
{
    let l = lead_len(s.drop_first(), p);
    lemma_lead_trail_len(s.drop_first(), p);
    assert(lead_len(s, p) == 1 + l);
    assert(s.skip(1 + l as int) =~= s.drop_first().skip(l as int));
}

/// Bounds `[a, b)` of `trim(h[from..to])` inside `h`.
pub fn trim_range(h: &[char], from: usize, to: usize) -> (r: (usize, usize))
    requires
        from <= to <= h@.len(),
    ensures
        from <= r.0 <= r.1 <= to,
        h@.subrange(r.0 as int, r.1 as int) == trim(h@.subrange(from as int, to as int)),
{
    let a = trim_start_range(h, from, to);
    let b = trim_end_range(h, a, to);
    proof {
        let s = h@.subrange(from as int, to as int);
        assert(h@.subrange(a as int, to as int) =~= s.skip(a - from));
    }
    (a, b)
}

/// Start of `trim_start(h[from..to])` inside `h`.
pub fn trim_start_range(h: &[char], from: usize, to: usize) -> (a: usize)
    requires
        from <= to <= h@.len(),
    ensures
        from <= a <= to,
        h@.subrange(a as int, to as int) == trim_start(h@.subrange(from as int, to as int)),
        a - from == lead_len(h@.subrange(from as int, to as int), |c: char| is_ws(c)),
{
    let mut i = from;
    while i < to && is_whitespace(h[i])
        invariant
            from <= i <= to <= h@.len(),
            lead_len(h@.subrange(from as int, to as int), |c: char| is_ws(c)) == (i - from)
                + lead_len(h@.subrange(i as int, to as int), |c: char| is_ws(c)),
        decreases to - i,
    {
        proof {
            lemma_subrange_drop_first(h@, i as int, to as int);
            assert(is_ws(h@[i as int]));
        }
        i = i + 1;
    }
    proof {
        if i < to {
            lemma_subrange_drop_first(h@, i as int, to as int);
        }
        let s = h@.subrange(from as int, to as int);
        assert(s.skip(i - from) =~= h@.subrange(i as int, to as int));
    }
    i
}

/// End of `trim_end(h[from..to])` inside `h`.
pub fn trim_end_range(h: &[char], from: usize, to: usize) -> (b: usize)
    requires
        from <= to <= h@.len(),
    ensures
        from <= b <= to,
        h@.subrange(from as int, b as int) == trim_end(h@.subrange(from as int, to as int)),
        to - b == trail_len(h@.subrange(from as int, to as int), |c: char| is_ws(c)),
{
    let mut j = to;
    while j > from && is_whitespace(h[j - 1])
        invariant
            from <= j <= to <= h@.len(),
            trail_len(h@.subrange(from as int, to as int), |c: char| is_ws(c)) == (to - j)
                + trail_len(h@.subrange(from as int, j as int), |c: char| is_ws(c)),
        decreases j - from,
    {
        proof {
            lemma_subrange_drop_last(h@, from as int, j as int);
            assert(is_ws(h@[j - 1]));
        }
        j = j - 1;
    }
    proof {
        if j > from {
            lemma_subrange_drop_last(h@, from as int, j as int);
        }
        let s = h@.subrange(from as int, to as int);
        assert(s.take(s.len() - (to - j)) =~= h@.subrange(from as int, j as int));
    }
    j
}

/// Splits `s` at every `sep` (`str::split(sep)` collected into pieces).
pub fn split_chars(s: &[char], sep: char) -> (r: Vec<Vec<char>>)
    ensures
        r@.len() == split_on(s@, sep).len(),
        forall|k: int| 0 <= k < r@.len() ==> #[trigger] r@[k]@ == split_on(s@, sep)[k],
{
    let mut done: Vec<Vec<char>> = Vec::new();
    let mut cur: Vec<char> = Vec::new();
    let mut i: usize = 0;
    proof {
        assert(s@.take(0) =~= Seq::<char>::empty());
    }
    while i < s.len()
        invariant
            i <= s@.len(),
            done@.len() + 1 == split_on(s@.take(i as int), sep).len(),
            forall|k: int| 0 <= k < done@.len() ==> #[trigger] done@[k]@ == split_on(s@.take(i as int), sep)[k],
            cur@ == split_on(s@.take(i as int), sep).last(),
        decreases s.len() - i,
    {
        let c = s[i];
        proof {
            assert(s@.take(i + 1).drop_last() =~= s@.take(i as int));
            lemma_split_on_len(s@.take(i as int), sep);
        }
        if c == sep {
            done.push(cur);
            cur = Vec::new();
        } else {
            cur.push(c);
        }
        i = i + 1;
    }
    proof {
        assert(s@.take(s@.len() as int) =~= s@);
    }
    done.push(cur);
    done
}

/// Whether two strings hold the same characters (`==` on `str`).
pub fn str_eq(a: &str, b: &str) -> (r: bool)
    ensures
        r == (a@ == b@),
{
    let x = to_chars(a);
    let y = to_chars(b);
    if x.len() != y.len() {
        return false;
    }
    let mut i: usize = 0;
    while i < x.len()
        invariant
            x@ == a@,
            y@ == b@,
            x@.len() == y@.len(),
            i <= x@.len(),
            forall|k: int| 0 <= k < i ==> x@[k] == y@[k],
        decreases x.len() - i,
    {
        if x[i] != y[i] {
            return false;
        }
        i = i + 1;
    }
    assert(x@ =~= y@);
    true
}

/// `s` with every leading copy of `p` removed (`str::trim_start_matches(p)`).
pub open spec fn strip_prefixes(s: Seq<char>, p: Seq<char>) -> Seq<char>
    decreases s.len(),
{
    if p.len() > 0 && starts_with(s, p) {
        strip_prefixes(s.skip(p.len() as int), p)
    } else {
        s
    }
}

/// Start of `strip_prefixes(h[pos..], p)` inside `h`.
pub fn strip_prefixes_from(h: &[char], pos: usize, p: &[char]) -> (r: usize)
    requires
        pos <= h@.len(),
    ensures
        pos <= r <= h@.len(),
        h@.skip(r as int) == strip_prefixes(h@.skip(pos as int), p@),
    decreases h@.len() - pos,
{
    let hl = h.len();
    if p.len() > 0 && starts_with_at(h, pos, p) {
        assert(pos + p@.len() <= hl);
        let next = pos + p.len();
        assert(h@.skip(next as int) =~= h@.skip(pos as int).skip(p@.len() as int));
        strip_prefixes_from(h, next, p)
    } else {
        pos
    }
}

/// The first line of `s` (`s.lines().next().unwrap_or("")`): the text before
/// the first `\n`, less a `\r` just before it; all of `s` when it has no `\n`.
pub open spec fn first_line(s: Seq<char>) -> Seq<char> {
    match find(s, seq!['\n']) {
        Some(i) => {
            let l = s.take(i);
            if l.len() > 0 && l.last() == '\r' {
                l.drop_last()
            } else {
                l
            }
        },
        None => s,
    }
}

/// The length of `first_line(h)`, a prefix of `h`.
pub fn first_line_len(h: &[char]) -> (r: usize)
    ensures
        r <= h@.len(),
        h@.take(r as int) == first_line(h@),
{
    let nl: Vec<char> = vec!['\n'];
    assert(nl@ =~= seq!['\n']);
    proof {
        lemma_find_from(h@, nl@, 0);
    }
    match find_at(h, nl.as_slice(), 0) {
        Some(i) => {
            if i > 0 && h[i - 1] == '\r' {
                assert(h@.take(i - 1) =~= h@.take(i as int).drop_last());
                i - 1
            } else {
                i
            }
        },
        None => {
            assert(h@.take(h@.len() as int) =~= h@);
            h.len()
        },
    }
}

/// Number of bytes in the UTF-8 encoding of `c`.
pub open spec fn utf8_len(c: char) -> int {
    if (c as u32) < 0x80 {
        1
    } else if (c as u32) < 0x800 {
        2
    } else if (c as u32) < 0x10000 {
        3
    } else {
        4
    }
}

/// The leading characters of `s` whose UTF-8 encoding is exactly `n` bytes,
/// if `n` falls on a character boundary within `s` (`str::get(..n)`).
pub open spec fn byte_prefix(s: Seq<char>, n: int) -> Option<Seq<char>>
    decreases s.len(),
{
    if n == 0 {
        Some(Seq::empty())
    } else if n < 0 || s.len() == 0 {
        None
    } else {
        match byte_prefix(s.drop_first(), n - utf8_len(s[0])) {
            Some(t) => Some(seq![s[0]] + t),
            None => None,
        }
    }
}

/// Number of bytes in the UTF-8 encoding of `c`.
pub fn char_utf8_len(c: char) -> (r: usize)
    ensures
        r == utf8_len(c),
{
    let v = c as u32;
    if v < 0x80 {
        1
    } else if v < 0x800 {
        2
    } else if v < 0x10000 {
        3
    } else {
        4
    }
}

/// The number of characters of `byte_prefix(h, n)`, when it exists.
pub fn byte_prefix_len(h: &[char], n: usize) -> (r: Option<usize>)
    ensures
        r matches Some(k) ==> k <= h@.len() && byte_prefix(h@, n as int) == Some(h@.take(k as int)),
        r is None ==> byte_prefix(h@, n as int) is None,
{
    let mut i: usize = 0;
    let mut left: usize = n;
    assert(h@.take(0) =~= Seq::<char>::empty());
    assert(h@.skip(0) =~= h@);
    while left > 0 && i < h.len()
        invariant
            i <= h@.len(),
            left <= n,
            byte_prefix(h@, n as int) == match byte_prefix(h@.skip(i as int), left as int) {
                Some(t) => Some(h@.take(i as int) + t),
                None => None,
            },
        decreases h.len() - i,
    {
        let c = h[i];
        let w = char_utf8_len(c);
        let ghost rest = h@.skip(i as int);
        assert(rest[0] == c);
        assert(rest.drop_first() =~= h@.skip(i + 1));
        assert(h@.take(i + 1) =~= h@.take(i as int) + seq![c]);
        if w > left {
            assert(byte_prefix(h@.skip(i + 1), left - w) is None) by {
                assert(left - w < 0);
            }
            return None;
        }
        proof {
            match byte_prefix(h@.skip(i + 1), left - w) {
                Some(t) => {
                    assert(h@.take(i as int) + (seq![c] + t) =~= h@.take(i + 1) + t);
                },
                None => {},
            }
        }
        left = left - w;
        i = i + 1;
    }
    if left == 0 {
        assert(h@.take(i as int) + Seq::<char>::empty() =~= h@.take(i as int));
        Some(i)
    } else {
        assert(h@.skip(i as int).len() == 0);
        None
    }
}

/// `a` sorts no later than `b` in the order of `str::cmp`: character by
/// character, a prefix before its extensions. (Comparing the UTF-8 bytes,
/// as `str::cmp` does, orders strings exactly as comparing their characters
/// does.)
pub open spec fn lex_le(a: Seq<char>, b: Seq<char>) -> bool
    decreases a.len(),
{
    if a.len() == 0 {
        true
    } else if b.len() == 0 {
        false
    } else if a[0] != b[0] {
        a[0] < b[0]
    } else {
        lex_le(a.drop_first(), b.drop_first())
    }
}

/// `lex_le` is a total order.
pub proof fn lemma_lex_le_total_order(a: Seq<char>, b: Seq<char>, c: Seq<char>)
    ensures
        lex_le(a, b) || lex_le(b, a),
        lex_le(a, b) && lex_le(b, c) ==> lex_le(a, c),
        lex_le(a, b) && lex_le(b, a) ==> a == b,
    decreases a.len(),
{
    if a.len() > 0 && b.len() > 0 && c.len() > 0 {
        lemma_lex_le_total_order(a.drop_first(), b.drop_first(), c.drop_first());
        if a[0] == b[0] {
            assert(a == seq![a[0]] + a.drop_first());
            assert(b == seq![b[0]] + b.drop_first());
        }
    } else if a.len() > 0 && b.len() > 0 {
        lemma_lex_le_total_order(a.drop_first(), b.drop_first(), b.drop_first());
        if a[0] == b[0] {
            assert(a =~= seq![a[0]] + a.drop_first());
            assert(b =~= seq![b[0]] + b.drop_first());
        }
    } else if a.len() == 0 && b.len() == 0 {
        assert(a =~= b);
    }
}

/// Whether `a` sorts no later than `b` (`a <= b` on strings).
pub fn str_le(a: &str, b: &str) -> (r: bool)
    ensures
        r == lex_le(a@, b@),
{
    let x = to_chars(a);
    let y = to_chars(b);
    let mut i: usize = 0;
    assert(x@.skip(0) =~= x@);
    assert(y@.skip(0) =~= y@);
    while i < x.len() && i < y.len() && x[i] == y[i]
        invariant
            x@ == a@,
            y@ == b@,
            i <= x@.len(),
            i <= y@.len(),
            lex_le(a@, b@) == lex_le(x@.skip(i as int), y@.skip(i as int)),
        decreases x.len() - i,
    {
        assert(x@.skip(i as int).drop_first() =~= x@.skip(i + 1));
        assert(y@.skip(i as int).drop_first() =~= y@.skip(i + 1));
        i = i + 1;
    }
    if i == x.len() {
        true
    } else if i == y.len() {
        false
    } else {
        assert(x@.skip(i as int)[0] == x@[i as int]);
        assert(y@.skip(i as int)[0] == y@[i as int]);
        x[i] < y[i]
    }
}

/// The decimal digit character for `d` in `0..10`.
pub open spec fn digit(d: int) -> char {
    (48 + d) as char
}

/// Decimal representation of `n` (`n.to_string()` for unsigned integers).
pub open spec fn decimal(n: nat) -> Seq<char>
    decreases n,
{
    if n < 10 {
        seq![digit(n as int)]
    } else {
        decimal(n / 10).push(digit((n % 10) as int))
    }
}

/// Appends the decimal representation of `n` to `s`.
pub fn push_decimal(s: &mut String, n: u64)
    ensures
        final(s)@ == old(s)@ + decimal(n as nat),
    decreases n,
{
    let d = (n % 10) as u8;
    let c = (48u8 + d) as char;
    if n >= 10 {
        push_decimal(s, n / 10);
        push_char(s, c);
        assert(old(s)@ + decimal(n as nat) =~= old(s)@ + decimal((n / 10) as nat) + seq![c]);
    } else {
        push_char(s, c);
        assert(old(s)@ + decimal(n as nat) =~= old(s)@.push(c));
    }
}

/// The decimal representation of `n` as a new string.
pub fn decimal_string(n: u64) -> (s: String)
    ensures
        s@ == decimal(n as nat),
{
    let mut s = String::new();
    push_decimal(&mut s, n);
    assert(Seq::<char>::empty() + decimal(n as nat) =~= decimal(n as nat));
    s
}

/// The Rust string literal that `{:?}` formats a string as: quoted, with
/// quotes, backslashes and control characters escaped.
pub uninterp spec fn debug_literal(s: Seq<char>) -> Seq<char>;

/// Format `s` as a Rust string literal (`format!("{:?}", s)`).
///
/// Trusted: the result is `debug_literal` of the string, a pure function of
/// its characters (std's `Debug` impl for `str`).
#[verifier::external_body]
pub fn debug_str(s: &str) -> (lit: String)
    ensures
        lit@ == debug_literal(s@),
{
    format!("{:?}", s)
}

} // verus!
