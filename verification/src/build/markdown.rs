//! Markdown rendering and PyMdown-compatible post-processing.
//!
//! [`render`] converts Markdown to HTML via pulldown-cmark.
//! [`postprocess_pymdownx`] then scans the resulting HTML for
//! `/// tab | Title` / `/// details | Title` / `///` marker paragraphs and
//! replaces them with CSS-only tab groups or native `<details>` elements.

use vstd::prelude::*;

use crate::text::{
    contains, decimal, drop_prefix, find, find_in, lemma_find_skip, matches_at, push_decimal, push_range, string_of,
    lead_len, starts_with, strip_prefix, to_chars, trail_len, trim, trim_range, trim_start_by, skip_prefix_at,
    starts_with_at,
};

verus! {

broadcast use vstd::string::group_string_axioms;

// ─── Rendering ───────────────────────────────────────────────────────────────

/// The HTML that pulldown-cmark renders for a Markdown document with tables,
/// footnotes, strikethrough, task lists and smart punctuation enabled.
pub uninterp spec fn markdown_html(content: Seq<char>) -> Seq<char>;

/// Render a Markdown string to HTML with common extensions enabled.
///
/// Trusted: calls `pulldown_cmark::Parser::new_ext` and
/// `pulldown_cmark::html::push_html`; the result is named `markdown_html`
/// of the input, a pure function of the Markdown text.
#[verifier::external_body]
pub fn render(content: &str) -> (out: String)
    ensures
        out@ == markdown_html(content@),
{
    let mut opts = pulldown_cmark::Options::empty();
    opts.insert(pulldown_cmark::Options::ENABLE_TABLES);
    opts.insert(pulldown_cmark::Options::ENABLE_FOOTNOTES);
    opts.insert(pulldown_cmark::Options::ENABLE_STRIKETHROUGH);
    opts.insert(pulldown_cmark::Options::ENABLE_TASKLISTS);
    opts.insert(pulldown_cmark::Options::ENABLE_SMART_PUNCTUATION);
    let parser = pulldown_cmark::Parser::new_ext(content, opts);
    let mut out = String::new();
    pulldown_cmark::html::push_html(&mut out, parser);
    out
}

// ─── Specifications ──────────────────────────────────────────────────────────

/// `(block_type, title)` of a marker text `"type | Title"` or `"type"`.
pub open spec fn type_title(s: Seq<char>) -> (Seq<char>, Seq<char>) {
    match find(s, " | "@) {
        Some(i) => (trim(s.take(i)), trim(s.skip(i + " | "@.len()))),
        None => (trim(s), Seq::empty()),
    }
}

/// Inner HTML up to the next `<p>///</p>` closer and the HTML after it
/// (without the single newline that follows the closer).
pub open spec fn block_content(html: Seq<char>) -> Option<(Seq<char>, Seq<char>)> {
    match find(html, "<p>///</p>"@) {
        Some(pos) => Some(
            (html.take(pos), drop_prefix(html.skip(pos + "<p>///</p>"@.len()), "\n"@)),
        ),
        None => None,
    }
}

/// The `<details>` element for a details block.
pub open spec fn details_html(title: Seq<char>, content: Seq<char>) -> Seq<char> {
    "<details>\n<summary>"@ + (if title.len() == 0 {
        "Details"@
    } else {
        title
    }) + "</summary>\n"@ + trim(content) + "\n</details>\n"@
}

/// The radio input of tab `i` in group `g`.
pub open spec fn tab_input(g: nat, i: nat) -> Seq<char> {
    "<input class=\"tab-radio\" type=\"radio\" name=\"tabs-"@ + decimal(g) + "\" id=\"tab-"@
        + decimal(g) + "-"@ + decimal(i) + "\""@ + (if i == 0 {
        " checked"@
    } else {
        ""@
    }) + ">\n"@
}

/// The radio inputs of the first `n` tabs of group `g`.
pub open spec fn tab_inputs(g: nat, n: nat) -> Seq<char>
    decreases n,
{
    if n == 0 {
        Seq::empty()
    } else {
        tab_inputs(g, (n - 1) as nat) + tab_input(g, (n - 1) as nat)
    }
}

/// The label of tab `i` in group `g`.
pub open spec fn tab_label(g: nat, i: nat, title: Seq<char>) -> Seq<char> {
    "<label for=\"tab-"@ + decimal(g) + "-"@ + decimal(i) + "\">"@ + title + "</label>\n"@
}

/// The labels of the first `n` tabs of group `g`.
pub open spec fn tab_labels(g: nat, tabs: Seq<(Seq<char>, Seq<char>)>, n: nat) -> Seq<char>
    decreases n,
{
    if n == 0 {
        Seq::empty()
    } else {
        tab_labels(g, tabs, (n - 1) as nat) + tab_label(g, (n - 1) as nat, tabs[n - 1].0)
    }
}

/// The panel holding one tab's content.
pub open spec fn tab_panel(content: Seq<char>) -> Seq<char> {
    "<section class=\"tab-panel\">\n"@ + (if trim(content).len() > 0 {
        trim(content) + "\n"@
    } else {
        Seq::empty()
    }) + "</section>\n"@
}

/// The panels of the first `n` tabs.
pub open spec fn tab_panels(tabs: Seq<(Seq<char>, Seq<char>)>, n: nat) -> Seq<char>
    decreases n,
{
    if n == 0 {
        Seq::empty()
    } else {
        tab_panels(tabs, (n - 1) as nat) + tab_panel(tabs[n - 1].1)
    }
}

/// The CSS-only tab group for `(label, inner_html)` pairs, numbered `g`.
pub open spec fn tab_group_html(tabs: Seq<(Seq<char>, Seq<char>)>, g: nat) -> Seq<char> {
    "<div class=\"tabs\">\n"@ + tab_inputs(g, tabs.len()) + "<div class=\"tab-bar\">\n"@
        + tab_labels(g, tabs, tabs.len()) + "</div>\n"@ + tab_panels(tabs, tabs.len())
        + "</div>\n"@
}

/// The string pairs of a tab list.
pub open spec fn tabs_view(tabs: Seq<(String, String)>) -> Seq<(Seq<char>, Seq<char>)> {
    tabs.map_values(|t: (String, String)| (t.0@, t.1@))
}

/// A newline or carriage return.
pub open spec fn is_line_break(c: char) -> bool {
    c == '\n' || c == '\r'
}

/// Collect the `/// tab` blocks that directly follow a tab block into the
/// same group: the tabs so far extended by those blocks, and the HTML after
/// the last collected block.
pub open spec fn collect_tabs(current: Seq<char>, tabs: Seq<(Seq<char>, Seq<char>)>) -> (
    Seq<(Seq<char>, Seq<char>)>,
    Seq<char>,
)
    decreases current.len(),
{
    let peek = trim_start_by(current, |c: char| is_line_break(c));
    if !starts_with(peek, "<p>/// tab"@) {
        (tabs, current)
    } else {
        let after_p = peek.skip("<p>"@.len() as int);
        match find(after_p, "</p>"@) {
            None => (tabs, current),
            Some(ep) => {
                let opener = after_p.take(ep);
                let after_close = drop_prefix(after_p.skip(ep + "</p>"@.len()), "\n"@);
                let ta = match strip_prefix(opener, "/// tab"@) {
                    Some(t) => t,
                    None => Seq::empty(),
                };
                let title = trim(
                    match strip_prefix(ta, " | "@) {
                        Some(t) => t,
                        None => Seq::empty(),
                    },
                );
                match block_content(after_close) {
                    None => (tabs, current),
                    Some((inner, rest)) => {
                        proof {
                            lemma_tab_step_shrinks(current);
                        }
                        collect_tabs(rest, tabs.push((title, inner)))
                    },
                }
            },
        }
    }
}

/// The replacement of one marker paragraph at the start of `m`, the HTML
/// after what it consumed, and the updated tab-group counter.
pub open spec fn marker_step(m: Seq<char>, counter: nat) -> (Seq<char>, Seq<char>, nat) {
    let after_open = m.skip("<p>"@.len() as int);
    match find(after_open, "</p>"@) {
        None => ("<p>"@, after_open, counter),
        Some(cp) => {
            let opener = after_open.take(cp);
            let after_close = drop_prefix(after_open.skip(cp + "</p>"@.len()), "\n"@);
            let literal = "<p>"@ + opener + "</p>\n"@;
            match strip_prefix(opener, "/// "@) {
                None => (m.take(cp + "<p>"@.len() + "</p>"@.len()), after_close, counter),
                Some(type_and_title) => {
                    let (block_type, title) = type_title(type_and_title);
                    match block_content(after_close) {
                        None => (literal, after_close, counter),
                        Some((inner, after_closer)) => {
                            if block_type == "tab"@ {
                                let (tabs, rest) = collect_tabs(after_closer, seq![(title, inner)]);
                                (tab_group_html(tabs, counter), rest, counter + 1)
                            } else if block_type == "details"@ {
                                (details_html(title, inner), after_closer, counter)
                            } else {
                                (literal, after_close, counter)
                            }
                        },
                    }
                },
            }
        },
    }
}

/// The post-processed HTML and final tab-group counter for `html`, starting
/// the counter at `counter`.
pub open spec fn pymdownx(html: Seq<char>, counter: nat) -> (Seq<char>, nat)
    decreases html.len(),
{
    match find(html, "<p>/// "@) {
        None => (html, counter),
        Some(offset) => {
            let m = html.skip(offset);
            let (piece, rest, c) = marker_step(m, counter);
            proof {
                lemma_marker_step_shrinks(html, offset, counter);
            }
            let (tail, c2) = pymdownx(rest, c);
            (html.take(offset) + piece + tail, c2)
        },
    }
}

// ─── Termination lemmas ──────────────────────────────────────────────────────

/// Facts about the literals the post-processor matches.
pub proof fn lemma_literals()
    ensures
        "<p>"@ == seq!['<', 'p', '>'],
        "</p>"@ == seq!['<', '/', 'p', '>'],
        "<p>/// "@ == seq!['<', 'p', '>', '/', '/', '/', ' '],
        "/// "@ == seq!['/', '/', '/', ' '],
        "\n"@ == seq!['\n'],
        "<p>///</p>"@ == seq!['<', 'p', '>', '/', '/', '/', '<', '/', 'p', '>'],
        "<p>/// tab"@ == seq!['<', 'p', '>', '/', '/', '/', ' ', 't', 'a', 'b'],
{
    reveal_strlit("<p>");
    reveal_strlit("</p>");
    reveal_strlit("<p>/// ");
    reveal_strlit("/// ");
    reveal_strlit("\n");
    reveal_strlit("<p>///</p>");
    reveal_strlit("<p>/// tab");
}

/// Where `find` succeeds the needle fits.
pub proof fn lemma_find_fits(h: Seq<char>, n: Seq<char>)
    ensures
        find(h, n) matches Some(i) ==> 0 <= i && i + n.len() <= h.len() && occurs_at_seq(h, i, n),
{
    crate::text::lemma_find_from(h, n, 0);
}

/// `occurs_at` under its own name for this module's statements.
pub open spec fn occurs_at_seq(h: Seq<char>, i: int, n: Seq<char>) -> bool {
    crate::text::occurs_at(h, i, n)
}

/// The rest after a block is no longer than the input.
pub proof fn lemma_block_content_len(html: Seq<char>)
    ensures
        block_content(html) matches Some((inner, rest)) ==> rest.len() + inner.len() <= html.len(),
{
    lemma_find_fits(html, "<p>///</p>"@);
    lemma_literals();
}

/// One collection step strictly shortens the HTML.
pub proof fn lemma_tab_step_shrinks(current: Seq<char>)
    ensures
        ({
            let peek = trim_start_by(current, |c: char| is_line_break(c));
            let after_p = peek.skip("<p>"@.len() as int);
            starts_with(peek, "<p>/// tab"@) ==> match find(after_p, "</p>"@) {
                Some(ep) => {
                    let after_close = drop_prefix(after_p.skip(ep + "</p>"@.len()), "\n"@);
                    match block_content(after_close) {
                        Some((inner, rest)) => rest.len() < current.len(),
                        None => true,
                    }
                },
                None => true,
            }
        }),
{
    let peek = trim_start_by(current, |c: char| is_line_break(c));
    crate::text::lemma_lead_trail_len(current, |c: char| is_line_break(c));
    lemma_literals();
    let after_p = peek.skip("<p>"@.len() as int);
    lemma_find_fits(after_p, "</p>"@);
    if starts_with(peek, "<p>/// tab"@) {
        if let Some(ep) = find(after_p, "</p>"@) {
            let after_close = drop_prefix(after_p.skip(ep + "</p>"@.len()), "\n"@);
            lemma_block_content_len(after_close);
        }
    }
}

/// The rest after collecting tabs is a no longer than the input.
pub proof fn lemma_collect_tabs_len(current: Seq<char>, tabs: Seq<(Seq<char>, Seq<char>)>)
    ensures
        collect_tabs(current, tabs).1.len() <= current.len(),
    decreases current.len(),
{
    lemma_tab_step_shrinks(current);
    let peek = trim_start_by(current, |c: char| is_line_break(c));
    if starts_with(peek, "<p>/// tab"@) {
        let after_p = peek.skip("<p>"@.len() as int);
        if let Some(ep) = find(after_p, "</p>"@) {
            let opener = after_p.take(ep);
            let after_close = drop_prefix(after_p.skip(ep + "</p>"@.len()), "\n"@);
            let ta = match strip_prefix(opener, "/// tab"@) {
                Some(t) => t,
                None => Seq::empty(),
            };
            let title = trim(
                match strip_prefix(ta, " | "@) {
                    Some(t) => t,
                    None => Seq::empty(),
                },
            );
            if let Some((inner, rest)) = block_content(after_close) {
                lemma_collect_tabs_len(rest, tabs.push((title, inner)));
            }
        }
    }
}

/// Handling a marker consumes at least the marker's opening `<p>`.
pub proof fn lemma_marker_step_shrinks(html: Seq<char>, offset: int, counter: nat)
    requires
        find(html, "<p>/// "@) == Some(offset),
    ensures
        marker_step(html.skip(offset), counter).1.len() < html.len(),
{
    lemma_find_fits(html, "<p>/// "@);
    lemma_literals();
    let m = html.skip(offset);
    let after_open = m.skip("<p>"@.len() as int);
    lemma_find_fits(after_open, "</p>"@);
    if let Some(cp) = find(after_open, "</p>"@) {
        let opener = after_open.take(cp);
        let after_close = drop_prefix(after_open.skip(cp + "</p>"@.len()), "\n"@);
        lemma_block_content_len(after_close);
        if let Some(type_and_title) = strip_prefix(opener, "/// "@) {
            if let Some((inner, after_closer)) = block_content(after_close) {
                let (block_type, title) = type_title(type_and_title);
                lemma_collect_tabs_len(after_closer, seq![(title, inner)]);
            }
        }
    }
}

// ─── Block helpers ───────────────────────────────────────────────────────────

/// Parse `"type | Title"` or `"type"` held in `h[from..to]` into the
/// bounds of `(block_type, title)` inside `h`.
fn parse_pymdownx_type_title(h: &[char], from: usize, to: usize) -> (r: ((usize, usize), (usize, usize)))
    requires
        from <= to <= h@.len(),
    ensures
        r.0.0 <= r.0.1 <= h@.len(),
        r.1.0 <= r.1.1 <= h@.len(),
        (h@.subrange(r.0.0 as int, r.0.1 as int), h@.subrange(r.1.0 as int, r.1.1 as int))
            == type_title(h@.subrange(from as int, to as int)),
{
    let sep = to_chars(" | ");
    let s = Ghost(h@.subrange(from as int, to as int));
    proof {
        lemma_find_skip(h@.take(to as int), sep@, from as int);
        assert(h@.take(to as int).skip(from as int) =~= s@);
    }
    let ht = slice_take(h, to);
    match find_in(ht, from, &sep) {
        Some(k) => {
            let a = trim_range(h, from, from + k);
            let b = trim_range(h, from + k + sep.len(), to);
            proof {
                assert(h@.subrange(from as int, from + k) =~= s@.take(k as int));
                assert(h@.subrange(from + k + sep@.len(), to as int) =~= s@.skip(k + sep@.len()));
            }
            (a, b)
        },
        None => {
            let a = trim_range(h, from, to);
            proof {
                assert(h@.subrange(from as int, from as int) =~= Seq::<char>::empty());
            }
            (a, (from, from))
        },
    }
}

/// The prefix `h[..to]` as a slice.
fn slice_take(h: &[char], to: usize) -> (r: &[char])
    requires
        to <= h@.len(),
    ensures
        r@ == h@.take(to as int),
{
    vstd::slice::slice_subrange(h, 0, to)
}

/// Locate the next `<p>///</p>` closer in `h[from..]`.
///
/// Returns the closer's position and the position after it (past one
/// newline that directly follows the closer, if any).
fn find_block_content(h: &[char], from: usize) -> (r: Option<(usize, usize)>)
    requires
        from <= h@.len(),
    ensures
        match r {
            Some((p, a)) => {
                &&& from <= p <= a <= h@.len()
                &&& block_content(h@.skip(from as int)) == Some(
                    (h@.subrange(from as int, p as int), h@.skip(a as int)),
                )
            },
            None => block_content(h@.skip(from as int)) is None,
        },
{
    let closer = to_chars("<p>///</p>");
    match find_in(h, from, &closer) {
        Some(k) => {
            let p = from + k;
            let a = skip_prefix_at(h, p + closer.len(), &to_chars("\n"));
            proof {
                let t = h@.skip(from as int);
                assert(t.take(k as int) =~= h@.subrange(from as int, p as int));
                assert(t.skip(k + closer@.len()) =~= h@.skip(p + closer@.len()));
            }
            Some((p, a))
        },
        None => None,
    }
}

/// Append the trimmed characters of `s` to `out`.
fn push_trimmed(out: &mut String, s: &str)
    ensures
        final(out)@ == old(out)@ + trim(s@),
{
    let v = to_chars(s);
    let (a, b) = trim_range(&v, 0, v.len());
    assert(v@.subrange(0, v@.len() as int) =~= s@);
    push_range(out, &v, a, b);
}

/// Render a `/// details | Title` block as a native `<details>` element.
fn render_details_html(title: &str, content: &str) -> (out: String)
    ensures
        out@ == details_html(title@, content@),
{
    let mut out = String::new();
    out.append("<details>\n<summary>");
    if title.unicode_len() == 0 {
        out.append("Details");
    } else {
        out.append(title);
    }
    out.append("</summary>\n");
    push_trimmed(&mut out, content);
    out.append("\n</details>\n");
    assert(out@ =~= details_html(title@, content@));
    out
}

/// Render consecutive `/// tab` blocks as a CSS-only interactive tab group.
///
/// `tabs` is `(label, inner_html)` pairs. `counter` is incremented once per
/// call to provide unique `name`/`id` attributes across all blog posts.
fn render_tab_group(tabs: &[(String, String)], counter: &mut usize) -> (out: String)
    requires
        *old(counter) < usize::MAX,
    ensures
        *final(counter) == *old(counter) + 1,
        out@ == tab_group_html(tabs_view(tabs@), *old(counter) as nat),
{
    let g = *counter;
    *counter = *counter + 1;
    let ghost tv = tabs_view(tabs@);
    let mut out = String::new();
    out.append("<div class=\"tabs\">\n");
    let ghost start = out@;
    let mut i: usize = 0;
    while i < tabs.len()
        invariant
            i <= tabs@.len(),
            out@ == start + tab_inputs(g as nat, i as nat),
        decreases tabs.len() - i,
    {
        out.append("<input class=\"tab-radio\" type=\"radio\" name=\"tabs-");
        push_decimal(&mut out, g as u64);
        out.append("\" id=\"tab-");
        push_decimal(&mut out, g as u64);
        out.append("-");
        push_decimal(&mut out, i as u64);
        out.append("\"");
        if i == 0 {
            out.append(" checked");
        } else {
            out.append("");
        }
        out.append(">\n");
        assert(out@ =~= start + tab_inputs(g as nat, (i + 1) as nat));
        i = i + 1;
    }
    out.append("<div class=\"tab-bar\">\n");
    let ghost start2 = out@;
    let mut i: usize = 0;
    while i < tabs.len()
        invariant
            i <= tabs@.len(),
            tv == tabs_view(tabs@),
            out@ == start2 + tab_labels(g as nat, tv, i as nat),
        decreases tabs.len() - i,
    {
        out.append("<label for=\"tab-");
        push_decimal(&mut out, g as u64);
        out.append("-");
        push_decimal(&mut out, i as u64);
        out.append("\">");
        out.append(tabs[i].0.as_str());
        out.append("</label>\n");
        assert(tv[i as int].0 == tabs@[i as int].0@);
        assert(out@ =~= start2 + tab_labels(g as nat, tv, (i + 1) as nat));
        i = i + 1;
    }
    out.append("</div>\n");
    let ghost start3 = out@;
    let mut i: usize = 0;
    while i < tabs.len()
        invariant
            i <= tabs@.len(),
            tv == tabs_view(tabs@),
            out@ == start3 + tab_panels(tv, i as nat),
        decreases tabs.len() - i,
    {
        out.append("<section class=\"tab-panel\">\n");
        let v = to_chars(tabs[i].1.as_str());
        let (a, b) = trim_range(&v, 0, v.len());
        proof {
            assert(v@.subrange(0, v@.len() as int) =~= tv[i as int].1);
        }
        if a < b {
            push_range(&mut out, &v, a, b);
            out.append("\n");
        }
        out.append("</section>\n");
        assert(out@ =~= start3 + tab_panels(tv, (i + 1) as nat));
        i = i + 1;
    }
    out.append("</div>\n");
    assert(out@ =~= tab_group_html(tv, g as nat));
    out
}

/// Whether `h[a..b]` is exactly `lit`.
fn range_is(h: &[char], a: usize, b: usize, lit: &str) -> (r: bool)
    requires
        a <= b <= h@.len(),
    ensures
        r == (h@.subrange(a as int, b as int) == lit@),
{
    let v = to_chars(lit);
    if b - a != v.len() {
        proof {
            if h@.subrange(a as int, b as int) == lit@ {
                assert(h@.subrange(a as int, b as int).len() == v@.len());
            }
        }
        return false;
    }
    matches_at(h, a, &v)
}

/// Position past the leading newlines and carriage returns of `h[from..]`.
fn skip_line_breaks(h: &[char], from: usize) -> (r: usize)
    requires
        from <= h@.len(),
    ensures
        from <= r <= h@.len(),
        h@.skip(r as int) == trim_start_by(h@.skip(from as int), |c: char| is_line_break(c)),
{
    let mut i = from;
    let n = h.len();
    while i < n && (h[i] == '\n' || h[i] == '\r')
        invariant
            from <= i <= n == h@.len(),
            trim_start_by(h@.skip(from as int), |c: char| is_line_break(c))
                == trim_start_by(h@.skip(i as int), |c: char| is_line_break(c)),
        decreases n - i,
    {
        proof {
            assert(h@.skip(i as int).drop_first() =~= h@.skip(i + 1));
            assert(is_line_break(h@.skip(i as int)[0]));
            crate::text::lemma_trim_start_by_step(h@.skip(i as int), |c: char| is_line_break(c));
        }
        i = i + 1;
    }
    proof {
        if i < n {
            assert(!is_line_break(h@.skip(i as int)[0]));
        }
        assert(h@.skip(i as int).skip(0) =~= h@.skip(i as int));
    }
    i
}

/// Bounds of the title of a further tab opener `h[ap..op_end]`
/// (`"/// tab | Title"`): the trimmed text after `"/// tab | "`, or empty.
fn tab_title_range(h: &[char], ap: usize, op_end: usize) -> (r: (usize, usize))
    requires
        ap <= op_end <= h@.len(),
    ensures
        r.0 <= r.1 <= h@.len(),
        h@.subrange(r.0 as int, r.1 as int) == trim(
            match strip_prefix(
                match strip_prefix(h@.subrange(ap as int, op_end as int), "/// tab"@) {
                    Some(t) => t,
                    None => Seq::empty(),
                },
                " | "@,
            ) {
                Some(t) => t,
                None => Seq::empty(),
            },
        ),
{
    let opener = Ghost(h@.subrange(ap as int, op_end as int));
    let tab = to_chars("/// tab");
    let bar = to_chars(" | ");
    let ghost empty = Seq::<char>::empty();
    proof {
        assert(trim(empty) =~= empty) by {
            assert(crate::text::lead_len(empty, |c: char| crate::text::is_ws(c)) == 0);
            assert(crate::text::trail_len(empty, |c: char| crate::text::is_ws(c)) == 0);
        }
        assert(strip_prefix(empty, " | "@) is None) by {
            reveal_strlit(" | ");
        }
    }
    if op_end - ap >= tab.len() && matches_at(h, ap, &tab) {
        let ta = ap + tab.len();
        proof {
            assert(opener@.take(tab@.len() as int) =~= tab@);
            assert(opener@.skip(tab@.len() as int) =~= h@.subrange(ta as int, op_end as int));
        }
        if op_end - ta >= bar.len() && matches_at(h, ta, &bar) {
            let tb = ta + bar.len();
            proof {
                let t = h@.subrange(ta as int, op_end as int);
                assert(t.take(bar@.len() as int) =~= bar@);
                assert(t.skip(bar@.len() as int) =~= h@.subrange(tb as int, op_end as int));
            }
            trim_range(h, tb, op_end)
        } else {
            proof {
                let t = h@.subrange(ta as int, op_end as int);
                if starts_with(t, bar@) {
                    assert(t.take(bar@.len() as int) =~= h@.subrange(ta as int, ta + bar@.len()));
                }
                assert(h@.subrange(op_end as int, op_end as int) =~= empty);
            }
            (op_end, op_end)
        }
    } else {
        proof {
            if starts_with(opener@, tab@) {
                assert(opener@.take(tab@.len() as int) =~= h@.subrange(ap as int, ap + tab@.len()));
            }
            assert(h@.subrange(op_end as int, op_end as int) =~= empty);
        }
        (op_end, op_end)
    }
}

/// Collect the `/// tab` blocks following a tab block at `h[cur..]` into
/// `tabs`; returns the position after the last collected block.
fn collect_tabs_at(h: &[char], start: usize, tabs: &mut Vec<(String, String)>) -> (r: usize)
    requires
        start <= h@.len(),
    ensures
        start <= r <= h@.len(),
        (tabs_view(final(tabs)@), h@.skip(r as int)) == collect_tabs(
            h@.skip(start as int),
            tabs_view(old(tabs)@),
        ),
{
    let open_tab = to_chars("<p>/// tab");
    let close_p = to_chars("</p>");
    let nl = to_chars("\n");
    let mut cur = start;
    proof {
        lemma_literals();
    }
    loop
        invariant
            cur <= h@.len(),
            start <= cur,
            open_tab@ == "<p>/// tab"@,
            close_p@ == "</p>"@,
            nl@ == "\n"@,
            collect_tabs(h@.skip(start as int), tabs_view(old(tabs)@)) == collect_tabs(
                h@.skip(cur as int),
                tabs_view(tabs@),
            ),
        decreases h@.len() - cur,
    {
        let ghost tv = tabs_view(tabs@);
        let ghost cs = h@.skip(cur as int);
        proof {
            lemma_literals();
        }
        let hl = h.len();
        let peek = skip_line_breaks(h, cur);
        if !starts_with_at(h, peek, &open_tab) {
            return cur;
        }
        assert(peek + 10 <= hl);
        let ap = peek + 3;
        proof {
            assert(h@.skip(peek as int).skip(3) =~= h@.skip(ap as int));
        }
        let ep = match find_in(h, ap, &close_p) {
            Some(ep) => ep,
            None => {
                return cur;
            },
        };
        let op_end = ap + ep;
        let atc = skip_prefix_at(h, op_end + 4, &nl);
        proof {
            let after_p = h@.skip(ap as int);
            assert(after_p.take(ep as int) =~= h@.subrange(ap as int, op_end as int));
            assert(after_p.skip(ep + 4) =~= h@.skip(op_end + 4));
        }
        let (t0, t1) = tab_title_range(h, ap, op_end);
        let (cpos, after) = match find_block_content(h, atc) {
            Some(r) => r,
            None => {
                return cur;
            },
        };
        let title = string_of(h, t0, t1);
        let inner = string_of(h, atc, cpos);
        tabs.push((title, inner));
        proof {
            assert(tabs_view(tabs@) =~= tv.push((h@.subrange(t0 as int, t1 as int), h@.subrange(atc as int, cpos as int))));
            lemma_tab_step_shrinks(cs);
        }
        cur = after;
    }
}

/// Handle the marker paragraph starting at `h[m..]`: append its
/// replacement to `result`, return the position after what it consumed.
fn marker_step_at(h: &[char], m: usize, counter: &mut usize, result: &mut String) -> (r: usize)
    requires
        m + 7 <= h@.len(),
        starts_with(h@.skip(m as int), "<p>/// "@),
        marker_step(h@.skip(m as int), *old(counter) as nat).2 <= usize::MAX,
    ensures
        m < r <= h@.len(),
        final(result)@ == old(result)@ + marker_step(h@.skip(m as int), *old(counter) as nat).0,
        h@.skip(r as int) == marker_step(h@.skip(m as int), *old(counter) as nat).1,
        *final(counter) as nat == marker_step(h@.skip(m as int), *old(counter) as nat).2,
{
    proof {
        lemma_literals();
    }
    let ghost ms = h@.skip(m as int);
    let ghost c = *counter as nat;
    let hl = h.len();
    let close_p = to_chars("</p>");
    let nl = to_chars("\n");
    let slashes = to_chars("/// ");
    let ao = m + 3;
    proof {
        assert(ms.skip(3) =~= h@.skip(ao as int));
    }
    let cp = match find_in(h, ao, &close_p) {
        Some(cp) => cp,
        None => {
            result.append("<p>");
            return ao;
        },
    };
    let op_end = ao + cp;
    let ac = skip_prefix_at(h, op_end + 4, &nl);
    let ghost opener = h@.subrange(ao as int, op_end as int);
    proof {
        let after_open = h@.skip(ao as int);
        assert(after_open.take(cp as int) =~= opener);
        assert(after_open.skip(cp + 4) =~= h@.skip(op_end + 4));
    }
    if cp < 4 || !matches_at(h, ao, &slashes) {
        proof {
            if starts_with(opener, "/// "@) {
                assert(opener.take(4) =~= h@.subrange(ao as int, ao + 4));
            }
            assert(ms.take(cp + 7) =~= h@.subrange(m as int, m + cp + 7));
        }
        push_range(result, h, m, m + cp + 7);
        return ac;
    }
    proof {
        assert(opener.take(4) =~= slashes@);
        assert(opener.skip(4) =~= h@.subrange(ao + 4, op_end as int));
    }
    let ((b0, b1), (t0, t1)) = parse_pymdownx_type_title(h, ao + 4, op_end);
    let (cpos, after) = match find_block_content(h, ac) {
        Some(r) => r,
        None => {
            result.append("<p>");
            push_range(result, h, ao, op_end);
            result.append("</p>\n");
            proof {
                assert(result@ =~= old(result)@ + ("<p>"@ + opener + "</p>\n"@));
            }
            return ac;
        },
    };
    if range_is(h, b0, b1, "tab") {
        let title = string_of(h, t0, t1);
        let inner = string_of(h, ac, cpos);
        let mut tabs: Vec<(String, String)> = Vec::new();
        tabs.push((title, inner));
        proof {
            assert(tabs_view(tabs@) =~= seq![(h@.subrange(t0 as int, t1 as int), h@.subrange(ac as int, cpos as int))]);
        }
        let rest = collect_tabs_at(h, after, &mut tabs);
        let group = render_tab_group(&tabs, counter);
        result.append(group.as_str());
        return rest;
    } else if range_is(h, b0, b1, "details") {
        let title = string_of(h, t0, t1);
        let inner = string_of(h, ac, cpos);
        let d = render_details_html(title.as_str(), inner.as_str());
        result.append(d.as_str());
        return after;
    } else {
        result.append("<p>");
        push_range(result, h, ao, op_end);
        result.append("</p>\n");
        proof {
            assert(result@ =~= old(result)@ + ("<p>"@ + opener + "</p>\n"@));
        }
        return ac;
    }
}

/// The counter never decreases while post-processing.
pub proof fn lemma_pymdownx_counter_grows(html: Seq<char>, counter: nat)
    ensures
        counter <= pymdownx(html, counter).1,
        find(html, "<p>/// "@) matches Some(offset) ==> marker_step(html.skip(offset), counter).2
            <= pymdownx(html, counter).1,
    decreases html.len(),
{
    if let Some(offset) = find(html, "<p>/// "@) {
        let (piece, rest, c) = marker_step(html.skip(offset), counter);
        lemma_marker_step_shrinks(html, offset, counter);
        lemma_pymdownx_counter_grows(rest, c);
    }
}

/// The counter grows by at most one per character of input.
pub proof fn lemma_pymdownx_counter_bound(html: Seq<char>, counter: nat)
    ensures
        pymdownx(html, counter).1 <= counter + html.len(),
    decreases html.len(),
{
    if let Some(offset) = find(html, "<p>/// "@) {
        let (piece, rest, c) = marker_step(html.skip(offset), counter);
        lemma_marker_step_shrinks(html, offset, counter);
        lemma_pymdownx_counter_bound(rest, c);
        lemma_find_fits(html, "<p>/// "@);
        lemma_marker_step_counter(html.skip(offset), counter);
    }
}

/// One marker advances the counter by at most one.
pub proof fn lemma_marker_step_counter(m: Seq<char>, counter: nat)
    ensures
        counter <= marker_step(m, counter).2 <= counter + 1,
        marker_step(m, counter).1 == marker_step(m, 0).1,
        marker_step(m, counter).2 == counter + marker_step(m, 0).2,
{
}

/// The number of tab groups does not depend on where the counter starts:
/// post-processing from `counter` ends `pymdownx(html, 0).1` groups later.
pub proof fn lemma_pymdownx_counter_offset(html: Seq<char>, counter: nat)
    ensures
        pymdownx(html, counter).1 == counter + pymdownx(html, 0).1,
    decreases html.len(),
{
    if let Some(offset) = find(html, "<p>/// "@) {
        let m = html.skip(offset);
        lemma_marker_step_counter(m, counter);
        lemma_marker_step_shrinks(html, offset, counter);
        lemma_marker_step_shrinks(html, offset, 0);
        let (p1, rest, c1) = marker_step(m, counter);
        let (p0, rest0, c0) = marker_step(m, 0);
        lemma_pymdownx_counter_offset(rest, c1);
        lemma_pymdownx_counter_offset(rest, c0);
    }
}

/// The number of tab groups `postprocess_pymdownx` renders for `html`.
pub fn count_tab_groups(html: &str) -> (n: usize)
    ensures
        n as nat == pymdownx(html@, 0).1,
{
    let v = to_chars(html);
    let len = v.len();
    proof {
        lemma_pymdownx_counter_bound(html@, 0);
    }
    let mut counter: usize = 0;
    let _ = postprocess_pymdownx(html, &mut counter);
    counter
}

/// Scan `pulldown-cmark`-rendered HTML for `PyMdown` extension markers and
/// replace them with proper tab-group or details HTML.
///
/// `pulldown-cmark` renders `/// tab | Before` as `<p>/// tab | Before</p>` and
/// `///` (closer) as `<p>///</p>`. This function finds those marker paragraphs,
/// extracts the inner HTML between them, and emits the replacement HTML.
/// Consecutive `/// tab` blocks are collapsed into one group; `counter`
/// numbers the groups and is advanced once per group.
pub fn postprocess_pymdownx(html: &str, counter: &mut usize) -> (out: String)
    requires
        pymdownx(html@, *old(counter) as nat).1 <= usize::MAX,
    ensures
        out@ == pymdownx(html@, *old(counter) as nat).0,
        *final(counter) as nat == pymdownx(html@, *old(counter) as nat).1,
{
    let h = to_chars(html);
    let marker = to_chars("<p>/// ");
    let mut result = String::new();
    let mut pos: usize = 0;
    let ghost target = pymdownx(html@, *counter as nat);
    proof {
        lemma_literals();
        assert(h@.skip(0) =~= h@);
        assert(Seq::<char>::empty() + target.0 =~= target.0);
    }
    loop
        invariant
            pos <= h@.len(),
            h@ == html@,
            marker@ == "<p>/// "@,
            target == pymdownx(html@, *old(counter) as nat),
            target.1 <= usize::MAX,
            result@ + pymdownx(h@.skip(pos as int), *counter as nat).0 == target.0,
            pymdownx(h@.skip(pos as int), *counter as nat).1 == target.1,
        decreases h@.len() - pos,
    {
        let ghost rem = h@.skip(pos as int);
        let ghost c = *counter as nat;
        proof {
            lemma_literals();
        }
        match find_in(&h, pos, &marker) {
            None => {
                push_range(&mut result, &h, pos, h.len());
                proof {
                    assert(h@.subrange(pos as int, h@.len() as int) =~= rem);
                    assert(pymdownx(rem, c).0 == rem);
                }
                return result;
            },
            Some(off) => {
                push_range(&mut result, &h, pos, pos + off);
                let m = pos + off;
                proof {
                    assert(h@.subrange(pos as int, m as int) =~= rem.take(off as int));
                    assert(rem.skip(off as int) =~= h@.skip(m as int));
                    lemma_find_fits(rem, "<p>/// "@);
                    assert(h@.skip(m as int).take(7) =~= rem.subrange(off as int, off + 7));
                    lemma_pymdownx_counter_grows(rem, c);
                    lemma_marker_step_shrinks(rem, off as int, c);
                    let (piece, rest, c2) = marker_step(h@.skip(m as int), c);
                    lemma_pymdownx_counter_grows(rest, c2);
                }
                let next = marker_step_at(&h, m, counter, &mut result);
                proof {
                    let (piece, rest, c2) = marker_step(h@.skip(m as int), c);
                    assert(result@ + pymdownx(rest, c2).0 =~= target.0);
                }
                pos = next;
            },
        }
    }
}

/// Law: HTML with no `<p>/// ` marker paragraph passes through the
/// post-processor unchanged, and no tab group is numbered.
pub proof fn lemma_pymdownx_passthrough(html: Seq<char>, counter: nat)
    requires
        !contains(html, "<p>/// "@),
    ensures
        pymdownx(html, counter) == (html, counter),
{
}

// ─── Tab group numbering ─────────────────────────────────────────────────────

/// `piece` is the HTML of a tab group numbered `g`.
pub open spec fn is_group_piece(piece: Seq<char>, g: nat) -> bool {
    exists|tabs: Seq<(Seq<char>, Seq<char>)>| piece == tab_group_html(tabs, g)
}

/// The numbers of the tab groups the post-processor emits for `html` when
/// its counter starts at `counter`, in output order: each marker replaced
/// by a tab group numbered with the counter of that moment contributes its
/// number.
pub open spec fn emitted_groups(html: Seq<char>, counter: nat) -> Seq<nat>
    decreases html.len(),
{
    match find(html, "<p>/// "@) {
        None => Seq::empty(),
        Some(offset) => {
            let (piece, rest, c) = marker_step(html.skip(offset), counter);
            proof {
                lemma_marker_step_shrinks(html, offset, counter);
            }
            (if is_group_piece(piece, counter) {
                seq![counter]
            } else {
                Seq::empty()
            }) + emitted_groups(rest, c)
        },
    }
}

/// The third character of every tab group is `i`.
proof fn lemma_group_third_char(tabs: Seq<(Seq<char>, Seq<char>)>, g: nat)
    ensures
        tab_group_html(tabs, g).len() > 2,
        tab_group_html(tabs, g)[2] == 'i',
{
    reveal_strlit("<div class=\"tabs\">\n");
    let h = tab_group_html(tabs, g);
    let a = "<div class=\"tabs\">\n"@;
    let rest = tab_inputs(g, tabs.len()) + "<div class=\"tab-bar\">\n"@ + tab_labels(g, tabs, tabs.len()) + "</div>\n"@
        + tab_panels(tabs, tabs.len()) + "</div>\n"@;
    assert(h =~= a + rest);
    assert(h[2] == a[2]);
}

/// A marker step renders a tab group numbered with the counter exactly
/// when it advances the counter.
proof fn lemma_marker_step_group(html: Seq<char>, offset: int, counter: nat)
    requires
        find(html, "<p>/// "@) == Some(offset),
    ensures
        ({
            let (piece, rest, c) = marker_step(html.skip(offset), counter);
            &&& (c == counter + 1 || c == counter)
            &&& is_group_piece(piece, counter) <==> c == counter + 1
        }),
{
    lemma_find_fits(html, "<p>/// "@);
    lemma_literals();
    reveal_strlit("<details>\n<summary>");
    let m = html.skip(offset);
    lemma_marker_step_counter(m, counter);
    let (piece, rest, c) = marker_step(m, counter);
    assert(m.subrange(0, 7) == html.subrange(offset, offset + 7));
    assert(m[2] == '>') by {
        assert(m[2] == m.subrange(0, 7)[2]);
    }
    let after_open = m.skip("<p>"@.len() as int);
    lemma_find_fits(after_open, "</p>"@);
    if c == counter + 1 {
        // Only the tab branch advances the counter.
        let cp = find(after_open, "</p>"@)->0;
        let opener = after_open.take(cp);
        let after_close = drop_prefix(after_open.skip(cp + "</p>"@.len()), "\n"@);
        let type_and_title = strip_prefix(opener, "/// "@)->0;
        let (block_type, title) = type_title(type_and_title);
        let (inner, after_closer) = block_content(after_close)->0;
        let (tabs, r) = collect_tabs(after_closer, seq![(title, inner)]);
        assert(piece == tab_group_html(tabs, counter));
    } else {
        if is_group_piece(piece, counter) {
            let tabs = choose|tabs: Seq<(Seq<char>, Seq<char>)>| piece == tab_group_html(tabs, counter);
            lemma_group_third_char(tabs, counter);
            match find(after_open, "</p>"@) {
                None => {
                    assert(piece == "<p>"@);
                },
                Some(cp) => {
                    let opener = after_open.take(cp);
                    let after_close = drop_prefix(after_open.skip(cp + "</p>"@.len()), "\n"@);
                    let literal = "<p>"@ + opener + "</p>\n"@;
                    assert(literal[2] == '>');
                    match strip_prefix(opener, "/// "@) {
                        None => {
                            assert(piece == m.take(cp + "<p>"@.len() + "</p>"@.len()));
                            assert(piece[2] == m[2]);
                        },
                        Some(type_and_title) => {
                            let (block_type, title) = type_title(type_and_title);
                            match block_content(after_close) {
                                None => {},
                                Some((inner, after_closer)) => {
                                    if block_type == "details"@ {
                                        let d = details_html(title, inner);
                                        let rest_d = (if title.len() == 0 {
                                            "Details"@
                                        } else {
                                            title
                                        }) + "</summary>\n"@ + trim(inner) + "\n</details>\n"@;
                                        assert(d =~= "<details>\n<summary>"@ + rest_d);
                                        assert(d[2] == 'e');
                                    }
                                },
                            }
                        },
                    }
                },
            }
        }
    }
}

/// Law: the tab groups the post-processor emits are numbered with
/// consecutive values from the counter it starts with, in output order, and
/// the counter ends advanced by exactly the number of groups emitted.
pub proof fn lemma_tab_groups_numbered(html: Seq<char>, counter: nat)
    ensures
        pymdownx(html, counter).1 >= counter,
        emitted_groups(html, counter) == Seq::new(
            (pymdownx(html, counter).1 - counter) as nat,
            |j: int| (counter + j) as nat,
        ),
    decreases html.len(),
{
    match find(html, "<p>/// "@) {
        None => {
            assert(emitted_groups(html, counter) =~= Seq::<nat>::empty());
        },
        Some(offset) => {
            let (piece, rest, c) = marker_step(html.skip(offset), counter);
            lemma_marker_step_shrinks(html, offset, counter);
            lemma_marker_step_group(html, offset, counter);
            lemma_tab_groups_numbered(rest, c);
            let fin = pymdownx(rest, c).1;
            assert(pymdownx(html, counter).1 == fin);
            assert(emitted_groups(html, counter) =~= Seq::new((fin - counter) as nat, |j: int| (counter + j) as nat));
        },
    }
}

/// Law: posts post-processed one after the other with one shared counter
/// never reuse a tab group number: every group of the first call is
/// numbered below every group of the second.
pub proof fn lemma_threaded_tab_groups_distinct(first: Seq<char>, second: Seq<char>, counter: nat)
    ensures
        forall|a: int, b: int|
            0 <= a < emitted_groups(first, counter).len() && 0 <= b < emitted_groups(
                second,
                pymdownx(first, counter).1,
            ).len() ==> #[trigger] emitted_groups(first, counter)[a] < #[trigger] emitted_groups(
                second,
                pymdownx(first, counter).1,
            )[b],
{
    lemma_tab_groups_numbered(first, counter);
    lemma_tab_groups_numbered(second, pymdownx(first, counter).1);
}

// ─── HTML without tab markers ────────────────────────────────────────────────

/// `a` is a suffix of `b`.
pub open spec fn is_suffix(a: Seq<char>, b: Seq<char>) -> bool {
    a.len() <= b.len() && a == b.skip(b.len() - a.len())
}

/// `n` occurs somewhere in `h`.
pub open spec fn occurs_in(h: Seq<char>, n: Seq<char>) -> bool {
    exists|i: int| occurs_at_seq(h, i, n)
}

proof fn lemma_suffix_trans(a: Seq<char>, b: Seq<char>, c: Seq<char>)
    requires
        is_suffix(a, b),
        is_suffix(b, c),
    ensures
        is_suffix(a, c),
{
    assert(c.skip(c.len() - b.len()).skip(b.len() - a.len()) =~= c.skip(c.len() - a.len()));
}

proof fn lemma_skip_suffix(b: Seq<char>, k: int)
    requires
        0 <= k <= b.len(),
    ensures
        is_suffix(b.skip(k), b),
{
    assert(b.skip(k) =~= b.skip(b.len() - b.skip(k).len()));
}

proof fn lemma_drop_prefix_suffix(b: Seq<char>, p: Seq<char>)
    ensures
        is_suffix(drop_prefix(b, p), b),
{
    if starts_with(b, p) {
        lemma_skip_suffix(b, p.len() as int);
    } else {
        assert(b =~= b.skip(0));
    }
}

/// What occurs in a suffix occurs in the whole.
proof fn lemma_suffix_occurs(a: Seq<char>, b: Seq<char>, n: Seq<char>)
    requires
        is_suffix(a, b),
        occurs_in(a, n),
    ensures
        occurs_in(b, n),
{
    let i = choose|i: int| occurs_at_seq(a, i, n);
    let d = b.len() - a.len();
    assert(b.subrange(d + i, d + i + n.len()) =~= a.subrange(i, i + n.len()));
    assert(occurs_at_seq(b, d + i, n));
}

/// What occurs in a slice occurs in the whole.
proof fn lemma_slice_occurs(h: Seq<char>, a: int, b: int, j: int, n: Seq<char>)
    requires
        0 <= a <= b <= h.len(),
        occurs_at_seq(h.subrange(a, b), j, n),
    ensures
        occurs_at_seq(h, a + j, n),
{
    assert(h.subrange(a + j, a + j + n.len()) =~= h.subrange(a, b).subrange(j, j + n.len()));
}

/// A text whose trimmed form is `n` holds `n`.
proof fn lemma_trim_occurs(x: Seq<char>, n: Seq<char>)
    requires
        trim(x) == n,
    ensures
        occurs_at_seq(x, lead_len(x, |c: char| crate::text::is_ws(c)) as int, n),
{
    let p = |c: char| crate::text::is_ws(c);
    let l = lead_len(x, p) as int;
    crate::text::lemma_lead_trail_len(x, p);
    let y = x.skip(l);
    crate::text::lemma_lead_trail_len(y, p);
    assert(trim(x) == y.take(y.len() - trail_len(y, p)));
    assert(x.subrange(l, l + n.len()) =~= n);
}

/// The HTML left after a block collection is a suffix of the HTML it
/// started from.
proof fn lemma_collect_tabs_suffix(current: Seq<char>, tabs: Seq<(Seq<char>, Seq<char>)>)
    ensures
        is_suffix(collect_tabs(current, tabs).1, current),
    decreases current.len(),
{
    lemma_literals();
    let peek = trim_start_by(current, |c: char| is_line_break(c));
    crate::text::lemma_lead_trail_len(current, |c: char| is_line_break(c));
    assert(current =~= current.skip(0));
    if starts_with(peek, "<p>/// tab"@) {
        let after_p = peek.skip("<p>"@.len() as int);
        lemma_find_fits(after_p, "</p>"@);
        if let Some(ep) = find(after_p, "</p>"@) {
            let after_close = drop_prefix(after_p.skip(ep + "</p>"@.len()), "\n"@);
            lemma_find_fits(after_close, "<p>///</p>"@);
            if let Some((inner, rest)) = block_content(after_close) {
                lemma_tab_step_shrinks(current);
                lemma_collect_tabs_suffix(rest, tabs.push(
                    (
                        trim(
                            match strip_prefix(
                                match strip_prefix(after_p.take(ep), "/// tab"@) {
                                    Some(t) => t,
                                    None => Seq::empty(),
                                },
                                " | "@,
                            ) {
                                Some(t) => t,
                                None => Seq::empty(),
                            },
                        ),
                        inner,
                    ),
                ));
                let pos = find(after_close, "<p>///</p>"@)->0;
                lemma_skip_suffix(after_close, pos + "<p>///</p>"@.len());
                lemma_drop_prefix_suffix(after_close.skip(pos + "<p>///</p>"@.len()), "\n"@);
                lemma_suffix_trans(rest, after_close.skip(pos + "<p>///</p>"@.len()), after_close);
                lemma_skip_suffix(after_p, ep + "</p>"@.len());
                lemma_drop_prefix_suffix(after_p.skip(ep + "</p>"@.len()), "\n"@);
                lemma_suffix_trans(after_close, after_p.skip(ep + "</p>"@.len()), after_p);
                lemma_skip_suffix(peek, "<p>"@.len() as int);
                lemma_skip_suffix(current, lead_len(current, |c: char| is_line_break(c)) as int);
                lemma_suffix_trans(after_p, peek, current);
                lemma_suffix_trans(after_close, after_p, current);
                lemma_suffix_trans(rest, after_close, current);
                lemma_suffix_trans(collect_tabs(current, tabs).1, rest, current);
            }
        }
    }
}

/// One marker step leaves a suffix of the HTML it was given, and advances
/// the counter only for an opener whose block type is `tab`, so only when
/// `tab` occurs in that HTML.
proof fn lemma_marker_step_tab(m: Seq<char>, counter: nat)
    requires
        starts_with(m, "<p>/// "@),
    ensures
        is_suffix(marker_step(m, counter).1, m),
        marker_step(m, counter).2 != counter ==> occurs_in(m, "tab"@),
{
    lemma_literals();
    reveal_strlit("tab");
    reveal_strlit(" | ");
    let after_open = m.skip("<p>"@.len() as int);
    lemma_skip_suffix(m, 3);
    lemma_find_fits(after_open, "</p>"@);
    match find(after_open, "</p>"@) {
        None => {},
        Some(cp) => {
            let opener = after_open.take(cp);
            let mid = after_open.skip(cp + "</p>"@.len());
            let after_close = drop_prefix(mid, "\n"@);
            lemma_skip_suffix(after_open, cp + 4);
            lemma_drop_prefix_suffix(mid, "\n"@);
            lemma_suffix_trans(after_close, mid, after_open);
            lemma_suffix_trans(after_close, after_open, m);
            match strip_prefix(opener, "/// "@) {
                None => {},
                Some(tt) => {
                    let (block_type, title) = type_title(tt);
                    lemma_find_fits(after_close, "<p>///</p>"@);
                    match block_content(after_close) {
                        None => {},
                        Some((inner, after_closer)) => {
                            let pos = find(after_close, "<p>///</p>"@)->0;
                            lemma_skip_suffix(after_close, pos + 10);
                            lemma_drop_prefix_suffix(after_close.skip(pos + 10), "\n"@);
                            lemma_suffix_trans(after_closer, after_close.skip(pos + 10), after_close);
                            lemma_suffix_trans(after_closer, after_close, m);
                            if block_type == "tab"@ {
                                lemma_collect_tabs_suffix(after_closer, seq![(title, inner)]);
                                lemma_suffix_trans(
                                    collect_tabs(after_closer, seq![(title, inner)]).1,
                                    after_closer,
                                    m,
                                );
                                // `tt` is `m[7 .. 3 + cp]`.
                                assert(tt =~= m.subrange(7, 3 + cp));
                                lemma_find_fits(tt, " | "@);
                                match find(tt, " | "@) {
                                    Some(i) => {
                                        let x = tt.take(i);
                                        lemma_trim_occurs(x, "tab"@);
                                        let l = lead_len(x, |c: char| crate::text::is_ws(c)) as int;
                                        assert(x =~= m.subrange(7, 7 + i));
                                        lemma_slice_occurs(m, 7, 7 + i, l, "tab"@);
                                    },
                                    None => {
                                        lemma_trim_occurs(tt, "tab"@);
                                        let l = lead_len(tt, |c: char| crate::text::is_ws(c)) as int;
                                        lemma_slice_occurs(m, 7, 3 + cp, l, "tab"@);
                                    },
                                }
                            }
                        },
                    }
                },
            }
        },
    }
}

/// Law: HTML in which the text `tab` does not occur leaves the tab-group
/// counter where it was, and no tab group is emitted.
pub proof fn lemma_no_tab_keeps_counter(html: Seq<char>, counter: nat)
    requires
        !contains(html, "tab"@),
    ensures
        pymdownx(html, counter).1 == counter,
        emitted_groups(html, counter).len() == 0,
{
    crate::text::lemma_find_from(html, "tab"@, 0);
    assert(!occurs_in(html, "tab"@));
    lemma_no_tab_counter(html, counter);
    lemma_tab_groups_numbered(html, counter);
}

proof fn lemma_no_tab_counter(html: Seq<char>, counter: nat)
    requires
        !occurs_in(html, "tab"@),
    ensures
        pymdownx(html, counter).1 == counter,
    decreases html.len(),
{
    if let Some(offset) = find(html, "<p>/// "@) {
        lemma_find_fits(html, "<p>/// "@);
        lemma_literals();
        let m = html.skip(offset);
        assert(m.take(7) =~= html.subrange(offset, offset + 7));
        lemma_skip_suffix(html, offset);
        lemma_marker_step_tab(m, counter);
        lemma_marker_step_shrinks(html, offset, counter);
        let (piece, rest, c) = marker_step(m, counter);
        if c != counter {
            lemma_suffix_occurs(m, html, "tab"@);
        }
        lemma_suffix_trans(rest, m, html);
        if occurs_in(rest, "tab"@) {
            lemma_suffix_occurs(rest, html, "tab"@);
        }
        lemma_no_tab_counter(rest, c);
    }
}

// ─── Titles of collected tabs ────────────────────────────────────────────────

/// Collecting further tabs keeps the tabs collected so far, in front.
proof fn lemma_collect_tabs_prefix(current: Seq<char>, tabs: Seq<(Seq<char>, Seq<char>)>)
    ensures
        collect_tabs(current, tabs).0.len() >= tabs.len(),
        forall|i: int| 0 <= i < tabs.len() ==> #[trigger] collect_tabs(current, tabs).0[i] == tabs[i],
    decreases current.len(),
{
    lemma_tab_step_shrinks(current);
    let peek = trim_start_by(current, |c: char| is_line_break(c));
    if starts_with(peek, "<p>/// tab"@) {
        let after_p = peek.skip("<p>"@.len() as int);
        if let Some(ep) = find(after_p, "</p>"@) {
            let opener = after_p.take(ep);
            let after_close = drop_prefix(after_p.skip(ep + "</p>"@.len()), "\n"@);
            let ta = match strip_prefix(opener, "/// tab"@) {
                Some(t) => t,
                None => Seq::empty(),
            };
            let title = trim(
                match strip_prefix(ta, " | "@) {
                    Some(t) => t,
                    None => Seq::empty(),
                },
            );
            if let Some((inner, rest)) = block_content(after_close) {
                let more = tabs.push((title, inner));
                lemma_collect_tabs_prefix(rest, more);
                assert forall|i: int| 0 <= i < tabs.len() implies #[trigger] collect_tabs(current, tabs).0[i]
                    == tabs[i] by {
                    assert(collect_tabs(rest, more).0[i] == more[i]);
                }
            }
        }
    }
}

/// Law: a further tab block `<p>/// tab | T</p>` followed by a closed block
/// is collected as the tab `(T trimmed, its inner HTML)`, after the tabs
/// collected before it, which are kept; so each tab of a group is labelled
/// with the title written on its own opener.
pub proof fn lemma_collect_tabs_title(
    title: Seq<char>,
    after: Seq<char>,
    tabs: Seq<(Seq<char>, Seq<char>)>,
)
    requires
        !title.contains('<'),
        block_content(drop_prefix(after, "\n"@)) is Some,
    ensures
        ({
            let current = "<p>/// tab | "@ + title + "</p>"@ + after;
            let got = collect_tabs(current, tabs).0;
            &&& got.len() > tabs.len()
            &&& got[tabs.len() as int] == (trim(title), (block_content(drop_prefix(after, "\n"@))->0).0)
            &&& forall|i: int| 0 <= i < tabs.len() ==> #[trigger] got[i] == tabs[i]
        }),
{
    lemma_literals();
    reveal_strlit("<p>/// tab | ");
    reveal_strlit("/// tab");
    reveal_strlit(" | ");
    let head = "<p>/// tab | "@;
    let current = head + title + "</p>"@ + after;
    let lb = |c: char| is_line_break(c);
    assert(current[0] == '<');
    assert(lead_len(current, lb) == 0);
    let peek = trim_start_by(current, lb);
    assert(peek =~= current);
    assert(peek.take(10) =~= "<p>/// tab"@);
    assert(starts_with(peek, "<p>/// tab"@));
    let after_p = peek.skip(3);
    let ep: int = 10 + title.len() as int;
    assert(after_p =~= seq!['/', '/', '/', ' ', 't', 'a', 'b', ' ', '|', ' '] + title + "</p>"@ + after);
    assert(after_p.subrange(ep, ep + 4) =~= "</p>"@);
    assert forall|j: int| 0 <= j < ep implies !crate::text::occurs_at(after_p, j, "</p>"@) by {
        if crate::text::occurs_at(after_p, j, "</p>"@) {
            assert(after_p.subrange(j, j + 4)[0] == after_p[j]);
            if j >= 10 {
                assert(after_p[j] == title[j - 10]);
                assert(title.contains('<'));
            }
        }
    }
    crate::text::lemma_find_from_unique(after_p, "</p>"@, 0, ep);
    assert(find(after_p, "</p>"@) == Some(ep));
    let opener = after_p.take(ep);
    assert(opener.take(7) =~= "/// tab"@);
    let ta = opener.skip(7);
    assert(strip_prefix(opener, "/// tab"@) == Some(ta));
    assert(ta.take(3) =~= " | "@);
    assert(ta.skip(3) =~= title);
    assert(strip_prefix(ta, " | "@) == Some(title));
    assert(after_p.skip(ep + 4) =~= after);
    let (inner, rest) = block_content(drop_prefix(after, "\n"@))->0;
    lemma_collect_tabs_prefix(rest, tabs.push((trim(title), inner)));
    assert(collect_tabs(current, tabs) == collect_tabs(rest, tabs.push((trim(title), inner))));
}

} // verus!
