//! Project page compilation and Rust code generation.
//!
//! Turns parsed TOML frontmatter and Markdown bodies of project pages into
//! [`ProjectPageData`] and emits a `static PROJECT_PAGES: &[ProjectPage]`
//! array for inclusion in the site.

use vstd::prelude::*;

use crate::sort::{insert_point, lemma_insert_at, lemma_sort_by, sort_by, sorted_by, total_preorder};
use crate::text::{lemma_lex_le_total_order, lex_le, str_le};
use crate::build::markdown::{markdown_html, render};
use crate::text::{debug_literal, debug_str};

verus! {

broadcast use vstd::string::group_string_axioms;

/// TOML frontmatter fields for a project detail page.
pub struct ProjectFrontmatter {
    /// Display title of the project.
    pub title: String,
    /// URL-safe slug used to construct the project's route.
    pub slug: String,
    /// GitHub repository in `owner/repo` form.
    pub github: String,
    /// Short one-line description shown in project listings.
    pub tagline: String,
    /// Controls which live-activity widgets are shown on the project page.
    pub activity: ProjectActivityFrontmatter,
}

/// Activity display flags for a project page.
///
/// All fields default to `true`; only set a field to `false` to disable it.
pub struct ProjectActivityFrontmatter {
    /// Whether to show the latest release widget.
    pub release: bool,
    /// Whether to show the recent commits widget.
    pub recent_commits: bool,
    /// Whether to show the open pull requests widget.
    pub open_prs: bool,
}

impl Default for ProjectActivityFrontmatter {
    fn default() -> (r: Self)
        ensures
            r.release && r.recent_commits && r.open_prs,
    {
        Self { release: bool_true(), recent_commits: bool_true(), open_prs: bool_true() }
    }
}

/// Default value provider returning `true`, used for absent activity flags.
pub fn bool_true() -> (b: bool)
    ensures
        b,
{
    true
}

/// A fully processed project detail page ready for code generation.
pub struct ProjectPageData {
    /// URL-safe slug for routing.
    pub slug: String,
    /// Display title of the project.
    pub title: String,
    /// GitHub repository in `owner/repo` form.
    pub github: String,
    /// Short one-line tagline for listings.
    pub tagline: String,
    /// Whether to display the latest release widget.
    pub activity_release: bool,
    /// Whether to display the recent commits widget.
    pub activity_recent_commits: bool,
    /// Whether to display the open pull requests widget.
    pub activity_open_prs: bool,
    /// Full HTML body of the project page.
    pub body_html: String,
}

/// The model of a project page.
pub struct ProjectPageModel {
    pub slug: Seq<char>,
    pub title: Seq<char>,
    pub github: Seq<char>,
    pub tagline: Seq<char>,
    pub activity_release: bool,
    pub activity_recent_commits: bool,
    pub activity_open_prs: bool,
    pub body_html: Seq<char>,
}

impl View for ProjectPageData {
    type V = ProjectPageModel;

    open spec fn view(&self) -> ProjectPageModel {
        ProjectPageModel {
            slug: self.slug@,
            title: self.title@,
            github: self.github@,
            tagline: self.tagline@,
            activity_release: self.activity_release,
            activity_recent_commits: self.activity_recent_commits,
            activity_open_prs: self.activity_open_prs,
            body_html: self.body_html@,
        }
    }
}

/// The page for a project's frontmatter and Markdown body.
pub open spec fn project_page(fm: ProjectFrontmatter, body_markdown: Seq<char>) -> ProjectPageModel {
    ProjectPageModel {
        slug: fm.slug@,
        title: fm.title@,
        github: fm.github@,
        tagline: fm.tagline@,
        activity_release: fm.activity.release,
        activity_recent_commits: fm.activity.recent_commits,
        activity_open_prs: fm.activity.open_prs,
        body_html: markdown_html(body_markdown),
    }
}

/// Build a [`ProjectPageData`] from parsed frontmatter and the Markdown body.
pub fn process_project_file(fm: ProjectFrontmatter, body_markdown: &str) -> (page: ProjectPageData)
    ensures
        page@ == project_page(fm, body_markdown@),
{
    let body_html = render(body_markdown);
    ProjectPageData {
        slug: fm.slug,
        title: fm.title,
        github: fm.github,
        tagline: fm.tagline,
        activity_release: fm.activity.release,
        activity_recent_commits: fm.activity.recent_commits,
        activity_open_prs: fm.activity.open_prs,
        body_html,
    }
}

// ─── Code generation ─────────────────────────────────────────────────────────

/// `{:?}` of a `bool`.
pub open spec fn bool_code(b: bool) -> Seq<char> {
    if b {
        "true"@
    } else {
        "false"@
    }
}

/// The text fields of a page's entry.
pub open spec fn page_head_code(p: ProjectPageModel) -> Seq<char> {
    "    ProjectPage {\n"@
        + "        slug: "@ + debug_literal(p.slug) + ",\n"@
        + "        title: "@ + debug_literal(p.title) + ",\n"@
        + "        github: "@ + debug_literal(p.github) + ",\n"@
        + "        tagline: "@ + debug_literal(p.tagline) + ",\n"@
}

/// The activity flags of a page's entry.
pub open spec fn activity_code(p: ProjectPageModel) -> Seq<char> {
    "        activity: ActivityConfig {\n"@
        + flag_code("release"@, p.activity_release)
        + flag_code("recent_commits"@, p.activity_recent_commits)
        + flag_code("open_prs"@, p.activity_open_prs) + "        },\n"@
}

/// One activity flag line.
pub open spec fn flag_code(name: Seq<char>, b: bool) -> Seq<char> {
    "            "@ + name + ": "@ + bool_code(b) + ",\n"@
}

/// The `ProjectPage { … }` entry for one page.
pub open spec fn page_code(p: ProjectPageModel) -> Seq<char> {
    page_head_code(p) + activity_code(p) + "        body_html: "@ + debug_literal(p.body_html)
        + ",\n"@ + "    },\n"@
}

/// The entries of the first `n` pages.
pub open spec fn pages_code(pages: Seq<ProjectPageModel>, n: nat) -> Seq<char>
    decreases n,
{
    if n == 0 {
        Seq::empty()
    } else {
        pages_code(pages, (n - 1) as nat) + page_code(pages[n - 1])
    }
}

/// The Rust source defining `PROJECT_PAGES` for the given pages.
pub open spec fn project_pages_code(pages: Seq<ProjectPageModel>) -> Seq<char> {
    "/// Compiled project detail pages (generated by the build script from Markdown).\n"@
        + "pub static PROJECT_PAGES: &[ProjectPage] = &[\n"@ + pages_code(pages, pages.len())
        + "];\n"@
}

/// Append `{:?}` of a `bool`.
fn push_bool(code: &mut String, b: bool)
    ensures
        final(code)@ == old(code)@ + bool_code(b),
{
    if b {
        code.append("true");
    } else {
        code.append("false");
    }
}

/// Append the text fields of a page's entry.
fn push_page_head(code: &mut String, page: &ProjectPageData)
    ensures
        final(code)@ == old(code)@ + page_head_code(page@),
{
    code.append("    ProjectPage {\n");
    code.append("        slug: ");
    code.append(debug_str(page.slug.as_str()).as_str());
    code.append(",\n");
    code.append("        title: ");
    code.append(debug_str(page.title.as_str()).as_str());
    code.append(",\n");
    code.append("        github: ");
    code.append(debug_str(page.github.as_str()).as_str());
    code.append(",\n");
    code.append("        tagline: ");
    code.append(debug_str(page.tagline.as_str()).as_str());
    code.append(",\n");
    assert(code@ =~= old(code)@ + page_head_code(page@));
}

/// Append one activity flag line.
fn push_flag(code: &mut String, name: &str, b: bool)
    ensures
        final(code)@ == old(code)@ + flag_code(name@, b),
{
    code.append("            ");
    code.append(name);
    code.append(": ");
    push_bool(code, b);
    code.append(",\n");
    assert(code@ =~= old(code)@ + flag_code(name@, b));
}

/// Append the activity flags of a page's entry.
fn push_activity(code: &mut String, page: &ProjectPageData)
    ensures
        final(code)@ == old(code)@ + activity_code(page@),
{
    code.append("        activity: ActivityConfig {\n");
    let ghost s0 = code@;
    push_flag(code, "release", page.activity_release);
    let ghost s1 = code@;
    push_flag(code, "recent_commits", page.activity_recent_commits);
    let ghost s2 = code@;
    push_flag(code, "open_prs", page.activity_open_prs);
    let ghost s3 = code@;
    code.append("        },\n");
    assert(code@ =~= old(code)@ + activity_code(page@));
}

/// Append the `ProjectPage { … }` entry for one page.
fn push_page_code(code: &mut String, page: &ProjectPageData)
    ensures
        final(code)@ == old(code)@ + page_code(page@),
{
    push_page_head(code, page);
    push_activity(code, page);
    code.append("        body_html: ");
    code.append(debug_str(page.body_html.as_str()).as_str());
    code.append(",\n");
    code.append("    },\n");
    assert(code@ =~= old(code)@ + page_code(page@));
}

/// Generate a Rust source file containing a `static PROJECT_PAGES: &[ProjectPage]` array.
pub fn generate_project_pages_code(pages: &[ProjectPageData]) -> (code: String)
    ensures
        code@ == project_pages_code(pages@.map_values(|p: ProjectPageData| p@)),
{
    let ghost ms = pages@.map_values(|p: ProjectPageData| p@);
    let mut code = String::new();
    code.append("/// Compiled project detail pages (generated by the build script from Markdown).\n");
    code.append("pub static PROJECT_PAGES: &[ProjectPage] = &[\n");
    let ghost start = code@;
    let mut i: usize = 0;
    while i < pages.len()
        invariant
            i <= pages@.len(),
            ms == pages@.map_values(|p: ProjectPageData| p@),
            code@ == start + pages_code(ms, i as nat),
        decreases pages.len() - i,
    {
        push_page_code(&mut code, &pages[i]);
        assert(code@ =~= start + pages_code(ms, (i + 1) as nat));
        i = i + 1;
    }
    code.append("];\n");
    assert(code@ =~= project_pages_code(ms));
    code
}

// ─── Ordering ────────────────────────────────────────────────────────────────

/// A page may stay in front of another when its slug sorts no later.
pub open spec fn slug_order() -> spec_fn(ProjectPageData, ProjectPageData) -> bool {
    |a: ProjectPageData, b: ProjectPageData| lex_le(a.slug@, b.slug@)
}

/// Law: pages come out ordered by slug and are exactly the pages given.
pub proof fn lemma_pages_by_slug(items: Seq<ProjectPageData>)
    ensures
        total_preorder(slug_order()),
        sorted_by(sort_by(items, slug_order()), slug_order()),
        sort_by(items, slug_order()).to_multiset() == items.to_multiset(),
{
    assert forall|a: ProjectPageData, b: ProjectPageData| #[trigger] slug_order()(a, b) || #[trigger] slug_order()(b, a) by {
        lemma_lex_le_total_order(a.slug@, b.slug@, b.slug@);
    }
    assert forall|a: ProjectPageData, b: ProjectPageData, c: ProjectPageData|
        #[trigger] slug_order()(a, b) && #[trigger] slug_order()(b, c) implies slug_order()(a, c) by {
        lemma_lex_le_total_order(a.slug@, b.slug@, c.slug@);
        lemma_lex_le_total_order(c.slug@, b.slug@, a.slug@);
    }
    lemma_sort_by(items, slug_order());
}

/// Orders project pages by slug, so that the generated code does not depend on the order files are found in.
pub fn sort_pages_by_slug(items: Vec<ProjectPageData>) -> (r: Vec<ProjectPageData>)
    ensures
        r@ == sort_by(items@, slug_order()),
{
    let ghost orig = items@;
    let ghost keep = slug_order();
    let mut input = items;
    let mut out: Vec<ProjectPageData> = Vec::new();
    assert(orig.take(0) =~= Seq::<ProjectPageData>::empty());
    assert(orig.skip(0) =~= orig);
    while input.len() > 0
        invariant
            keep == slug_order(),
            input@.len() <= orig.len(),
            input@ == orig.skip(orig.len() - input@.len()),
            out@ == sort_by(orig.take(orig.len() - input@.len()), keep),
        decreases input.len(),
    {
        let ghost k = orig.len() - input@.len();
        let x = input.remove(0);
        assert(x == orig[k]);
        assert(input@ =~= orig.skip(k + 1));
        let mut j = out.len();
        while j > 0 && !str_le(out[j - 1].slug.as_str(), x.slug.as_str())
            invariant
                j <= out@.len(),
                keep == slug_order(),
                forall|m: int| j <= m < out@.len() ==> !keep(#[trigger] out@[m], x),
            decreases j,
        {
            j = j - 1;
        }
        proof {
            assert(insert_point(out@, x, keep, j as int));
            lemma_insert_at(out@, x, keep, j as int);
            assert(orig.take(k + 1).drop_last() =~= orig.take(k));
        }
        out.insert(j, x);
    }
    assert(orig.take(orig.len() as int) =~= orig);
    out
}

} // verus!
