use jpellis_me::build::blog::{derive_slug, slug_from_stem, split_excerpt, split_frontmatter, strip_headings};
use jpellis_me::build::markdown::{count_tab_groups, postprocess_pymdownx, render};
use jpellis_me::build::projects::{
    bool_true, generate_project_pages_code, process_project_file, sort_pages_by_slug,
    ProjectActivityFrontmatter, ProjectFrontmatter,
};

#[test]
fn render_produces_html() {
    assert_eq!(render("Hello *world*"), "<p>Hello <em>world</em></p>\n");
}

#[test]
fn pymdownx_without_markers_is_unchanged() {
    let mut counter = 3usize;
    let html = "<p>Plain</p>\n<p>Text</p>\n";
    assert_eq!(postprocess_pymdownx(html, &mut counter), html);
    assert_eq!(counter, 3);
}

#[test]
fn pymdownx_tab_group_numbering() {
    let html = render("/// tab | One\n\nfirst\n\n///\n\n/// tab | Two\n\nsecond\n\n///\n");
    assert_eq!(count_tab_groups(&html), 1);
    let mut counter = 7usize;
    let out = postprocess_pymdownx(&html, &mut counter);
    assert_eq!(counter, 8);
    assert!(out.starts_with("<div class=\"tabs\">\n"));
    assert!(out.contains("tab-7-0"));
    assert!(out.contains("tab-7-1"));
    assert!(out.contains("One"));
    assert!(out.contains("<p>second</p>"));
    assert!(!out.contains("///"));
}

#[test]
fn pymdownx_threaded_counter_never_reuses_group_numbers() {
    let first = render("/// tab | A\n\na\n\n///\n\nBetween.\n\n/// tab | B\n\nb\n\n///\n");
    let second = render("/// tab | C\n\nc\n\n///\n");
    let mut counter = 0usize;
    let out1 = postprocess_pymdownx(&first, &mut counter);
    assert_eq!(counter, 2);
    let out2 = postprocess_pymdownx(&second, &mut counter);
    assert_eq!(counter, 3);
    assert!(out1.find("name=\"tabs-0\"").unwrap() < out1.find("name=\"tabs-1\"").unwrap());
    assert!(!out1.contains("tabs-2"));
    assert!(out2.contains("name=\"tabs-2\""));
    assert!(!out2.contains("tabs-0") && !out2.contains("tabs-1"));
}

#[test]
fn pymdownx_without_tab_text_keeps_the_counter() {
    let html = render("/// details | Note\n\nBody.\n\n///\n\nPlain text.\n");
    let mut counter = 4usize;
    let out = postprocess_pymdownx(&html, &mut counter);
    assert_eq!(counter, 4);
    assert!(!out.contains("tabs-"));
    let spaced = "<p>///  tab</p>\n<p>x</p>\n<p>///</p>\n";
    let out = postprocess_pymdownx(spaced, &mut counter);
    assert_eq!(counter, 5);
    assert!(out.contains("name=\"tabs-4\""));
}

#[test]
fn pymdownx_details_block() {
    let html = render("/// details | Why?\n\nBecause.\n\n///\n");
    let mut counter = 0usize;
    let out = postprocess_pymdownx(&html, &mut counter);
    assert_eq!(out, "<details>\n<summary>Why?</summary>\n<p>Because.</p>\n</details>\n");
    assert_eq!(counter, 0);
    let html = render("/// details\n\nBody.\n\n///\n");
    let out = postprocess_pymdownx(&html, &mut counter);
    assert_eq!(out, "<details>\n<summary>Details</summary>\n<p>Body.</p>\n</details>\n");
}

#[test]
fn pymdownx_unclosed_marker_is_kept() {
    let html = "<p>/// tab | Open</p>\n<p>never closed</p>\n";
    let mut counter = 0usize;
    assert_eq!(postprocess_pymdownx(html, &mut counter), html);
}

#[test]
fn slug_from_stem_examples() {
    assert_eq!(slug_from_stem("01-15 Hello, World!"), "hello-world");
    assert_eq!(slug_from_stem("Rust & Python -- together"), "rust-python-together");
    assert_eq!(slug_from_stem("2023-06-10-functional-arguments"), "2023-06-10-functional-arguments");
    assert_eq!(slug_from_stem("---"), "");
}

#[test]
fn derive_slug_prefers_frontmatter() {
    assert_eq!(derive_slug("content/blog/01-15 Hello.md", Some("custom")), "custom");
    assert_eq!(derive_slug("content/blog/01-15 Hello There.md", None), "hello-there");
    assert_eq!(derive_slug("content/blog/", None), "blog");
    assert_eq!(derive_slug("", None), "");
}

#[test]
fn strip_headings_removes_heading_elements() {
    assert_eq!(strip_headings("<h1>Title</h1>\n<p>Body</p>"), "<p>Body</p>");
    assert_eq!(strip_headings("<p>A</p>\n<h2 id=\"x\">B</h2>\n<p>C</p>"), "<p>A</p>\n<p>C</p>");
    assert_eq!(strip_headings("<header>keep</header>"), "<header>keep</header>");
}

#[test]
fn split_excerpt_resolution_order() {
    assert_eq!(split_excerpt("<p>A</p>\n<!-- more -->\n<p>B</p>", Some("desc")), "<p>A</p>");
    assert_eq!(split_excerpt("<p>A</p>\n<p>B</p>", Some("desc")), "<p>desc</p>");
    assert_eq!(split_excerpt("<h1>T</h1><p>A</p>\n<p>B</p>", None), "<p>A</p>");
    assert_eq!(split_excerpt("no paragraphs", None), "no paragraphs");
}

#[test]
fn split_frontmatter_minimal() {
    let input = "+++\ntitle = \"TikZ-Feynman\"\nslug = \"tikz-feynman\"\ngithub = \"JP-Ellis/tikz-feynman\"\ntagline = \"Feynman diagrams in LaTeX\"\n+++\n\nBody here.";
    let (fm, body) = split_frontmatter(input).expect("delimited");
    assert_eq!(
        fm,
        "title = \"TikZ-Feynman\"\nslug = \"tikz-feynman\"\ngithub = \"JP-Ellis/tikz-feynman\"\ntagline = \"Feynman diagrams in LaTeX\""
    );
    assert_eq!(body.trim(), "Body here.");
}

#[test]
fn split_frontmatter_none_without_delimiters() {
    assert!(split_frontmatter("title = \"No delimiters\"\n").is_none());
    assert!(split_frontmatter("+++\ntitle = \"never closed\"\n").is_none());
}

#[test]
fn split_frontmatter_crlf() {
    let (fm, body) = split_frontmatter("  +++\r\na = 1\n+++\r\nbody").expect("delimited");
    assert_eq!(fm, "a = 1");
    assert_eq!(body, "body");
}

#[test]
fn activity_defaults_are_true() {
    assert!(bool_true());
    let d = ProjectActivityFrontmatter::default();
    assert!(d.release && d.recent_commits && d.open_prs);
}

fn project(slug: &str, recent_commits: bool) -> ProjectFrontmatter {
    ProjectFrontmatter {
        title: format!("Title {slug}"),
        slug: slug.to_string(),
        github: format!("JP-Ellis/{slug}"),
        tagline: "Tagline".to_string(),
        activity: ProjectActivityFrontmatter { release: true, recent_commits, open_prs: true },
    }
}

#[test]
fn project_pages_are_rendered_sorted_and_generated() {
    let pages = vec![
        process_project_file(project("tikz-feynman", true), "Body *here*."),
        process_project_file(project("rust-skiplist", false), "Content."),
    ];
    assert_eq!(pages[0].body_html, "<p>Body <em>here</em>.</p>\n");
    let sorted = sort_pages_by_slug(pages);
    assert_eq!(sorted[0].slug, "rust-skiplist");
    assert_eq!(sorted[1].slug, "tikz-feynman");
    assert!(!sorted[0].activity_recent_commits);
    let code = generate_project_pages_code(&sorted);
    let expected_start = "/// Compiled project detail pages (generated by the build script from Markdown).\n\
pub static PROJECT_PAGES: &[ProjectPage] = &[\n    ProjectPage {\n        slug: \"rust-skiplist\",\n        title: \"Title rust-skiplist\",\n        github: \"JP-Ellis/rust-skiplist\",\n        tagline: \"Tagline\",\n        activity: ActivityConfig {\n            release: true,\n            recent_commits: false,\n            open_prs: true,\n        },\n        body_html: \"<p>Content.</p>\\n\",\n    },\n";
    assert!(code.starts_with(expected_start), "got:\n{code}");
    assert!(code.ends_with("    },\n];\n"));
}
