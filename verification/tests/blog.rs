use jpellis_me::blog::{find_post, format_date, source_domain, BlogPost};
use jpellis_me::build::blog::{
    collect_posts, generate_code, sort_posts_newest_first, Frontmatter, Post, PostSource,
};

fn leak(s: String) -> &'static str {
    Box::leak(s.into_boxed_str())
}

fn frontmatter(title: &str, date: &str, description: Option<&str>, tags: &[&str]) -> Frontmatter {
    Frontmatter {
        title: title.to_string(),
        date: date.to_string(),
        description: description.map(|d| d.to_string()),
        source: None,
        tags: tags.iter().map(|t| t.to_string()).collect(),
        slug: None,
    }
}

const FUNCTIONAL_ARGUMENTS: &str = "Passing functions around.\n\n\
/// tab | Python\n\n\
```python\ndef apply(f, x):\n    return f(x)\n```\n\n\
///\n\n\
/// tab | Rust\n\n\
```rust\nfn apply(f: impl Fn(i32) -> i32, x: i32) -> i32 { f(x) }\n```\n\n\
///\n\n\
/// details | Why closures?\n\n\
Closures capture their environment.\n\n\
///\n";

fn sources() -> Vec<PostSource> {
    vec![
        PostSource {
            path: "content/blog/2023/06-10 Functional Arguments.md".to_string(),
            frontmatter: frontmatter(
                "Functional arguments",
                "2023-06-10",
                Some("Functions as arguments in Python and Rust."),
                &["python", "rust"],
            ),
            body_markdown: FUNCTIONAL_ARGUMENTS.to_string(),
        },
        PostSource {
            path: "content/blog/2021/02-03 First Light.md".to_string(),
            frontmatter: frontmatter("First light", "2021-02-03", None, &["meta"]),
            body_markdown: "Hello, world.\n\nA second paragraph.\n".to_string(),
        },
        PostSource {
            path: "content/blog/2024/11-30 Tabs Again.md".to_string(),
            frontmatter: frontmatter("Tabs again", "2024-11-30", Some("More tabs."), &["rust"]),
            body_markdown: "Intro.\n\n<!-- more -->\n\nRest of the post.\n".to_string(),
        },
    ]
}

fn to_blog_post(p: Post) -> BlogPost {
    BlogPost {
        slug: leak(p.slug),
        title: leak(p.title),
        date: leak(p.date),
        description: p.description.map(leak),
        source: p.source.map(leak),
        tags: Box::leak(p.tags.into_iter().map(leak).collect::<Vec<_>>().into_boxed_slice()),
        excerpt_html: leak(p.excerpt_html),
        body_html: leak(p.body_html),
    }
}

fn posts() -> &'static [BlogPost] {
    let mut counter = 0usize;
    let collected = collect_posts(&sources(), &mut counter);
    let sorted = sort_posts_newest_first(collected);
    Box::leak(sorted.into_iter().map(to_blog_post).collect::<Vec<_>>().into_boxed_slice())
}

#[test]
fn posts_sorted_by_date_descending() {
    let posts = posts();
    for window in posts.windows(2) {
        assert!(
            window[0].date >= window[1].date,
            "posts out of order: '{}' ({}) should come after '{}' ({})",
            window[0].slug,
            window[0].date,
            window[1].slug,
            window[1].date,
        );
    }
}

#[test]
fn all_required_fields_non_empty() {
    for post in posts() {
        assert!(!post.slug.is_empty(), "empty slug");
        assert!(!post.title.is_empty(), "empty title in '{}'", post.slug);
        assert!(!post.date.is_empty(), "empty date in '{}'", post.slug);
        assert!(!post.body_html.is_empty(), "empty body in '{}'", post.slug);
        assert!(!post.excerpt_html.is_empty(), "empty excerpt in '{}'", post.slug);
    }
}

#[test]
fn slugs_are_unique() {
    let mut slugs: Vec<&str> = posts().iter().map(|p| p.slug).collect();
    slugs.sort_unstable();
    let before = slugs.len();
    slugs.dedup();
    assert_eq!(slugs.len(), before, "duplicate slugs in POSTS");
}

#[test]
fn dates_are_iso_format() {
    for post in posts() {
        assert!(
            post.date.len() == 10
                && post.date.chars().nth(4) == Some('-')
                && post.date.chars().nth(7) == Some('-'),
            "date '{}' in '{}' is not YYYY-MM-DD",
            post.date,
            post.slug,
        );
    }
}

#[test]
fn find_post_returns_correct_post() {
    let posts = posts();
    assert!(!posts.is_empty(), "POSTS must contain at least one post");
    let first = posts.first().unwrap();
    let found = find_post(posts, first.slug);
    assert!(found.is_some(), "find_post failed for '{}'", first.slug);
    assert_eq!(found.unwrap().slug, first.slug);
}

#[test]
fn find_post_returns_none_for_missing_slug() {
    assert!(find_post(posts(), "this-slug-does-not-exist-xyz").is_none());
}

#[test]
fn pymdownx_tabs_render_correctly() {
    let post = find_post(posts(), "functional-arguments").expect("functional-arguments post not found");
    assert!(
        post.body_html.contains(r#"<div class="tabs">"#),
        "Expected tab groups in body_html — first 300 chars: {}",
        &post.body_html[..300.min(post.body_html.len())]
    );
    assert!(
        !post.body_html.contains("<p>/// tab"),
        "Raw /// tab markers must not appear in rendered body_html"
    );
}

#[test]
fn pymdownx_details_render_correctly() {
    let post = find_post(posts(), "functional-arguments").expect("functional-arguments post not found");
    assert!(post.body_html.contains("<details>"), "Expected <details> elements in body_html");
    assert!(
        !post.body_html.contains("<p>/// details"),
        "Raw /// details markers must not appear in rendered body_html"
    );
}

#[test]
fn find_post_returns_first_of_equal_slugs() {
    let posts = posts();
    let found = find_post(posts, "first-light").expect("first-light present");
    assert_eq!(found.title, "First light");
    assert_eq!(found.date, "2021-02-03");
}

#[test]
fn posts_are_newest_first() {
    let dates: Vec<&str> = posts().iter().map(|p| p.date).collect();
    assert_eq!(dates, vec!["2024-11-30", "2023-06-10", "2021-02-03"]);
}

#[test]
fn excerpt_stops_at_more_marker() {
    let post = find_post(posts(), "tabs-again").expect("tabs-again present");
    assert_eq!(post.excerpt_html, "<p>Intro.</p>");
}

#[test]
fn excerpt_falls_back_to_first_paragraph() {
    let post = find_post(posts(), "first-light").expect("first-light present");
    assert_eq!(post.excerpt_html, "<p>Hello, world.</p>");
}

#[test]
fn generated_code_lists_posts() {
    let mut counter = 0usize;
    let posts = sort_posts_newest_first(collect_posts(&sources(), &mut counter));
    let code = generate_code(&posts);
    assert!(code.starts_with("/// Compiled blog posts"));
    assert!(code.contains("pub static POSTS: &[BlogPost] = &["));
    assert!(code.contains("slug: \"functional-arguments\","));
    assert!(code.ends_with("];\n"));
}

#[test]
fn format_date_writes_day_month_year() {
    assert_eq!(format_date("2024-03-05"), "5 Mar 2024");
    assert_eq!(format_date("2023-12-25"), "25 Dec 2023");
    assert_eq!(format_date("2021-01-10"), "10 Jan 2021");
}

#[test]
fn format_date_zero_day_becomes_one() {
    assert_eq!(format_date("2024-02-00"), "1 Feb 2024");
}

#[test]
fn format_date_keeps_unknown_month_text() {
    assert_eq!(format_date("2024-13-07"), "7 13 2024");
}

#[test]
fn format_date_returns_short_input_unchanged() {
    assert_eq!(format_date("2024-03"), "2024-03");
    assert_eq!(format_date(""), "");
}

#[test]
fn source_domain_extracts_host() {
    assert_eq!(source_domain("https://example.com/posts/1"), Some("example.com".to_string()));
    assert_eq!(source_domain("https://blog.rust-lang.org"), Some("blog.rust-lang.org".to_string()));
    assert_eq!(source_domain("//host/x"), Some("host".to_string()));
}

#[test]
fn source_domain_none_without_two_slashes() {
    assert_eq!(source_domain("example.com"), None);
    assert_eq!(source_domain("mailto:me/x"), None);
}
