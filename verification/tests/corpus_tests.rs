use blog_starter_rs::cache::PostCache;
use blog_starter_rs::posts::build_corpus;
use blog_starter_rs::posts::get_post_by_slug;
use blog_starter_rs::posts::get_posts_by_tag;
use blog_starter_rs::posts::get_posts_by_tag_summaries;
use blog_starter_rs::posts::load_post_summaries;
use blog_starter_rs::posts::md_file_stem;
use blog_starter_rs::posts::sort_posts_by_date_desc;
use blog_starter_rs::posts::Post;
use blog_starter_rs::posts::PostMetadata;

fn doc(title: &str, date: &str, tags: &str) -> String {
    format!(
        "---\ntitle: {}\ndate: {}\ntags: [{}]\ndescription: about {}\n---\n\n{} body\n",
        title, date, tags, title, title
    )
}

fn make_post(slug: &str, date: &str, tags: &[&str]) -> Post {
    Post {
        slug: String::from(slug),
        metadata: PostMetadata {
            title: format!("title of {}", slug),
            date: String::from(date),
            tags: tags.iter().map(|t| String::from(*t)).collect(),
            description: format!("about {}", slug),
        },
        content: String::from("<p>c</p>\n"),
        preview: String::from("c"),
        thumbnail: None,
    }
}

#[test]
fn corpus_sorted_by_date_descending() {
    let docs = vec![
        (String::from("2024-12-31"), doc("Older", "2024-12-31", "")),
        (String::from("2025-01-02"), doc("Newer", "2025-01-02", "")),
    ];
    let posts = build_corpus(&docs);
    assert_eq!(posts.len(), 2);
    assert_eq!(posts[0].slug, "2025-01-02");
    assert_eq!(posts[1].slug, "2024-12-31");
}

#[test]
fn corpus_skips_failing_documents() {
    let docs = vec![
        (String::from("good"), doc("Good", "2025-01-01", "a")),
        (String::from("bad"), String::from("no front matter at all")),
        (String::from("nometa"), String::from("---\ntitle: X\n---\nbody")),
    ];
    let posts = build_corpus(&docs);
    assert_eq!(posts.len(), 1);
    assert_eq!(posts[0].slug, "good");
}

#[test]
fn sort_is_a_permutation() {
    let posts = vec![
        make_post("a", "2023-05-05", &[]),
        make_post("b", "2025-05-05", &[]),
        make_post("c", "2024-05-05", &[]),
    ];
    let sorted = sort_posts_by_date_desc(posts);
    let slugs: Vec<&str> = sorted.iter().map(|p| p.slug.as_str()).collect();
    assert_eq!(slugs, vec!["b", "c", "a"]);
}

#[test]
fn post_by_slug_finds_first_match() {
    let posts = vec![make_post("one", "2025-01-01", &[]), make_post("two", "2025-01-02", &[])];
    let found = get_post_by_slug(&posts, "two").unwrap();
    assert_eq!(found.metadata.date, "2025-01-02");
    assert!(get_post_by_slug(&posts, "three").is_none());
}

#[test]
fn posts_by_tag_is_case_sensitive_exact() {
    let posts = vec![
        make_post("r", "2025-01-01", &["Rust", "web"]),
        make_post("p", "2025-01-02", &["python"]),
    ];
    assert_eq!(get_posts_by_tag(&posts, "Rust").len(), 1);
    assert_eq!(get_posts_by_tag(&posts, "rust").len(), 0);
    assert_eq!(get_posts_by_tag(&posts, "web")[0].slug, "r");
}

#[test]
fn summaries_drop_content_keep_rest() {
    let posts = vec![make_post("s", "2025-01-01", &["t"])];
    let sums = load_post_summaries(&posts);
    assert_eq!(sums.len(), 1);
    assert_eq!(sums[0].slug, "s");
    assert_eq!(sums[0].metadata, posts[0].metadata);
    assert_eq!(sums[0].thumbnail, None);
}

#[test]
fn summaries_by_tag_filter() {
    let posts = vec![
        make_post("x", "2025-01-01", &["keep"]),
        make_post("y", "2025-01-02", &["drop"]),
    ];
    let sums = load_post_summaries(&posts);
    let kept = get_posts_by_tag_summaries(&sums, "keep");
    assert_eq!(kept.len(), 1);
    assert_eq!(kept[0].slug, "x");
}

#[test]
fn cache_loads_once() {
    let mut cache = PostCache::new();
    assert!(cache.needs_load());
    assert!(cache.get_all().is_none());
    cache.populate(vec![make_post("first", "2025-01-01", &[])]);
    assert!(!cache.needs_load());
    // a second population is ignored: the first collection stays
    cache.populate(vec![make_post("second", "2025-01-02", &[])]);
    let v1 = cache.get_all().unwrap();
    assert_eq!(v1.len(), 1);
    assert_eq!(v1[0].slug, "first");
    let v2 = cache.get_all().unwrap();
    assert_eq!(v1[0], v2[0]);
}

#[test]
fn md_file_stem_accepts_only_markdown() {
    assert_eq!(md_file_stem("post.md"), Some(String::from("post")));
    assert_eq!(md_file_stem("2025-01-02.md"), Some(String::from("2025-01-02")));
    assert_eq!(md_file_stem("note.txt"), None);
    assert_eq!(md_file_stem(".md"), None);
    assert_eq!(md_file_stem("md"), None);
}

#[test]
fn end_to_end_two_files() {
    let docs = vec![
        (String::from("2024-12-31"), doc("Yearend", "2024-12-31", "year")),
        (String::from("2025-01-02"), doc("Newyear", "2025-01-02", "year")),
    ];
    let posts = build_corpus(&docs);
    assert_eq!(posts.len(), 2);
    assert_eq!(posts[0].metadata.date, "2025-01-02");
    assert_eq!(posts[1].metadata.date, "2024-12-31");
    assert!(posts[0].content.contains("Newyear body"));
}

#[test]
fn end_to_end_code_block_dual_theme() {
    let text = "---\ntitle: Code\ndate: 2025-01-01\ntags: []\ndescription: d\n---\n\n```rust\nfn x(){}\n```\n";
    let post = Post::from_markdown(String::from("code"), text).unwrap();
    assert!(post.content.contains("code-dark"));
    assert!(post.content.contains("code-light"));
}

#[test]
fn corpus_of_no_documents_is_empty() {
    let posts = build_corpus(&vec![]);
    assert!(posts.is_empty());
}
