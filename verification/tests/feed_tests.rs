use blog_starter_rs::posts::Post;
use blog_starter_rs::posts::PostMetadata;
use blog_starter_rs::rss::format_rfc2822_date;
use blog_starter_rs::rss::generate_rss;
use blog_starter_rs::rss::join_comma;
use blog_starter_rs::sitemap::generate_robots_txt;
use blog_starter_rs::sitemap::generate_sitemap;
use blog_starter_rs::sitemap::unique_sorted_tags;

fn make_post(slug: &str, date: &str, tags: &[&str]) -> Post {
    Post {
        slug: String::from(slug),
        metadata: PostMetadata {
            title: format!("title {}", slug),
            date: String::from(date),
            tags: tags.iter().map(|t| String::from(*t)).collect(),
            description: format!("desc {}", slug),
        },
        content: String::from("<p>c</p>\n"),
        preview: String::from("c"),
        thumbnail: None,
    }
}

#[test]
fn rfc2822_computes_the_weekday() {
    assert_eq!(format_rfc2822_date("2025-10-13"), "Mon, 13 Oct 2025 00:00:00 GMT");
    assert_eq!(format_rfc2822_date("2025-10-12"), "Sun, 12 Oct 2025 00:00:00 GMT");
    assert_eq!(format_rfc2822_date("2000-01-01"), "Sat, 01 Jan 2000 00:00:00 GMT");
    assert_eq!(format_rfc2822_date("2024-02-29"), "Thu, 29 Feb 2024 00:00:00 GMT");
}

#[test]
fn rfc2822_falls_back_on_other_shapes() {
    assert_eq!(format_rfc2822_date("not-a-date"), "not-a-date 00:00:00 GMT");
    assert_eq!(format_rfc2822_date("2025-13-40"), "2025-13-40 00:00:00 GMT");
    assert_eq!(format_rfc2822_date(""), " 00:00:00 GMT");
    // year zero is outside the supported calendar range
    assert_eq!(format_rfc2822_date("0000-01-01"), "0000-01-01 00:00:00 GMT");
}

#[test]
fn join_comma_separates_tags() {
    assert_eq!(join_comma(&vec![]), "");
    assert_eq!(join_comma(&vec![String::from("a")]), "a");
    assert_eq!(
        join_comma(&vec![String::from("a"), String::from("b"), String::from("c")]),
        "a, b, c"
    );
}

#[test]
fn rss_holds_items_with_cdata_fields() {
    let posts = vec![make_post("hello", "2025-10-12", &["rust", "web"])];
    let rss = generate_rss(&posts);
    assert!(rss.starts_with("<?xml version=\"1.0\" encoding=\"UTF-8\"?>"));
    assert!(rss.contains("<title><![CDATA[title hello]]></title>"));
    assert!(rss.contains("<link>https://your-domain.com/posts/hello</link>"));
    assert!(rss.contains("<pubDate>Sun, 12 Oct 2025 00:00:00 GMT</pubDate>"));
    assert!(rss.contains("<description><![CDATA[desc hello]]></description>"));
    assert!(rss.contains("<category><![CDATA[rust, web]]></category>"));
    assert!(rss.ends_with("  </channel>\n</rss>"));
}

#[test]
fn rss_caps_items_at_twenty() {
    let mut posts = Vec::new();
    for i in 0..25 {
        posts.push(make_post(&format!("p{:02}", i), "2025-01-01", &[]));
    }
    let rss = generate_rss(&posts);
    assert!(rss.contains("posts/p00"));
    assert!(rss.contains("posts/p19"));
    assert!(!rss.contains("posts/p20"));
    assert!(!rss.contains("posts/p24"));
}

#[test]
fn unique_sorted_tags_dedupes_and_orders() {
    let posts = vec![
        make_post("a", "2025-01-01", &["zeta", "alpha"]),
        make_post("b", "2025-01-02", &["alpha", "midway"]),
    ];
    let tags = unique_sorted_tags(&posts);
    assert_eq!(tags, vec![String::from("alpha"), String::from("midway"), String::from("zeta")]);
}

#[test]
fn sitemap_lists_home_posts_and_tags() {
    let posts = vec![
        make_post("one", "2025-01-01", &["b", "a"]),
        make_post("two", "2025-01-02", &["b"]),
    ];
    let sm = generate_sitemap(&posts);
    assert!(sm.contains("<loc>https://your-domain.com/</loc>"));
    assert!(sm.contains("<loc>https://your-domain.com/posts/one</loc>"));
    assert!(sm.contains("<lastmod>2025-01-02</lastmod>"));
    let a = sm.find("<loc>https://your-domain.com/tags/a</loc>").unwrap();
    let b = sm.find("<loc>https://your-domain.com/tags/b</loc>").unwrap();
    assert!(a < b);
    assert_eq!(sm.match_indices("tags/b").count(), 1);
    assert!(sm.ends_with("</urlset>"));
}

#[test]
fn robots_directives_are_fixed() {
    assert_eq!(
        generate_robots_txt(),
        "User-agent: *\nAllow: /\n\nSitemap: https://your-domain.com/sitemap.xml\n"
    );
}
