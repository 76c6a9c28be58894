use blog_starter_rs::preview::extract_text_preview;
use blog_starter_rs::preview::extract_thumbnail;

#[test]
fn preview_strips_heading_and_emphasis() {
    let body = "# Heading\n\nSome **bold** and _sly_ text\n";
    assert_eq!(extract_text_preview(body, 160), "Heading Some bold and sly text");
}

#[test]
fn preview_skips_fenced_code() {
    let body = "Intro\n```rust\nlet x = 1;\n```\nOutro\n";
    assert_eq!(extract_text_preview(body, 160), "Intro Outro");
}

#[test]
fn preview_skips_images_and_blanks() {
    let body = "![alt](https://example.com/x.png)\n\nText line\n";
    assert_eq!(extract_text_preview(body, 160), "Text line");
}

#[test]
fn preview_truncates_at_budget() {
    let long = "a".repeat(200);
    let p = extract_text_preview(&long, 160);
    assert_eq!(p.chars().count(), 163);
    assert!(p.ends_with("..."));
    assert_eq!(&p[..160], &long[..160]);
}

#[test]
fn preview_exact_budget_is_not_truncated() {
    let exact = "b".repeat(160);
    let p = extract_text_preview(&exact, 160);
    assert_eq!(p, exact);
}

#[test]
fn preview_never_holds_emphasis_markers() {
    let body = "**a** *b* __c__ _d_ `e`\nmore *text*\n";
    let p = extract_text_preview(body, 160);
    assert!(!p.contains('*'));
    assert!(!p.contains('_'));
}

#[test]
fn thumbnail_from_markdown_image() {
    let body = "intro\n![alt](https://example.com/b.png)\n";
    assert_eq!(extract_thumbnail(body), Some(String::from("https://example.com/b.png")));
}

#[test]
fn thumbnail_from_html_image() {
    let body = "intro\n<img src=\"https://example.com/c.png\" alt=\"c\">\n";
    assert_eq!(extract_thumbnail(body), Some(String::from("https://example.com/c.png")));
}

#[test]
fn thumbnail_takes_first_in_document_order() {
    let body = "line one\nline two\n<img src=\"https://example.com/line3.png\">\nline four\nline five\nline six\n![md](https://example.com/line7.png)\n";
    assert_eq!(extract_thumbnail(body), Some(String::from("https://example.com/line3.png")));
}

#[test]
fn thumbnail_none_without_images() {
    assert_eq!(extract_thumbnail("no pictures here\njust text\n"), None);
}

#[test]
fn thumbnail_ignores_unclosed_reference() {
    // a markdown image with no closing parenthesis yields nothing
    assert_eq!(extract_thumbnail("![alt](https://example.com/broken\n"), None);
}

#[test]
fn preview_of_empty_body_is_empty() {
    assert_eq!(extract_text_preview("", 160), "");
}

#[test]
fn preview_with_zero_budget_truncates_immediately() {
    assert_eq!(extract_text_preview("words here", 0), "...");
}

#[test]
fn preview_keeps_separator_for_marker_only_lines() {
    // a line of heading markers cleans to nothing but still joins with a space
    assert_eq!(extract_text_preview("hello\n###\nworld\n", 160), "hello  world");
}
