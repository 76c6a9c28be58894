use blog_starter_rs::render::markdown_to_html;
use blog_starter_rs::render::markdown_to_html_plain;
use blog_starter_rs::render::Renderer;

fn count_occurrences(haystack: &str, needle: &str) -> usize {
    haystack.match_indices(needle).count()
}

#[test]
fn render_plain_paragraph() {
    assert_eq!(markdown_to_html("hello *world*"), "<p>hello <em>world</em></p>\n");
}

#[test]
fn render_external_link_opens_new_context() {
    let html = markdown_to_html("[text](https://example.com)");
    assert!(html.contains(
        "<a href=\"https://example.com\" target=\"_blank\" rel=\"noopener noreferrer\">"
    ));
    assert!(html.contains("text</a>"));
}

#[test]
fn render_external_link_keeps_title() {
    let html = markdown_to_html("[text](https://example.com \"a title\")");
    assert!(html.contains("rel=\"noopener noreferrer\" title=\"a title\">"));
}

#[test]
fn render_relative_link_unchanged() {
    let html = markdown_to_html("[text](/about)");
    assert!(html.contains("<a href=\"/about\">text</a>"));
    assert!(!html.contains("target="));
}

#[test]
fn render_code_block_dual_theme() {
    let html = markdown_to_html("```rust\nfn x(){}\n```");
    assert_eq!(count_occurrences(&html, "code-dark"), 1);
    assert_eq!(count_occurrences(&html, "code-light"), 1);
    // each variant renders the block's text (possibly split into spans)
    assert!(count_occurrences(&html, "fn") >= 2);
    let dark = html.find("code-dark").unwrap();
    let light = html.find("code-light").unwrap();
    assert!(dark < light);
}

#[test]
fn render_unknown_language_still_dual_theme() {
    let html = markdown_to_html("```nosuchlanguage\nplain words\n```");
    assert_eq!(count_occurrences(&html, "code-dark"), 1);
    assert_eq!(count_occurrences(&html, "code-light"), 1);
    assert!(count_occurrences(&html, "plain words") >= 2);
}

#[test]
fn render_strikethrough_extension() {
    let html = markdown_to_html("~~gone~~");
    assert!(html.contains("<del>gone</del>"));
}

#[test]
fn plain_renderer_keeps_code_unhighlighted() {
    let html = markdown_to_html_plain("```rust\nfn x(){}\n```");
    assert!(html.contains("<pre><code"));
    assert!(!html.contains("code-dark"));
}

#[test]
fn renderer_variants_agree_without_code() {
    let body = "# Hi\n\nplain [text](/about)\n";
    assert_eq!(Renderer::Plain.render(body), Renderer::Highlighting.render(body));
    assert_eq!(Renderer::Plain.render(body), markdown_to_html_plain(body));
}
