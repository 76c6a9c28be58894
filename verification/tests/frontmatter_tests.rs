use blog_starter_rs::frontmatter::decode_metadata;
use blog_starter_rs::frontmatter::encode_metadata;
use blog_starter_rs::frontmatter::MetaError;
use blog_starter_rs::posts::Post;
use blog_starter_rs::posts::PostError;
use blog_starter_rs::posts::PostMetadata;

fn sample_doc() -> String {
    String::from(
        "---\ntitle: Hello World\ndate: 2025-01-02\ntags: [rust, web]\ndescription: A greeting\n---\n\nBody text here.\n",
    )
}

#[test]
fn parse_valid_document() {
    let post = Post::from_markdown(String::from("hello"), &sample_doc()).unwrap();
    assert_eq!(post.slug, "hello");
    assert_eq!(post.metadata.title, "Hello World");
    assert_eq!(post.metadata.date, "2025-01-02");
    assert_eq!(post.metadata.tags, vec![String::from("rust"), String::from("web")]);
    assert_eq!(post.metadata.description, "A greeting");
    assert_eq!(post.preview, "Body text here.");
}

#[test]
fn parse_trims_body() {
    let doc = "---\ntitle: T\ndate: 2025-01-01\ntags: []\ndescription: D\n---\n\n\n  \nplain\n\n";
    let post = Post::from_markdown(String::from("s"), doc).unwrap();
    assert_eq!(post.content, "<p>plain</p>\n");
}

#[test]
fn parse_later_delimiters_are_body() {
    let doc = "---\ntitle: T\ndate: 2025-01-01\ntags: []\ndescription: D\n---\nbefore\n\n---\n\nafter\n";
    let post = Post::from_markdown(String::from("s"), doc).unwrap();
    // the third delimiter is literal body content: a thematic break
    assert!(post.content.contains("<hr />"));
}

#[test]
fn parse_missing_second_delimiter() {
    let err = Post::from_markdown(String::from("s"), "---\ntitle: only a start").unwrap_err();
    assert_eq!(err, PostError::MalformedDocument);
}

#[test]
fn parse_no_delimiter_at_all() {
    let err = Post::from_markdown(String::from("s"), "just a plain body").unwrap_err();
    assert_eq!(err, PostError::MalformedDocument);
}

#[test]
fn parse_bad_metadata_is_decode_error() {
    let doc = "---\ntitle: T\ndate: 2025-01-01\n---\nbody";
    let err = Post::from_markdown(String::from("s"), doc).unwrap_err();
    match err {
        PostError::MetadataDecode(MetaError::MissingField(f)) => assert_eq!(f, "tags"),
        other => panic!("unexpected error: {:?}", other),
    }
}

#[test]
fn decode_missing_date() {
    let err = decode_metadata("title: X\ntags: []\ndescription: D").unwrap_err();
    assert_eq!(err, MetaError::MissingField(String::from("date")));
}

#[test]
fn decode_wrong_type_is_missing_field() {
    let err = decode_metadata("title: X\ndate: 2025-01-01\ntags: nope\ndescription: D")
        .unwrap_err();
    assert_eq!(err, MetaError::MissingField(String::from("tags")));
}

#[test]
fn decode_syntax_error() {
    let err = decode_metadata("title: [unclosed").unwrap_err();
    match err {
        MetaError::Syntax(msg) => assert!(!msg.is_empty()),
        other => panic!("unexpected error: {:?}", other),
    }
}

#[test]
fn metadata_round_trip() {
    let m = PostMetadata {
        title: String::from("A Title"),
        date: String::from("2025-06-07"),
        tags: vec![String::from("alpha"), String::from("beta")],
        description: String::from("Some description"),
    };
    let encoded = encode_metadata(&m);
    let decoded = decode_metadata(&encoded).unwrap();
    assert_eq!(decoded, m);
}

#[test]
fn metadata_round_trip_no_tags() {
    let m = PostMetadata {
        title: String::from("Bare"),
        date: String::from("2024-12-31"),
        tags: vec![],
        description: String::from("none"),
    };
    let decoded = decode_metadata(&encode_metadata(&m)).unwrap();
    assert_eq!(decoded, m);
}

#[test]
fn error_messages_name_the_cause() {
    let err = decode_metadata("title: X\ntags: []\ndescription: D").unwrap_err();
    assert_eq!(err.message(), "missing or mistyped front matter key: date");
    assert_eq!(
        PostError::MalformedDocument.message(),
        "invalid markdown format: missing front matter"
    );
}

#[test]
fn encode_produces_the_canonical_block() {
    let m = PostMetadata {
        title: String::from("A Title"),
        date: String::from("2025-06-07"),
        tags: vec![String::from("alpha"), String::from("beta")],
        description: String::from("Some description"),
    };
    assert_eq!(
        encode_metadata(&m),
        "title: A Title\ndate: 2025-06-07\ndescription: Some description\ntags:\n- alpha\n- beta\n"
    );
    let bare = PostMetadata {
        title: String::from("B"),
        date: String::from("2024-01-01"),
        tags: vec![],
        description: String::from("d"),
    };
    assert_eq!(encode_metadata(&bare), "title: B\ndate: 2024-01-01\ndescription: d\ntags: []\n");
}
