use blog_starter_rs::archive::create_posts_by_year;
use blog_starter_rs::archive::get_month_name;
use blog_starter_rs::archive::year_string;
use blog_starter_rs::posts::PostMetadata;
use blog_starter_rs::posts::PostSummary;

fn summary(slug: &str, date: &str) -> PostSummary {
    PostSummary {
        slug: String::from(slug),
        metadata: PostMetadata {
            title: format!("title {}", slug),
            date: String::from(date),
            tags: vec![],
            description: String::from("d"),
        },
        thumbnail: None,
    }
}

#[test]
fn year_string_takes_prefix_before_dash() {
    assert_eq!(year_string("2025-01-02"), "2025");
    assert_eq!(year_string("nodash"), "nodash");
    assert_eq!(year_string(""), "");
}

#[test]
fn groups_by_year_newest_year_first() {
    let sums = vec![
        summary("a", "2024-03-01"),
        summary("b", "2025-01-02"),
        summary("c", "2024-07-09"),
    ];
    let grouped = create_posts_by_year(&sums);
    assert_eq!(grouped.len(), 2);
    assert_eq!(grouped[0].0, "2025");
    assert_eq!(grouped[1].0, "2024");
    let slugs: Vec<&str> = grouped[1].1.iter().map(|s| s.slug.as_str()).collect();
    assert_eq!(slugs, vec!["a", "c"]);
}

#[test]
fn groups_empty_input() {
    let grouped = create_posts_by_year(&vec![]);
    assert!(grouped.is_empty());
}

#[test]
fn month_names_for_padded_numbers() {
    assert_eq!(get_month_name("01"), "January");
    assert_eq!(get_month_name("09"), "September");
    assert_eq!(get_month_name("12"), "December");
    assert_eq!(get_month_name("13"), "Unknown");
    assert_eq!(get_month_name("1"), "Unknown");
}
