//! The RSS 2.0 feed: the twenty most recent posts as feed items, with
//! CDATA-wrapped title, description and category, and publication dates
//! converted from ISO `YYYY-MM-DD` to RFC 2822 form.
use crate::posts::Post;
use crate::posts::PostModel;
use vstd::prelude::*;
use vstd::string::StrSliceExecFns;
use vstd::string::StringExecFns;

verus! {

/// A decimal digit.
pub open spec fn is_digit(c: char) -> bool {
    '0' <= c && c <= '9'
}

/// The value of a decimal digit.
pub open spec fn digit_val(c: char) -> int
    recommends
        is_digit(c),
{
    (c as u32) - 48
}

/// The year a date string names.
pub open spec fn year_of(d: Seq<char>) -> int
    recommends
        d.len() == 10,
{
    digit_val(d[0]) * 1000 + digit_val(d[1]) * 100 + digit_val(d[2]) * 10 + digit_val(d[3])
}

/// The month a date string names.
pub open spec fn month_of(d: Seq<char>) -> int
    recommends
        d.len() == 10,
{
    digit_val(d[5]) * 10 + digit_val(d[6])
}

/// The day a date string names.
pub open spec fn day_of(d: Seq<char>) -> int
    recommends
        d.len() == 10,
{
    digit_val(d[8]) * 10 + digit_val(d[9])
}

/// A zero-padded ISO `YYYY-MM-DD` date in year 1 or later, with a month
/// from 01 to 12 and a day from 01 to 31.
pub open spec fn is_iso_date(d: Seq<char>) -> bool {
    &&& d.len() == 10
    &&& d[4] == '-'
    &&& d[7] == '-'
    &&& is_digit(d[0])
    &&& is_digit(d[1])
    &&& is_digit(d[2])
    &&& is_digit(d[3])
    &&& is_digit(d[5])
    &&& is_digit(d[6])
    &&& is_digit(d[8])
    &&& is_digit(d[9])
    &&& 1 <= year_of(d)
    &&& 1 <= month_of(d) <= 12
    &&& 1 <= day_of(d) <= 31
}

/// The month's term in Sakamoto's day-of-week formula.
pub open spec fn month_offset(m: int) -> int {
    if m == 1 {
        0
    } else if m == 2 {
        3
    } else if m == 3 {
        2
    } else if m == 4 {
        5
    } else if m == 5 {
        0
    } else if m == 6 {
        3
    } else if m == 7 {
        5
    } else if m == 8 {
        1
    } else if m == 9 {
        4
    } else if m == 10 {
        6
    } else if m == 11 {
        2
    } else {
        4
    }
}

/// The day of the week of a proleptic Gregorian date, by Sakamoto's method:
/// 0 is Sunday.
pub open spec fn week_day_index(y: int, m: int, day: int) -> int
    recommends
        1 <= y,
        1 <= m <= 12,
{
    let yy = if m < 3 {
        y - 1
    } else {
        y
    };
    (yy + yy / 4 - yy / 100 + yy / 400 + month_offset(m) + day) % 7
}

/// The three-letter weekday name: 0 is Sunday.
pub open spec fn weekday_name(i: int) -> Seq<char> {
    if i == 0 {
        "Sun"@
    } else if i == 1 {
        "Mon"@
    } else if i == 2 {
        "Tue"@
    } else if i == 3 {
        "Wed"@
    } else if i == 4 {
        "Thu"@
    } else if i == 5 {
        "Fri"@
    } else {
        "Sat"@
    }
}

/// The three-letter month name.
pub open spec fn month_name(m: int) -> Seq<char> {
    if m == 1 {
        "Jan"@
    } else if m == 2 {
        "Feb"@
    } else if m == 3 {
        "Mar"@
    } else if m == 4 {
        "Apr"@
    } else if m == 5 {
        "May"@
    } else if m == 6 {
        "Jun"@
    } else if m == 7 {
        "Jul"@
    } else if m == 8 {
        "Aug"@
    } else if m == 9 {
        "Sep"@
    } else if m == 10 {
        "Oct"@
    } else if m == 11 {
        "Nov"@
    } else {
        "Dec"@
    }
}

/// The RFC 2822 form of a date string: a well-formed ISO date becomes
/// `Www, DD Mon YYYY 00:00:00 GMT` with the weekday computed from the
/// calendar; anything else passes through with the time suffix appended.
pub open spec fn rfc2822_spec(d: Seq<char>) -> Seq<char> {
    if is_iso_date(d) {
        weekday_name(week_day_index(year_of(d), month_of(d), day_of(d))) + ", "@ + d.subrange(
            8,
            10,
        ) + " "@ + month_name(month_of(d)) + " "@ + d.subrange(0, 4) + " 00:00:00 GMT"@
    } else {
        d + " 00:00:00 GMT"@
    }
}

/// Converts a zero-padded ISO `YYYY-MM-DD` date to RFC 2822 form with a
/// midnight GMT time; a string of any other shape passes through with the
/// time suffix appended.
pub fn format_rfc2822_date(date_str: &str) -> (r: String)
    ensures
        r@ == rfc2822_spec(date_str@),
{
    let n = date_str.unicode_len();
    if n == 10 {
        let c0 = date_str.get_char(0);
        let c1 = date_str.get_char(1);
        let c2 = date_str.get_char(2);
        let c3 = date_str.get_char(3);
        let c4 = date_str.get_char(4);
        let c5 = date_str.get_char(5);
        let c6 = date_str.get_char(6);
        let c7 = date_str.get_char(7);
        let c8 = date_str.get_char(8);
        let c9 = date_str.get_char(9);
        let digits_ok = c4 == '-' && c7 == '-' && ('0' <= c0 && c0 <= '9') && ('0' <= c1 && c1
            <= '9') && ('0' <= c2 && c2 <= '9') && ('0' <= c3 && c3 <= '9') && ('0' <= c5 && c5
            <= '9') && ('0' <= c6 && c6 <= '9') && ('0' <= c8 && c8 <= '9') && ('0' <= c9 && c9
            <= '9');
        if digits_ok {
            let y: u32 = (c0 as u32 - 48) * 1000 + (c1 as u32 - 48) * 100 + (c2 as u32 - 48) * 10
                + (c3 as u32 - 48);
            let m: u32 = (c5 as u32 - 48) * 10 + (c6 as u32 - 48);
            let day: u32 = (c8 as u32 - 48) * 10 + (c9 as u32 - 48);
            if 1 <= y && 1 <= m && m <= 12 && 1 <= day && day <= 31 {
                proof {
                    assert(is_iso_date(date_str@));
                }
                let yy: u32 = if m < 3 {
                    y - 1
                } else {
                    y
                };
                let w: u32 = (yy + yy / 4 - yy / 100 + yy / 400 + month_offset_exec(m) + day) % 7;
                let mut out = String::from_str(weekday_name_exec(w));
                out.append(", ");
                out.append(date_str.substring_char(8, 10));
                out.append(" ");
                out.append(month_name_exec(m));
                out.append(" ");
                out.append(date_str.substring_char(0, 4));
                out.append(" 00:00:00 GMT");
                proof {
                    assert(w == week_day_index(year_of(date_str@), month_of(date_str@), day_of(
                        date_str@,
                    )));
                    assert(out@ =~= rfc2822_spec(date_str@));
                }
                return out;
            }
        }
    }
    let mut out = String::from_str(date_str);
    out.append(" 00:00:00 GMT");
    proof {
        assert(!is_iso_date(date_str@));
    }
    out
}

/// The month's term in Sakamoto's formula.
fn month_offset_exec(m: u32) -> (r: u32)
    ensures
        r == month_offset(m as int),
{
    if m == 1 {
        0
    } else if m == 2 {
        3
    } else if m == 3 {
        2
    } else if m == 4 {
        5
    } else if m == 5 {
        0
    } else if m == 6 {
        3
    } else if m == 7 {
        5
    } else if m == 8 {
        1
    } else if m == 9 {
        4
    } else if m == 10 {
        6
    } else if m == 11 {
        2
    } else {
        4
    }
}

/// The weekday name for an index already reduced modulo seven.
fn weekday_name_exec(i: u32) -> (r: &'static str)
    ensures
        r@ == weekday_name(i as int),
{
    if i == 0 {
        "Sun"
    } else if i == 1 {
        "Mon"
    } else if i == 2 {
        "Tue"
    } else if i == 3 {
        "Wed"
    } else if i == 4 {
        "Thu"
    } else if i == 5 {
        "Fri"
    } else {
        "Sat"
    }
}

/// The month name for a month from 1 to 12.
fn month_name_exec(m: u32) -> (r: &'static str)
    ensures
        r@ == month_name(m as int),
{
    if m == 1 {
        "Jan"
    } else if m == 2 {
        "Feb"
    } else if m == 3 {
        "Mar"
    } else if m == 4 {
        "Apr"
    } else if m == 5 {
        "May"
    } else if m == 6 {
        "Jun"
    } else if m == 7 {
        "Jul"
    } else if m == 8 {
        "Aug"
    } else if m == 9 {
        "Sep"
    } else if m == 10 {
        "Oct"
    } else if m == 11 {
        "Nov"
    } else {
        "Dec"
    }
}

/// The feed's fixed channel header.
pub open spec fn rss_header() -> Seq<char> {
    "<?xml version=\"1.0\" encoding=\"UTF-8\"?>\n<rss version=\"2.0\" xmlns:atom=\"http://www.w3.org/2005/Atom\">\n  <channel>\n    <title>Your Blog Name</title>\n    <link>https://your-domain.com</link>\n    <description>A blog about programming, technology, and software development</description>\n    <language>en-us</language>\n    <atom:link href=\"https://your-domain.com/rss.xml\" rel=\"self\" type=\"application/rss+xml\"/>\n    <lastBuildDate>Sun, 13 Oct 2025 00:00:00 GMT</lastBuildDate>\n    <generator>Leptos RSS Generator</generator>\n"@
}

/// The feed's closing tags.
pub open spec fn rss_footer() -> Seq<char> {
    "  </channel>\n</rss>"@
}

/// A post's URL.
pub open spec fn post_url(slug: Seq<char>) -> Seq<char> {
    "https://your-domain.com/posts/"@ + slug
}

/// The tags joined with a comma and a space.
pub open spec fn joined_tags(tags: Seq<Seq<char>>) -> Seq<char>
    decreases tags.len(),
{
    if tags.len() == 0 {
        Seq::empty()
    } else if tags.len() == 1 {
        tags[0]
    } else {
        tags[0] + ", "@ + joined_tags(tags.skip(1))
    }
}

/// The joined items of `tags[from..]`, each preceded by the separator.
spec fn join_tail(tags: Seq<Seq<char>>, from: int) -> Seq<char>
    decreases tags.len() - from,
{
    if from < 0 || from >= tags.len() {
        Seq::empty()
    } else {
        ", "@ + tags[from] + join_tail(tags, from + 1)
    }
}

proof fn lemma_join_tail(tags: Seq<Seq<char>>, from: int)
    requires
        0 <= from < tags.len(),
    ensures
        joined_tags(tags.skip(from)) == tags[from] + join_tail(tags, from + 1),
    decreases tags.len() - from,
{
    let rest = tags.skip(from);
    if rest.len() == 1 {
        assert(rest[0] == tags[from]);
        assert(join_tail(tags, from + 1) == Seq::<char>::empty());
        assert(tags[from] + Seq::<char>::empty() =~= tags[from]);
    } else {
        lemma_join_tail(tags, from + 1);
        assert(rest.skip(1) =~= tags.skip(from + 1));
        assert(rest[0] == tags[from]);
        assert(tags[from] + ", "@ + (tags[from + 1] + join_tail(tags, from + 2)) =~= tags[from]
            + (", "@ + tags[from + 1] + join_tail(tags, from + 2)));
    }
}

/// The tag list joined with `", "`, as the feed's category field shows it.
pub fn join_comma(tags: &Vec<String>) -> (r: String)
    ensures
        r@ == joined_tags(tags.deep_view()),
{
    let ghost tdv = tags.deep_view();
    let mut out = String::new();
    let n = tags.len();
    if n == 0 {
        return out;
    }
    out.append(tags[0].as_str());
    let mut i: usize = 1;
    proof {
        assert(Seq::<char>::empty() + tdv[0] =~= tdv[0]);
        lemma_join_prefix_base(tdv);
    }
    while i < n
        invariant
            1 <= i <= n,
            n == tags@.len(),
            tdv == tags.deep_view(),
            tdv.len() == n,
            out@ + join_tail(tdv, i as int) == joined_tags(tdv),
        decreases n - i,
    {
        let ghost pre = out@;
        out.append(", ");
        out.append(tags[i].as_str());
        proof {
            assert(out@ + join_tail(tdv, i + 1) =~= pre + join_tail(tdv, i as int));
        }
        i += 1;
    }
    proof {
        assert(join_tail(tdv, n as int) == Seq::<char>::empty());
        assert(out@ + Seq::<char>::empty() =~= out@);
    }
    out
}

proof fn lemma_join_prefix_base(tags: Seq<Seq<char>>)
    requires
        tags.len() >= 1,
    ensures
        tags[0] + join_tail(tags, 1) == joined_tags(tags),
{
    if tags.len() == 1 {
        assert(join_tail(tags, 1) == Seq::<char>::empty());
        assert(tags[0] + Seq::<char>::empty() =~= tags[0]);
    } else {
        assert(tags.skip(0) =~= tags);
        lemma_join_tail(tags, 0);
    }
}

/// One feed item.
pub open spec fn rss_item(p: PostModel) -> Seq<char> {
    "    <item>\n      <title><![CDATA["@ + p.metadata.title + "]]></title>\n      <link>"@
        + post_url(p.slug) + "</link>\n      <guid>"@ + post_url(p.slug)
        + "</guid>\n      <pubDate>"@ + rfc2822_spec(p.metadata.date)
        + "</pubDate>\n      <description><![CDATA["@ + p.metadata.description
        + "]]></description>\n      <category><![CDATA["@ + joined_tags(p.metadata.tags)
        + "]]></category>\n    </item>\n"@
}

/// The items for `ps[i..]`, capped at index `m`.
pub open spec fn rss_items(ps: Seq<PostModel>, i: int, m: int) -> Seq<char>
    decreases ps.len() - i,
{
    if i < 0 || i >= ps.len() || i >= m {
        Seq::empty()
    } else {
        rss_item(ps[i]) + rss_items(ps, i + 1, m)
    }
}

/// The whole feed for a post list: the channel header, an item for each of
/// the first twenty posts in order, and the closing tags.
pub open spec fn rss_spec(ps: Seq<PostModel>) -> Seq<char> {
    rss_header() + rss_items(ps, 0, 20) + rss_footer()
}

/// Generates the RSS 2.0 feed for the posts, most recent first as given:
/// the twenty first posts become items with CDATA-wrapped title, description
/// and joined category, and an RFC 2822 publication date.
pub fn generate_rss(posts: &[Post]) -> (r: String)
    ensures
        r@ == rss_spec(posts.deep_view()),
{
    let ghost dv = posts.deep_view();
    let mut out = String::from_str(
        "<?xml version=\"1.0\" encoding=\"UTF-8\"?>\n<rss version=\"2.0\" xmlns:atom=\"http://www.w3.org/2005/Atom\">\n  <channel>\n    <title>Your Blog Name</title>\n    <link>https://your-domain.com</link>\n    <description>A blog about programming, technology, and software development</description>\n    <language>en-us</language>\n    <atom:link href=\"https://your-domain.com/rss.xml\" rel=\"self\" type=\"application/rss+xml\"/>\n    <lastBuildDate>Sun, 13 Oct 2025 00:00:00 GMT</lastBuildDate>\n    <generator>Leptos RSS Generator</generator>\n",
    );
    let n = posts.len();
    let mut i: usize = 0;
    proof {
        assert(out@ + rss_items(dv, 0, 20) =~= rss_header() + rss_items(dv, 0, 20));
    }
    while i < n && i < 20
        invariant
            i <= n,
            n == posts@.len(),
            dv == posts.deep_view(),
            dv.len() == n,
            out@ + rss_items(dv, i as int, 20) == rss_header() + rss_items(dv, 0, 20),
        decreases n - i,
    {
        let ghost pre = out@;
        let p = &posts[i];
        proof {
            assert(dv[i as int] == posts@[i as int]@);
        }
        let pub_date = format_rfc2822_date(p.metadata.date.as_str());
        let category = join_comma(&p.metadata.tags);
        out.append("    <item>\n      <title><![CDATA[");
        out.append(p.metadata.title.as_str());
        out.append("]]></title>\n      <link>");
        out.append("https://your-domain.com/posts/");
        out.append(p.slug.as_str());
        out.append("</link>\n      <guid>");
        out.append("https://your-domain.com/posts/");
        out.append(p.slug.as_str());
        out.append("</guid>\n      <pubDate>");
        out.append(pub_date.as_str());
        out.append("</pubDate>\n      <description><![CDATA[");
        out.append(p.metadata.description.as_str());
        out.append("]]></description>\n      <category><![CDATA[");
        out.append(category.as_str());
        out.append("]]></category>\n    </item>\n");
        proof {
            assert(out@ =~= pre + rss_item(dv[i as int]));
            assert(out@ + rss_items(dv, i + 1, 20) =~= pre + rss_items(dv, i as int, 20));
        }
        i += 1;
    }
    proof {
        assert(rss_items(dv, i as int, 20) == Seq::<char>::empty());
        assert(out@ =~= rss_header() + rss_items(dv, 0, 20));
    }
    out.append("  </channel>\n</rss>");
    proof {
        assert(out@ =~= rss_spec(dv));
    }
    out
}

} // verus!
