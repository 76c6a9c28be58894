//! The XML sitemap (the homepage, every post, and every distinct tag, the
//! tags in sorted order) and the plain-text robots directives.
use crate::order::lemma_lex_le_total;
use crate::order::lemma_lex_lt_trans;
use crate::order::lex_le;
use crate::order::lex_lt;
use crate::order::str_lex_le;
use crate::posts::clone_string_vec;
use crate::posts::Post;
use crate::posts::PostModel;
use crate::text::str_eq;
use vstd::prelude::*;
use vstd::string::StringExecFns;

verus! {

/// A strictly ascending sequence of strings; in particular one without
/// duplicates.
pub open spec fn sorted_strict(ts: Seq<Seq<char>>) -> bool {
    forall|i: int, j: int| 0 <= i < j < ts.len() ==> lex_lt(#[trigger] ts[i], #[trigger] ts[j])
}

/// Whether some post of the list carries the tag.
pub open spec fn tag_in_posts(ps: Seq<PostModel>, t: Seq<char>) -> bool {
    exists|k: int| 0 <= k < ps.len() && #[trigger] ps[k].metadata.tags.contains(t)
}

/// Inserts a tag into a strictly ascending vector, keeping order and
/// discarding a duplicate.
fn insert_tag(r: &mut Vec<String>, t: String)
    requires
        sorted_strict(old(r).deep_view()),
    ensures
        sorted_strict(final(r).deep_view()),
        forall|x: Seq<char>|
            final(r).deep_view().contains(x) <==> old(r).deep_view().contains(x) || x == t@,
{
    let ghost dv0 = r.deep_view();
    let n = r.len();
    let mut j: usize = 0;
    while j < n && str_lex_le(r[j].as_str(), t.as_str()) && !str_eq(r[j].as_str(), t.as_str())
        invariant
            j <= n,
            n == r@.len(),
            dv0 == r.deep_view(),
            forall|k: int| 0 <= k < j ==> lex_lt(#[trigger] dv0[k], t@),
        decreases n - j,
    {
        proof {
            assert(dv0[j as int] == r@[j as int]@);
        }
        j += 1;
    }
    if j < n && str_eq(r[j].as_str(), t.as_str()) {
        proof {
            assert(dv0[j as int] == t@);
            assert(dv0.contains(t@));
            assert forall|x: Seq<char>| dv0.contains(x) <==> dv0.contains(x) || x == t@ by {}
        }
        return ;
    }
    proof {
        if j < n {
            assert(dv0[j as int] == r@[j as int]@);
            assert(!(lex_le(dv0[j as int], t@) && dv0[j as int] != t@));
            assert(dv0[j as int] != t@);
            lemma_lex_le_total(dv0[j as int], t@);
            assert(lex_lt(t@, dv0[j as int]));
        }
    }
    let ghost pm = t@;
    r.insert(j, t);
    proof {
        let dv = r.deep_view();
        assert(dv =~= dv0.insert(j as int, pm)) by {
            dv0.insert_ensures(j as int, pm);
            old(r)@.insert_ensures(j as int, t);
        }
        dv0.insert_ensures(j as int, pm);
        assert forall|x: int, y: int| 0 <= x < y < dv.len() implies lex_lt(
            #[trigger] dv[x],
            #[trigger] dv[y],
        ) by {
            if y < j {
                assert(lex_lt(dv0[x], dv0[y]));
            } else if y == j {
                assert(lex_lt(dv0[x], pm));
            } else {
                if x < j {
                    assert(lex_lt(dv0[x], dv0[y - 1]));
                } else if x == j {
                    assert(lex_lt(pm, dv0[j as int]));
                    if y - 1 > j {
                        lemma_lex_lt_trans(pm, dv0[j as int], dv0[y - 1]);
                    }
                } else {
                    assert(lex_lt(dv0[x - 1], dv0[y - 1]));
                }
            }
        }
        assert forall|x: Seq<char>| dv.contains(x) <==> dv0.contains(x) || x == pm by {
            if dv.contains(x) {
                let w = choose|w: int| 0 <= w < dv.len() && dv[w] == x;
                if w < j {
                    assert(dv0[w] == x);
                } else if w > j {
                    assert(dv0[w - 1] == x);
                }
            }
            if dv0.contains(x) {
                let w = choose|w: int| 0 <= w < dv0.len() && dv0[w] == x;
                if w < j {
                    assert(dv[w] == x);
                } else {
                    assert(dv[w + 1] == x);
                }
            }
            if x == pm {
                assert(dv[j as int] == x);
            }
        }
    }
}

/// The distinct tags of all posts, in ascending order.
pub fn unique_sorted_tags(posts: &[Post]) -> (r: Vec<String>)
    ensures
        sorted_strict(r.deep_view()),
        forall|t: Seq<char>|
            r.deep_view().contains(t) <==> tag_in_posts(posts.deep_view(), t),
{
    let ghost dv = posts.deep_view();
    let mut r: Vec<String> = Vec::new();
    let n = posts.len();
    let mut i: usize = 0;
    proof {
        assert(r.deep_view() =~~= Seq::<Seq<char>>::empty());
    }
    while i < n
        invariant
            i <= n,
            n == posts@.len(),
            dv == posts.deep_view(),
            dv.len() == n,
            sorted_strict(r.deep_view()),
            forall|t: Seq<char>|
                r.deep_view().contains(t) <==> tag_in_posts(#[trigger] dv.take(i as int), t),
        decreases n - i,
    {
        let tags = clone_string_vec(&posts[i].metadata.tags);
        let ghost tagsdv = dv[i as int].metadata.tags;
        proof {
            assert(dv[i as int] == posts@[i as int]@);
            assert(tags.deep_view() == tagsdv);
        }
        let m = tags.len();
        let mut jj: usize = 0;
        while jj < m
            invariant
                jj <= m,
                m == tags@.len(),
                i < n,
                n == posts@.len(),
                dv == posts.deep_view(),
                dv.len() == n,
                tags.deep_view() == tagsdv,
                tagsdv == dv[i as int].metadata.tags,
                sorted_strict(r.deep_view()),
                forall|t: Seq<char>|
                    r.deep_view().contains(t) <==> tag_in_posts(#[trigger] dv.take(i as int), t)
                        || tagsdv.take(jj as int).contains(t),
            decreases m - jj,
        {
            let tag = tags[jj].clone();
            proof {
                assert(tag@ == tagsdv[jj as int]);
            }
            insert_tag(&mut r, tag);
            proof {
                assert forall|t: Seq<char>|
                    r.deep_view().contains(t) <==> tag_in_posts(dv.take(i as int), t)
                        || tagsdv.take(jj + 1).contains(t) by {
                    if tagsdv.take(jj + 1).contains(t) {
                        let w = choose|w: int| 0 <= w < jj + 1 && #[trigger] tagsdv.take(jj + 1)[w] == t;
                        if w < jj {
                            assert(tagsdv.take(jj as int)[w] == t);
                        } else {
                            assert(t == tagsdv[jj as int]);
                        }
                    }
                    if tagsdv.take(jj as int).contains(t) {
                        let w = choose|w: int| 0 <= w < jj && #[trigger] tagsdv.take(jj as int)[w] == t;
                        assert(tagsdv.take(jj + 1)[w] == t);
                    }
                    if t == tagsdv[jj as int] {
                        assert(tagsdv.take(jj + 1)[jj as int] == t);
                    }
                }
            }
            jj += 1;
        }
        proof {
            assert forall|t: Seq<char>|
                r.deep_view().contains(t) <==> tag_in_posts(#[trigger] dv.take(i + 1), t) by {
                assert(tagsdv.take(m as int) =~= tagsdv);
                if tag_in_posts(dv.take(i as int), t) {
                    let w = choose|w: int|
                        0 <= w < i && #[trigger] dv.take(i as int)[w].metadata.tags.contains(t);
                    assert(dv.take(i + 1)[w].metadata.tags.contains(t));
                }
                if tagsdv.contains(t) {
                    assert(dv.take(i + 1)[i as int].metadata.tags.contains(t));
                }
                if tag_in_posts(dv.take(i + 1), t) {
                    let w = choose|w: int|
                        0 <= w < i + 1 && #[trigger] dv.take(i + 1)[w].metadata.tags.contains(t);
                    if w < i {
                        assert(dv.take(i as int)[w].metadata.tags.contains(t));
                    } else {
                        assert(tagsdv.contains(t));
                    }
                }
            }
        }
        i += 1;
    }
    proof {
        assert(dv.take(n as int) =~= dv);
    }
    r
}

/// Law: a strictly ascending sequence is determined by its members: two
/// sorted tag lists with the same members are equal. The sitemap's tag
/// section is therefore unique for a given corpus.
pub proof fn lemma_sorted_strict_unique(a: Seq<Seq<char>>, b: Seq<Seq<char>>)
    requires
        sorted_strict(a),
        sorted_strict(b),
        forall|t: Seq<char>| a.contains(t) <==> b.contains(t),
    ensures
        a == b,
    decreases a.len(),
{
    if a.len() == 0 {
        if b.len() > 0 {
            assert(b.contains(b[0]));
            assert(false);
        }
        assert(a =~= b);
    } else {
        assert(a.contains(a[0]));
        assert(b.len() > 0) by {
            assert(b.contains(a[0]));
        }
        assert(a[0] == b[0]) by {
            assert(b.contains(a[0]));
            let wb = choose|w: int| 0 <= w < b.len() && b[w] == a[0];
            assert(a.contains(b[0]));
            let wa = choose|w: int| 0 <= w < a.len() && a[w] == b[0];
            if wb > 0 {
                assert(lex_lt(b[0], b[wb]));
            }
            if wa > 0 {
                assert(lex_lt(a[0], a[wa]));
            }
            if wa > 0 && wb > 0 {
                lemma_lex_lt_trans(a[0], a[wa], b[wb]);
                assert(false);
            }
        }
        let a2 = a.drop_first();
        let b2 = b.drop_first();
        assert(sorted_strict(a2)) by {
            assert(forall|i: int, j: int|
                0 <= i < j < a2.len() ==> a2[i] == a[i + 1] && a2[j] == a[j + 1]);
        }
        assert(sorted_strict(b2)) by {
            assert(forall|i: int, j: int|
                0 <= i < j < b2.len() ==> b2[i] == b[i + 1] && b2[j] == b[j + 1]);
        }
        assert forall|t: Seq<char>| a2.contains(t) <==> b2.contains(t) by {
            lemma_tail_contains(a, t);
            lemma_tail_contains(b, t);
            assert(a[0] == b[0]);
        }
        lemma_sorted_strict_unique(a2, b2);
        assert(a =~= b) by {
            assert(forall|i: int| 1 <= i < a.len() ==> a[i] == a2[i - 1] && b[i] == b2[i - 1]);
        }
    }
}

/// In a strictly ascending sequence, the tail holds exactly the members
/// other than the head.
proof fn lemma_tail_contains(a: Seq<Seq<char>>, t: Seq<char>)
    requires
        sorted_strict(a),
        a.len() > 0,
    ensures
        a.drop_first().contains(t) <==> a.contains(t) && t != a[0],
{
    let a2 = a.drop_first();
    if a2.contains(t) {
        let w = choose|w: int| 0 <= w < a2.len() && a2[w] == t;
        assert(a[w + 1] == t);
        assert(lex_lt(a[0], a[w + 1]));
    }
    if a.contains(t) && t != a[0] {
        let w = choose|w: int| 0 <= w < a.len() && a[w] == t;
        assert(w != 0);
        assert(a2[w - 1] == t);
    }
}

/// The sitemap's fixed header, with the homepage entry.
pub open spec fn sitemap_header() -> Seq<char> {
    "<?xml version=\"1.0\" encoding=\"UTF-8\"?>\n<urlset xmlns=\"http://www.sitemaps.org/schemas/sitemap/0.9\">\n  <url>\n    <loc>https://your-domain.com/</loc>\n    <changefreq>daily</changefreq>\n    <priority>1.0</priority>\n  </url>\n"@
}

/// One post's sitemap entry.
pub open spec fn sitemap_post_entry(p: PostModel) -> Seq<char> {
    "  <url>\n    <loc>https://your-domain.com/posts/"@ + p.slug + "</loc>\n    <lastmod>"@
        + p.metadata.date
        + "</lastmod>\n    <changefreq>weekly</changefreq>\n    <priority>0.8</priority>\n  </url>\n"@
}

/// The entries of `ps[i..]`.
pub open spec fn sitemap_post_entries(ps: Seq<PostModel>, i: int) -> Seq<char>
    decreases ps.len() - i,
{
    if i < 0 || i >= ps.len() {
        Seq::empty()
    } else {
        sitemap_post_entry(ps[i]) + sitemap_post_entries(ps, i + 1)
    }
}

/// One tag's sitemap entry.
pub open spec fn sitemap_tag_entry(t: Seq<char>) -> Seq<char> {
    "  <url>\n    <loc>https://your-domain.com/tags/"@ + t
        + "</loc>\n    <changefreq>weekly</changefreq>\n    <priority>0.6</priority>\n  </url>\n"@
}

/// The entries of `ts[i..]`.
pub open spec fn sitemap_tag_entries(ts: Seq<Seq<char>>, i: int) -> Seq<char>
    decreases ts.len() - i,
{
    if i < 0 || i >= ts.len() {
        Seq::empty()
    } else {
        sitemap_tag_entry(ts[i]) + sitemap_tag_entries(ts, i + 1)
    }
}

/// The whole sitemap for a post list and a tag list.
pub open spec fn sitemap_spec(ps: Seq<PostModel>, ts: Seq<Seq<char>>) -> Seq<char> {
    sitemap_header() + sitemap_post_entries(ps, 0) + sitemap_tag_entries(ts, 0) + "</urlset>"@
}

/// Generates the XML sitemap: the homepage, an entry for every post in
/// order, and an entry for each distinct tag, the tags sorted ascending.
pub fn generate_sitemap(posts: &[Post]) -> (r: String)
    ensures
        exists|ts: Seq<Seq<char>>|
            #![auto]
            sorted_strict(ts) && (forall|t: Seq<char>|
                ts.contains(t) <==> tag_in_posts(posts.deep_view(), t)) && r@ == sitemap_spec(
                posts.deep_view(),
                ts,
            ),
{
    let ghost dv = posts.deep_view();
    let mut out = String::from_str(
        "<?xml version=\"1.0\" encoding=\"UTF-8\"?>\n<urlset xmlns=\"http://www.sitemaps.org/schemas/sitemap/0.9\">\n  <url>\n    <loc>https://your-domain.com/</loc>\n    <changefreq>daily</changefreq>\n    <priority>1.0</priority>\n  </url>\n",
    );
    let n = posts.len();
    let mut i: usize = 0;
    proof {
        assert(out@ + sitemap_post_entries(dv, 0) =~= sitemap_header() + sitemap_post_entries(
            dv,
            0,
        ));
    }
    while i < n
        invariant
            i <= n,
            n == posts@.len(),
            dv == posts.deep_view(),
            dv.len() == n,
            out@ + sitemap_post_entries(dv, i as int) == sitemap_header() + sitemap_post_entries(
                dv,
                0,
            ),
        decreases n - i,
    {
        let ghost pre = out@;
        let p = &posts[i];
        proof {
            assert(dv[i as int] == posts@[i as int]@);
        }
        out.append("  <url>\n    <loc>https://your-domain.com/posts/");
        out.append(p.slug.as_str());
        out.append("</loc>\n    <lastmod>");
        out.append(p.metadata.date.as_str());
        out.append(
            "</lastmod>\n    <changefreq>weekly</changefreq>\n    <priority>0.8</priority>\n  </url>\n",
        );
        proof {
            assert(out@ =~= pre + sitemap_post_entry(dv[i as int]));
            assert(out@ + sitemap_post_entries(dv, i + 1) =~= pre + sitemap_post_entries(
                dv,
                i as int,
            ));
        }
        i += 1;
    }
    proof {
        assert(sitemap_post_entries(dv, n as int) == Seq::<char>::empty());
        assert(out@ =~= sitemap_header() + sitemap_post_entries(dv, 0));
    }
    let tags = unique_sorted_tags(posts);
    let ghost tdv = tags.deep_view();
    let ghost after_posts = out@;
    let m = tags.len();
    let mut j: usize = 0;
    proof {
        assert(out@ + sitemap_tag_entries(tdv, 0) =~= after_posts + sitemap_tag_entries(tdv, 0));
    }
    while j < m
        invariant
            j <= m,
            m == tags@.len(),
            tdv == tags.deep_view(),
            tdv.len() == m,
            out@ + sitemap_tag_entries(tdv, j as int) == after_posts + sitemap_tag_entries(
                tdv,
                0,
            ),
        decreases m - j,
    {
        let ghost pre = out@;
        proof {
            assert(tdv[j as int] == tags@[j as int]@);
        }
        out.append("  <url>\n    <loc>https://your-domain.com/tags/");
        out.append(tags[j].as_str());
        out.append(
            "</loc>\n    <changefreq>weekly</changefreq>\n    <priority>0.6</priority>\n  </url>\n",
        );
        proof {
            assert(out@ =~= pre + sitemap_tag_entry(tdv[j as int]));
            assert(out@ + sitemap_tag_entries(tdv, j + 1) =~= pre + sitemap_tag_entries(
                tdv,
                j as int,
            ));
        }
        j += 1;
    }
    out.append("</urlset>");
    proof {
        assert(sitemap_tag_entries(tdv, m as int) == Seq::<char>::empty());
        assert(out@ =~= sitemap_spec(dv, tdv));
    }
    out
}

/// The robots directives: everything allowed, and the sitemap's location.
pub open spec fn robots_spec() -> Seq<char> {
    "User-agent: *\nAllow: /\n\nSitemap: https://your-domain.com/sitemap.xml\n"@
}

/// Generates the plain-text robots directives.
pub fn generate_robots_txt() -> (r: String)
    ensures
        r@ == robots_spec(),
{
    String::from_str("User-agent: *\nAllow: /\n\nSitemap: https://your-domain.com/sitemap.xml\n")
}

} // verus!
