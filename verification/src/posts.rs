//! The post data model: metadata decoded from a document's front matter, the
//! fully assembled post with its rendered content and derived fields, the
//! summary projection used by listing views, and the corpus assembly that
//! parses, renders and orders a set of documents.
use crate::frontmatter::decode_metadata;
use crate::frontmatter::doc_split;
use crate::frontmatter::meta_decode_ok;
use crate::frontmatter::meta_model_of;
use crate::frontmatter::split_document;
use crate::frontmatter::MetaError;
use crate::order::lemma_lex_le_total;
use crate::order::lemma_lex_le_trans;
use crate::order::lex_le;
use crate::order::str_lex_le;
use crate::preview::extract_text_preview;
use crate::preview::extract_thumbnail;
use crate::preview::preview_spec;
use crate::preview::thumbnail_spec;
use crate::render::html_render_spec;
use crate::render::markdown_to_html;
use crate::text::chars_to_string;
use crate::text::str_eq;
use crate::text::str_to_chars;
use vstd::multiset::Multiset;
use vstd::prelude::*;
use vstd::seq_lib::to_multiset_insert;
use vstd::string::StringExecFns;

verus! {

broadcast use vstd::seq_lib::group_to_multiset_ensures, to_multiset_insert;

/// The metadata block of a post: a title, an ISO `YYYY-MM-DD` date string,
/// an ordered list of tags, and a description.
#[derive(Debug, Clone, PartialEq, Eq)]
pub struct PostMetadata {
    pub title: String,
    pub date: String,
    pub tags: Vec<String>,
    pub description: String,
}

/// The mathematical value of a `PostMetadata`.
pub ghost struct MetaModel {
    pub title: Seq<char>,
    pub date: Seq<char>,
    pub tags: Seq<Seq<char>>,
    pub description: Seq<char>,
}

impl View for PostMetadata {
    type V = MetaModel;

    open spec fn view(&self) -> MetaModel {
        MetaModel {
            title: self.title@,
            date: self.date@,
            tags: self.tags.deep_view(),
            description: self.description@,
        }
    }
}

impl DeepView for PostMetadata {
    type V = MetaModel;

    open spec fn deep_view(&self) -> MetaModel {
        self.view()
    }
}

/// A fully assembled post: its slug, metadata, rendered HTML content, derived
/// plain-text preview, and optional thumbnail URL.
#[derive(Debug, Clone, PartialEq, Eq)]
pub struct Post {
    pub slug: String,
    pub metadata: PostMetadata,
    pub content: String,
    pub preview: String,
    pub thumbnail: Option<String>,
}

/// The mathematical value of a `Post`.
pub ghost struct PostModel {
    pub slug: Seq<char>,
    pub metadata: MetaModel,
    pub content: Seq<char>,
    pub preview: Seq<char>,
    pub thumbnail: Option<Seq<char>>,
}

impl View for Post {
    type V = PostModel;

    open spec fn view(&self) -> PostModel {
        PostModel {
            slug: self.slug@,
            metadata: self.metadata@,
            content: self.content@,
            preview: self.preview@,
            thumbnail: self.thumbnail.deep_view(),
        }
    }
}

impl DeepView for Post {
    type V = PostModel;

    open spec fn deep_view(&self) -> PostModel {
        self.view()
    }
}

/// A projection of `Post` without the rendered content, for listing views.
#[derive(Debug, Clone, PartialEq, Eq)]
pub struct PostSummary {
    pub slug: String,
    pub metadata: PostMetadata,
    pub thumbnail: Option<String>,
}

/// The mathematical value of a `PostSummary`.
pub ghost struct SummaryModel {
    pub slug: Seq<char>,
    pub metadata: MetaModel,
    pub thumbnail: Option<Seq<char>>,
}

impl View for PostSummary {
    type V = SummaryModel;

    open spec fn view(&self) -> SummaryModel {
        SummaryModel {
            slug: self.slug@,
            metadata: self.metadata@,
            thumbnail: self.thumbnail.deep_view(),
        }
    }
}

impl DeepView for PostSummary {
    type V = SummaryModel;

    open spec fn deep_view(&self) -> SummaryModel {
        self.view()
    }
}

/// A copy of a vector of strings, element for element.
pub fn clone_string_vec(v: &Vec<String>) -> (r: Vec<String>)
    ensures
        r.deep_view() == v.deep_view(),
{
    let mut r: Vec<String> = Vec::new();
    let n = v.len();
    let mut i: usize = 0;
    while i < n
        invariant
            i <= n,
            n == v@.len(),
            r@.len() == i,
            forall|k: int| 0 <= k < i ==> r@[k]@ == v@[k]@,
        decreases n - i,
    {
        r.push(v[i].clone());
        i += 1;
    }
    proof {
        assert(r.deep_view() =~= v.deep_view());
    }
    r
}

/// A copy of an optional string.
pub fn clone_opt_string(v: &Option<String>) -> (r: Option<String>)
    ensures
        r.deep_view() == v.deep_view(),
{
    match v {
        Some(s) => Some(s.clone()),
        None => None,
    }
}

/// A copy of a metadata record, field for field.
pub fn clone_metadata(m: &PostMetadata) -> (r: PostMetadata)
    ensures
        r@ == m@,
{
    PostMetadata {
        title: m.title.clone(),
        date: m.date.clone(),
        tags: clone_string_vec(&m.tags),
        description: m.description.clone(),
    }
}

/// A copy of a post, field for field.
pub fn clone_post(p: &Post) -> (r: Post)
    ensures
        r@ == p@,
{
    Post {
        slug: p.slug.clone(),
        metadata: clone_metadata(&p.metadata),
        content: p.content.clone(),
        preview: p.preview.clone(),
        thumbnail: clone_opt_string(&p.thumbnail),
    }
}

/// Why a document failed to become a post: it lacked the two-delimiter
/// front-matter structure, or its metadata block failed to decode.
#[derive(Debug, Clone, PartialEq, Eq)]
pub enum PostError {
    MalformedDocument,
    MetadataDecode(MetaError),
}

impl PostError {
    /// A rendering of the error for logs.
    pub fn message(&self) -> (r: String)
        ensures
            r@ == self.message_spec(),
    {
        match self {
            PostError::MalformedDocument => {
                String::from_str("invalid markdown format: missing front matter")
            },
            PostError::MetadataDecode(e) => e.message(),
        }
    }

    /// The rendered message of the error.
    pub open spec fn message_spec(&self) -> Seq<char> {
        match self {
            PostError::MalformedDocument => "invalid markdown format: missing front matter"@,
            PostError::MetadataDecode(e) => e.message_spec(),
        }
    }
}

/// The preview budget, in characters.
pub open spec fn preview_budget() -> nat {
    160
}

/// Whether a document parses into a post: it splits at two delimiters and
/// its metadata block decodes.
pub open spec fn doc_ok(text: Seq<char>) -> bool {
    &&& doc_split(text) is Some
    &&& meta_decode_ok(doc_split(text)->Some_0.0)
}

/// The post a valid document yields: decoded metadata, the trimmed body
/// rendered to HTML, and the preview and thumbnail derived from the body.
pub open spec fn post_of(slug: Seq<char>, text: Seq<char>) -> PostModel
    recommends
        doc_ok(text),
{
    let parts = doc_split(text)->Some_0;
    PostModel {
        slug: slug,
        metadata: meta_model_of(parts.0),
        content: html_render_spec(parts.1),
        preview: preview_spec(parts.1, preview_budget()),
        thumbnail: thumbnail_spec(parts.1),
    }
}

impl Post {
    /// Parses one document into a post: splits the front matter from the
    /// body at the first two delimiters, decodes the metadata block, renders
    /// the trimmed body to HTML, and derives the preview and thumbnail.
    pub fn from_markdown(slug: String, markdown_content: &str) -> (r: Result<Post, PostError>)
        ensures
            r is Ok <==> doc_ok(markdown_content@),
            r matches Ok(p) ==> p@ == post_of(slug@, markdown_content@),
            r matches Err(PostError::MalformedDocument) <==> doc_split(markdown_content@) is None,
            r matches Err(PostError::MetadataDecode(_)) <==> (doc_split(markdown_content@)
                matches Some(parts) && !meta_decode_ok(parts.0)),
            r matches Err(PostError::MetadataDecode(e)) ==> ((e matches MetaError::Syntax(_))
                <==> !crate::frontmatter::yaml_ok(doc_split(markdown_content@)->Some_0.0)),
    {
        let chars = str_to_chars(markdown_content);
        let (meta_v, body_v) = match split_document(&chars) {
            Some(p) => p,
            None => {
                return Err(PostError::MalformedDocument);
            },
        };
        let meta_s = chars_to_string(&meta_v);
        let body_s = chars_to_string(&body_v);
        let metadata = match decode_metadata(meta_s.as_str()) {
            Ok(m) => m,
            Err(e) => {
                return Err(PostError::MetadataDecode(e));
            },
        };
        let content = markdown_to_html(body_s.as_str());
        let preview = extract_text_preview(body_s.as_str(), 160);
        let thumbnail = extract_thumbnail(body_s.as_str());
        Ok(Post { slug, metadata, content, preview, thumbnail })
    }
}

/// Posts ordered by their date string, newest first.
pub open spec fn sorted_by_date_desc(s: Seq<PostModel>) -> bool {
    forall|i: int, j: int|
        0 <= i < j < s.len() ==> lex_le(#[trigger] s[j].metadata.date, #[trigger] s[i].metadata.date)
}

/// Inserts a post into a date-descending vector, keeping the order.
fn insert_sorted(r: &mut Vec<Post>, p: Post)
    requires
        sorted_by_date_desc(old(r).deep_view()),
    ensures
        sorted_by_date_desc(final(r).deep_view()),
        final(r).deep_view().to_multiset() == old(r).deep_view().to_multiset().insert(p@),
{
    let ghost dv0 = r.deep_view();
    let ghost pm = p@;
    let n = r.len();
    let mut j: usize = 0;
    while j < n && str_lex_le(p.metadata.date.as_str(), r[j].metadata.date.as_str())
        invariant
            j <= n,
            n == r@.len(),
            dv0 == r.deep_view(),
            pm == p@,
            forall|k: int| 0 <= k < j ==> lex_le(pm.metadata.date, #[trigger] dv0[k].metadata.date),
        decreases n - j,
    {
        j += 1;
    }
    proof {
        if j < n {
            lemma_lex_le_total(pm.metadata.date, dv0[j as int].metadata.date);
        }
    }
    r.insert(j, p);
    proof {
        let dv = r.deep_view();
        assert(dv =~= dv0.insert(j as int, pm)) by {
            dv0.insert_ensures(j as int, pm);
            old(r)@.insert_ensures(j as int, p);
        }
        assert forall|x: int, y: int| 0 <= x < y < dv.len() implies lex_le(
            #[trigger] dv[y].metadata.date,
            #[trigger] dv[x].metadata.date,
        ) by {
            dv0.insert_ensures(j as int, pm);
            if y < j {
                assert(lex_le(dv0[y].metadata.date, dv0[x].metadata.date));
            } else if y == j {
                assert(lex_le(pm.metadata.date, dv0[x].metadata.date));
            } else {
                if x < j {
                    assert(lex_le(dv0[y - 1].metadata.date, dv0[x].metadata.date));
                } else if x == j {
                    assert(lex_le(dv0[j as int].metadata.date, pm.metadata.date));
                    if y - 1 > j {
                        assert(lex_le(dv0[y - 1].metadata.date, dv0[j as int].metadata.date));
                        lemma_lex_le_trans(
                            dv0[y - 1].metadata.date,
                            dv0[j as int].metadata.date,
                            pm.metadata.date,
                        );
                    }
                } else {
                    assert(lex_le(dv0[y - 1].metadata.date, dv0[x - 1].metadata.date));
                }
            }
        }
    }
}

/// Sorts posts by date string, newest first. The order is lexicographic,
/// which agrees with calendar order exactly because dates are zero-padded
/// ISO `YYYY-MM-DD` strings.
pub fn sort_posts_by_date_desc(posts: Vec<Post>) -> (r: Vec<Post>)
    ensures
        sorted_by_date_desc(r.deep_view()),
        r.deep_view().to_multiset() == posts.deep_view().to_multiset(),
{
    let ghost pdv = posts.deep_view();
    let mut rest = posts;
    let mut r: Vec<Post> = Vec::new();
    proof {
        assert(r.deep_view() =~~= Seq::<PostModel>::empty());
        assert(Seq::<PostModel>::empty().to_multiset().add(rest.deep_view().to_multiset())
            =~= rest.deep_view().to_multiset());
    }
    while rest.len() > 0
        invariant
            sorted_by_date_desc(r.deep_view()),
            r.deep_view().to_multiset().add(rest.deep_view().to_multiset()) == pdv.to_multiset(),
        decreases rest.len(),
    {
        let ghost rdv0 = rest.deep_view();
        let p = rest.remove(0);
        proof {
            assert(rest.deep_view() =~= rdv0.drop_first());
            assert(rdv0.to_multiset() =~= rest.deep_view().to_multiset().insert(p@)) by {
                assert(rdv0 =~= rdv0.drop_first().insert(0, p@));
            }
        }
        insert_sorted(&mut r, p);
        proof {
            assert(r.deep_view().to_multiset().add(rest.deep_view().to_multiset()) =~= pdv.to_multiset());
        }
    }
    proof {
        assert(rest.deep_view().len() == 0);
        assert(rest.deep_view().to_multiset() =~= Multiset::<PostModel>::empty());
        assert(r.deep_view().to_multiset() =~= pdv.to_multiset());
    }
    r
}

/// The posts that the documents `docs[i..]` yield, in order: each document
/// is a `(slug, text)` pair, and one that fails to parse contributes
/// nothing.
pub open spec fn parsed_from(docs: Seq<(Seq<char>, Seq<char>)>, i: int) -> Seq<PostModel>
    decreases docs.len() - i,
{
    if i < 0 || i >= docs.len() {
        Seq::empty()
    } else {
        (if doc_ok(docs[i].1) {
            seq![post_of(docs[i].0, docs[i].1)]
        } else {
            Seq::empty()
        }) + parsed_from(docs, i + 1)
    }
}

/// The posts a document set yields, in document order.
pub open spec fn parsed_posts(docs: Seq<(Seq<char>, Seq<char>)>) -> Seq<PostModel> {
    parsed_from(docs, 0)
}

/// Assembles the corpus from scanned documents: parses each `(slug, text)`
/// pair, skips the ones that fail (the load is best-effort), and orders the
/// result by date, newest first.
pub fn build_corpus(docs: &Vec<(String, String)>) -> (r: Vec<Post>)
    ensures
        sorted_by_date_desc(r.deep_view()),
        r.deep_view().to_multiset() == parsed_posts(docs.deep_view()).to_multiset(),
{
    let ghost ddv = docs.deep_view();
    let mut posts: Vec<Post> = Vec::new();
    let n = docs.len();
    let mut i: usize = 0;
    proof {
        assert(posts.deep_view() + parsed_from(ddv, 0) =~= parsed_posts(ddv));
    }
    while i < n
        invariant
            i <= n,
            n == docs@.len(),
            ddv == docs.deep_view(),
            ddv.len() == n,
            posts.deep_view() + parsed_from(ddv, i as int) == parsed_posts(ddv),
        decreases n - i,
    {
        let ghost pre = posts.deep_view();
        let slug = docs[i].0.clone();
        let text = &docs[i].1;
        proof {
            assert(ddv[i as int] == (docs@[i as int].0@, docs@[i as int].1@));
        }
        match Post::from_markdown(slug, text.as_str()) {
            Ok(p) => {
                posts.push(p);
                proof {
                    assert(posts.deep_view() =~= pre + seq![p@]);
                    assert(posts.deep_view() + parsed_from(ddv, i + 1) =~= parsed_posts(ddv));
                }
            },
            Err(_) => {
                proof {
                    assert(parsed_from(ddv, i as int) == parsed_from(ddv, i + 1)) by {
                        assert(Seq::<PostModel>::empty() + parsed_from(ddv, i + 1)
                            =~= parsed_from(ddv, i + 1));
                    }
                }
            },
        }
        i += 1;
    }
    proof {
        assert(parsed_from(ddv, n as int) == Seq::<PostModel>::empty());
        assert(posts.deep_view() =~= parsed_posts(ddv));
    }
    sort_posts_by_date_desc(posts)
}

/// The first post with the given slug, scanning from position `i`.
pub open spec fn find_by_slug_from(ps: Seq<PostModel>, slug: Seq<char>, i: int) -> Option<
    PostModel,
>
    decreases ps.len() - i,
{
    if i < 0 || i >= ps.len() {
        None
    } else if ps[i].slug == slug {
        Some(ps[i])
    } else {
        find_by_slug_from(ps, slug, i + 1)
    }
}

/// The first post with the given slug, if any.
pub open spec fn find_by_slug(ps: Seq<PostModel>, slug: Seq<char>) -> Option<PostModel> {
    find_by_slug_from(ps, slug, 0)
}

/// The first post whose slug is `slug`, if any.
pub fn get_post_by_slug(posts: &Vec<Post>, slug: &str) -> (r: Option<Post>)
    ensures
        match r {
            Some(p) => find_by_slug(posts.deep_view(), slug@) == Some(p@),
            None => find_by_slug(posts.deep_view(), slug@) is None,
        },
{
    let ghost dv = posts.deep_view();
    let n = posts.len();
    let mut i: usize = 0;
    while i < n
        invariant
            i <= n,
            n == posts@.len(),
            dv == posts.deep_view(),
            dv.len() == n,
            find_by_slug(dv, slug@) == find_by_slug_from(dv, slug@, i as int),
        decreases n - i,
    {
        proof {
            assert(dv[i as int] == posts@[i as int]@);
        }
        if str_eq(posts[i].slug.as_str(), slug) {
            return Some(clone_post(&posts[i]));
        }
        i += 1;
    }
    None
}

/// Whether a post carries the tag, by exact, case-sensitive match.
pub open spec fn has_tag(p: PostModel, tag: Seq<char>) -> bool {
    p.metadata.tags.contains(tag)
}

/// Whether this post's tag list holds `tag`.
fn post_has_tag(p: &Post, tag: &str) -> (r: bool)
    ensures
        r == has_tag(p@, tag@),
{
    let n = p.metadata.tags.len();
    let mut i: usize = 0;
    while i < n
        invariant
            i <= n,
            n == p.metadata.tags@.len(),
            forall|k: int| 0 <= k < i ==> p@.metadata.tags[k] != tag@,
        decreases n - i,
    {
        if str_eq(p.metadata.tags[i].as_str(), tag) {
            proof {
                assert(p@.metadata.tags[i as int] == tag@);
            }
            return true;
        }
        i += 1;
    }
    proof {
        assert(!p@.metadata.tags.contains(tag@));
    }
    false
}

/// Filtering distributes over appending one post.
proof fn lemma_filter_push_post(s: Seq<PostModel>, x: PostModel, pred: spec_fn(PostModel) -> bool)
    ensures
        s.push(x).filter(pred) == if pred(x) {
            s.filter(pred).push(x)
        } else {
            s.filter(pred)
        },
{
    reveal(Seq::filter);
    assert(s.push(x).drop_last() =~= s);
    assert(s.push(x).last() == x);
}

/// The posts carrying the tag, in order (exact, case-sensitive match).
pub fn get_posts_by_tag(posts: &Vec<Post>, tag: &str) -> (r: Vec<Post>)
    ensures
        r.deep_view() == posts.deep_view().filter(|p: PostModel| has_tag(p, tag@)),
{
    let ghost dv = posts.deep_view();
    let ghost pred = |p: PostModel| has_tag(p, tag@);
    let mut r: Vec<Post> = Vec::new();
    let n = posts.len();
    let mut i: usize = 0;
    proof {
        assert(dv.take(0) =~= Seq::<PostModel>::empty());
        assert(Seq::<PostModel>::empty().filter(pred) == Seq::<PostModel>::empty()) by {
            reveal(Seq::filter);
        }
        assert(r.deep_view() =~= Seq::<PostModel>::empty());
    }
    while i < n
        invariant
            i <= n,
            n == posts@.len(),
            dv == posts.deep_view(),
            dv.len() == n,
            pred == (|p: PostModel| has_tag(p, tag@)),
            r.deep_view() == dv.take(i as int).filter(pred),
        decreases n - i,
    {
        let ghost pre = r.deep_view();
        proof {
            assert(dv[i as int] == posts@[i as int]@);
            assert(dv.take(i + 1) =~= dv.take(i as int).push(dv[i as int]));
            lemma_filter_push_post(dv.take(i as int), dv[i as int], pred);
        }
        if post_has_tag(&posts[i], tag) {
            r.push(clone_post(&posts[i]));
            proof {
                assert(r.deep_view() =~= pre.push(dv[i as int]));
            }
        }
        i += 1;
    }
    proof {
        assert(dv.take(n as int) =~= dv);
    }
    r
}

/// The summary projection of one post.
pub open spec fn summary_of(p: PostModel) -> SummaryModel {
    SummaryModel { slug: p.slug, metadata: p.metadata, thumbnail: p.thumbnail }
}

/// The summaries of all posts, in order: each post with its rendered content
/// and preview stripped.
pub fn load_post_summaries(posts: &Vec<Post>) -> (r: Vec<PostSummary>)
    ensures
        r.deep_view() == posts.deep_view().map_values(|p: PostModel| summary_of(p)),
{
    let ghost dv = posts.deep_view();
    let mut r: Vec<PostSummary> = Vec::new();
    let n = posts.len();
    let mut i: usize = 0;
    while i < n
        invariant
            i <= n,
            n == posts@.len(),
            dv == posts.deep_view(),
            dv.len() == n,
            r@.len() == i,
            forall|k: int| 0 <= k < i ==> r.deep_view()[k] == summary_of(dv[k]),
        decreases n - i,
    {
        let p = &posts[i];
        let s = PostSummary {
            slug: p.slug.clone(),
            metadata: clone_metadata(&p.metadata),
            thumbnail: clone_opt_string(&p.thumbnail),
        };
        proof {
            assert(dv[i as int] == posts@[i as int]@);
            assert(s@ == summary_of(dv[i as int]));
        }
        let ghost pre = r.deep_view();
        r.push(s);
        proof {
            assert forall|k: int| 0 <= k < i + 1 implies r.deep_view()[k] == summary_of(dv[k]) by {
                if k < i {
                    assert(r.deep_view()[k] == pre[k]);
                }
            }
        }
        i += 1;
    }
    proof {
        assert(r.deep_view() =~= dv.map_values(|p: PostModel| summary_of(p)));
    }
    r
}

/// The summaries carrying the tag, in order (exact, case-sensitive match).
pub fn get_posts_by_tag_summaries(sums: &Vec<PostSummary>, tag: &str) -> (r: Vec<PostSummary>)
    ensures
        r.deep_view() == sums.deep_view().filter(
            |s: SummaryModel| s.metadata.tags.contains(tag@),
        ),
{
    let ghost dv = sums.deep_view();
    let ghost pred = |s: SummaryModel| s.metadata.tags.contains(tag@);
    let mut r: Vec<PostSummary> = Vec::new();
    let n = sums.len();
    let mut i: usize = 0;
    proof {
        assert(dv.take(0) =~= Seq::<SummaryModel>::empty());
        assert(Seq::<SummaryModel>::empty().filter(pred) == Seq::<SummaryModel>::empty()) by {
            reveal(Seq::filter);
        }
        assert(r.deep_view() =~= Seq::<SummaryModel>::empty());
    }
    while i < n
        invariant
            i <= n,
            n == sums@.len(),
            dv == sums.deep_view(),
            dv.len() == n,
            pred == (|s: SummaryModel| s.metadata.tags.contains(tag@)),
            r.deep_view() == dv.take(i as int).filter(pred),
        decreases n - i,
    {
        let ghost pre = r.deep_view();
        proof {
            assert(dv[i as int] == sums@[i as int]@);
            assert(dv.take(i + 1) =~= dv.take(i as int).push(dv[i as int]));
            lemma_filter_push_summary(dv.take(i as int), dv[i as int], pred);
        }
        if summary_has_tag(&sums[i], tag) {
            let s = &sums[i];
            let c = PostSummary {
                slug: s.slug.clone(),
                metadata: clone_metadata(&s.metadata),
                thumbnail: clone_opt_string(&s.thumbnail),
            };
            proof {
                assert(c@ == dv[i as int]);
            }
            r.push(c);
            proof {
                assert(r.deep_view() =~= pre.push(dv[i as int]));
            }
        }
        i += 1;
    }
    proof {
        assert(dv.take(n as int) =~= dv);
    }
    r
}

/// Filtering distributes over appending one summary.
proof fn lemma_filter_push_summary(
    s: Seq<SummaryModel>,
    x: SummaryModel,
    pred: spec_fn(SummaryModel) -> bool,
)
    ensures
        s.push(x).filter(pred) == if pred(x) {
            s.filter(pred).push(x)
        } else {
            s.filter(pred)
        },
{
    reveal(Seq::filter);
    assert(s.push(x).drop_last() =~= s);
    assert(s.push(x).last() == x);
}

/// Whether this summary's tag list holds `tag`.
fn summary_has_tag(s: &PostSummary, tag: &str) -> (r: bool)
    ensures
        r == s@.metadata.tags.contains(tag@),
{
    let n = s.metadata.tags.len();
    let mut i: usize = 0;
    while i < n
        invariant
            i <= n,
            n == s.metadata.tags@.len(),
            forall|k: int| 0 <= k < i ==> s@.metadata.tags[k] != tag@,
        decreases n - i,
    {
        if str_eq(s.metadata.tags[i].as_str(), tag) {
            proof {
                assert(s@.metadata.tags[i as int] == tag@);
            }
            return true;
        }
        i += 1;
    }
    proof {
        assert(!s@.metadata.tags.contains(tag@));
    }
    false
}

proof fn lemma_parsed_from_remove_before(docs: Seq<(Seq<char>, Seq<char>)>, i: int, j: int)
    requires
        0 <= j <= i < docs.len(),
        !doc_ok(docs[i].1),
    ensures
        parsed_from(docs, j) == parsed_from(docs.remove(i), j),
    decreases i - j,
{
    docs.remove_ensures(i);
    if j == i {
        assert(parsed_from(docs, i) == Seq::<PostModel>::empty() + parsed_from(docs, i + 1));
        assert(Seq::<PostModel>::empty() + parsed_from(docs, i + 1) =~= parsed_from(docs, i + 1));
        lemma_parsed_from_remove_after(docs, i, i);
    } else {
        assert(docs.remove(i)[j] == docs[j]);
        lemma_parsed_from_remove_before(docs, i, j + 1);
    }
}

proof fn lemma_parsed_from_remove_after(docs: Seq<(Seq<char>, Seq<char>)>, i: int, k: int)
    requires
        0 <= i < docs.len(),
        i <= k <= docs.len() - 1,
    ensures
        parsed_from(docs.remove(i), k) == parsed_from(docs, k + 1),
    decreases docs.len() - k,
{
    docs.remove_ensures(i);
    if k == docs.len() - 1 {
        assert(parsed_from(docs.remove(i), k) == Seq::<PostModel>::empty());
        assert(parsed_from(docs, k + 1) == Seq::<PostModel>::empty());
    } else {
        assert(docs.remove(i)[k] == docs[k + 1]);
        lemma_parsed_from_remove_after(docs, i, k + 1);
    }
}

/// Law: a document that fails to parse contributes nothing to the corpus:
/// the parsed posts of a document set are those of the set without it. In
/// particular a document missing its second delimiter, which
/// `Post::from_markdown` rejects as `MalformedDocument`, adds no entry.
pub proof fn lemma_failed_doc_contributes_nothing(docs: Seq<(Seq<char>, Seq<char>)>, i: int)
    requires
        0 <= i < docs.len(),
        !doc_ok(docs[i].1),
    ensures
        parsed_posts(docs) == parsed_posts(docs.remove(i)),
{
    lemma_parsed_from_remove_before(docs, i, 0);
}


/// The slug a markdown file name yields: the name with its `.md` extension
/// removed, used verbatim as the post's identifier; a name of any other
/// shape yields nothing and the file is not a candidate document.
pub fn md_file_stem(name: &str) -> (r: Option<String>)
    ensures
        match r {
            Some(s) => name@.len() >= 4 && name@.skip(name@.len() - 3) == ".md"@ && s@
                == name@.take(name@.len() - 3),
            None => !(name@.len() >= 4 && name@.skip(name@.len() - 3) == ".md"@),
        },
{
    let v = str_to_chars(name);
    let n = v.len();
    proof {
        reveal_strlit(".md");
    }
    if n >= 4 {
        if v[n - 3] == '.' && v[n - 2] == 'm' && v[n - 1] == 'd' {
            proof {
                assert(v@.skip(n - 3) =~= ".md"@);
            }
            let stem = crate::text::subvec(&v, 0, n - 3);
            let out = chars_to_string(&stem);
            proof {
                assert(stem@ =~= name@.take(name@.len() - 3));
            }
            return Some(out);
        }
        proof {
            let tail = v@.skip(n - 3);
            assert(tail[0] == v@[n - 3] && tail[1] == v@[n - 2] && tail[2] == v@[n - 1]);
        }
        return None;
    }
    None
}

} // verus!
