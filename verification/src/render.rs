//! The markdown renderer: the parsed event stream is transformed so that
//! each fenced code block becomes one HTML fragment holding a dark-themed and
//! a light-themed rendering, and every external link opens in a new browsing
//! context; the transformed stream is then emitted as an HTML fragment.
//!
//! Parsing and HTML emission are `pulldown_cmark`'s; highlighting is
//! `syntect`'s; the transformation between them is verified.
use crate::text::chars_to_string;
use crate::text::contains_sub;
use crate::text::occurs_at;
use crate::text::starts_with;
use crate::text::starts_with_vec;
use crate::text::str_to_chars;
use crate::text::subvec;
use pulldown_cmark::CodeBlockKind;
use pulldown_cmark::Event;
use pulldown_cmark::Options;
use pulldown_cmark::Parser;
use pulldown_cmark::Tag;
use pulldown_cmark::TagEnd;
use vstd::prelude::*;
use vstd::string::StrSliceExecFns;
use vstd::string::StringExecFns;

verus! {

/// What the renderer reads out of one markdown event: a fenced code block
/// opening with its language token, a code block closing, literal text, a
/// link opening with its destination and title, a link closing, or any other
/// event, which the renderer passes through untouched.
pub enum EvClass {
    CodeStart(String),
    CodeEnd,
    Text(String),
    LinkStart(String, String),
    LinkEnd,
    Other,
}

/// The mathematical value of an `EvClass`.
pub ghost enum EvModel {
    CodeStart(Seq<char>),
    CodeEnd,
    Text(Seq<char>),
    LinkStart(Seq<char>, Seq<char>),
    LinkEnd,
    Other,
}

impl DeepView for EvClass {
    type V = EvModel;

    open spec fn deep_view(&self) -> EvModel {
        match self {
            EvClass::CodeStart(l) => EvModel::CodeStart(l@),
            EvClass::CodeEnd => EvModel::CodeEnd,
            EvClass::Text(t) => EvModel::Text(t@),
            EvClass::LinkStart(d, t) => EvModel::LinkStart(d@, t@),
            EvClass::LinkEnd => EvModel::LinkEnd,
            EvClass::Other => EvModel::Other,
        }
    }
}

/// One step of the transformed output: forward the i-th parsed event
/// unchanged, or inject an HTML fragment in place of the consumed events.
pub enum OutOp {
    Emit(usize),
    Html(String),
}

/// The mathematical value of an `OutOp`.
pub ghost enum OutModel {
    Emit(int),
    Html(Seq<char>),
}

impl DeepView for OutOp {
    type V = OutModel;

    open spec fn deep_view(&self) -> OutModel {
        match self {
            OutOp::Emit(i) => OutModel::Emit(*i as int),
            OutOp::Html(h) => OutModel::Html(h@),
        }
    }
}

/// The classified event stream of a markdown text under the renderer's
/// extension set; decided by `pulldown_cmark`.
pub uninterp spec fn md_events(s: Seq<char>) -> Seq<EvModel>;

/// The HTML fragment emitted for a markdown text and a list of output steps;
/// decided by `pulldown_cmark`.
pub uninterp spec fn rendered_html(s: Seq<char>, ops: Seq<OutModel>) -> Seq<char>;

/// The highlighted HTML of a code block against the dark or light bundled
/// theme, if highlighting succeeds; decided by `syntect`.
pub uninterp spec fn highlighted(lang: Seq<char>, code: Seq<char>, dark: bool) -> Option<Seq<char>>;

/// Relies on `pulldown_cmark::Parser::new_ext`: the event stream of a text
/// under a fixed extension set is a function of the text alone. Each event
/// is mapped to its class, one arm per variant, fields moved over.
#[verifier::external_body]
fn md_classify(markdown: &str) -> (r: Vec<EvClass>)
    ensures
        r.deep_view() == md_events(markdown@),
{
    let opts = Options::ENABLE_STRIKETHROUGH | Options::ENABLE_TABLES | Options::ENABLE_FOOTNOTES
        | Options::ENABLE_TASKLISTS | Options::ENABLE_HEADING_ATTRIBUTES
        | Options::ENABLE_SMART_PUNCTUATION | Options::ENABLE_PLUSES_DELIMITED_METADATA_BLOCKS
        | Options::ENABLE_YAML_STYLE_METADATA_BLOCKS;
    Parser::new_ext(markdown, opts).map(|ev| match ev {
        Event::Start(Tag::CodeBlock(CodeBlockKind::Fenced(l))) => EvClass::CodeStart(l.to_string()),
        Event::End(TagEnd::CodeBlock) => EvClass::CodeEnd,
        Event::Text(t) => EvClass::Text(t.to_string()),
        Event::Start(Tag::Link { dest_url, title, .. }) => EvClass::LinkStart(dest_url.to_string(), title.to_string()),
        Event::End(TagEnd::Link) => EvClass::LinkEnd,
        _ => EvClass::Other,
    }).collect()
}

/// Relies on `pulldown_cmark::Parser::new_ext` and
/// `pulldown_cmark::html::push_html`: re-parsing the text and pushing the
/// chosen events emits HTML that is a function of the text and the steps
/// alone. `Emit(i)` forwards the i-th parsed event; `Html(h)` injects `h`.
#[verifier::external_body]
fn emit_html(markdown: &str, ops: &Vec<OutOp>) -> (r: String)
    ensures
        r@ == rendered_html(markdown@, ops.deep_view()),
{
    let opts = Options::ENABLE_STRIKETHROUGH | Options::ENABLE_TABLES | Options::ENABLE_FOOTNOTES
        | Options::ENABLE_TASKLISTS | Options::ENABLE_HEADING_ATTRIBUTES
        | Options::ENABLE_SMART_PUNCTUATION | Options::ENABLE_PLUSES_DELIMITED_METADATA_BLOCKS
        | Options::ENABLE_YAML_STYLE_METADATA_BLOCKS;
    let evs: Vec<Event> = Parser::new_ext(markdown, opts).collect();
    let chosen = ops.iter().filter_map(|op| match op {
        OutOp::Emit(i) => evs.get(*i).cloned(),
        OutOp::Html(h) => Some(Event::Html(h.clone().into())),
    });
    let mut out = String::new();
    pulldown_cmark::html::push_html(&mut out, chosen);
    out
}

/// Relies on syntect's `SyntaxSet::load_defaults_newlines`,
/// `ThemeSet::load_defaults`, `find_syntax_by_token`,
/// `find_syntax_plain_text` and `highlighted_html_for_string`: the
/// highlighted HTML against the bundled Solarized dark or light theme is a
/// function of the language token and the code alone (an unrecognised token
/// falls back to the plain-text grammar); `None` when rendering fails.
#[verifier::external_body]
fn syntect_highlight(lang: &str, code: &str, dark: bool) -> (r: Option<String>)
    ensures
        r.deep_view() == highlighted(lang@, code@, dark),
{
    let ss = syntect::parsing::SyntaxSet::load_defaults_newlines();
    let ts = syntect::highlighting::ThemeSet::load_defaults();
    let syntax = ss.find_syntax_by_token(lang).unwrap_or_else(|| ss.find_syntax_plain_text());
    let theme = &ts.themes[if dark { "Solarized (dark)" } else { "Solarized (light)" }];
    syntect::html::highlighted_html_for_string(code, &ss, syntax, theme).ok()
}

/// The prefix syntect's snippets open with.
pub open spec fn pre_prefix() -> Seq<char> {
    "<pre style=\"background-color:"@
}

/// The replacement prefix that tags a dark snippet.
pub open spec fn dark_prefix() -> Seq<char> {
    "<pre class=\"code-dark\" style=\"padding:1rem;border-radius:8px;overflow-x:auto;background-color:"@
}

/// The replacement prefix that tags a light snippet.
pub open spec fn light_prefix() -> Seq<char> {
    "<pre class=\"code-light\" style=\"padding:1rem;border-radius:8px;overflow-x:auto;background-color:"@
}

/// A highlighted snippet with its opening `<pre>` retagged with the theme's
/// class and inline styling; a snippet of any other shape is kept as it is.
pub open spec fn tag_theme(h: Seq<char>, dark: bool) -> Seq<char> {
    if starts_with(h, pre_prefix()) {
        (if dark {
            dark_prefix()
        } else {
            light_prefix()
        }) + h.skip(pre_prefix().len() as int)
    } else {
        h
    }
}

/// The unhighlighted wrapping a block degrades to when highlighting fails.
pub open spec fn fallback_block(code: Seq<char>) -> Seq<char> {
    "<pre><code>"@ + code + "</code></pre>"@
}

/// One themed rendering of a code block.
pub open spec fn themed_block(lang: Seq<char>, code: Seq<char>, dark: bool) -> Seq<char> {
    match highlighted(lang, code, dark) {
        Some(h) => tag_theme(h, dark),
        None => fallback_block(code),
    }
}

/// The single fragment that replaces a fenced code block: the dark-themed
/// rendering followed by the light-themed one.
pub open spec fn code_block_html(lang: Seq<char>, code: Seq<char>) -> Seq<char> {
    themed_block(lang, code, true) + themed_block(lang, code, false)
}

/// One themed rendering of a code block: the highlighted snippet with its
/// `<pre>` retagged, or the plain wrapping when highlighting fails.
fn themed_block_exec(lang: &str, code: &str, dark: bool) -> (r: String)
    ensures
        r@ == themed_block(lang@, code@, dark),
{
    match syntect_highlight(lang, code, dark) {
        Some(h) => {
            let hv = str_to_chars(h.as_str());
            let p = str_to_chars("<pre style=\"background-color:");
            if starts_with_vec(&hv, &p) {
                let mut out = if dark {
                    String::from_str(
                        "<pre class=\"code-dark\" style=\"padding:1rem;border-radius:8px;overflow-x:auto;background-color:",
                    )
                } else {
                    String::from_str(
                        "<pre class=\"code-light\" style=\"padding:1rem;border-radius:8px;overflow-x:auto;background-color:",
                    )
                };
                let rest = subvec(&hv, p.len(), hv.len());
                let rest_s = chars_to_string(&rest);
                out.append(rest_s.as_str());
                proof {
                    assert(rest@ =~= h@.skip(p@.len() as int));
                }
                out
            } else {
                h
            }
        },
        None => {
            let mut out = String::from_str("<pre><code>");
            out.append(code);
            out.append("</code></pre>");
            out
        },
    }
}

/// The combined dark-then-light fragment for one fenced code block.
fn render_code_block(lang: &str, code: &str) -> (r: String)
    ensures
        r@ == code_block_html(lang@, code@),
{
    let mut out = themed_block_exec(lang, code, true);
    let light = themed_block_exec(lang, code, false);
    out.append(light.as_str());
    out
}

/// A destination with an http or https scheme.
pub open spec fn is_external(dest: Seq<char>) -> bool {
    starts_with(dest, "http://"@) || starts_with(dest, "https://"@)
}

/// The rewritten opening anchor of an external link: it opens in a new
/// browsing context with `noopener noreferrer`, and keeps any title.
pub open spec fn link_open_html(dest: Seq<char>, title: Seq<char>) -> Seq<char> {
    "<a href=\""@ + dest + "\" target=\"_blank\" rel=\"noopener noreferrer\""@ + (if title.len()
        == 0 {
        Seq::<char>::empty()
    } else {
        " title=\""@ + title + "\""@
    }) + ">"@
}

/// The rewritten opening anchor, built.
fn link_open_exec(dest: &str, title: &str) -> (r: String)
    ensures
        r@ == link_open_html(dest@, title@),
{
    let mut out = String::from_str("<a href=\"");
    out.append(dest);
    out.append("\" target=\"_blank\" rel=\"noopener noreferrer\"");
    if !title.is_empty() {
        out.append(" title=\"");
        out.append(title);
        out.append("\"");
    }
    out.append(">");
    proof {
        assert(out@ =~= link_open_html(dest@, title@));
    }
    out
}

/// The transformation state: whether the scan is inside a fenced block, the
/// block's language token, and the buffered block text.
pub ghost struct RenderSt {
    pub in_code: bool,
    pub lang: Seq<char>,
    pub buf: Seq<char>,
}

/// The state the transformation starts in.
pub open spec fn render_init() -> RenderSt {
    RenderSt { in_code: false, lang: Seq::empty(), buf: Seq::empty() }
}

/// One event of the transformation: code-block events buffer and then emit
/// the combined dual-theme fragment; external link openings are rewritten;
/// link closings become literal closing anchors; everything else passes
/// through.
pub open spec fn render_step(st: RenderSt, ev: EvModel, i: int) -> (RenderSt, Seq<OutModel>) {
    match ev {
        EvModel::CodeStart(l) => (
            RenderSt { in_code: true, lang: l, buf: Seq::empty() },
            Seq::empty(),
        ),
        EvModel::CodeEnd => if st.in_code {
            (
                RenderSt { in_code: false, lang: st.lang, buf: st.buf },
                seq![OutModel::Html(code_block_html(st.lang, st.buf))],
            )
        } else {
            (st, seq![OutModel::Emit(i)])
        },
        EvModel::Text(t) => if st.in_code {
            (RenderSt { in_code: st.in_code, lang: st.lang, buf: st.buf + t }, Seq::empty())
        } else {
            (st, seq![OutModel::Emit(i)])
        },
        EvModel::LinkStart(d, t) => if is_external(d) {
            (st, seq![OutModel::Html(link_open_html(d, t))])
        } else {
            (st, seq![OutModel::Emit(i)])
        },
        EvModel::LinkEnd => (st, seq![OutModel::Html("</a>"@)]),
        EvModel::Other => (st, seq![OutModel::Emit(i)]),
    }
}

/// The output steps produced from `evs[i..]` starting in state `st`.
pub open spec fn render_fold(evs: Seq<EvModel>, i: int, st: RenderSt) -> Seq<OutModel>
    decreases evs.len() - i,
{
    if i < 0 || i >= evs.len() {
        Seq::empty()
    } else {
        let sr = render_step(st, evs[i], i);
        sr.1 + render_fold(evs, i + 1, sr.0)
    }
}

/// The output steps for a whole event stream.
pub open spec fn transform_spec(evs: Seq<EvModel>) -> Seq<OutModel> {
    render_fold(evs, 0, render_init())
}

/// Transforms the classified event stream: buffers each fenced block and
/// replaces it by the dual-theme fragment, rewrites external link openings,
/// closes links literally, and forwards everything else.
fn transform(evs: &Vec<EvClass>) -> (r: Vec<OutOp>)
    ensures
        r.deep_view() == transform_spec(evs.deep_view()),
{
    let ghost edv = evs.deep_view();
    let p_http = str_to_chars("http://");
    let p_https = str_to_chars("https://");
    let mut out: Vec<OutOp> = Vec::new();
    let mut in_code: bool = false;
    let mut lang = String::new();
    let mut buf = String::new();
    let n = evs.len();
    let mut i: usize = 0;
    proof {
        assert(out.deep_view() + render_fold(edv, 0, render_init()) =~= transform_spec(edv));
    }
    while i < n
        invariant
            i <= n,
            n == evs@.len(),
            edv == evs.deep_view(),
            edv.len() == n,
            p_http@ == "http://"@,
            p_https@ == "https://"@,
            transform_spec(edv) == out.deep_view() + render_fold(
                edv,
                i as int,
                RenderSt { in_code, lang: lang@, buf: buf@ },
            ),
        decreases n - i,
    {
        let ghost st = RenderSt { in_code, lang: lang@, buf: buf@ };
        let ghost ev = edv[i as int];
        let ghost pre = out.deep_view();
        proof {
            assert(ev == evs@[i as int].deep_view());
        }
        match &evs[i] {
            EvClass::CodeStart(l) => {
                in_code = true;
                lang = l.clone();
                buf = String::new();
                proof {
                    let sr = render_step(st, ev, i as int);
                    assert(sr.0 == (RenderSt { in_code, lang: lang@, buf: buf@ }));
                    assert(pre + sr.1 =~= pre);
                }
            },
            EvClass::CodeEnd => {
                if in_code {
                    in_code = false;
                    let html = render_code_block(lang.as_str(), buf.as_str());
                    out.push(OutOp::Html(html));
                    proof {
                        let sr = render_step(st, ev, i as int);
                        assert(out.deep_view() =~~= pre + sr.1);
                    }
                } else {
                    out.push(OutOp::Emit(i));
                    proof {
                        let sr = render_step(st, ev, i as int);
                        assert(out.deep_view() =~~= pre + sr.1);
                    }
                }
            },
            EvClass::Text(t) => {
                if in_code {
                    buf.append(t.as_str());
                    proof {
                        let sr = render_step(st, ev, i as int);
                        assert(sr.0 == (RenderSt { in_code, lang: lang@, buf: buf@ }));
                        assert(pre + sr.1 =~= pre);
                    }
                } else {
                    out.push(OutOp::Emit(i));
                    proof {
                        let sr = render_step(st, ev, i as int);
                        assert(out.deep_view() =~~= pre + sr.1);
                    }
                }
            },
            EvClass::LinkStart(d, t) => {
                let dv = str_to_chars(d.as_str());
                let ext = starts_with_vec(&dv, &p_http) || starts_with_vec(&dv, &p_https);
                if ext {
                    let html = link_open_exec(d.as_str(), t.as_str());
                    out.push(OutOp::Html(html));
                } else {
                    out.push(OutOp::Emit(i));
                }
                proof {
                    assert(ext == is_external(d@));
                    let sr = render_step(st, ev, i as int);
                    assert(out.deep_view() =~~= pre + sr.1);
                }
            },
            EvClass::LinkEnd => {
                out.push(OutOp::Html(String::from_str("</a>")));
                proof {
                    let sr = render_step(st, ev, i as int);
                    assert(out.deep_view() =~~= pre + sr.1);
                }
            },
            EvClass::Other => {
                out.push(OutOp::Emit(i));
                proof {
                    let sr = render_step(st, ev, i as int);
                    assert(out.deep_view() =~~= pre + sr.1);
                }
            },
        }
        proof {
            let sr = render_step(st, ev, i as int);
            assert(render_fold(edv, i as int, st) == sr.1 + render_fold(edv, i + 1, sr.0));
            assert(sr.0 == (RenderSt { in_code, lang: lang@, buf: buf@ }));
            assert(out.deep_view() + render_fold(edv, i + 1, sr.0) =~= transform_spec(edv));
        }
        i += 1;
    }
    proof {
        assert(render_fold(edv, n as int, RenderSt { in_code, lang: lang@, buf: buf@ })
            == Seq::<OutModel>::empty());
        assert(out.deep_view() =~= transform_spec(edv));
    }
    out
}

/// The HTML a markdown body renders to under the highlighting renderer.
pub open spec fn html_render_spec(s: Seq<char>) -> Seq<char> {
    rendered_html(s, transform_spec(md_events(s)))
}

/// Renders a markdown body to an HTML fragment with highlighted, dual-theme
/// code blocks and rewritten external links.
pub fn markdown_to_html(markdown: &str) -> (r: String)
    ensures
        r@ == html_render_spec(markdown@),
{
    let evs = md_classify(markdown);
    let ops = transform(&evs);
    emit_html(markdown, &ops)
}

/// The output steps of the plain renderer: every event forwarded unchanged.
pub open spec fn identity_ops(n: int) -> Seq<OutModel> {
    Seq::new(n as nat, |i: int| OutModel::Emit(i))
}

/// The HTML a markdown body renders to under the plain renderer.
pub open spec fn plain_render_spec(s: Seq<char>) -> Seq<char> {
    rendered_html(s, identity_ops(md_events(s).len() as int))
}

/// Renders a markdown body with no code highlighting: the standard
/// conversion, every event emitted as parsed.
pub fn markdown_to_html_plain(markdown: &str) -> (r: String)
    ensures
        r@ == plain_render_spec(markdown@),
{
    let evs = md_classify(markdown);
    let n = evs.len();
    let mut ops: Vec<OutOp> = Vec::new();
    let mut i: usize = 0;
    proof {
        assert(ops.deep_view() =~= identity_ops(0));
    }
    while i < n
        invariant
            i <= n,
            ops.deep_view() == identity_ops(i as int),
        decreases n - i,
    {
        let ghost pre = ops.deep_view();
        ops.push(OutOp::Emit(i));
        proof {
            let dv = ops.deep_view();
            assert(pre.len() == identity_ops(i as int).len());
            assert(identity_ops(i as int).len() == i as int);
            assert(dv.len() == ops@.len());
            assert(ops@.len() == pre.len() + 1);
            assert(dv.len() == i + 1);
            assert forall|k: int| 0 <= k < i + 1 implies dv[k] == identity_ops(i + 1)[k] by {
                if k < i {
                    assert(dv[k] == pre[k]);
                    assert(pre[k] == identity_ops(i as int)[k]);
                }
            }
            assert(dv =~= identity_ops(i + 1));
        }
        i += 1;
    }
    proof {
        assert(n == md_events(markdown@).len());
        assert(ops.deep_view() =~= identity_ops(md_events(markdown@).len() as int));
    }
    emit_html(markdown, &ops)
}

/// Which rendering capability the hosting environment constructed: the plain
/// conversion, or the richer highlighting pipeline.
pub enum Renderer {
    Plain,
    Highlighting,
}

impl Renderer {
    /// The HTML this renderer produces for a body.
    pub open spec fn render_spec(&self, s: Seq<char>) -> Seq<char> {
        match self {
            Renderer::Plain => plain_render_spec(s),
            Renderer::Highlighting => html_render_spec(s),
        }
    }

    /// Renders a markdown body with this renderer.
    pub fn render(&self, markdown: &str) -> (r: String)
        ensures
            r@ == self.render_spec(markdown@),
    {
        match self {
            Renderer::Plain => markdown_to_html_plain(markdown),
            Renderer::Highlighting => markdown_to_html(markdown),
        }
    }
}

/// Law: link rewriting. An external link opening (an http or https
/// destination) is replaced by an injected anchor that carries
/// `target="_blank" rel="noopener noreferrer"`; a non-external link opening
/// passes through unchanged and leaves the state untouched.
pub proof fn lemma_link_rewriting(st: RenderSt, d: Seq<char>, t: Seq<char>, i: int)
    ensures
        is_external(d) ==> render_step(st, EvModel::LinkStart(d, t), i).1 == seq![
            OutModel::Html(link_open_html(d, t)),
        ],
        is_external(d) ==> contains_sub(
            link_open_html(d, t),
            "target=\"_blank\" rel=\"noopener noreferrer\""@,
        ),
        !is_external(d) ==> render_step(st, EvModel::LinkStart(d, t), i) == (
            st,
            seq![OutModel::Emit(i)],
        ),
{
    if is_external(d) {
        reveal_strlit("<a href=\"");
        reveal_strlit("\" target=\"_blank\" rel=\"noopener noreferrer\"");
        reveal_strlit("target=\"_blank\" rel=\"noopener noreferrer\"");
        let l = link_open_html(d, t);
        let marker = "target=\"_blank\" rel=\"noopener noreferrer\""@;
        let p = 9 + d.len() as int + 2;
        assert(l.subrange(p, p + marker.len()) =~= marker);
        assert(occurs_at(l, marker, p));
    }
}

/// Law: a fenced code block tagged `lang` whose text is `code` is replaced
/// by exactly one injected fragment, the dark-themed rendering followed by
/// the light-themed one.
pub proof fn lemma_dual_theme_block(evs: Seq<EvModel>, i: int, st: RenderSt, lang: Seq<char>, code: Seq<char>)
    requires
        0 <= i,
        i + 3 <= evs.len(),
        evs[i] == EvModel::CodeStart(lang),
        evs[i + 1] == EvModel::Text(code),
        evs[i + 2] == EvModel::CodeEnd,
    ensures
        render_fold(evs, i, st) == seq![OutModel::Html(code_block_html(lang, code))]
            + render_fold(evs, i + 3, RenderSt { in_code: false, lang, buf: code }),
{
    let st1 = RenderSt { in_code: true, lang, buf: Seq::empty() };
    let st2 = RenderSt { in_code: true, lang, buf: Seq::empty() + code };
    let st3 = RenderSt { in_code: false, lang, buf: Seq::empty() + code };
    assert(Seq::<char>::empty() + code =~= code);
    assert(render_fold(evs, i, st) == render_fold(evs, i + 1, st1));
    assert(render_fold(evs, i + 1, st1) == render_fold(evs, i + 2, st2));
    assert(render_fold(evs, i + 2, st2) == seq![OutModel::Html(code_block_html(lang, code))]
        + render_fold(evs, i + 3, st3)) by {
        assert(st2.buf == code);
        assert(seq![OutModel::Html(code_block_html(lang, code))] + render_fold(evs, i + 3, st3)
            =~= render_step(st2, evs[i + 2], i + 2).1 + render_fold(
            evs,
            i + 3,
            render_step(st2, evs[i + 2], i + 2).0,
        ));
    }
    assert(st3 == (RenderSt { in_code: false, lang, buf: code }));
}

/// Law: when both themed highlights succeed with the standard snippet
/// prefix, the fragment that replaces the block holds one `code-dark`-classed
/// and one `code-light`-classed `<pre>`.
pub proof fn lemma_code_block_classes(lang: Seq<char>, code: Seq<char>)
    requires
        highlighted(lang, code, true) is Some,
        starts_with(highlighted(lang, code, true)->Some_0, pre_prefix()),
        highlighted(lang, code, false) is Some,
        starts_with(highlighted(lang, code, false)->Some_0, pre_prefix()),
    ensures
        contains_sub(code_block_html(lang, code), "code-dark"@),
        contains_sub(code_block_html(lang, code), "code-light"@),
{
    reveal_strlit("<pre style=\"background-color:");
    reveal_strlit(
        "<pre class=\"code-dark\" style=\"padding:1rem;border-radius:8px;overflow-x:auto;background-color:",
    );
    reveal_strlit(
        "<pre class=\"code-light\" style=\"padding:1rem;border-radius:8px;overflow-x:auto;background-color:",
    );
    reveal_strlit("code-dark");
    reveal_strlit("code-light");
    let hd = highlighted(lang, code, true)->Some_0;
    let hl = highlighted(lang, code, false)->Some_0;
    let plen = pre_prefix().len() as int;
    let dpart = dark_prefix() + hd.skip(plen);
    let lpart = light_prefix() + hl.skip(plen);
    let block = code_block_html(lang, code);
    assert(block == dpart + lpart);
    assert(block.subrange(12int, 21int) =~= "code-dark"@);
    assert(occurs_at(block, "code-dark"@, 12));
    let q = dpart.len() as int + 12;
    assert(block.subrange(q, q + 10int) =~= "code-light"@);
    assert(occurs_at(block, "code-light"@, q));
}

/// Law: when highlighting fails, the degraded wrapping still holds the
/// block's literal text.
pub proof fn lemma_fallback_keeps_text(code: Seq<char>)
    ensures
        contains_sub(fallback_block(code), code),
{
    reveal_strlit("<pre><code>");
    assert(fallback_block(code).subrange(11, 11 + code.len() as int) =~= code);
    assert(occurs_at(fallback_block(code), code, 11));
}


} // verus!
