//! Content derivation: a plain-text preview of a markdown body (code blocks,
//! images and blank lines skipped; heading and emphasis markers stripped;
//! capped at a character budget), and the first image URL as a thumbnail.
use crate::frontmatter::first_occ;
use crate::frontmatter::lemma_first_occ_none;
use crate::frontmatter::lemma_first_occ_some;
use crate::text::contains_sub;
use crate::text::find_sub;
use crate::text::lines_spec;
use crate::text::occurs_at;
use crate::text::split_lines;
use crate::text::starts_with;
use crate::text::str_to_chars;
use crate::text::chars_to_string;
use crate::text::subvec;
use crate::text::trim_chars;
use crate::text::trim_spec;
use vstd::prelude::*;
use vstd::string::StringExecFns;

verus! {

/// A line whose trimmed form opens or closes a fenced code block.
pub open spec fn is_fence_line(line: Seq<char>) -> bool {
    starts_with(trim_spec(line), "```"@)
}

/// A line carrying only a markdown image.
pub open spec fn is_image_line(line: Seq<char>) -> bool {
    let t = trim_spec(line);
    t.len() > 0 && t[0] == '!' && contains_sub(line, "]("@)
}

/// A line that trims to nothing.
pub open spec fn is_blank_line(line: Seq<char>) -> bool {
    trim_spec(line).len() == 0
}

/// The leading run of heading markers and spaces, removed.
pub open spec fn strip_heading(s: Seq<char>) -> Seq<char>
    decreases s.len(),
{
    if s.len() > 0 && (s[0] == '#' || s[0] == ' ') {
        strip_heading(s.drop_first())
    } else {
        s
    }
}

/// Emphasis markers removed: every `*` and `_` dropped, which is what the
/// cascade of `**`, `*`, `__`, `_` removals amounts to.
pub open spec fn strip_emphasis(s: Seq<char>) -> Seq<char> {
    s.filter(|c: char| c != '*' && c != '_')
}

/// What a surviving line contributes to the preview.
pub open spec fn clean_line(line: Seq<char>) -> Seq<char> {
    strip_emphasis(strip_heading(trim_spec(line)))
}

/// A cleaned line joined onto the accumulated preview with a single space.
pub open spec fn append_clean(acc: Seq<char>, cl: Seq<char>) -> Seq<char> {
    if acc.len() == 0 {
        cl
    } else {
        acc + " "@ + cl
    }
}

/// The preview accumulator: whether the scan is inside a fenced block, and
/// the text gathered so far.
pub ghost struct PrevSt {
    pub in_code: bool,
    pub acc: Seq<char>,
}

/// Whether a line's text is appended to the preview in state `st`.
pub open spec fn line_appends(st: PrevSt, line: Seq<char>) -> bool {
    !is_fence_line(line) && !st.in_code && !is_image_line(line) && !is_blank_line(line)
}

/// One line of the preview scan.
pub open spec fn preview_step(st: PrevSt, line: Seq<char>) -> PrevSt {
    if is_fence_line(line) {
        PrevSt { in_code: !st.in_code, acc: st.acc }
    } else if st.in_code {
        st
    } else if is_image_line(line) {
        st
    } else if is_blank_line(line) {
        st
    } else {
        PrevSt { in_code: st.in_code, acc: append_clean(st.acc, clean_line(line)) }
    }
}

/// The preview text gathered from `lines[i..]` starting in state `st`; the
/// scan stops early once an appended line reaches the budget.
pub open spec fn preview_fold(lines: Seq<Seq<char>>, i: int, st: PrevSt, max: nat) -> Seq<char>
    decreases lines.len() - i,
{
    if i < 0 || i >= lines.len() {
        st.acc
    } else {
        let st2 = preview_step(st, lines[i]);
        if line_appends(st, lines[i]) && st2.acc.len() >= max {
            st2.acc
        } else {
            preview_fold(lines, i + 1, st2, max)
        }
    }
}

/// The ellipsis appended to a truncated preview.
pub open spec fn ellipsis() -> Seq<char> {
    "..."@
}

/// The preview of a body: the gathered text, truncated to the budget with an
/// ellipsis when it overran.
pub open spec fn preview_spec(s: Seq<char>, max: nat) -> Seq<char> {
    let acc = preview_fold(lines_spec(s), 0, PrevSt { in_code: false, acc: Seq::empty() }, max);
    if acc.len() > max {
        acc.take(max as int) + ellipsis()
    } else {
        acc
    }
}

/// Filtering distributes over appending one character.
proof fn lemma_filter_push(s: Seq<char>, x: char, pred: spec_fn(char) -> bool)
    ensures
        s.push(x).filter(pred) == if pred(x) {
            s.filter(pred).push(x)
        } else {
            s.filter(pred)
        },
{
    reveal(Seq::filter);
    assert(s.push(x).drop_last() =~= s);
    assert(s.push(x).last() == x);
}

proof fn lemma_strip_heading_skip(s: Seq<char>, a: int)
    requires
        0 <= a <= s.len(),
        forall|k: int| 0 <= k < a ==> s[k] == '#' || s[k] == ' ',
        a < s.len() ==> !(s[a] == '#' || s[a] == ' '),
    ensures
        strip_heading(s) == s.skip(a),
    decreases a,
{
    if a == 0 {
        assert(s.skip(0) =~= s);
    } else {
        let t = s.drop_first();
        assert(forall|k: int| 0 <= k < a - 1 ==> t[k] == '#' || t[k] == ' ');
        lemma_strip_heading_skip(t, a - 1);
        assert(s.skip(a) =~= t.skip(a - 1));
    }
}

/// The cleaned contribution of one trimmed line: the leading `#`/space run
/// removed, then every `*` and `_` dropped.
fn clean_line_chars(t: &Vec<char>) -> (r: Vec<char>)
    ensures
        r@ == strip_emphasis(strip_heading(t@)),
{
    let n = t.len();
    let mut a: usize = 0;
    while a < n && (t[a] == '#' || t[a] == ' ')
        invariant
            a <= n,
            n == t@.len(),
            forall|k: int| 0 <= k < a ==> t@[k] == '#' || t@[k] == ' ',
        decreases n - a,
    {
        a += 1;
    }
    proof {
        lemma_strip_heading_skip(t@, a as int);
    }
    let ghost stripped = t@.skip(a as int);
    let mut r: Vec<char> = Vec::new();
    let mut i: usize = a;
    proof {
        assert(stripped.take(0) =~= Seq::<char>::empty());
        assert(Seq::<char>::empty().filter(|c: char| c != '*' && c != '_')
            == Seq::<char>::empty()) by {
            reveal(Seq::filter);
        }
    }
    while i < n
        invariant
            a <= i <= n,
            n == t@.len(),
            stripped == t@.skip(a as int),
            r@ == stripped.take(i - a).filter(|c: char| c != '*' && c != '_'),
        decreases n - i,
    {
        let c = t[i];
        proof {
            assert(stripped.take(i - a + 1) =~= stripped.take(i - a).push(t@[i as int]));
            lemma_filter_push(
                stripped.take(i - a),
                t@[i as int],
                |c: char| c != '*' && c != '_',
            );
        }
        if c != '*' && c != '_' {
            r.push(c);
        }
        i += 1;
    }
    proof {
        assert(stripped.take(n - a) =~= stripped);
    }
    r
}

/// Whether the trimmed line opens or closes a fence: its first three
/// characters are backticks.
fn fence_check(t: &Vec<char>) -> (r: bool)
    ensures
        r == starts_with(t@, "```"@),
{
    proof {
        reveal_strlit("```");
    }
    if t.len() >= 3 && t[0] == '`' && t[1] == '`' && t[2] == '`' {
        proof {
            assert(t@.subrange(0, 3) =~= "```"@);
        }
        true
    } else {
        proof {
            if t@.len() >= 3 {
                assert(t@.subrange(0, 3)[0] == t@[0]);
                assert(t@.subrange(0, 3)[1] == t@[1]);
                assert(t@.subrange(0, 3)[2] == t@[2]);
            }
        }
        false
    }
}

/// Whether `pat` occurs anywhere in `v`.
fn contains_check(v: &Vec<char>, pat: &Vec<char>) -> (r: bool)
    requires
        pat@.len() >= 1,
    ensures
        r == contains_sub(v@, pat@),
{
    match find_sub(v, pat, 0) {
        Some(i) => {
            proof {
                assert(occurs_at(v@, pat@, i as int));
            }
            true
        },
        None => {
            proof {
                assert forall|j: int| !occurs_at(v@, pat@, j) by {
                    if j >= 0 {
                        assert(!occurs_at(v@, pat@, j));
                    }
                }
            }
            false
        },
    }
}

/// Extracts plain text from a markdown body: skips fenced code regions,
/// image lines and blank lines, strips heading and emphasis markers from the
/// rest, joins with single spaces, and stops at `max_chars` characters,
/// truncating with an ellipsis when the budget is exceeded.
pub fn extract_text_preview(markdown: &str, max_chars: usize) -> (r: String)
    ensures
        r@ == preview_spec(markdown@, max_chars as nat),
{
    let chars = str_to_chars(markdown);
    let lines = split_lines(&chars);
    let ghost ldv = lines.deep_view();
    let ghost init = PrevSt { in_code: false, acc: Seq::empty() };
    let img_pat = str_to_chars("](");
    proof {
        reveal_strlit("](");
        assert(img_pat@.len() == 2);
    }
    let mut acc: Vec<char> = Vec::new();
    let mut in_code: bool = false;
    let n = lines.len();
    let mut i: usize = 0;
    while i < n
        invariant
            i <= n,
            n == lines@.len(),
            ldv == lines.deep_view(),
            ldv == lines_spec(markdown@),
            init == (PrevSt { in_code: false, acc: Seq::<char>::empty() }),
            ldv.len() == n,
            img_pat@ == "]("@,
            img_pat@.len() == 2,
            preview_fold(ldv, 0, init, max_chars as nat) == preview_fold(
                ldv,
                i as int,
                PrevSt { in_code, acc: acc@ },
                max_chars as nat,
            ),
        decreases n - i,
    {
        let ghost st = PrevSt { in_code, acc: acc@ };
        let ghost line = ldv[i as int];
        proof {
            assert(line == lines@[i as int]@);
        }
        let t = trim_chars(&lines[i]);
        let fence = fence_check(&t);
        if fence {
            in_code = !in_code;
        } else if in_code {
            // inside a fenced region: the line is skipped
        } else {
            let image = t.len() > 0 && t[0] == '!' && contains_check(&lines[i], &img_pat);
            proof {
                assert(image == is_image_line(line));
            }
            if !image && t.len() > 0 {
                let cl = clean_line_chars(&t);
                if acc.len() > 0 {
                    acc.push(' ');
                    proof {
                        reveal_strlit(" ");
                        assert(st.acc + " "@ =~= st.acc.push(' '));
                    }
                }
                let mut clv = cl;
                acc.append(&mut clv);
                proof {
                    assert(acc@ =~= append_clean(st.acc, clean_line(line)));
                }
                if acc.len() >= max_chars {
                    proof {
                        let st2 = preview_step(st, line);
                        assert(line_appends(st, line));
                        assert(st2.acc == acc@);
                        assert(preview_fold(ldv, i as int, st, max_chars as nat) == acc@);
                    }
                    return finish_preview(acc, max_chars, Ghost(markdown@));
                }
            }
        }
        proof {
            let st2 = preview_step(st, line);
            assert(st2 == PrevSt { in_code, acc: acc@ });
        }
        i += 1;
    }
    proof {
        assert(preview_fold(ldv, n as int, PrevSt { in_code, acc: acc@ }, max_chars as nat)
            == acc@);
    }
    finish_preview(acc, max_chars, Ghost(markdown@))
}

/// Truncates the gathered preview to the budget, appending the ellipsis when
/// it overran.
fn finish_preview(acc: Vec<char>, max_chars: usize, Ghost(s): Ghost<Seq<char>>) -> (r: String)
    requires
        acc@ == preview_fold(
            lines_spec(s),
            0,
            PrevSt { in_code: false, acc: Seq::empty() },
            max_chars as nat,
        ),
    ensures
        r@ == preview_spec(s, max_chars as nat),
{
    if acc.len() > max_chars {
        let head = subvec(&acc, 0, max_chars);
        let mut out = chars_to_string(&head);
        out.append("...");
        proof {
            assert(acc@.subrange(0, max_chars as int) == acc@.take(max_chars as int));
        }
        out
    } else {
        chars_to_string(&acc)
    }
}

/// The URL of a markdown image reference `![alt](url)` on this line, if the
/// trimmed line starts with `!`, holds `](`, and a `)` follows.
pub open spec fn md_image_url(line: Seq<char>) -> Option<Seq<char>> {
    let t = trim_spec(line);
    if t.len() > 0 && t[0] == '!' && contains_sub(t, "]("@) {
        let a = first_occ(t, "]("@, 0)->Some_0;
        match first_occ(t, ")"@, a + 2) {
            Some(e) => Some(t.subrange(a + 2, e)),
            None => None,
        }
    } else {
        None
    }
}

/// The URL of an HTML `<img src="...">` on this line, if the trimmed line
/// holds `<img` and a complete `src="..."` attribute.
pub open spec fn html_image_url(line: Seq<char>) -> Option<Seq<char>> {
    let t = trim_spec(line);
    if contains_sub(t, "<img"@) && contains_sub(t, "src="@) {
        match first_occ(t, "src=\""@, 0) {
            Some(a) => match first_occ(t, "\""@, a + 5) {
                Some(e) => Some(t.subrange(a + 5, e)),
                None => None,
            },
            None => None,
        }
    } else {
        None
    }
}

/// The image URL a line yields: a markdown image reference first, else an
/// HTML image.
pub open spec fn line_image_url(line: Seq<char>) -> Option<Seq<char>> {
    match md_image_url(line) {
        Some(u) => Some(u),
        None => html_image_url(line),
    }
}

/// The URL of the first image reference at or after line `i`.
pub open spec fn thumb_fold(lines: Seq<Seq<char>>, i: int) -> Option<Seq<char>>
    decreases lines.len() - i,
{
    if i < 0 || i >= lines.len() {
        None
    } else {
        match line_image_url(lines[i]) {
            Some(u) => Some(u),
            None => thumb_fold(lines, i + 1),
        }
    }
}

/// The thumbnail of a body: the URL of the first image reference in document
/// order, if any.
pub open spec fn thumbnail_spec(s: Seq<char>) -> Option<Seq<char>> {
    thumb_fold(lines_spec(s), 0)
}

/// The image URL this line yields, if any.
fn line_thumb(line: &Vec<char>) -> (r: Option<Vec<char>>)
    ensures
        match r {
            Some(u) => line_image_url(line@) == Some(u@),
            None => line_image_url(line@) is None,
        },
{
    let t = trim_chars(line);
    let tn = t.len();
    let p_open = str_to_chars("](");
    let p_close = str_to_chars(")");
    let p_img = str_to_chars("<img");
    let p_src = str_to_chars("src=");
    let p_srcq = str_to_chars("src=\"");
    let p_quote = str_to_chars("\"");
    proof {
        reveal_strlit("](");
        reveal_strlit(")");
        reveal_strlit("<img");
        reveal_strlit("src=");
        reveal_strlit("src=\"");
        reveal_strlit("\"");
    }
    if tn > 0 && t[0] == '!' && contains_check(&t, &p_open) {
        match find_sub(&t, &p_open, 0) {
            Some(a) => {
                proof {
                    lemma_first_occ_some(t@, p_open@, 0, a as int);
                }
                match find_sub(&t, &p_close, a + 2) {
                    Some(e) => {
                        proof {
                            lemma_first_occ_some(t@, p_close@, a + 2, e as int);
                        }
                        return Some(subvec(&t, a + 2, e));
                    },
                    None => {
                        proof {
                            lemma_first_occ_none(t@, p_close@, a + 2);
                        }
                    },
                }
            },
            None => {
                proof {
                    assert(false);
                }
            },
        }
    }
    if contains_check(&t, &p_img) && contains_check(&t, &p_src) {
        match find_sub(&t, &p_srcq, 0) {
            Some(a) => {
                proof {
                    lemma_first_occ_some(t@, p_srcq@, 0, a as int);
                }
                match find_sub(&t, &p_quote, a + 5) {
                    Some(e) => {
                        proof {
                            lemma_first_occ_some(t@, p_quote@, a + 5, e as int);
                        }
                        return Some(subvec(&t, a + 5, e));
                    },
                    None => {
                        proof {
                            lemma_first_occ_none(t@, p_quote@, a + 5);
                        }
                        return None;
                    },
                }
            },
            None => {
                proof {
                    lemma_first_occ_none(t@, p_srcq@, 0);
                }
                return None;
            },
        }
    }
    None
}

/// Extracts the URL of the first image reference in the body, scanning lines
/// in order: a markdown image `![alt](url)` or an HTML `<img src="...">`,
/// whichever line comes first.
pub fn extract_thumbnail(markdown: &str) -> (r: Option<String>)
    ensures
        r.deep_view() == thumbnail_spec(markdown@),
{
    let chars = str_to_chars(markdown);
    let lines = split_lines(&chars);
    let ghost ldv = lines.deep_view();
    let n = lines.len();
    let mut i: usize = 0;
    while i < n
        invariant
            i <= n,
            n == lines@.len(),
            ldv == lines.deep_view(),
            ldv == lines_spec(markdown@),
            ldv.len() == n,
            thumb_fold(ldv, 0) == thumb_fold(ldv, i as int),
        decreases n - i,
    {
        proof {
            assert(ldv[i as int] == lines@[i as int]@);
        }
        match line_thumb(&lines[i]) {
            Some(u) => {
                let out = chars_to_string(&u);
                proof {
                    assert(thumb_fold(ldv, i as int) == Some(u@));
                }
                return Some(out);
            },
            None => {
                proof {
                    assert(thumb_fold(ldv, i as int) == thumb_fold(ldv, i + 1));
                }
            },
        }
        i += 1;
    }
    None
}

/// Law: the preview never exceeds its budget plus the ellipsis marker.
pub proof fn lemma_preview_len(s: Seq<char>, max: nat)
    ensures
        preview_spec(s, max).len() <= max + ellipsis().len(),
{
}

/// No `*` or `_` occurs in `s`.
pub open spec fn no_emphasis(s: Seq<char>) -> bool {
    forall|i: int| 0 <= i < s.len() ==> s[i] != '*' && s[i] != '_'
}

proof fn lemma_fold_no_emphasis(lines: Seq<Seq<char>>, i: int, st: PrevSt, max: nat)
    requires
        no_emphasis(st.acc),
    ensures
        no_emphasis(preview_fold(lines, i, st, max)),
    decreases lines.len() - i,
{
    if i < 0 || i >= lines.len() {
    } else {
        let st2 = preview_step(st, lines[i]);
        assert(no_emphasis(st2.acc)) by {
            if line_appends(st, lines[i]) {
                let cl = clean_line(lines[i]);
                let sh = strip_heading(trim_spec(lines[i]));
                assert(forall|k: int|
                    0 <= k < cl.len() ==> cl[k] != '*' && cl[k] != '_') by {
                    assert forall|k: int|
                        0 <= k < cl.len() implies cl[k] != '*' && cl[k] != '_' by {
                        sh.lemma_filter_pred(|c: char| c != '*' && c != '_', k);
                    }
                }
                if st.acc.len() > 0 {
                    reveal_strlit(" ");
                    assert(no_emphasis(st.acc + " "@ + cl));
                }
            }
        }
        lemma_fold_no_emphasis(lines, i + 1, st2, max);
    }
}

/// Law: the preview contains no emphasis marker: every `*` and `_` of the
/// body has been stripped, so in particular no unescaped `**` survives.
pub proof fn lemma_preview_no_emphasis(s: Seq<char>, max: nat)
    ensures
        no_emphasis(preview_spec(s, max)),
{
    let init = PrevSt { in_code: false, acc: Seq::<char>::empty() };
    lemma_fold_no_emphasis(lines_spec(s), 0, init, max);
    let acc = preview_fold(lines_spec(s), 0, init, max);
    if acc.len() > max {
        reveal_strlit("...");
        assert(no_emphasis(acc.take(max as int) + ellipsis()));
    }
}

/// Every `#` on the line sits in its leading run of `#` and spaces, as a
/// heading marker does.
pub open spec fn hash_only_leading(line: Seq<char>) -> bool {
    let t = trim_spec(line);
    forall|i: int|
        0 <= i < t.len() && t[i] == '#' ==> forall|j: int| 0 <= j < i ==> t[j] == '#' || t[j] == ' '
}

/// No `#` occurs in `s`.
pub open spec fn no_hash(s: Seq<char>) -> bool {
    forall|i: int| 0 <= i < s.len() ==> s[i] != '#'
}

proof fn lemma_strip_heading_no_hash(t: Seq<char>)
    requires
        forall|i: int|
            0 <= i < t.len() && t[i] == '#' ==> forall|j: int|
                0 <= j < i ==> t[j] == '#' || t[j] == ' ',
    ensures
        no_hash(strip_heading(t)),
    decreases t.len(),
{
    if t.len() > 0 && (t[0] == '#' || t[0] == ' ') {
        let t2 = t.drop_first();
        assert(forall|i: int|
            0 <= i < t2.len() && t2[i] == '#' ==> forall|j: int|
                0 <= j < i ==> t2[j] == '#' || t2[j] == ' ') by {
            assert forall|i: int|
                0 <= i < t2.len() && t2[i] == '#' implies forall|j: int|
                0 <= j < i ==> t2[j] == '#' || t2[j] == ' ' by {
                assert(t[i + 1] == '#');
                assert(forall|j: int| 0 <= j < i + 1 ==> t[j] == '#' || t[j] == ' ');
                assert(forall|j: int| 0 <= j < i ==> t2[j] == t[j + 1]);
            }
        }
        lemma_strip_heading_no_hash(t2);
    } else {
        assert forall|i: int| 0 <= i < t.len() implies t[i] != '#' by {
            if t[i] == '#' {
                if i == 0 {
                } else {
                    assert(t[0] == '#' || t[0] == ' ');
                }
            }
        }
    }
}

proof fn lemma_filter_no_hash(s: Seq<char>, pred: spec_fn(char) -> bool)
    requires
        no_hash(s),
    ensures
        no_hash(s.filter(pred)),
    decreases s.len(),
{
    reveal(Seq::filter);
    if s.len() > 0 {
        let d = s.drop_last();
        assert(no_hash(d)) by {
            assert(forall|i: int| 0 <= i < d.len() ==> d[i] == s[i]);
        }
        lemma_filter_no_hash(d, pred);
    }
}

proof fn lemma_fold_no_hash(lines: Seq<Seq<char>>, i: int, st: PrevSt, max: nat)
    requires
        no_hash(st.acc),
        forall|k: int| 0 <= k < lines.len() ==> hash_only_leading(#[trigger] lines[k]),
    ensures
        no_hash(preview_fold(lines, i, st, max)),
    decreases lines.len() - i,
{
    if i < 0 || i >= lines.len() {
    } else {
        let st2 = preview_step(st, lines[i]);
        assert(no_hash(st2.acc)) by {
            if line_appends(st, lines[i]) {
                let cl = clean_line(lines[i]);
                let sh = strip_heading(trim_spec(lines[i]));
                assert(hash_only_leading(lines[i]));
                lemma_strip_heading_no_hash(trim_spec(lines[i]));
                lemma_filter_no_hash(sh, |c: char| c != '*' && c != '_');
                if st.acc.len() > 0 {
                    reveal_strlit(" ");
                    assert(no_hash(st.acc + " "@ + cl));
                }
            }
        }
        lemma_fold_no_hash(lines, i + 1, st2, max);
    }
}

/// Law: when every line of the body keeps `#` only as a heading prefix, the
/// preview contains no `#` at all, so no run of three or more `#` either.
pub proof fn lemma_preview_no_hash(s: Seq<char>, max: nat)
    requires
        forall|k: int|
            0 <= k < lines_spec(s).len() ==> hash_only_leading(#[trigger] lines_spec(s)[k]),
    ensures
        no_hash(preview_spec(s, max)),
{
    let init = PrevSt { in_code: false, acc: Seq::<char>::empty() };
    lemma_fold_no_hash(lines_spec(s), 0, init, max);
    let acc = preview_fold(lines_spec(s), 0, init, max);
    if acc.len() > max {
        reveal_strlit("...");
        assert(no_hash(acc.take(max as int) + ellipsis()));
    }
}

proof fn lemma_thumb_fold_skip(lines: Seq<Seq<char>>, i: int, j: int)
    requires
        0 <= i <= j <= lines.len(),
        forall|k: int| i <= k < j ==> line_image_url(#[trigger] lines[k]) is None,
    ensures
        thumb_fold(lines, i) == thumb_fold(lines, j),
    decreases j - i,
{
    if i < j {
        lemma_thumb_fold_skip(lines, i + 1, j);
    }
}

/// Law: thumbnail extraction returns the first image reference in document
/// order: when line `j` yields an image URL and no earlier line yields one,
/// the thumbnail is line `j`'s URL.
pub proof fn lemma_thumbnail_first(s: Seq<char>, j: int)
    requires
        0 <= j < lines_spec(s).len(),
        line_image_url(lines_spec(s)[j]) is Some,
        forall|k: int| 0 <= k < j ==> line_image_url(#[trigger] lines_spec(s)[k]) is None,
    ensures
        thumbnail_spec(s) == line_image_url(lines_spec(s)[j]),
{
    lemma_thumb_fold_skip(lines_spec(s), 0, j);
}


} // verus!
