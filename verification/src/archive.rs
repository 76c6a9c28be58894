//! The archive grouping: post summaries bucketed by the year of their date,
//! years in descending order, and month names for display.
use crate::order::lemma_lex_le_total;
use crate::order::lemma_lex_lt_trans;
use crate::order::lex_le;
use crate::order::lex_lt;
use crate::order::str_lex_le;
use crate::posts::clone_metadata;
use crate::posts::clone_opt_string;
use crate::posts::PostSummary;
use crate::posts::SummaryModel;
use crate::text::str_eq;
use crate::text::str_to_chars;
use crate::text::chars_to_string;
use crate::text::subvec;
use vstd::prelude::*;

verus! {

/// The position of the first dash at or after `i`, or the length when none
/// follows.
pub open spec fn first_dash(d: Seq<char>, i: int) -> int
    decreases d.len() - i,
{
    if i < 0 || i >= d.len() {
        d.len() as int
    } else if d[i] == '-' {
        i
    } else {
        first_dash(d, i + 1)
    }
}

/// The year key of a date string: everything before the first dash, or the
/// whole string when it has none.
pub open spec fn year_key(date: Seq<char>) -> Seq<char> {
    date.take(first_dash(date, 0))
}

proof fn lemma_first_dash_found(d: Seq<char>, from: int, j: int)
    requires
        0 <= from <= j < d.len(),
        d[j] == '-',
        forall|k: int| from <= k < j ==> d[k] != '-',
    ensures
        first_dash(d, from) == j,
    decreases j - from,
{
    if from < j {
        lemma_first_dash_found(d, from + 1, j);
    }
}

proof fn lemma_first_dash_none(d: Seq<char>, from: int)
    requires
        0 <= from,
        forall|k: int| from <= k < d.len() ==> d[k] != '-',
    ensures
        first_dash(d, from) == d.len(),
    decreases d.len() - from,
{
    if from < d.len() {
        lemma_first_dash_none(d, from + 1);
    }
}

/// The year key of a date string, as the archive buckets it.
pub fn year_string(date: &str) -> (r: String)
    ensures
        r@ == year_key(date@),
{
    let v = str_to_chars(date);
    let n = v.len();
    let mut i: usize = 0;
    while i < n && v[i] != '-'
        invariant
            i <= n,
            n == v@.len(),
            forall|k: int| 0 <= k < i ==> v@[k] != '-',
        decreases n - i,
    {
        i += 1;
    }
    proof {
        if i < n {
            lemma_first_dash_found(v@, 0, i as int);
        } else {
            lemma_first_dash_none(v@, 0);
        }
        assert(v@.subrange(0, i as int) =~= date@.take(first_dash(date@, 0)));
    }
    chars_to_string(&subvec(&v, 0, i))
}

/// A copy of a post summary, field for field.
fn clone_summary(s: &PostSummary) -> (r: PostSummary)
    ensures
        r@ == s@,
{
    PostSummary {
        slug: s.slug.clone(),
        metadata: clone_metadata(&s.metadata),
        thumbnail: clone_opt_string(&s.thumbnail),
    }
}

/// A strictly descending sequence of year keys.
pub open spec fn years_sorted_desc(ts: Seq<Seq<char>>) -> bool {
    forall|i: int, j: int| 0 <= i < j < ts.len() ==> lex_lt(#[trigger] ts[j], #[trigger] ts[i])
}

/// Whether some summary's date falls in the year.
pub open spec fn year_in_summaries(ss: Seq<SummaryModel>, y: Seq<char>) -> bool {
    exists|k: int| 0 <= k < ss.len() && year_key(#[trigger] ss[k].metadata.date) == y
}

/// Inserts a year into a strictly descending vector, keeping order and
/// discarding a duplicate.
fn insert_year(r: &mut Vec<String>, t: String)
    requires
        years_sorted_desc(old(r).deep_view()),
    ensures
        years_sorted_desc(final(r).deep_view()),
        forall|x: Seq<char>|
            final(r).deep_view().contains(x) <==> old(r).deep_view().contains(x) || x == t@,
{
    let ghost dv0 = r.deep_view();
    let n = r.len();
    let mut j: usize = 0;
    while j < n && str_lex_le(t.as_str(), r[j].as_str()) && !str_eq(r[j].as_str(), t.as_str())
        invariant
            j <= n,
            n == r@.len(),
            dv0 == r.deep_view(),
            forall|k: int| 0 <= k < j ==> lex_lt(t@, #[trigger] dv0[k]),
        decreases n - j,
    {
        proof {
            assert(dv0[j as int] == r@[j as int]@);
        }
        j += 1;
    }
    if j < n && str_eq(r[j].as_str(), t.as_str()) {
        proof {
            assert(dv0[j as int] == t@);
            assert(dv0.contains(t@));
        }
        return ;
    }
    proof {
        if j < n {
            assert(dv0[j as int] == r@[j as int]@);
            assert(!(lex_le(t@, dv0[j as int]) && dv0[j as int] != t@));
            assert(dv0[j as int] != t@);
            lemma_lex_le_total(t@, dv0[j as int]);
            assert(lex_lt(dv0[j as int], t@));
        }
    }
    let ghost pm = t@;
    r.insert(j, t);
    proof {
        let dv = r.deep_view();
        assert(dv =~= dv0.insert(j as int, pm)) by {
            dv0.insert_ensures(j as int, pm);
            old(r)@.insert_ensures(j as int, t);
        }
        dv0.insert_ensures(j as int, pm);
        assert forall|x: int, y: int| 0 <= x < y < dv.len() implies lex_lt(
            #[trigger] dv[y],
            #[trigger] dv[x],
        ) by {
            if y < j {
                assert(lex_lt(dv0[y], dv0[x]));
            } else if y == j {
                assert(lex_lt(pm, dv0[x]));
            } else {
                if x < j {
                    assert(lex_lt(dv0[y - 1], dv0[x]));
                } else if x == j {
                    assert(lex_lt(dv0[j as int], pm));
                    if y - 1 > j {
                        lemma_lex_lt_trans(dv0[y - 1], dv0[j as int], pm);
                    }
                } else {
                    assert(lex_lt(dv0[y - 1], dv0[x - 1]));
                }
            }
        }
        assert forall|x: Seq<char>| dv.contains(x) <==> dv0.contains(x) || x == pm by {
            if dv.contains(x) {
                let w = choose|w: int| 0 <= w < dv.len() && dv[w] == x;
                if w < j {
                    assert(dv0[w] == x);
                } else if w > j {
                    assert(dv0[w - 1] == x);
                }
            }
            if dv0.contains(x) {
                let w = choose|w: int| 0 <= w < dv0.len() && dv0[w] == x;
                if w < j {
                    assert(dv[w] == x);
                } else {
                    assert(dv[w + 1] == x);
                }
            }
            if x == pm {
                assert(dv[j as int] == x);
            }
        }
    }
}

/// The distinct year keys of the summaries, newest year first.
fn distinct_years_desc(sums: &Vec<PostSummary>) -> (r: Vec<String>)
    ensures
        years_sorted_desc(r.deep_view()),
        forall|y: Seq<char>|
            r.deep_view().contains(y) <==> year_in_summaries(sums.deep_view(), y),
{
    let ghost dv = sums.deep_view();
    let mut r: Vec<String> = Vec::new();
    let n = sums.len();
    let mut i: usize = 0;
    proof {
        assert(r.deep_view() =~~= Seq::<Seq<char>>::empty());
    }
    while i < n
        invariant
            i <= n,
            n == sums@.len(),
            dv == sums.deep_view(),
            dv.len() == n,
            years_sorted_desc(r.deep_view()),
            forall|y: Seq<char>|
                r.deep_view().contains(y) <==> year_in_summaries(#[trigger] dv.take(i as int), y),
        decreases n - i,
    {
        let y = year_string(sums[i].metadata.date.as_str());
        proof {
            assert(dv[i as int] == sums@[i as int]@);
            assert(y@ == year_key(dv[i as int].metadata.date));
        }
        insert_year(&mut r, y);
        proof {
            assert forall|x: Seq<char>|
                r.deep_view().contains(x) <==> year_in_summaries(#[trigger] dv.take(i + 1), x) by {
                if year_in_summaries(dv.take(i as int), x) {
                    let w = choose|w: int|
                        0 <= w < i && year_key(#[trigger] dv.take(i as int)[w].metadata.date) == x;
                    assert(year_key(dv.take(i + 1)[w].metadata.date) == x);
                }
                if x == year_key(dv[i as int].metadata.date) {
                    assert(year_key(dv.take(i + 1)[i as int].metadata.date) == x);
                }
                if year_in_summaries(dv.take(i + 1), x) {
                    let w = choose|w: int|
                        0 <= w < i + 1 && year_key(#[trigger] dv.take(i + 1)[w].metadata.date) == x;
                    if w < i {
                        assert(year_key(dv.take(i as int)[w].metadata.date) == x);
                    } else {
                        assert(x == year_key(dv[i as int].metadata.date));
                    }
                }
            }
        }
        i += 1;
    }
    proof {
        assert(dv.take(n as int) =~= dv);
    }
    r
}

/// Filtering distributes over appending one summary.
proof fn lemma_filter_push_summary(
    s: Seq<SummaryModel>,
    x: SummaryModel,
    pred: spec_fn(SummaryModel) -> bool,
)
    ensures
        s.push(x).filter(pred) == if pred(x) {
            s.filter(pred).push(x)
        } else {
            s.filter(pred)
        },
{
    reveal(Seq::filter);
    assert(s.push(x).drop_last() =~= s);
    assert(s.push(x).last() == x);
}

/// The summaries whose date falls in the year, in order.
pub open spec fn filter_by_year(ss: Seq<SummaryModel>, y: Seq<char>) -> Seq<SummaryModel> {
    ss.filter(|s: SummaryModel| year_key(s.metadata.date) == y)
}

/// The summaries whose date falls in the year, in order.
fn summaries_of_year(sums: &Vec<PostSummary>, year: &str) -> (r: Vec<PostSummary>)
    ensures
        r.deep_view() == filter_by_year(sums.deep_view(), year@),
{
    let ghost dv = sums.deep_view();
    let ghost pred = (|s: SummaryModel| year_key(s.metadata.date) == year@);
    let mut r: Vec<PostSummary> = Vec::new();
    let n = sums.len();
    let mut i: usize = 0;
    proof {
        assert(dv.take(0) =~= Seq::<SummaryModel>::empty());
        assert(Seq::<SummaryModel>::empty().filter(pred) == Seq::<SummaryModel>::empty()) by {
            reveal(Seq::filter);
        }
        assert(r.deep_view() =~= Seq::<SummaryModel>::empty());
    }
    while i < n
        invariant
            i <= n,
            n == sums@.len(),
            dv == sums.deep_view(),
            dv.len() == n,
            pred == (|s: SummaryModel| year_key(s.metadata.date) == year@),
            r.deep_view() == dv.take(i as int).filter(pred),
        decreases n - i,
    {
        let ghost pre = r.deep_view();
        proof {
            assert(dv[i as int] == sums@[i as int]@);
            assert(dv.take(i + 1) =~= dv.take(i as int).push(dv[i as int]));
            lemma_filter_push_summary(dv.take(i as int), dv[i as int], pred);
        }
        let y = year_string(sums[i].metadata.date.as_str());
        if str_eq(y.as_str(), year) {
            r.push(clone_summary(&sums[i]));
            proof {
                assert(r.deep_view() =~= pre.push(dv[i as int]));
            }
        }
        i += 1;
    }
    proof {
        assert(dv.take(n as int) =~= dv);
    }
    r
}

/// Groups post summaries by the year of their date: one entry per distinct
/// year, newest year first, each holding that year's summaries in input
/// order.
pub fn create_posts_by_year(sums: &Vec<PostSummary>) -> (r: Vec<(String, Vec<PostSummary>)>)
    ensures
        years_sorted_desc(r.deep_view().map_values(|e: (Seq<char>, Seq<SummaryModel>)| e.0)),
        forall|k: int|
            0 <= k < r.deep_view().len() ==> #[trigger] r.deep_view()[k].1 == filter_by_year(
                sums.deep_view(),
                r.deep_view()[k].0,
            ),
        forall|y: Seq<char>|
            r.deep_view().map_values(|e: (Seq<char>, Seq<SummaryModel>)| e.0).contains(y)
                <==> year_in_summaries(sums.deep_view(), y),
{
    let years = distinct_years_desc(sums);
    let ghost ydv = years.deep_view();
    let mut r: Vec<(String, Vec<PostSummary>)> = Vec::new();
    let m = years.len();
    let mut j: usize = 0;
    while j < m
        invariant
            j <= m,
            m == years@.len(),
            ydv == years.deep_view(),
            ydv.len() == m,
            years_sorted_desc(ydv),
            forall|y: Seq<char>|
                ydv.contains(y) <==> year_in_summaries(sums.deep_view(), y),
            r.deep_view().len() == j,
            forall|k: int|
                0 <= k < j ==> #[trigger] r.deep_view()[k].0 == ydv[k],
            forall|k: int|
                0 <= k < j ==> #[trigger] r.deep_view()[k].1 == filter_by_year(
                    sums.deep_view(),
                    ydv[k],
                ),
        decreases m - j,
    {
        let ghost pre = r.deep_view();
        let y = years[j].clone();
        proof {
            assert(y@ == ydv[j as int]);
        }
        let group = summaries_of_year(sums, y.as_str());
        let ghost yv = y@;
        let ghost gdv = group.deep_view();
        proof {
            assert(gdv == filter_by_year(sums.deep_view(), ydv[j as int]));
        }
        r.push((y, group));
        proof {
            assert(r.deep_view().len() == j + 1);
            assert(r.deep_view()[j as int].0 == yv);
            assert(r.deep_view()[j as int].1 == gdv);
            assert forall|k: int|
                0 <= k < j + 1 implies #[trigger] r.deep_view()[k].0 == ydv[k] by {
                if k < j {
                    assert(r.deep_view()[k] == pre[k]);
                    assert(pre[k].0 == ydv[k]);
                }
            }
            assert forall|k: int|
                0 <= k < j + 1 implies #[trigger] r.deep_view()[k].1 == filter_by_year(
                sums.deep_view(),
                ydv[k],
            ) by {
                if k < j {
                    assert(r.deep_view()[k] == pre[k]);
                    assert(pre[k].1 == filter_by_year(sums.deep_view(), ydv[k]));
                }
            }
        }
        j += 1;
    }
    proof {
        let keys = r.deep_view().map_values(|e: (Seq<char>, Seq<SummaryModel>)| e.0);
        assert(keys =~= ydv);
    }
    r
}

/// The display name of a zero-padded month number, as the archive shows it.
pub open spec fn month_full_name(s: Seq<char>) -> Seq<char> {
    if s == "01"@ {
        "January"@
    } else if s == "02"@ {
        "February"@
    } else if s == "03"@ {
        "March"@
    } else if s == "04"@ {
        "April"@
    } else if s == "05"@ {
        "May"@
    } else if s == "06"@ {
        "June"@
    } else if s == "07"@ {
        "July"@
    } else if s == "08"@ {
        "August"@
    } else if s == "09"@ {
        "September"@
    } else if s == "10"@ {
        "October"@
    } else if s == "11"@ {
        "November"@
    } else if s == "12"@ {
        "December"@
    } else {
        "Unknown"@
    }
}

/// The display name of a zero-padded month number; any other string is
/// `Unknown`.
pub fn get_month_name(month_num: &str) -> (r: &'static str)
    ensures
        r@ == month_full_name(month_num@),
{
    if str_eq(month_num, "01") {
        "January"
    } else if str_eq(month_num, "02") {
        "February"
    } else if str_eq(month_num, "03") {
        "March"
    } else if str_eq(month_num, "04") {
        "April"
    } else if str_eq(month_num, "05") {
        "May"
    } else if str_eq(month_num, "06") {
        "June"
    } else if str_eq(month_num, "07") {
        "July"
    } else if str_eq(month_num, "08") {
        "August"
    } else if str_eq(month_num, "09") {
        "September"
    } else if str_eq(month_num, "10") {
        "October"
    } else if str_eq(month_num, "11") {
        "November"
    } else if str_eq(month_num, "12") {
        "December"
    } else {
        "Unknown"
    }
}

} // verus!
