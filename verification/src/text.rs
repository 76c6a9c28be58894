//! Character-level text utilities: conversions between `&str` and `Vec<char>`,
//! whitespace trimming, substring search, and line splitting with the same
//! semantics as `str::lines`.
use vstd::prelude::*;
use vstd::string::StrSliceExecFns;

verus! {

/// The Unicode `White_Space` code points, as `char::is_whitespace` recognises
/// them.
pub open spec fn is_ws(c: char) -> bool {
    let u = c as u32;
    (9 <= u && u <= 13) || u == 32 || u == 0x85 || u == 0xA0 || u == 0x1680 || (0x2000 <= u && u
        <= 0x200A) || u == 0x2028 || u == 0x2029 || u == 0x202F || u == 0x205F || u == 0x3000
}

/// Executable mirror of `is_ws`; decides the Unicode `White_Space` property.
pub fn char_is_ws(c: char) -> (r: bool)
    ensures
        r == is_ws(c),
{
    let u = c as u32;
    (9 <= u && u <= 13) || u == 32 || u == 0x85 || u == 0xA0 || u == 0x1680 || (0x2000 <= u && u
        <= 0x200A) || u == 0x2028 || u == 0x2029 || u == 0x202F || u == 0x205F || u == 0x3000
}

/// The characters of `s`, in order.
pub fn str_to_chars(s: &str) -> (r: Vec<char>)
    ensures
        r@ == s@,
{
    let n = s.unicode_len();
    let mut v: Vec<char> = Vec::new();
    let mut i: usize = 0;
    while i < n
        invariant
            i <= n,
            n == s@.len(),
            v@ == s@.take(i as int),
        decreases n - i,
    {
        let c = s.get_char(i);
        v.push(c);
        proof {
            assert(s@.take(i + 1) =~= s@.take(i as int).push(s@[i as int]));
        }
        i += 1;
    }
    proof {
        assert(v@ =~= s@);
    }
    v
}

/// Relies on `String`'s `FromIterator` impl from std: collecting characters
/// yields the string made of exactly those characters, in order.
#[verifier::external_body]
pub(crate) fn chars_to_string(v: &Vec<char>) -> (r: String)
    ensures
        r@ == v@,
{
    v.iter().collect()
}

/// A copy of `v[a..b]`.
pub fn subvec(v: &Vec<char>, a: usize, b: usize) -> (r: Vec<char>)
    requires
        a <= b <= v@.len(),
    ensures
        r@ == v@.subrange(a as int, b as int),
{
    let mut r: Vec<char> = Vec::new();
    let mut i: usize = a;
    while i < b
        invariant
            a <= i <= b <= v@.len(),
            r@ == v@.subrange(a as int, i as int),
        decreases b - i,
    {
        r.push(v[i]);
        proof {
            assert(v@.subrange(a as int, i + 1) =~= v@.subrange(a as int, i as int).push(
                v@[i as int],
            ));
        }
        i += 1;
    }
    r
}

/// `pat` occurs in `s` at position `i`.
pub open spec fn occurs_at(s: Seq<char>, pat: Seq<char>, i: int) -> bool {
    0 <= i && i + pat.len() <= s.len() && s.subrange(i, i + pat.len()) == pat
}

/// `s` begins with `pat`.
pub open spec fn starts_with(s: Seq<char>, pat: Seq<char>) -> bool {
    occurs_at(s, pat, 0)
}

/// `pat` occurs somewhere in `s`.
pub open spec fn contains_sub(s: Seq<char>, pat: Seq<char>) -> bool {
    exists|i: int| occurs_at(s, pat, i)
}

/// Whether `pat` occurs in `s` exactly at position `i`.
fn match_at(v: &Vec<char>, pat: &Vec<char>, i: usize) -> (b: bool)
    requires
        i + pat@.len() <= v@.len(),
    ensures
        b == occurs_at(v@, pat@, i as int),
{
    let n = v.len();
    let m = pat.len();
    let mut k: usize = 0;
    while k < m
        invariant
            k <= m,
            m == pat@.len(),
            n == v@.len(),
            i + m <= n,
            forall|t: int| 0 <= t < k ==> v@[i + t] == pat@[t],
        decreases m - k,
    {
        if v[i + k] != pat[k] {
            proof {
                let sub = v@.subrange(i as int, i + m);
                assert(sub[k as int] == v@[i + k]);
            }
            return false;
        }
        k += 1;
    }
    proof {
        assert(v@.subrange(i as int, i + m) =~= pat@);
    }
    true
}

/// The least position at or after `from` where `pat` occurs in `v`, if any.
pub fn find_sub(v: &Vec<char>, pat: &Vec<char>, from: usize) -> (r: Option<usize>)
    requires
        pat@.len() >= 1,
    ensures
        match r {
            Some(i) => from <= i && occurs_at(v@, pat@, i as int) && forall|j: int|
                from <= j < i ==> !occurs_at(v@, pat@, j),
            None => forall|j: int| from <= j ==> !occurs_at(v@, pat@, j),
        },
{
    let n = v.len();
    let m = pat.len();
    if m > n || from > n - m {
        return None;
    }
    let mut i: usize = from;
    while i <= n - m
        invariant
            from <= i,
            m >= 1,
            m <= n,
            i <= n - m + 1,
            n == v@.len(),
            m == pat@.len(),
            forall|j: int| from <= j < i ==> !occurs_at(v@, pat@, j),
        decreases n - i,
    {
        if match_at(v, pat, i) {
            return Some(i);
        }
        i += 1;
    }
    None
}

/// Whether two strings hold the same characters.
pub fn str_eq(a: &str, b: &str) -> (r: bool)
    ensures
        r == (a@ == b@),
{
    let na = a.unicode_len();
    let nb = b.unicode_len();
    if na != nb {
        return false;
    }
    let mut i: usize = 0;
    while i < na
        invariant
            i <= na,
            na == a@.len(),
            na == b@.len(),
            forall|k: int| 0 <= k < i ==> a@[k] == b@[k],
        decreases na - i,
    {
        if a.get_char(i) != b.get_char(i) {
            return false;
        }
        i += 1;
    }
    proof {
        assert(a@ =~= b@);
    }
    true
}

/// Whether `v` begins with `pat`.
pub fn starts_with_vec(v: &Vec<char>, pat: &Vec<char>) -> (r: bool)
    ensures
        r == starts_with(v@, pat@),
{
    if pat.len() > v.len() {
        false
    } else {
        match_at(v, pat, 0)
    }
}

/// `s` with leading white space removed.
pub open spec fn trim_start_spec(s: Seq<char>) -> Seq<char>
    decreases s.len(),
{
    if s.len() > 0 && is_ws(s[0]) {
        trim_start_spec(s.drop_first())
    } else {
        s
    }
}

/// `s` with trailing white space removed.
pub open spec fn trim_end_spec(s: Seq<char>) -> Seq<char>
    decreases s.len(),
{
    if s.len() > 0 && is_ws(s.last()) {
        trim_end_spec(s.drop_last())
    } else {
        s
    }
}

/// `s` with leading and trailing white space removed, as `str::trim` does.
pub open spec fn trim_spec(s: Seq<char>) -> Seq<char> {
    trim_end_spec(trim_start_spec(s))
}

proof fn lemma_trim_start_skip(s: Seq<char>, a: int)
    requires
        0 <= a <= s.len(),
        forall|k: int| 0 <= k < a ==> is_ws(s[k]),
        a < s.len() ==> !is_ws(s[a]),
    ensures
        trim_start_spec(s) == s.skip(a),
    decreases a,
{
    if a == 0 {
        assert(s.skip(0) =~= s);
    } else {
        let t = s.drop_first();
        assert(forall|k: int| 0 <= k < a - 1 ==> is_ws(t[k]));
        lemma_trim_start_skip(t, a - 1);
        assert(s.skip(a) =~= t.skip(a - 1));
    }
}

proof fn lemma_trim_end_take(s: Seq<char>, b: int)
    requires
        0 <= b <= s.len(),
        forall|k: int| b <= k < s.len() ==> is_ws(s[k]),
        b > 0 ==> !is_ws(s[b - 1]),
    ensures
        trim_end_spec(s) == s.take(b),
    decreases s.len() - b,
{
    if b == s.len() {
        assert(s.take(b) =~= s);
    } else {
        let t = s.drop_last();
        assert(is_ws(s.last()));
        lemma_trim_end_take(t, b);
        assert(t.take(b) =~= s.take(b));
    }
}

/// A copy of `v` with leading and trailing white space removed.
pub fn trim_chars(v: &Vec<char>) -> (r: Vec<char>)
    ensures
        r@ == trim_spec(v@),
{
    let n = v.len();
    let mut a: usize = 0;
    while a < n && char_is_ws(v[a])
        invariant
            a <= n,
            n == v@.len(),
            forall|k: int| 0 <= k < a ==> is_ws(v@[k]),
        decreases n - a,
    {
        a += 1;
    }
    proof {
        lemma_trim_start_skip(v@, a as int);
    }
    let mut b: usize = n;
    while b > a && char_is_ws(v[b - 1])
        invariant
            a <= b <= n,
            n == v@.len(),
            forall|k: int| 0 <= k < a ==> is_ws(v@[k]),
            forall|k: int| b <= k < n ==> is_ws(v@[k]),
        decreases b,
    {
        b -= 1;
    }
    let r = subvec(v, a, b);
    proof {
        let mid = v@.skip(a as int);
        assert(forall|k: int| b - a <= k < mid.len() ==> is_ws(#[trigger] mid[k]));
        assert(b > a ==> !is_ws(mid[b - a - 1]));
        lemma_trim_end_take(mid, b - a);
        assert(mid.take(b - a) =~= v@.subrange(a as int, b as int));
    }
    r
}

/// A line terminated by a newline loses one trailing carriage return, as
/// `str::lines` strips it.
pub open spec fn strip_tail_cr(l: Seq<char>) -> Seq<char> {
    if l.len() > 0 && l.last() == '\r' {
        l.drop_last()
    } else {
        l
    }
}

/// The lines of `s`, with the semantics of `str::lines`: split at `'\n'`,
/// a `'\r'` before the `'\n'` stripped, and no empty final line when the
/// text ends with a terminator.
pub open spec fn lines_spec(s: Seq<char>) -> Seq<Seq<char>>
    decreases s.len(),
    via lines_spec_dec
{
    if s.len() == 0 {
        Seq::empty()
    } else if !s.contains('\n') {
        seq![s]
    } else {
        let i = s.index_of_first('\n')->Some_0;
        seq![strip_tail_cr(s.take(i))] + lines_spec(s.skip(i + 1))
    }
}

#[via_fn]
proof fn lines_spec_dec(s: Seq<char>) {
    if s.len() != 0 && s.contains('\n') {
        s.index_of_first_ensures('\n');
    }
}

/// The least position at or after `from` holding character `c`, if any.
fn find_char(v: &Vec<char>, from: usize, c: char) -> (r: Option<usize>)
    requires
        from <= v@.len(),
    ensures
        match r {
            Some(i) => from <= i < v@.len() && v@[i as int] == c && forall|j: int|
                from <= j < i ==> v@[j] != c,
            None => forall|j: int| from <= j < v@.len() ==> v@[j] != c,
        },
{
    let n = v.len();
    let mut i: usize = from;
    while i < n
        invariant
            from <= i <= n,
            n == v@.len(),
            forall|j: int| from <= j < i ==> v@[j] != c,
        decreases n - i,
    {
        if v[i] == c {
            return Some(i);
        }
        i += 1;
    }
    None
}

/// One strip of a trailing carriage return, on a freshly copied line.
fn strip_cr_exec(mut l: Vec<char>) -> (r: Vec<char>)
    ensures
        r@ == strip_tail_cr(l@),
{
    let n = l.len();
    if n > 0 && l[n - 1] == '\r' {
        l.pop();
    }
    l
}

/// The lines of `v`, as `lines_spec` describes them.
pub fn split_lines(v: &Vec<char>) -> (r: Vec<Vec<char>>)
    ensures
        r.deep_view() == lines_spec(v@),
{
    let n = v.len();
    let mut r: Vec<Vec<char>> = Vec::new();
    let mut pos: usize = 0;
    proof {
        assert(v@.skip(0) =~= v@);
        assert(r.deep_view() + lines_spec(v@.skip(0)) =~= lines_spec(v@));
    }
    while pos < n
        invariant
            pos <= n,
            n == v@.len(),
            r.deep_view() + lines_spec(v@.skip(pos as int)) == lines_spec(v@),
        decreases n - pos,
    {
        let ghost rest = v@.skip(pos as int);
        let ghost pre = r.deep_view();
        match find_char(v, pos, '\n') {
            Some(j) => {
                let line = strip_cr_exec(subvec(v, pos, j));
                proof {
                    assert(rest.len() > 0);
                    assert(rest[j - pos] == '\n');
                    assert(rest.contains('\n'));
                    let fi = rest.index_of_first('\n');
                    rest.index_of_first_ensures('\n');
                    assert(fi is Some);
                    assert(fi->Some_0 == j - pos) by {
                        if fi->Some_0 < j - pos {
                            assert(v@[pos + fi->Some_0] == rest[fi->Some_0]);
                        }
                    }
                    assert(rest.take(j - pos) =~= v@.subrange(pos as int, j as int));
                    assert(rest.skip(j - pos + 1) =~= v@.skip(j + 1));
                    assert(lines_spec(rest) == seq![strip_tail_cr(rest.take(j - pos))]
                        + lines_spec(v@.skip(j + 1)));
                }
                r.push(line);
                pos = j + 1;
                proof {
                    assert(r.deep_view() =~~= pre + seq![line@]);
                    assert(r.deep_view() + lines_spec(v@.skip(pos as int)) =~= lines_spec(v@));
                }
            },
            None => {
                let line = subvec(v, pos, n);
                proof {
                    assert(rest.len() > 0);
                    assert(forall|k: int| 0 <= k < rest.len() ==> rest[k] != '\n') by {
                        assert(forall|k: int| pos <= k < v@.len() ==> #[trigger] v@[k] != '\n');
                        assert(forall|k: int| 0 <= k < rest.len() ==> rest[k] == v@[pos + k]);
                    }
                    assert(!rest.contains('\n'));
                    assert(lines_spec(rest) == seq![rest]);
                    assert(rest =~= v@.subrange(pos as int, n as int));
                }
                r.push(line);
                pos = n;
                proof {
                    assert(r.deep_view() =~~= pre + seq![line@]);
                    assert(v@.skip(n as int).len() == 0);
                    assert(lines_spec(v@.skip(n as int)) == Seq::<Seq<char>>::empty());
                    assert(r.deep_view() + lines_spec(v@.skip(pos as int)) =~= lines_spec(v@));
                }
            },
        }
    }
    proof {
        assert(v@.skip(pos as int).len() == 0);
        assert(lines_spec(v@.skip(pos as int)) == Seq::<Seq<char>>::empty());
        assert(r.deep_view() =~= lines_spec(v@));
    }
    r
}

} // verus!
