//! Front-matter handling: splitting a document into its metadata block and
//! body at the first two delimiter occurrences, and decoding the metadata
//! block into a `PostMetadata` record.
use crate::posts::MetaModel;
use crate::posts::PostMetadata;
use crate::text::str_to_chars;
use crate::text::find_sub;
use crate::text::occurs_at;
use crate::text::subvec;
use crate::text::trim_chars;
use crate::text::trim_spec;
use vstd::prelude::*;
use vstd::string::StringExecFns;

verus! {

/// The structural delimiter between front matter and body.
pub open spec fn delim() -> Seq<char> {
    "---"@
}

/// The least position at or after `from` where `pat` occurs in `s`, if any.
pub open spec fn first_occ(s: Seq<char>, pat: Seq<char>, from: int) -> Option<int>
    decreases s.len() - from,
    via first_occ_dec
{
    if from < 0 || from + pat.len() > s.len() {
        None
    } else if occurs_at(s, pat, from) {
        Some(from)
    } else {
        first_occ(s, pat, from + 1)
    }
}

#[via_fn]
proof fn first_occ_dec(s: Seq<char>, pat: Seq<char>, from: int) {
    if !(from < 0 || from + pat.len() > s.len()) && !occurs_at(s, pat, from) {
        assert(pat.len() != 0) by {
            if pat.len() == 0 {
                assert(s.subrange(from, from + pat.len()) =~= pat);
            }
        }
    }
}

/// `first_occ` is characterised by the conditions that `find_sub` establishes.
pub proof fn lemma_first_occ_some(s: Seq<char>, pat: Seq<char>, from: int, i: int)
    requires
        0 <= from <= i,
        occurs_at(s, pat, i),
        forall|j: int| from <= j < i ==> !occurs_at(s, pat, j),
    ensures
        first_occ(s, pat, from) == Some(i),
    decreases i - from,
{
    if from == i {
    } else {
        lemma_first_occ_some(s, pat, from + 1, i);
    }
}

pub proof fn lemma_first_occ_none(s: Seq<char>, pat: Seq<char>, from: int)
    requires
        0 <= from,
        forall|j: int| from <= j ==> !occurs_at(s, pat, j),
    ensures
        first_occ(s, pat, from) == None::<int>,
    decreases s.len() - from,
{
    if from + pat.len() > s.len() {
    } else {
        assert(pat.len() != 0) by {
            if pat.len() == 0 {
                assert(s.subrange(from, from + pat.len()) =~= pat);
            }
        }
        lemma_first_occ_none(s, pat, from + 1);
    }
}

/// How a document splits at its first two delimiters: `None` when fewer than
/// two occur, else the metadata segment between them and the body after the
/// second, both trimmed of surrounding white space. Later delimiter
/// occurrences are literal body content.
pub open spec fn doc_split(s: Seq<char>) -> Option<(Seq<char>, Seq<char>)> {
    let d = delim();
    match first_occ(s, d, 0) {
        None => None,
        Some(a) => match first_occ(s, d, a + d.len()) {
            None => None,
            Some(b) => Some(
                (
                    trim_spec(s.subrange(a + d.len(), b)),
                    trim_spec(s.skip(b + d.len())),
                ),
            ),
        },
    }
}

/// Splits a document into its trimmed metadata segment and trimmed body, or
/// returns `None` when no two delimiters are present.
pub fn split_document(v: &Vec<char>) -> (r: Option<(Vec<char>, Vec<char>)>)
    ensures
        match r {
            Some(p) => doc_split(v@) == Some((p.0@, p.1@)),
            None => doc_split(v@) is None,
        },
{
    let n = v.len();
    let d = str_to_chars("---");
    proof {
        reveal_strlit("---");
        assert(d@.len() == 3);
    }
    let a = match find_sub(v, &d, 0) {
        Some(a) => a,
        None => {
            proof {
                lemma_first_occ_none(v@, d@, 0);
            }
            return None;
        },
    };
    proof {
        lemma_first_occ_some(v@, d@, 0, a as int);
    }
    let b = match find_sub(v, &d, a + 3) {
        Some(b) => b,
        None => {
            proof {
                lemma_first_occ_none(v@, d@, a + 3);
            }
            return None;
        },
    };
    proof {
        lemma_first_occ_some(v@, d@, a + 3, b as int);
    }
    let meta = trim_chars(&subvec(v, a + 3, b));
    let body = trim_chars(&subvec(v, b + 3, v.len()));
    proof {
        assert(v@.subrange(b + 3, v@.len() as int) =~= v@.skip(b + 3));
    }
    Some((meta, body))
}

/// Whether a text parses as a YAML document; named for the contracts of the
/// decoder, decided by `serde_yaml`.
pub uninterp spec fn yaml_ok(s: Seq<char>) -> bool;

/// The string value at a top-level key of the parsed document, if the text
/// parses and the key holds a string; decided by `serde_yaml`.
pub uninterp spec fn yaml_str_field(s: Seq<char>, key: Seq<char>) -> Option<Seq<char>>;

/// The sequence-of-strings value at a top-level key of the parsed document,
/// if the text parses and the key holds such a sequence; decided by
/// `serde_yaml`.
pub uninterp spec fn yaml_str_list_field(s: Seq<char>, key: Seq<char>) -> Option<Seq<Seq<char>>>;

/// Relies on `serde_yaml::from_str::<Value>`: whether a text parses as YAML
/// is a function of the text alone; on failure the error's rendered message
/// is returned.
#[verifier::external_body]
fn yaml_check(s: &str) -> (r: Result<(), String>)
    ensures
        r is Ok <==> yaml_ok(s@),
{
    match serde_yaml::from_str::<serde_yaml::Value>(s) {
        Ok(_) => Ok(()),
        Err(e) => Err(e.to_string()),
    }
}

/// Relies on `serde_yaml::from_str::<Value>`, `Value::get` and
/// `Value::as_str`: the string at a top-level key is a function of the text
/// and the key alone.
#[verifier::external_body]
fn yaml_get_str(s: &str, key: &str) -> (r: Option<String>)
    ensures
        r.deep_view() == yaml_str_field(s@, key@),
{
    let v: serde_yaml::Value = match serde_yaml::from_str(s) {
        Ok(v) => v,
        Err(_) => return None,
    };
    v.get(key).and_then(|x| x.as_str()).map(|t| t.to_string())
}

/// Relies on `serde_yaml::from_str::<Value>`, `Value::get`,
/// `Value::as_sequence` and `Value::as_str`: the sequence of strings at a
/// top-level key is a function of the text and the key alone; `None` when
/// the key is absent or any element is not a string.
#[verifier::external_body]
fn yaml_get_str_list(s: &str, key: &str) -> (r: Option<Vec<String>>)
    ensures
        r.deep_view() == yaml_str_list_field(s@, key@),
{
    let v: serde_yaml::Value = match serde_yaml::from_str(s) {
        Ok(v) => v,
        Err(_) => return None,
    };
    let items = match v.get(key).and_then(|x| x.as_sequence()) {
        Some(items) => items,
        None => return None,
    };
    items.iter().map(|x| x.as_str().map(|t| t.to_string())).collect()
}

/// Why a metadata block failed to decode: the text was not a YAML document
/// (with the underlying parser message), or a required key was missing or
/// held a value of the wrong type.
#[derive(Debug, Clone, PartialEq, Eq)]
pub enum MetaError {
    Syntax(String),
    MissingField(String),
}

impl MetaError {
    /// A rendering of the error for logs.
    pub fn message(&self) -> (r: String)
        ensures
            r@ == self.message_spec(),
    {
        let mut m = String::new();
        match self {
            MetaError::Syntax(e) => {
                m.append("failed to parse front matter: ");
                m.append(e.as_str());
            },
            MetaError::MissingField(f) => {
                m.append("missing or mistyped front matter key: ");
                m.append(f.as_str());
            },
        }
        m
    }

    /// The rendered message of the error.
    pub open spec fn message_spec(&self) -> Seq<char> {
        match self {
            MetaError::Syntax(e) => "failed to parse front matter: "@ + e@,
            MetaError::MissingField(f) => "missing or mistyped front matter key: "@ + f@,
        }
    }
}

/// Whether the metadata block decodes: it parses as YAML and the four
/// required keys hold values of the required types.
pub open spec fn meta_decode_ok(s: Seq<char>) -> bool {
    &&& yaml_ok(s)
    &&& yaml_str_field(s, "title"@) is Some
    &&& yaml_str_field(s, "date"@) is Some
    &&& yaml_str_list_field(s, "tags"@) is Some
    &&& yaml_str_field(s, "description"@) is Some
}

/// The decoded metadata of a block that decodes.
pub open spec fn meta_model_of(s: Seq<char>) -> MetaModel
    recommends
        meta_decode_ok(s),
{
    MetaModel {
        title: yaml_str_field(s, "title"@)->Some_0,
        date: yaml_str_field(s, "date"@)->Some_0,
        tags: yaml_str_list_field(s, "tags"@)->Some_0,
        description: yaml_str_field(s, "description"@)->Some_0,
    }
}

/// The first of the four required keys that fails to decode, for blocks
/// that parse but do not decode.
pub open spec fn first_missing_key(s: Seq<char>) -> Seq<char> {
    if yaml_str_field(s, "title"@) is None {
        "title"@
    } else if yaml_str_field(s, "date"@) is None {
        "date"@
    } else if yaml_str_list_field(s, "tags"@) is None {
        "tags"@
    } else {
        "description"@
    }
}

/// Decodes a metadata block into a `PostMetadata`: every required key must
/// hold a value of its required type, and any failure says which key (or
/// that the block did not parse at all).
pub fn decode_metadata(s: &str) -> (r: Result<PostMetadata, MetaError>)
    ensures
        r is Ok <==> meta_decode_ok(s@),
        r matches Ok(m) ==> m@ == meta_model_of(s@),
        r matches Err(MetaError::Syntax(_)) <==> !yaml_ok(s@),
        r matches Err(MetaError::MissingField(f)) ==> yaml_ok(s@) && f@ == first_missing_key(s@),
{
    if let Err(e) = yaml_check(s) {
        return Err(MetaError::Syntax(e));
    }
    let title = match yaml_get_str(s, "title") {
        Some(t) => t,
        None => {
            return Err(MetaError::MissingField(String::from_str("title")));
        },
    };
    let date = match yaml_get_str(s, "date") {
        Some(t) => t,
        None => {
            return Err(MetaError::MissingField(String::from_str("date")));
        },
    };
    let tags = match yaml_get_str_list(s, "tags") {
        Some(t) => t,
        None => {
            return Err(MetaError::MissingField(String::from_str("tags")));
        },
    };
    let description = match yaml_get_str(s, "description") {
        Some(t) => t,
        None => {
            return Err(MetaError::MissingField(String::from_str("description")));
        },
    };
    Ok(PostMetadata { title, date, tags, description })
}

/// The canonical serialisation that `encode_metadata` produces.
pub open spec fn encode_meta_spec(m: MetaModel) -> Seq<char> {
    "title: "@ + m.title + "\ndate: "@ + m.date + "\ndescription: "@ + m.description + "\ntags:"@
        + encode_tags_spec(m.tags) + "\n"@
}

/// The serialised tail for the tag list: a block sequence, or an inline
/// empty sequence when there are no tags.
pub open spec fn encode_tags_spec(tags: Seq<Seq<char>>) -> Seq<char>
    decreases tags.len(),
{
    if tags.len() == 0 {
        " []"@
    } else {
        "\n- "@ + tags[0] + encode_tags_spec_rest(tags.skip(1))
    }
}

pub open spec fn encode_tags_spec_rest(tags: Seq<Seq<char>>) -> Seq<char>
    decreases tags.len(),
{
    if tags.len() == 0 {
        Seq::empty()
    } else {
        "\n- "@ + tags[0] + encode_tags_spec_rest(tags.skip(1))
    }
}

/// Serialises a metadata record back into a metadata block. Plain scalar
/// values (no quoting) are assumed; decoding the result yields the record
/// again for such values.
pub fn encode_metadata(m: &PostMetadata) -> (r: String)
    ensures
        r@ == encode_meta_spec(m@),
{
    let mut out = String::new();
    out.append("title: ");
    out.append(m.title.as_str());
    out.append("\ndate: ");
    out.append(m.date.as_str());
    out.append("\ndescription: ");
    out.append(m.description.as_str());
    out.append("\ntags:");
    let n = m.tags.len();
    if n == 0 {
        out.append(" []");
        proof {
            assert(m@.tags.len() == 0);
        }
    } else {
        let mut i: usize = 0;
        let ghost head = "title: "@ + m@.title + "\ndate: "@ + m@.date + "\ndescription: "@
            + m@.description + "\ntags:"@;
        while i < n
            invariant
                0 < n == m.tags@.len(),
                i <= n,
                i > 0 ==> out@ == head + "\n- "@ + m@.tags[0] + enc_prefix(m@.tags, 1, i as int),
                i == 0 ==> out@ == head,
            decreases n - i,
        {
            out.append("\n- ");
            out.append(m.tags[i].as_str());
            proof {
                if i == 0 {
                    assert(head + "\n- "@ + m@.tags[0] + enc_prefix(m@.tags, 1, 1) =~= head
                        + "\n- "@ + m@.tags[0]);
                } else {
                    lemma_enc_prefix_snoc(m@.tags, 1, i as int);
                    assert(head + "\n- "@ + m@.tags[0] + enc_prefix(m@.tags, 1, i + 1) =~= (head
                        + "\n- "@ + m@.tags[0] + enc_prefix(m@.tags, 1, i as int)) + "\n- "@
                        + m@.tags[i as int]);
                }
            }
            i += 1;
        }
        proof {
            lemma_enc_prefix_rest(m@.tags, 1);
            assert(encode_tags_spec(m@.tags) == "\n- "@ + m@.tags[0] + encode_tags_spec_rest(
                m@.tags.skip(1),
            ));
        }
    }
    out.append("\n");
    proof {
        assert(out@ =~= encode_meta_spec(m@));
    }
    out
}

/// The serialised block-sequence items of `tags[from..to]`, one `"\n- "`
/// item per tag.
pub open spec fn enc_prefix(tags: Seq<Seq<char>>, from: int, to: int) -> Seq<char>
    decreases to - from,
{
    if from >= to {
        Seq::empty()
    } else {
        enc_prefix(tags, from, to - 1) + "\n- "@ + tags[to - 1]
    }
}

proof fn lemma_enc_prefix_snoc(tags: Seq<Seq<char>>, from: int, to: int)
    requires
        from <= to,
    ensures
        enc_prefix(tags, from, to + 1) == enc_prefix(tags, from, to) + "\n- "@ + tags[to],
{
}

proof fn lemma_enc_prefix_rest(tags: Seq<Seq<char>>, from: int)
    requires
        0 <= from <= tags.len(),
    ensures
        encode_tags_spec_rest(tags.skip(from)) == enc_prefix(tags, from, tags.len() as int),
    decreases tags.len() - from,
{
    if from == tags.len() {
    } else {
        lemma_enc_prefix_rest(tags, from + 1);
        assert(tags.skip(from).skip(1) =~= tags.skip(from + 1));
        assert(tags.skip(from)[0] == tags[from]);
        lemma_enc_prefix_shift(tags, from, tags.len() as int);
    }
}

proof fn lemma_enc_prefix_shift(tags: Seq<Seq<char>>, from: int, to: int)
    requires
        0 <= from < to,
    ensures
        "\n- "@ + tags[from] + enc_prefix(tags, from + 1, to) == enc_prefix(tags, from, to),
    decreases to - from,
{
    if from + 1 == to {
        assert(enc_prefix(tags, from + 1, to) == Seq::<char>::empty());
        assert(("\n- "@ + tags[from] + Seq::<char>::empty()) =~= ("\n- "@ + tags[from]));
        assert(enc_prefix(tags, from, to) == enc_prefix(tags, from, from) + "\n- "@ + tags[from]);
        assert(enc_prefix(tags, from, from) + "\n- "@ + tags[from] =~= "\n- "@ + tags[from]);
    } else {
        lemma_enc_prefix_shift(tags, from, to - 1);
        assert(("\n- "@ + tags[from] + (enc_prefix(tags, from + 1, to - 1) + "\n- "@ + tags[to
            - 1])) =~= (("\n- "@ + tags[from] + enc_prefix(tags, from + 1, to - 1)) + "\n- "@
            + tags[to - 1]));
    }
}

} // verus!
