//! The crate's boundary with its outside collaborators.
//!
//! Every call into the `url` and `percent-encoding` crates, and into the two
//! std routines that vstd gives no specification for, goes through exactly one
//! item of this module.  Each wrapper's contract names what the call returns;
//! results that would take pages to state exactly (Unicode lowercasing,
//! percent-decoding, URL normalization, query-pair encoding) are given
//! uninterpreted names, and the rest of the crate is verified against those
//! names.

use vstd::prelude::*;

verus! {

/// The percent-decoding of a piece of text: every `%XX` hex escape becomes
/// one byte, and the resulting bytes are read back as text, with invalid
/// sequences replaced.
pub uninterp spec fn percent_decoded(s: Seq<char>) -> Seq<char>;

/// Relies on `percent_encoding::percent_decode` followed by its
/// `PercentDecode::decode_utf8_lossy`: the result is a function of the input
/// text alone.  Two plain facts of the decoder are stated beside the name:
/// empty text decodes to empty, and text holding no `%` passes through
/// unchanged (only a `%` escape can alter bytes).
#[verifier::external_body]
pub fn percent_decode_text(s: &str) -> (r: String)
    ensures
        r@ == percent_decoded(s@),
        s@.len() == 0 ==> r@.len() == 0,
        (forall|i: int| 0 <= i < s@.len() ==> s@[i] != '%') ==> r@ == s@,
{
    percent_encoding::percent_decode(s.as_bytes()).decode_utf8_lossy().into_owned()
}

/// The Unicode lowercasing of a piece of text.
pub uninterp spec fn lowercased(s: Seq<char>) -> Seq<char>;

/// Relies on `str::to_lowercase` of std: the result is a function of the
/// input text alone.
#[verifier::external_body]
pub fn lowercase_text(s: &str) -> (r: String)
    ensures
        r@ == lowercased(s@),
{
    s.to_lowercase()
}

/// What parsing a piece of text as an absolute URL yields: the normalized
/// serialization of the URL when the text is a valid absolute URL, nothing
/// otherwise.
pub uninterp spec fn parsed_url(s: Seq<char>) -> Option<Seq<char>>;

/// Relies on `url::Url::parse`: whether it succeeds, and the serialization
/// of the URL it returns, are functions of the input text alone.
#[verifier::external_body]
pub fn parse_absolute_url(s: &str) -> (r: Option<String>)
    ensures
        match r {
            Some(u) => parsed_url(s@) == Some(u@),
            None => parsed_url(s@) is None,
        },
{
    match url::Url::parse(s) {
        Ok(u) => Some(String::from(u)),
        Err(_) => None,
    }
}

/// The views of a list of key/value string pairs.
pub open spec fn pairs_view(s: Seq<(String, String)>) -> Seq<(Seq<char>, Seq<char>)> {
    s.map_values(|p: (String, String)| (p.0@, p.1@))
}

/// The key/value pairs encoded in a query string under the
/// `application/x-www-form-urlencoded` syntax.
pub uninterp spec fn query_pairs(s: Seq<char>) -> Seq<(Seq<char>, Seq<char>)>;

/// Relies on `url::form_urlencoded::parse`: the decoded pair list is a
/// function of the query text alone.
#[verifier::external_body]
pub fn parse_query_pairs(q: &str) -> (r: Vec<(String, String)>)
    ensures
        pairs_view(r@) == query_pairs(q@),
{
    url::form_urlencoded::parse(q.as_bytes()).into_owned().collect()
}

/// The `application/x-www-form-urlencoded` serialization of a list of
/// key/value pairs.
pub uninterp spec fn encoded_query(pairs: Seq<(Seq<char>, Seq<char>)>) -> Seq<char>;

/// Relies on `url::form_urlencoded::Serializer`: the serialization is a
/// function of the pairs alone, and parsing it back yields exactly the pairs
/// that were encoded, since the serializer escapes every delimiter byte.
#[verifier::external_body]
pub fn encode_query_pairs(pairs: &Vec<(String, String)>) -> (r: String)
    ensures
        r@ == encoded_query(pairs_view(pairs@)),
        query_pairs(r@) == pairs_view(pairs@),
{
    let mut serializer = url::form_urlencoded::Serializer::new(String::new());
    serializer.extend_pairs(pairs.iter().map(|p| (&p.0, &p.1)));
    serializer.finish()
}

#[verifier::external_type_specification]
#[verifier::external_body]
pub struct ExSystemTime(std::time::SystemTime);

/// Relies on `std::time::SystemTime::now`; nothing is assumed of the value.
#[verifier::external_body]
pub fn current_time() -> std::time::SystemTime {
    std::time::SystemTime::now()
}

} // verus!
