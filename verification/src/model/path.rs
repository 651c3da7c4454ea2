//! The decoded path-plus-query text a rule pattern is matched against.

use vstd::prelude::*;
use crate::foreign::{percent_decoded, percent_decode_text};
use crate::model::request_url::{RequestUrl, SpecUrl, path_and_query};

verus! {

/// A percent-decoded piece of a URL, read as `/` when it comes out empty.
pub open spec fn decoded_of(s: Seq<char>) -> Seq<char> {
    let d = percent_decoded(s);
    if d.len() == 0 {
        seq!['/']
    } else {
        d
    }
}

/// The subject a pattern is matched against for a given URL: the
/// percent-decoded path-plus-query, or `/` when that comes out empty.
pub open spec fn decoded_subject(u: SpecUrl) -> Seq<char> {
    decoded_of(path_and_query(u))
}

/// A decoded path-plus-query.
#[derive(Debug)]
pub struct Path {
    pub text: String,
}

impl View for Path {
    type V = Seq<char>;

    open spec fn view(&self) -> Seq<char> {
        self.text@
    }
}

impl Path {
    /// Extract and percent-decode the path-plus-query of a URL.
    pub fn from_url(url: &RequestUrl) -> (r: Path)
        ensures
            r@ == decoded_subject(url@),
    {
        let mut raw = url.get_path().clone();
        match url.get_query() {
            Some(q) => {
                raw.push('?');
                raw.append(q.as_str());
                assert(raw@ =~= path_and_query(url@));
            },
            None => {
                assert(raw@ =~= path_and_query(url@));
            },
        }
        let decoded = percent_decode_text(raw.as_str());
        if decoded.unicode_len() == 0 {
            let text = String::from_str("/");
            proof {
                reveal_strlit("/");
                assert(text@ =~= seq!['/']);
            }
            Path { text }
        } else {
            Path { text: decoded }
        }
    }

    /// Percent-decode one already-extracted URL part, such as the path alone.
    pub(crate) fn from_encoded(part: &str) -> (r: Path)
        ensures
            r@ == decoded_of(part@),
    {
        let decoded = percent_decode_text(part);
        if decoded.unicode_len() == 0 {
            let text = String::from_str("/");
            proof {
                reveal_strlit("/");
                assert(text@ =~= seq!['/']);
            }
            Path { text }
        } else {
            Path { text: decoded }
        }
    }

    /// The decoded text itself.
    pub fn as_str(&self) -> (r: &str)
        ensures
            r@ == self@,
    {
        self.text.as_str()
    }
}

} // verus!
