//! The crate's model of a URL a policy query asks about.
//!
//! The policy logic reads three things from a URL: its origin (scheme, host
//! and port, serialized), its percent-encoded path, and its raw query string.
//! A caller that starts from a full URL value hands those three parts over;
//! query canonicalization hands back a possibly changed query.

use vstd::prelude::*;

verus! {

/// The mathematical form of a URL: its origin serialization, its
/// percent-encoded path, and its raw query string, if any.
#[verifier::ext_equal]
pub struct SpecUrl {
    pub origin: Seq<char>,
    pub path: Seq<char>,
    pub query: Option<Seq<char>>,
}

/// The view of an optional query string.
pub open spec fn query_view(q: Option<String>) -> Option<Seq<char>> {
    match q {
        Some(s) => Some(s@),
        None => None,
    }
}

/// A URL, held as the plain parts the policy logic reads.
#[derive(Debug)]
pub struct RequestUrl {
    pub origin: String,
    pub path: String,
    pub query: Option<String>,
}

impl View for RequestUrl {
    type V = SpecUrl;

    open spec fn view(&self) -> SpecUrl {
        SpecUrl { origin: self.origin@, path: self.path@, query: query_view(self.query) }
    }
}

/// The path-plus-query part of a URL: what a rule pattern is matched against,
/// before percent-decoding.
pub open spec fn path_and_query(u: SpecUrl) -> Seq<char> {
    match u.query {
        Some(q) => u.path + seq!['?'] + q,
        None => u.path,
    }
}

impl RequestUrl {
    /// Assemble a URL from its origin serialization (such as
    /// `https://example.com`), its percent-encoded path (such as `/a%20b`),
    /// and its raw query string without the leading `?`, if there is one.
    pub fn new(origin: String, path: String, query: Option<String>) -> (r: RequestUrl)
        ensures
            r@ == (SpecUrl { origin: origin@, path: path@, query: query_view(query) }),
    {
        RequestUrl { origin, path, query }
    }

    /// The origin serialization.
    pub fn get_origin(&self) -> (r: &String)
        ensures
            r@ == self@.origin,
    {
        &self.origin
    }

    /// The percent-encoded path.
    pub fn get_path(&self) -> (r: &String)
        ensures
            r@ == self@.path,
    {
        &self.path
    }

    /// The raw query string, if any.
    pub fn get_query(&self) -> (r: &Option<String>)
        ensures
            query_view(*r) == self@.query,
    {
        &self.query
    }
}

} // verus!
