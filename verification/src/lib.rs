//! A robots.txt parser and policy evaluator.
//!
//! The crate parses the robots-exclusion-protocol document format into an
//! in-memory policy model and answers queries against it: whether an agent
//! may fetch a URL, which crawl delay and request rate apply, which sitemaps
//! are declared, and how a URL's query string is canonicalized under
//! `Clean-param` rules.

pub mod chars;
pub mod foreign;
pub mod laws;
pub mod model;
pub mod parser;
pub mod service;

use vstd::prelude::*;

verus! {

/// Character class used when trimming directive lines and splitting
/// `Clean-param` values: the Unicode `White_Space` characters, the same set
/// `str::trim` and `str::split_whitespace` go by.
pub open spec fn is_space_char(c: char) -> bool {
    c == ' ' || c == '\t' || c == '\n' || c == '\r' || c == '\x0b' || c == '\x0c' || c == '\u{85}'
        || c == '\u{a0}' || c == '\u{1680}' || (('\u{2000}' as u32) <= (c as u32) && (c as u32)
        <= ('\u{200a}' as u32)) || c == '\u{2028}' || c == '\u{2029}' || c == '\u{202f}' || c
        == '\u{205f}' || c == '\u{3000}'
}

} // verus!
