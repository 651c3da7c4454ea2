//! The request-rate limit a `Request-Rate` directive sets.

use vstd::prelude::*;

verus! {

/// How often a server may be asked: at most `requests` requests per
/// `seconds` seconds.  The directive `Request-rate: 1/5` yields
/// `RequestRate { requests: 1, seconds: 5 }`.
#[derive(Clone, Copy, Debug, PartialEq, Eq, Structural)]
pub struct RequestRate {
    pub requests: usize,
    pub seconds: usize,
}

} // verus!
