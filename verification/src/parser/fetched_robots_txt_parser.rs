//! Parsing a robots.txt document fetched over HTTP, status code included.

use vstd::prelude::*;
use crate::model::fetched_robots_txt::{FetchedRobotsTxt, FetchedRobotsTxtContainer, SpecFetched};
use crate::parser::parse_result::ParseResult;
use crate::parser::robots_txt_parser::{parse as parse_robots_txt, parse_spec, final_document};
use crate::parser::warning::warning_views;

verus! {

/// The HTTP status that closes the policy: authentication demanded.
pub const UNAUTHORIZED: u16 = 401;

/// The HTTP status that closes the policy: access forbidden.
pub const FORBIDDEN: u16 = 403;

/// The HTTP status under which the body is parsed.
pub const OK: u16 = 200;

/// Parse the text of a fetched robots.txt file, honouring the response
/// status: 401 and 403 deny everything, 200 parses the body, and every other
/// status (other errors, redirects) restricts nothing.  The origin must be
/// the one the robots.txt was requested from, before any redirect.
pub fn parse(origin: String, status_code: u16, input: &str) -> (r: ParseResult<FetchedRobotsTxt>)
    ensures
        (status_code == 401 || status_code == 403) ==> r.result@ is Denied && r.warnings@.len()
            == 0,
        status_code == 200 ==> r.result@ == SpecFetched::Fetched(
            final_document(parse_spec(origin@, input@)),
        ) && warning_views(r.warnings@) == parse_spec(origin@, input@).warnings,
        !(status_code == 401 || status_code == 403 || status_code == 200) ==> r.result@ is Failed
            && r.warnings@.len() == 0,
{
    if status_code == UNAUTHORIZED || status_code == FORBIDDEN {
        ParseResult::new(FetchedRobotsTxt::new(FetchedRobotsTxtContainer::FetchDenied))
    } else if status_code == OK {
        let parsed = parse_robots_txt(origin, input);
        let ParseResult { result, warnings } = parsed;
        ParseResult::new_with_warnings(
            FetchedRobotsTxt::new(FetchedRobotsTxtContainer::Fetched(result)),
            warnings,
        )
    } else {
        ParseResult::new(FetchedRobotsTxt::new(FetchedRobotsTxtContainer::FetchFailed))
    }
}

} // verus!
