//! The policy queries answered by a fetched policy: a denied fetch blocks
//! everything, a failed fetch restricts nothing, and a parsed document
//! answers for itself.

use vstd::prelude::*;
use crate::model::crawl_delay::CrawlDelay;
use crate::model::fetched_robots_txt::{FetchedRobotsTxt, FetchedRobotsTxtContainer, SpecFetched};
use crate::model::group::string_views;
use crate::model::request_rate::RequestRate;
use crate::model::request_url::RequestUrl;
use crate::foreign::query_pairs;
use crate::model::path::decoded_of;
use crate::service::robots_txt::{can_fetch_spec, crawl_delay_spec, req_rate_spec,
    normalized_url_spec, params_to_strip, kept_pairs_rec};

verus! {

/// Whether an agent may fetch a URL under a fetched policy.
pub open spec fn fetched_can_fetch_spec(
    p: SpecFetched,
    ua: Seq<char>,
    url: crate::model::request_url::SpecUrl,
) -> bool {
    match p {
        SpecFetched::Denied => false,
        SpecFetched::Failed => true,
        SpecFetched::Fetched(doc) => can_fetch_spec(doc, ua, url),
    }
}

/// The crawl delay under a fetched policy.
pub open spec fn fetched_crawl_delay_spec(p: SpecFetched, ua: Seq<char>) -> Option<CrawlDelay> {
    match p {
        SpecFetched::Fetched(doc) => crawl_delay_spec(doc, ua),
        _ => None,
    }
}

/// The request rate under a fetched policy.
pub open spec fn fetched_req_rate_spec(p: SpecFetched, ua: Seq<char>) -> Option<RequestRate> {
    match p {
        SpecFetched::Fetched(doc) => req_rate_spec(doc, ua),
        _ => None,
    }
}

impl FetchedRobotsTxt {
    /// Whether `user_agent` may fetch `url` under this policy.
    pub fn can_fetch(&self, user_agent: &str, url: &RequestUrl) -> (r: bool)
        ensures
            r == fetched_can_fetch_spec(self@, user_agent@, url@),
    {
        match self.get_container() {
            FetchedRobotsTxtContainer::FetchDenied => false,
            FetchedRobotsTxtContainer::FetchFailed => true,
            FetchedRobotsTxtContainer::Fetched(robots_txt) => robots_txt.can_fetch(
                user_agent,
                url,
            ),
        }
    }

    /// The crawl delay that applies to `user_agent`, if any.
    pub fn get_crawl_delay(&self, user_agent: &str) -> (r: Option<CrawlDelay>)
        ensures
            r == fetched_crawl_delay_spec(self@, user_agent@),
    {
        match self.get_container() {
            FetchedRobotsTxtContainer::Fetched(robots_txt) => robots_txt.get_crawl_delay(
                user_agent,
            ),
            _ => None,
        }
    }

    /// The request rate that applies to `user_agent`, if any.
    pub fn get_req_rate(&self, user_agent: &str) -> (r: Option<RequestRate>)
        ensures
            r == fetched_req_rate_spec(self@, user_agent@),
    {
        match self.get_container() {
            FetchedRobotsTxtContainer::Fetched(robots_txt) => robots_txt.get_req_rate(user_agent),
            _ => None,
        }
    }

    /// The declared sitemap URLs: what the document declares, or nothing for
    /// a denied or failed fetch.
    pub fn get_sitemaps(&self) -> (r: Vec<String>)
        ensures
            string_views(r@) == match self@ {
                SpecFetched::Fetched(doc) => doc.sitemaps,
                _ => Seq::<Seq<char>>::empty(),
            },
    {
        match self.get_container() {
            FetchedRobotsTxtContainer::Fetched(robots_txt) => {
                let source = robots_txt.get_sitemaps();
                let mut r: Vec<String> = Vec::new();
                let n = source.len();
                let mut i: usize = 0;
                assert(string_views(r@) =~= string_views(source@).take(0));
                while i < n
                    invariant
                        i <= n,
                        n == source@.len(),
                        string_views(r@) == string_views(source@).take(i as int),
                    decreases n - i,
                {
                    let ghost before = r@;
                    let item = source[i].clone();
                    assert(item@ == string_views(source@)[i as int]);
                    r.push(item);
                    proof {
                        assert(string_views(before).len() == before.len());
                        assert(before.len() == i);
                        assert(r@ == before.push(item));
                        assert forall|k: int|
                            0 <= k < i + 1 implies string_views(r@)[k] == string_views(
                            source@,
                        ).take(i as int + 1)[k] by {
                            assert(string_views(r@)[k] == r@[k]@);
                            if k < i {
                                assert(r@[k] == before[k]);
                                assert(string_views(before)[k] == before[k]@);
                            }
                        }
                        assert(string_views(r@) =~= string_views(source@).take(i as int + 1));
                    }
                    i = i + 1;
                }
                assert(string_views(source@).take(n as int) =~= string_views(source@));
                r
            },
            _ => {
                let r: Vec<String> = Vec::new();
                assert(string_views(r@) =~= Seq::<Seq<char>>::empty());
                r
            },
        }
    }

    /// Strip the registered clean-params from the URL, checking the origin;
    /// a denied or failed fetch leaves the URL untouched and reports success.
    pub fn normalize_url(&self, url: &mut RequestUrl) -> (r: bool)
        ensures
            match self@ {
                SpecFetched::Fetched(doc) => r == (old(url)@.origin == doc.origin) && (r
                    ==> final(url)@ == normalized_url_spec(doc, old(url)@)) && (!r ==> final(url)@
                    == old(url)@) && (r && final(url)@.query is Some ==> query_pairs(
                    final(url)@.query.unwrap(),
                ) == kept_pairs_rec(
                    query_pairs(old(url)@.query.unwrap()),
                    params_to_strip(doc.clean_params, decoded_of(old(url)@.path)),
                )),
                _ => r == true && final(url)@ == old(url)@,
            },
    {
        match self.get_container() {
            FetchedRobotsTxtContainer::Fetched(robots_txt) => robots_txt.normalize_url(url),
            _ => true,
        }
    }

    /// Strip the registered clean-params from the URL, whatever its origin;
    /// a denied or failed fetch leaves the URL untouched.
    pub fn normalize_url_ignore_origin(&self, url: &mut RequestUrl)
        ensures
            match self@ {
                SpecFetched::Fetched(doc) => final(url)@ == normalized_url_spec(doc, old(url)@)
                    && (final(url)@.query is Some ==> query_pairs(final(url)@.query.unwrap())
                    == kept_pairs_rec(
                    query_pairs(old(url)@.query.unwrap()),
                    params_to_strip(doc.clean_params, decoded_of(old(url)@.path)),
                )),
                _ => final(url)@ == old(url)@,
            },
    {
        match self.get_container() {
            FetchedRobotsTxtContainer::Fetched(robots_txt) => {
                robots_txt.normalize_url_ignore_origin(url);
            },
            _ => {},
        }
    }
}

} // verus!
