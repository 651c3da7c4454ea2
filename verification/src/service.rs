//! The policy queries a parsed document answers: may an agent fetch a URL,
//! which crawl delay and request rate apply, which sitemaps are declared,
//! and how a URL's query string is canonicalized.

mod fetched_robots_txt;
mod robots_txt;

pub use robots_txt::{
    can_fetch_spec, crawl_delay_spec, req_rate_spec, normalized_url_spec, params_to_strip,
    kept_pairs_rec, find_explicit, first_default_group, find_in_groups, decision_fn,
};
pub use fetched_robots_txt::{fetched_can_fetch_spec, fetched_crawl_delay_spec,
    fetched_req_rate_spec};
