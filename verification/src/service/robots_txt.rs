//! The policy queries answered directly by a parsed document.

use vstd::prelude::*;
use crate::chars::{str_eq_str, lemma_skip_skip};
use crate::foreign::{query_pairs, encoded_query, pairs_view, parse_query_pairs,
    encode_query_pairs};
use crate::model::clean_params::SpecCleanParams;
use crate::model::crawl_delay::CrawlDelay;
use crate::model::group::{
    SpecGroup, group_applies, is_default_group, rule_decision_spec, string_views,
    lemma_string_views_push,
};
use crate::model::path::{Path, decoded_of, decoded_subject};
use crate::model::path_pattern::matches_from;
use crate::model::request_rate::RequestRate;
use crate::model::request_url::{RequestUrl, SpecUrl};
use crate::model::robots_txt::{RobotsTxt, SpecRobotsTxt};

verus! {

/// The first group that applies to the agent and yields a value under `f`,
/// in declaration order.
pub open spec fn find_explicit<T>(
    groups: Seq<SpecGroup>,
    ua: Seq<char>,
    f: spec_fn(SpecGroup) -> Option<T>,
) -> Option<T>
    decreases groups.len(),
{
    if groups.len() == 0 {
        None
    } else if group_applies(groups[0], ua) && f(groups[0]) is Some {
        f(groups[0])
    } else {
        find_explicit(groups.skip(1), ua, f)
    }
}

/// The first default group (one declaring the agent `*`), if any.
pub open spec fn first_default_group(groups: Seq<SpecGroup>) -> Option<SpecGroup>
    decreases groups.len(),
{
    if groups.len() == 0 {
        None
    } else if is_default_group(groups[0]) {
        Some(groups[0])
    } else {
        first_default_group(groups.skip(1))
    }
}

/// Group resolution: the first applying group that yields a value wins; with
/// none, the first default group is asked, unconditionally.
pub open spec fn find_in_groups<T>(
    groups: Seq<SpecGroup>,
    ua: Seq<char>,
    f: spec_fn(SpecGroup) -> Option<T>,
) -> Option<T> {
    match find_explicit(groups, ua, f) {
        Some(x) => Some(x),
        None => match first_default_group(groups) {
            Some(g) => f(g),
            None => None,
        },
    }
}

/// What a group is asked when deciding a fetch: the decision of its rules
/// over the URL's decoded path-plus-query.
pub open spec fn decision_fn(url: SpecUrl) -> spec_fn(SpecGroup) -> Option<bool> {
    |g: SpecGroup| rule_decision_spec(g.rules, decoded_subject(url))
}

/// Whether an agent may fetch a URL under a document's policy: a URL on
/// another origin is never governed by this document, and a URL no rule
/// decides is allowed.
pub open spec fn can_fetch_spec(doc: SpecRobotsTxt, ua: Seq<char>, url: SpecUrl) -> bool {
    if url.origin != doc.origin {
        false
    } else {
        match find_in_groups(doc.groups, ua, decision_fn(url)) {
            Some(b) => b,
            None => true,
        }
    }
}

/// The crawl delay that applies to an agent, if any group that resolves for
/// it declares one.
pub open spec fn crawl_delay_spec(doc: SpecRobotsTxt, ua: Seq<char>) -> Option<CrawlDelay> {
    find_in_groups(doc.groups, ua, |g: SpecGroup| g.crawl_delay)
}

/// The request rate that applies to an agent, if any group that resolves for
/// it declares one.
pub open spec fn req_rate_spec(doc: SpecRobotsTxt, ua: Seq<char>) -> Option<RequestRate> {
    find_in_groups(doc.groups, ua, |g: SpecGroup| g.req_rate)
}

/// The parameter names stripped for a given decoded path: the names of every
/// clean-param entry whose pattern matches it, in declaration order.
pub open spec fn params_to_strip(
    entries: Seq<SpecCleanParams>,
    subject: Seq<char>,
) -> Seq<Seq<char>>
    decreases entries.len(),
{
    if entries.len() == 0 {
        Seq::empty()
    } else {
        (if matches_from(entries[0].pattern, subject) {
            entries[0].params
        } else {
            Seq::empty()
        }) + params_to_strip(entries.skip(1), subject)
    }
}

/// The query pairs kept under a strip set: those whose key is not stripped,
/// in their original order.
pub open spec fn kept_pairs_rec(
    pairs: Seq<(Seq<char>, Seq<char>)>,
    strip: Seq<Seq<char>>,
) -> Seq<(Seq<char>, Seq<char>)>
    decreases pairs.len(),
{
    if pairs.len() == 0 {
        Seq::empty()
    } else {
        (if !strip.contains(pairs[0].0) {
            seq![pairs[0]]
        } else {
            Seq::empty()
        }) + kept_pairs_rec(pairs.skip(1), strip)
    }
}

/// What normalization does to a URL: a URL without a query is untouched;
/// otherwise the query is rebuilt out of the pairs whose keys no matching
/// clean-param entry strips, and a query that comes out empty is removed
/// entirely.
pub open spec fn normalized_url_spec(doc: SpecRobotsTxt, u: SpecUrl) -> SpecUrl {
    match u.query {
        None => u,
        Some(q) => {
            let strip = params_to_strip(doc.clean_params, decoded_of(u.path));
            let kept = kept_pairs_rec(query_pairs(q), strip);
            if kept.len() == 0 {
                SpecUrl { query: None, ..u }
            } else {
                SpecUrl { query: Some(encoded_query(kept)), ..u }
            }
        },
    }
}

/// Pushing a pair maps to pushing its views.
proof fn lemma_pairs_view_push(s: Seq<(String, String)>, x: (String, String))
    ensures
        pairs_view(s.push(x)) == pairs_view(s).push((x.0@, x.1@)),
{
    assert(pairs_view(s.push(x)) =~= pairs_view(s).push((x.0@, x.1@)));
}

/// Whether a string is one of a list of strings.
fn contains_string(v: &Vec<String>, s: &String) -> (r: bool)
    ensures
        r == string_views(v@).contains(s@),
{
    let mut i: usize = 0;
    while i < v.len()
        invariant
            i <= v@.len(),
            forall|m: int| 0 <= m < i ==> #[trigger] string_views(v@)[m] != s@,
        decreases v@.len() - i,
    {
        assert(string_views(v@)[i as int] == v@[i as int]@);
        if str_eq_str(v[i].as_str(), s.as_str()) {
            assert(string_views(v@).contains(s@));
            return true;
        }
        i = i + 1;
    }
    false
}

impl RobotsTxt {
    /// The index of the first default group, if any.
    fn find_default_index(&self) -> (r: Option<usize>)
        ensures
            match r {
                Some(i) => i < self@.groups.len() && first_default_group(self@.groups) == Some(
                    self@.groups[i as int],
                ),
                None => first_default_group(self@.groups) is None,
            },
    {
        let ghost gs = self@.groups;
        assert(gs.skip(0) =~= gs);
        let n = self.groups.len();
        let mut i: usize = 0;
        while i < n
            invariant
                i <= n,
                n == self.groups@.len(),
                gs == self@.groups,
                first_default_group(gs) == first_default_group(gs.skip(i as int)),
            decreases n - i,
        {
            let g = &self.groups[i];
            assert(g@ == gs.skip(i as int)[0]);
            if g.is_default() {
                return Some(i);
            }
            proof {
                lemma_skip_skip(gs, i as int, 1);
            }
            i = i + 1;
        }
        assert(gs.skip(i as int) =~= Seq::<SpecGroup>::empty());
        None
    }

    /// Whether `user_agent` may fetch `url` under this document's policy.
    pub fn can_fetch(&self, user_agent: &str, url: &RequestUrl) -> (r: bool)
        ensures
            r == can_fetch_spec(self@, user_agent@, url@),
    {
        if !str_eq_str(self.get_origin().as_str(), url.get_origin().as_str()) {
            return false;
        }
        let path = Path::from_url(url);
        let ghost gs = self@.groups;
        let ghost f = decision_fn(url@);
        assert(gs.skip(0) =~= gs);
        let n = self.groups.len();
        let mut i: usize = 0;
        while i < n
            invariant
                i <= n,
                n == self.groups@.len(),
                gs == self@.groups,
                f == decision_fn(url@),
                path@ == decoded_subject(url@),
                url@.origin == self@.origin,
                find_explicit(gs, user_agent@, f) == find_explicit(
                    gs.skip(i as int),
                    user_agent@,
                    f,
                ),
            decreases n - i,
        {
            let g = &self.groups[i];
            assert(g@ == gs.skip(i as int)[0]);
            if g.applies_to(user_agent) {
                match g.rule_decision(&path) {
                    Some(b) => {
                        assert(f(g@) == Some(b));
                        return b;
                    },
                    None => {
                        assert(f(g@) is None);
                    },
                }
            }
            proof {
                lemma_skip_skip(gs, i as int, 1);
            }
            i = i + 1;
        }
        assert(gs.skip(i as int) =~= Seq::<SpecGroup>::empty());
        assert(find_explicit(gs, user_agent@, f) is None);
        match self.find_default_index() {
            Some(j) => {
                let g = &self.groups[j];
                assert(g@ == gs[j as int]);
                assert(f(g@) == rule_decision_spec(g@.rules, decoded_subject(url@)));
                match g.rule_decision(&path) {
                    Some(b) => b,
                    None => true,
                }
            },
            None => true,
        }
    }

    /// The crawl delay that applies to `user_agent`, if any.
    pub fn get_crawl_delay(&self, user_agent: &str) -> (r: Option<CrawlDelay>)
        ensures
            r == crawl_delay_spec(self@, user_agent@),
    {
        let ghost gs = self@.groups;
        let ghost f = |g: SpecGroup| g.crawl_delay;
        assert(gs.skip(0) =~= gs);
        let n = self.groups.len();
        let mut i: usize = 0;
        while i < n
            invariant
                i <= n,
                n == self.groups@.len(),
                gs == self@.groups,
                f == (|g: SpecGroup| g.crawl_delay),
                find_explicit(gs, user_agent@, f) == find_explicit(
                    gs.skip(i as int),
                    user_agent@,
                    f,
                ),
            decreases n - i,
        {
            let g = &self.groups[i];
            assert(g@ == gs.skip(i as int)[0]);
            if g.applies_to(user_agent) {
                match g.get_crawl_delay() {
                    Some(delay) => {
                        assert(f(g@) == Some(delay));
                        return Some(delay);
                    },
                    None => {
                        assert(f(g@) is None);
                    },
                }
            }
            proof {
                lemma_skip_skip(gs, i as int, 1);
            }
            i = i + 1;
        }
        assert(gs.skip(i as int) =~= Seq::<SpecGroup>::empty());
        match self.find_default_index() {
            Some(j) => {
                let g = &self.groups[j];
                assert(g@ == gs[j as int]);
                g.get_crawl_delay()
            },
            None => None,
        }
    }

    /// The request rate that applies to `user_agent`, if any.
    pub fn get_req_rate(&self, user_agent: &str) -> (r: Option<RequestRate>)
        ensures
            r == req_rate_spec(self@, user_agent@),
    {
        let ghost gs = self@.groups;
        let ghost f = |g: SpecGroup| g.req_rate;
        assert(gs.skip(0) =~= gs);
        let n = self.groups.len();
        let mut i: usize = 0;
        while i < n
            invariant
                i <= n,
                n == self.groups@.len(),
                gs == self@.groups,
                f == (|g: SpecGroup| g.req_rate),
                find_explicit(gs, user_agent@, f) == find_explicit(
                    gs.skip(i as int),
                    user_agent@,
                    f,
                ),
            decreases n - i,
        {
            let g = &self.groups[i];
            assert(g@ == gs.skip(i as int)[0]);
            if g.applies_to(user_agent) {
                match g.get_req_rate() {
                    Some(rate) => {
                        assert(f(g@) == Some(rate));
                        return Some(rate);
                    },
                    None => {
                        assert(f(g@) is None);
                    },
                }
            }
            proof {
                lemma_skip_skip(gs, i as int, 1);
            }
            i = i + 1;
        }
        assert(gs.skip(i as int) =~= Seq::<SpecGroup>::empty());
        match self.find_default_index() {
            Some(j) => {
                let g = &self.groups[j];
                assert(g@ == gs[j as int]);
                g.get_req_rate()
            },
            None => None,
        }
    }

    /// The sitemap URLs the document declares, in declaration order.
    pub fn get_sitemaps(&self) -> (r: &Vec<String>)
        ensures
            string_views(r@) == self@.sitemaps,
    {
        self.get_sitemaps_slice()
    }

    /// Strip the registered clean-params from the URL's query, checking that
    /// the URL is on this document's origin first.  Returns whether it was.
    pub fn normalize_url(&self, url: &mut RequestUrl) -> (r: bool)
        ensures
            r == (old(url)@.origin == self@.origin),
            r ==> final(url)@ == normalized_url_spec(self@, old(url)@),
            !r ==> final(url)@ == old(url)@,
            r && final(url)@.query is Some ==> query_pairs(final(url)@.query.unwrap())
                == kept_pairs_rec(
                query_pairs(old(url)@.query.unwrap()),
                params_to_strip(self@.clean_params, decoded_of(old(url)@.path)),
            ),
    {
        if !str_eq_str(self.get_origin().as_str(), url.get_origin().as_str()) {
            return false;
        }
        self.normalize_url_ignore_origin(url);
        true
    }

    /// Strip the registered clean-params from the URL's query, whatever
    /// origin the URL is on.
    pub fn normalize_url_ignore_origin(&self, url: &mut RequestUrl)
        ensures
            final(url)@ == normalized_url_spec(self@, old(url)@),
            final(url)@.query is Some ==> query_pairs(final(url)@.query.unwrap()) == kept_pairs_rec(
                query_pairs(old(url)@.query.unwrap()),
                params_to_strip(self@.clean_params, decoded_of(old(url)@.path)),
            ),
    {
        let q: String = match url.get_query() {
            Some(qs) => qs.clone(),
            None => {
                return ;
            },
        };
        let path = Path::from_encoded(url.get_path().as_str());
        let ghost subject = decoded_of(old(url)@.path);
        let ghost entries = self@.clean_params;
        let ghost strip_spec = params_to_strip(entries, subject);
        // Gather the names of every matching entry.
        let mut strip: Vec<String> = Vec::new();
        assert(entries.skip(0) =~= entries);
        assert(string_views(strip@) + strip_spec =~= strip_spec);
        let n = self.clean_params.len();
        let mut i: usize = 0;
        while i < n
            invariant
                i <= n,
                n == self.clean_params@.len(),
                entries == self@.clean_params,
                subject == decoded_of(old(url)@.path),
                path@ == subject,
                strip_spec == params_to_strip(entries, subject),
                string_views(strip@) + params_to_strip(entries.skip(i as int), subject)
                    == strip_spec,
            decreases n - i,
        {
            proof {
                lemma_skip_skip(entries, i as int, 1);
                assert(entries.skip(i as int)[0] == entries[i as int]);
                assert(entries[i as int] == self.clean_params@[i as int]@);
            }
            let entry = &self.clean_params[i];
            if entry.get_path_pattern().applies_to(&path) {
                let params = entry.get_params();
                let ghost before = string_views(strip@);
                let m = params.len();
                let mut j: usize = 0;
                while j < m
                    invariant
                        j <= m,
                        m == params@.len(),
                        string_views(strip@) == before + string_views(params@).take(j as int),
                    decreases m - j,
                {
                    let ghost before_push = strip@;
                    strip.push(params[j].clone());
                    proof {
                        assert(strip@ == before_push.push(params@[j as int]));
                        lemma_string_views_push(before_push, params@[j as int]);
                        assert(string_views(params@).take(j as int + 1)[j as int]
                            == params@[j as int]@);
                        assert(string_views(strip@) =~= before + string_views(params@).take(
                            j as int + 1,
                        ));
                    }
                    j = j + 1;
                }
                proof {
                    assert(string_views(params@).take(m as int) =~= string_views(params@));
                    assert(string_views(params@) == entry@.params);
                    assert(before + entry@.params + params_to_strip(
                        entries.skip(i as int + 1),
                        subject,
                    ) =~= before + (entry@.params + params_to_strip(
                        entries.skip(i as int + 1),
                        subject,
                    )));
                }
            } else {
                proof {
                    assert(string_views(strip@) + (Seq::<Seq<char>>::empty() + params_to_strip(
                        entries.skip(i as int + 1),
                        subject,
                    )) =~= string_views(strip@) + params_to_strip(
                        entries.skip(i as int + 1),
                        subject,
                    ));
                }
            }
            i = i + 1;
        }
        proof {
            assert(params_to_strip(entries.skip(i as int), subject) =~= Seq::<Seq<char>>::empty());
            assert(string_views(strip@) + Seq::<Seq<char>>::empty() =~= string_views(strip@));
        }
        // Rebuild the query out of the pairs that survive.
        let pairs = parse_query_pairs(q.as_str());
        let ghost pv = pairs_view(pairs@);
        let mut kept: Vec<(String, String)> = Vec::new();
        assert(pv.skip(0) =~= pv);
        assert(pairs_view(kept@) + kept_pairs_rec(pv, strip_spec) =~= kept_pairs_rec(
            pv,
            strip_spec,
        ));
        let np = pairs.len();
        let mut i2: usize = 0;
        while i2 < np
            invariant
                i2 <= np,
                np == pairs@.len(),
                pv == pairs_view(pairs@),
                strip_spec == string_views(strip@),
                pairs_view(kept@) + kept_pairs_rec(pv.skip(i2 as int), strip_spec)
                    == kept_pairs_rec(pv, strip_spec),
            decreases np - i2,
        {
            proof {
                lemma_skip_skip(pv, i2 as int, 1);
                assert(pv.skip(i2 as int)[0] == pv[i2 as int]);
                assert(pv[i2 as int] == (pairs@[i2 as int].0@, pairs@[i2 as int].1@));
            }
            let key_is_stripped = contains_string(&strip, &pairs[i2].0);
            if !key_is_stripped {
                let ghost before = pairs_view(kept@);
                let ghost before_push = kept@;
                let pair = (pairs[i2].0.clone(), pairs[i2].1.clone());
                kept.push(pair);
                proof {
                    assert(kept@ == before_push.push((pairs@[i2 as int].0, pairs@[i2 as int].1)));
                    lemma_pairs_view_push(before_push, (pairs@[i2 as int].0, pairs@[i2 as int].1));
                    assert(pairs_view(kept@) =~= before.push(pv[i2 as int]));
                    assert(before.push(pv[i2 as int]) + kept_pairs_rec(
                        pv.skip(i2 as int + 1),
                        strip_spec,
                    ) =~= before + (seq![pv[i2 as int]] + kept_pairs_rec(
                        pv.skip(i2 as int + 1),
                        strip_spec,
                    )));
                }
            } else {
                proof {
                    assert(pairs_view(kept@) + (Seq::<(Seq<char>, Seq<char>)>::empty()
                        + kept_pairs_rec(pv.skip(i2 as int + 1), strip_spec)) =~= pairs_view(kept@)
                        + kept_pairs_rec(pv.skip(i2 as int + 1), strip_spec));
                }
            }
            i2 = i2 + 1;
        }
        proof {
            assert(kept_pairs_rec(pv.skip(i2 as int), strip_spec) =~= Seq::<(
                Seq<char>,
                Seq<char>,
            )>::empty());
            assert(pairs_view(kept@) + Seq::<(Seq<char>, Seq<char>)>::empty() =~= pairs_view(
                kept@,
            ));
        }
        if kept.len() == 0 {
            url.query = None;
            assert(url@ =~~= normalized_url_spec(self@, old(url)@));
        } else {
            let encoded = encode_query_pairs(&kept);
            url.query = Some(encoded);
            assert(url@ =~~= normalized_url_spec(self@, old(url)@));
        }
    }
}

} // verus!
