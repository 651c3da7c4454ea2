//! The parsed document: groups, sitemaps and clean-param entries, scoped to
//! the origin the document was fetched from.

use vstd::prelude::*;
use crate::model::clean_params::{CleanParams, SpecCleanParams, clean_params_views};
use crate::model::group::{Group, SpecGroup, group_views, string_views};

verus! {

/// The mathematical form of a parsed document.
#[verifier::ext_equal]
pub struct SpecRobotsTxt {
    pub origin: Seq<char>,
    pub groups: Seq<SpecGroup>,
    pub sitemaps: Seq<Seq<char>>,
    pub clean_params: Seq<SpecCleanParams>,
}

/// A parsed robots.txt document.  Sitemaps are held as the normalized
/// serializations of the URLs the `Sitemap` directives declared.
#[derive(Debug)]
pub struct RobotsTxt {
    pub origin: String,
    pub groups: Vec<Group>,
    pub sitemaps: Vec<String>,
    pub clean_params: Vec<CleanParams>,
}

impl View for RobotsTxt {
    type V = SpecRobotsTxt;

    open spec fn view(&self) -> SpecRobotsTxt {
        SpecRobotsTxt {
            origin: self.origin@,
            groups: group_views(self.groups@),
            sitemaps: string_views(self.sitemaps@),
            clean_params: clean_params_views(self.clean_params@),
        }
    }
}

impl RobotsTxt {
    /// An empty document scoped to the given origin serialization.
    pub(crate) fn new(origin: String) -> (r: RobotsTxt)
        ensures
            r@.origin == origin@,
            r@.groups.len() == 0,
            r@.sitemaps.len() == 0,
            r@.clean_params.len() == 0,
    {
        RobotsTxt {
            origin,
            groups: Vec::new(),
            sitemaps: Vec::new(),
            clean_params: Vec::new(),
        }
    }

    /// Record one more sitemap URL.
    pub(crate) fn add_sitemap(&mut self, url: String)
        ensures
            final(self)@.sitemaps == old(self)@.sitemaps.push(url@),
            final(self)@.origin == old(self)@.origin,
            final(self)@.groups == old(self)@.groups,
            final(self)@.clean_params == old(self)@.clean_params,
    {
        let ghost uv = url@;
        self.sitemaps.push(url);
        assert(string_views(self.sitemaps@) =~= string_views(old(self).sitemaps@).push(uv));
    }

    /// The declared sitemap URLs, in declaration order.
    pub(crate) fn get_sitemaps_slice(&self) -> (r: &Vec<String>)
        ensures
            string_views(r@) == self@.sitemaps,
    {
        &self.sitemaps
    }

    /// Record one more clean-param entry.
    pub(crate) fn add_clean_params(&mut self, clean_params: CleanParams)
        ensures
            final(self)@.clean_params == old(self)@.clean_params.push(clean_params@),
            final(self)@.origin == old(self)@.origin,
            final(self)@.groups == old(self)@.groups,
            final(self)@.sitemaps == old(self)@.sitemaps,
    {
        let ghost cv = clean_params@;
        self.clean_params.push(clean_params);
        assert(clean_params_views(self.clean_params@) =~= clean_params_views(
            old(self).clean_params@,
        ).push(cv));
    }

    /// The clean-param entries, in declaration order.
    pub(crate) fn get_clean_params(&self) -> (r: &Vec<CleanParams>)
        ensures
            clean_params_views(r@) == self@.clean_params,
    {
        &self.clean_params
    }

    /// Record one more group.
    pub(crate) fn add_group(&mut self, group: Group)
        ensures
            final(self)@.groups == old(self)@.groups.push(group@),
            final(self)@.origin == old(self)@.origin,
            final(self)@.sitemaps == old(self)@.sitemaps,
            final(self)@.clean_params == old(self)@.clean_params,
    {
        let ghost gv = group@;
        self.groups.push(group);
        assert(group_views(self.groups@) =~= group_views(old(self).groups@).push(gv));
    }

    /// The origin this document governs.
    pub(crate) fn get_origin(&self) -> (r: &String)
        ensures
            r@ == self@.origin,
    {
        &self.origin
    }
}

} // verus!
