//! The two-state machine that clusters `User-agent` lines into groups.
//!
//! Consecutive `User-agent` lines union into one group; the first group-scoped
//! directive closes the agent list, so that the next `User-agent` line opens a
//! new group.

use vstd::prelude::*;
use crate::foreign::lowercased;
use crate::model::group::{Group, SpecGroup, group_views};
use crate::model::robots_txt::RobotsTxt;
use crate::model::rule::Rule;
use crate::model::crawl_delay::CrawlDelay;
use crate::model::request_rate::RequestRate;

verus! {

/// The mathematical form of the builder: every group opened so far in order
/// (the last one is the active group when `has_active` holds), and whether
/// the next `User-agent` line extends the active group or opens a new one.
#[verifier::ext_equal]
pub struct SpecBuilder {
    pub groups: Seq<SpecGroup>,
    pub has_active: bool,
    pub awaiting_more: bool,
}

/// The group accumulator: the groups already closed, plus the active group.
pub struct GroupBuilder {
    pub closed: Vec<Group>,
    pub active: Group,
    pub has_active: bool,
    pub awaiting_more: bool,
}

impl View for GroupBuilder {
    type V = SpecBuilder;

    open spec fn view(&self) -> SpecBuilder {
        SpecBuilder {
            groups: if self.has_active {
                group_views(self.closed@).push(self.active@)
            } else {
                group_views(self.closed@)
            },
            has_active: self.has_active,
            awaiting_more: self.awaiting_more,
        }
    }
}

/// The builder's internal consistency: agents are only awaited while a group
/// is active, and an active group exists exactly when some group was opened.
pub open spec fn builder_wf(b: SpecBuilder) -> bool {
    (b.awaiting_more ==> b.has_active) && (b.has_active <==> b.groups.len() > 0)
}

/// What a `User-agent` directive does to the builder.
pub open spec fn builder_handle_ua(b: SpecBuilder, ua: Seq<char>) -> SpecBuilder {
    if !b.awaiting_more {
        let g = SpecGroup {
            agents: seq![lowercased(ua)],
            rules: Seq::empty(),
            crawl_delay: None,
            req_rate: None,
        };
        SpecBuilder { groups: b.groups.push(g), has_active: true, awaiting_more: true }
    } else {
        let g = b.groups.last();
        if g.agents.contains(ua) {
            b
        } else {
            let g2 = SpecGroup { agents: g.agents.push(lowercased(ua)), ..g };
            SpecBuilder { groups: b.groups.update(b.groups.len() - 1, g2), ..b }
        }
    }
}

/// What reaching for the active group does to the builder: the agent list is
/// closed, whether or not a group is active.
pub open spec fn builder_touch(b: SpecBuilder) -> SpecBuilder {
    SpecBuilder { awaiting_more: false, ..b }
}

/// The builder with its active group replaced.
pub open spec fn builder_set_active(b: SpecBuilder, g: SpecGroup) -> SpecBuilder {
    SpecBuilder { groups: b.groups.update(b.groups.len() - 1, g), ..b }
}

impl GroupBuilder {
    /// A builder with no groups.
    pub fn new() -> (r: GroupBuilder)
        ensures
            r@.groups.len() == 0,
            !r@.has_active,
            !r@.awaiting_more,
            builder_wf(r@),
    {
        GroupBuilder {
            closed: Vec::new(),
            active: Group::new(),
            has_active: false,
            awaiting_more: false,
        }
    }

    /// Apply a `User-agent` directive: open a new group, or add one more
    /// agent to the active group's list (deduplicated against the raw text).
    pub fn handle_user_agent(&mut self, user_agent: &str)
        requires
            builder_wf(old(self)@),
        ensures
            final(self)@ == builder_handle_ua(old(self)@, user_agent@),
            builder_wf(final(self)@),
    {
        if !self.awaiting_more {
            let mut fresh = Group::new();
            fresh.push_useragent(user_agent);
            core::mem::swap(&mut self.active, &mut fresh);
            if self.has_active {
                self.closed.push(fresh);
            }
            self.has_active = true;
            self.awaiting_more = true;
            proof {
                if old(self).has_active {
                    assert(group_views(self.closed@) =~= group_views(old(self).closed@).push(
                        old(self).active@,
                    ));
                }
                assert(self@.groups =~~= builder_handle_ua(old(self)@, user_agent@).groups);
            }
        } else {
            assert(old(self)@.groups.last() == self.active@);
            if !self.active.contains_user_agent(user_agent) {
                self.active.push_useragent(user_agent);
            }
            proof {
                assert(self@.groups =~~= builder_handle_ua(old(self)@, user_agent@).groups);
            }
        }
    }

    /// Reach for the active group before a group-scoped directive: closes the
    /// agent list and says whether any group is active.
    pub fn get_mut_active_group(&mut self) -> (r: bool)
        requires
            builder_wf(old(self)@),
        ensures
            final(self)@ == builder_touch(old(self)@),
            r == old(self)@.has_active,
            builder_wf(final(self)@),
    {
        self.awaiting_more = false;
        self.has_active
    }

    /// Attach a rule to the active group.
    pub fn push_rule_active(&mut self, rule: Rule)
        requires
            builder_wf(old(self)@),
            old(self)@.has_active,
        ensures
            final(self)@ == builder_set_active(
                old(self)@,
                SpecGroup {
                    rules: old(self)@.groups.last().rules.push(rule@),
                    ..old(self)@.groups.last()
                },
            ),
            builder_wf(final(self)@),
    {
        self.active.push_rule(rule);
        proof {
            assert(self@.groups =~~= builder_set_active(
                old(self)@,
                SpecGroup {
                    rules: old(self)@.groups.last().rules.push(rule@),
                    ..old(self)@.groups.last()
                },
            ).groups);
        }
    }

    /// Set the crawl delay of the active group.
    pub fn set_crawl_delay_active(&mut self, delay: CrawlDelay)
        requires
            builder_wf(old(self)@),
            old(self)@.has_active,
        ensures
            final(self)@ == builder_set_active(
                old(self)@,
                SpecGroup { crawl_delay: Some(delay), ..old(self)@.groups.last() },
            ),
            builder_wf(final(self)@),
    {
        self.active.set_crawl_delay(delay);
        proof {
            assert(self@.groups =~~= builder_set_active(
                old(self)@,
                SpecGroup { crawl_delay: Some(delay), ..old(self)@.groups.last() },
            ).groups);
        }
    }

    /// Set the request rate of the active group.
    pub fn set_req_rate_active(&mut self, req_rate: RequestRate)
        requires
            builder_wf(old(self)@),
            old(self)@.has_active,
        ensures
            final(self)@ == builder_set_active(
                old(self)@,
                SpecGroup { req_rate: Some(req_rate), ..old(self)@.groups.last() },
            ),
            builder_wf(final(self)@),
    {
        self.active.set_req_rate(req_rate);
        proof {
            assert(self@.groups =~~= builder_set_active(
                old(self)@,
                SpecGroup { req_rate: Some(req_rate), ..old(self)@.groups.last() },
            ).groups);
        }
    }

    /// Hand every opened group to the document, in opening order.
    pub fn fill_entries(self, robots_txt: &mut RobotsTxt)
        ensures
            final(robots_txt)@.groups == old(robots_txt)@.groups + self@.groups,
            final(robots_txt)@.origin == old(robots_txt)@.origin,
            final(robots_txt)@.sitemaps == old(robots_txt)@.sitemaps,
            final(robots_txt)@.clean_params == old(robots_txt)@.clean_params,
    {
        let ghost sv = self@;
        let GroupBuilder { mut closed, active, has_active, awaiting_more: _ } = self;
        let ghost closed0 = closed@;
        assert(closed0.skip(0) =~= closed0);
        assert(group_views(closed0.take(0)) =~= Seq::<SpecGroup>::empty());
        assert(robots_txt@.groups =~= robots_txt@.groups + group_views(closed0.take(0)));
        while closed.len() > 0
            invariant
                closed@.len() <= closed0.len(),
                closed@ == closed0.skip(closed0.len() - closed@.len()),
                robots_txt@.groups == old(robots_txt)@.groups + group_views(
                    closed0.take(closed0.len() - closed@.len()),
                ),
                robots_txt@.origin == old(robots_txt)@.origin,
                robots_txt@.sitemaps == old(robots_txt)@.sitemaps,
                robots_txt@.clean_params == old(robots_txt)@.clean_params,
            decreases closed@.len(),
        {
            let ghost k = closed0.len() - closed@.len();
            let g = closed.remove(0);
            proof {
                assert(g == closed0[k]);
                assert(closed@ =~= closed0.skip(k + 1));
            }
            robots_txt.add_group(g);
            proof {
                assert(group_views(closed0.take(k + 1)) =~= group_views(closed0.take(k)).push(
                    closed0[k]@,
                ));
                assert(robots_txt@.groups =~= old(robots_txt)@.groups + group_views(
                    closed0.take(k + 1),
                ));
            }
        }
        proof {
            assert(closed0.take(closed0.len() - closed@.len()) =~= closed0);
        }
        if has_active {
            let ghost av = active@;
            robots_txt.add_group(active);
            proof {
                assert(sv.groups == group_views(closed0).push(av));
                assert(robots_txt@.groups =~= old(robots_txt)@.groups + sv.groups);
            }
        } else {
            assert(robots_txt@.groups =~= old(robots_txt)@.groups + sv.groups);
        }
    }
}

} // verus!
