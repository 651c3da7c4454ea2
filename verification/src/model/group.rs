//! A policy group: the directives attached to one set of user agents.

use vstd::prelude::*;
use crate::chars::{
    str_to_chars, chars_to_string, copy_range, find_char_from, first_index_of, contains_substring,
    has_substring, str_eq_str, lemma_skip_skip,
};
use crate::foreign::{lowercased, lowercase_text};
use crate::model::crawl_delay::CrawlDelay;
use crate::model::path::Path;
use crate::model::path_pattern::{capped_weight, matches_from};
use crate::model::request_rate::RequestRate;
use crate::model::rule::{Rule, SpecRule, rule_views};

verus! {

/// The mathematical form of a group.
#[verifier::ext_equal]
pub struct SpecGroup {
    pub agents: Seq<Seq<char>>,
    pub rules: Seq<SpecRule>,
    pub crawl_delay: Option<CrawlDelay>,
    pub req_rate: Option<RequestRate>,
}

/// The views of a sequence of strings.
pub open spec fn string_views(s: Seq<String>) -> Seq<Seq<char>> {
    s.map_values(|x: String| x@)
}

/// A group: one or more user agents and the rules, crawl delay and request
/// rate declared for them.  Agents are stored lowercased.
#[derive(Debug)]
pub struct Group {
    pub user_agents: Vec<String>,
    pub rules: Vec<Rule>,
    pub crawl_delay: Option<CrawlDelay>,
    pub req_rate: Option<RequestRate>,
}

impl View for Group {
    type V = SpecGroup;

    open spec fn view(&self) -> SpecGroup {
        SpecGroup {
            agents: string_views(self.user_agents@),
            rules: rule_views(self.rules@),
            crawl_delay: self.crawl_delay,
            req_rate: self.req_rate,
        }
    }
}

/// Pushing a string maps to pushing its view.
pub proof fn lemma_string_views_push(s: Seq<String>, x: String)
    ensures
        string_views(s.push(x)) == string_views(s).push(x@),
{
    assert(string_views(s.push(x)) =~= string_views(s).push(x@));
}

/// The views of a sequence of groups.
pub open spec fn group_views(s: Seq<Group>) -> Seq<SpecGroup> {
    s.map_values(|g: Group| g@)
}

/// The part of a user-agent string before its first `/`: product tokens such
/// as `FigTree Robot libwww-perl/5.04` are matched by their product name.
pub open spec fn agent_prefix(ua: Seq<char>) -> Seq<char> {
    match first_index_of(ua, '/') {
        Some(i) => ua.take(i),
        None => ua,
    }
}

/// Whether a group applies to a user agent: some agent token of the group
/// occurs as a substring of the lowercased user-agent prefix.
pub open spec fn group_applies(g: SpecGroup, ua: Seq<char>) -> bool {
    exists|i: int|
        0 <= i < g.agents.len() && has_substring(lowercased(agent_prefix(ua)), g.agents[i])
}

/// Whether a group is a default group: one of its agent tokens is `*`.
pub open spec fn is_default_group(g: SpecGroup) -> bool {
    g.agents.contains("*"@)
}

/// The key rules are ordered by: the capped specificity weight of the pattern.
pub open spec fn rule_key(r: SpecRule) -> nat {
    capped_weight(r.pattern)
}

/// Insert a rule into a weight-descending list: it goes in front of the first
/// rule of strictly smaller weight, so rules of equal weight keep their
/// relative order.
pub open spec fn insert_rule(r: SpecRule, s: Seq<SpecRule>) -> Seq<SpecRule>
    decreases s.len(),
{
    if s.len() == 0 {
        seq![r]
    } else if rule_key(r) > rule_key(s[0]) {
        seq![r] + s
    } else {
        seq![s[0]] + insert_rule(r, s.skip(1))
    }
}

/// The stable, weight-descending ordering of a rule list.
pub open spec fn sort_rules_spec(s: Seq<SpecRule>) -> Seq<SpecRule>
    decreases s.len(),
{
    if s.len() == 0 {
        s
    } else {
        insert_rule(s.last(), sort_rules_spec(s.drop_last()))
    }
}

/// The permission of the first matching rule in the sorted order, if any.
pub open spec fn first_rule_match(rules: Seq<SpecRule>, subject: Seq<char>) -> Option<bool>
    decreases rules.len(),
{
    if rules.len() == 0 {
        None
    } else if matches_from(rules[0].pattern, subject) {
        Some(rules[0].allowance)
    } else {
        first_rule_match(rules.skip(1), subject)
    }
}

/// The decision a rule list gives for a subject: sort by weight descending
/// (stable) and take the permission of the first matching rule.
pub open spec fn rule_decision_spec(rules: Seq<SpecRule>, subject: Seq<char>) -> Option<bool> {
    first_rule_match(sort_rules_spec(rules), subject)
}

/// The rules a sequence of order indices picks out of a rule list.
pub open spec fn index_views(ord: Seq<usize>, rules: Seq<Rule>) -> Seq<SpecRule> {
    ord.map_values(|i: usize| rules[i as int]@)
}

/// Inserting at the position the exec search finds is what `insert_rule` does.
proof fn lemma_insert_rule_at(s: Seq<SpecRule>, r: SpecRule, j: int)
    requires
        0 <= j <= s.len(),
        forall|m: int| 0 <= m < j ==> !(rule_key(r) > rule_key(s[m])),
        j < s.len() ==> rule_key(r) > rule_key(s[j]),
    ensures
        insert_rule(r, s) == s.take(j) + seq![r] + s.skip(j),
    decreases s.len(),
{
    if j == 0 {
        if s.len() == 0 {
            assert(insert_rule(r, s) =~= s.take(0) + seq![r] + s.skip(0));
        } else {
            assert(insert_rule(r, s) =~= s.take(0) + seq![r] + s.skip(0));
        }
    } else {
        if j < s.len() {
            assert(s.skip(1)[j - 1] == s[j]);
        }
        assert forall|m: int| 0 <= m < j - 1 implies !(rule_key(r) > rule_key(s.skip(1)[m])) by {
            assert(s.skip(1)[m] == s[m + 1]);
        }
        assert(j - 1 < s.skip(1).len() ==> rule_key(r) > rule_key(s.skip(1)[j - 1]));
        lemma_insert_rule_at(s.skip(1), r, j - 1);
        assert(insert_rule(r, s) == seq![s[0]] + insert_rule(r, s.skip(1)));
        assert(seq![s[0]] + (s.skip(1).take(j - 1) + seq![r] + s.skip(1).skip(j - 1)) =~= s.take(j)
            + seq![r] + s.skip(j)) by {
            lemma_skip_skip(s, 1, j - 1);
        }
    }
}

/// Find where a rule of weight `key` goes in the current order: in front of
/// the first rule of strictly smaller weight.
fn find_insert_pos(order: &Vec<usize>, rules: &Vec<Rule>, key: usize) -> (j: usize)
    requires
        forall|m: int| 0 <= m < order@.len() ==> order@[m] < rules@.len(),
    ensures
        j <= order@.len(),
        forall|m: int|
            0 <= m < j ==> !(key as nat > rule_key(index_views(order@, rules@)[m])),
        j < order@.len() ==> key as nat > rule_key(index_views(order@, rules@)[j as int]),
{
    let mut j: usize = 0;
    while j < order.len()
        invariant
            j <= order@.len(),
            forall|m: int| 0 <= m < order@.len() ==> order@[m] < rules@.len(),
            forall|m: int|
                0 <= m < j ==> !(key as nat > rule_key(index_views(order@, rules@)[m])),
        decreases order@.len() - j,
    {
        let idx = order[j];
        let other_key = rules[idx].get_path_pattern().len();
        assert(index_views(order@, rules@)[j as int] == rules@[idx as int]@);
        if key > other_key {
            return j;
        }
        j = j + 1;
    }
    j
}

/// Insert rule index `idx` into the weight-descending order.
fn insert_sorted_index(order: &mut Vec<usize>, rules: &Vec<Rule>, idx: usize)
    requires
        idx < rules@.len(),
        forall|m: int| 0 <= m < old(order)@.len() ==> old(order)@[m] < rules@.len(),
    ensures
        forall|m: int| 0 <= m < final(order)@.len() ==> final(order)@[m] < rules@.len(),
        index_views(final(order)@, rules@) == insert_rule(
            rules@[idx as int]@,
            index_views(old(order)@, rules@),
        ),
{
    let key = rules[idx].get_path_pattern().len();
    let j = find_insert_pos(order, rules, key);
    proof {
        lemma_insert_rule_at(index_views(order@, rules@), rules@[idx as int]@, j as int);
    }
    order.insert(j, idx);
    assert(index_views(order@, rules@) =~= index_views(old(order)@, rules@).take(j as int) + seq![
        rules@[idx as int]@,
    ] + index_views(old(order)@, rules@).skip(j as int));
}

impl Group {
    /// An empty group.
    pub(crate) fn new() -> (r: Group)
        ensures
            r@.agents.len() == 0,
            r@.rules.len() == 0,
            r@.crawl_delay is None,
            r@.req_rate is None,
    {
        Group { user_agents: Vec::new(), rules: Vec::new(), crawl_delay: None, req_rate: None }
    }

    /// Whether this group applies to the given user agent.
    pub(crate) fn applies_to(&self, useragent: &str) -> (r: bool)
        ensures
            r == group_applies(self@, useragent@),
    {
        let ua = str_to_chars(useragent);
        assert(ua@.skip(0) =~= ua@);
        let cut = match find_char_from(&ua, 0, '/') {
            Some(i) => i,
            None => ua.len(),
        };
        let prefix = copy_range(&ua, 0, cut);
        assert(prefix@ == agent_prefix(useragent@)) by {
            assert(ua@.subrange(0, cut as int) =~= if cut < ua@.len() {
                ua@.take(cut as int)
            } else {
                ua@
            });
        }
        let prefix_text = chars_to_string(&prefix);
        let lowered = lowercase_text(prefix_text.as_str());
        let lowered_chars = str_to_chars(lowered.as_str());
        let mut i: usize = 0;
        while i < self.user_agents.len()
            invariant
                i <= self.user_agents@.len(),
                lowered_chars@ == lowercased(agent_prefix(useragent@)),
                forall|m: int|
                    0 <= m < i ==> !has_substring(
                        lowercased(agent_prefix(useragent@)),
                        #[trigger] string_views(self.user_agents@)[m],
                    ),
            decreases self.user_agents@.len() - i,
        {
            let agent = str_to_chars(self.user_agents[i].as_str());
            assert(agent@ == string_views(self.user_agents@)[i as int]);
            if contains_substring(&lowered_chars, &agent) {
                assert(has_substring(lowercased(agent_prefix(useragent@)), self@.agents[i as int]));
                return true;
            }
            i = i + 1;
        }
        false
    }

    /// Record one more user agent, lowercased.
    pub(crate) fn push_useragent(&mut self, useragent: &str)
        ensures
            final(self)@.agents == old(self)@.agents.push(lowercased(useragent@)),
            final(self)@.rules == old(self)@.rules,
            final(self)@.crawl_delay == old(self)@.crawl_delay,
            final(self)@.req_rate == old(self)@.req_rate,
    {
        let lowered = lowercase_text(useragent);
        self.user_agents.push(lowered);
        assert(string_views(self.user_agents@) =~= string_views(old(self).user_agents@).push(
            lowercased(useragent@),
        ));
    }

    /// Record one more rule.
    pub(crate) fn push_rule(&mut self, rule: Rule)
        ensures
            final(self)@.rules == old(self)@.rules.push(rule@),
            final(self)@.agents == old(self)@.agents,
            final(self)@.crawl_delay == old(self)@.crawl_delay,
            final(self)@.req_rate == old(self)@.req_rate,
    {
        let ghost rv = rule@;
        self.rules.push(rule);
        assert(rule_views(self.rules@) =~= rule_views(old(self).rules@).push(rv));
    }

    /// Whether the given text is exactly one of the stored agent tokens.
    pub(crate) fn contains_user_agent(&self, user_agent: &str) -> (r: bool)
        ensures
            r == self@.agents.contains(user_agent@),
    {
        let mut i: usize = 0;
        while i < self.user_agents.len()
            invariant
                i <= self.user_agents@.len(),
                forall|m: int|
                    0 <= m < i ==> #[trigger] string_views(self.user_agents@)[m] != user_agent@,
            decreases self.user_agents@.len() - i,
        {
            assert(string_views(self.user_agents@)[i as int] == self.user_agents@[i as int]@);
            if str_eq_str(self.user_agents[i].as_str(), user_agent) {
                assert(self@.agents.contains(user_agent@));
                return true;
            }
            i = i + 1;
        }
        false
    }

    /// Record the crawl delay.
    pub(crate) fn set_crawl_delay(&mut self, delay: CrawlDelay)
        ensures
            final(self)@.crawl_delay == Some(delay),
            final(self)@.agents == old(self)@.agents,
            final(self)@.rules == old(self)@.rules,
            final(self)@.req_rate == old(self)@.req_rate,
    {
        self.crawl_delay = Some(delay);
    }

    /// The crawl delay, if one was declared.
    pub(crate) fn get_crawl_delay(&self) -> (r: Option<CrawlDelay>)
        ensures
            r == self@.crawl_delay,
    {
        self.crawl_delay
    }

    /// Record the request rate.
    pub(crate) fn set_req_rate(&mut self, req_rate: RequestRate)
        ensures
            final(self)@.req_rate == Some(req_rate),
            final(self)@.agents == old(self)@.agents,
            final(self)@.rules == old(self)@.rules,
            final(self)@.crawl_delay == old(self)@.crawl_delay,
    {
        self.req_rate = Some(req_rate);
    }

    /// The request rate, if one was declared.
    pub(crate) fn get_req_rate(&self) -> (r: Option<RequestRate>)
        ensures
            r == self@.req_rate,
    {
        self.req_rate
    }

    /// Whether this group is a default group (declares the agent `*`).
    pub(crate) fn is_default(&self) -> (r: bool)
        ensures
            r == is_default_group(self@),
    {
        let mut i: usize = 0;
        while i < self.user_agents.len()
            invariant
                i <= self.user_agents@.len(),
                forall|m: int| 0 <= m < i ==> #[trigger] string_views(self.user_agents@)[m] != "*"@,
            decreases self.user_agents@.len() - i,
        {
            assert(string_views(self.user_agents@)[i as int] == self.user_agents@[i as int]@);
            if str_eq_str(self.user_agents[i].as_str(), "*") {
                assert(self@.agents.contains("*"@));
                return true;
            }
            i = i + 1;
        }
        false
    }

    /// The indices of this group's rules in stable, weight-descending order.
    pub(crate) fn get_rules_sorted_by_path_len_desc(&self) -> (r: Vec<usize>)
        ensures
            forall|m: int| 0 <= m < r@.len() ==> r@[m] < self.rules@.len(),
            index_views(r@, self.rules@) == sort_rules_spec(self@.rules),
    {
        let mut order: Vec<usize> = Vec::new();
        let mut i: usize = 0;
        assert(index_views(order@, self.rules@) =~= sort_rules_spec(
            rule_views(self.rules@.take(0)),
        ));
        while i < self.rules.len()
            invariant
                i <= self.rules@.len(),
                forall|m: int| 0 <= m < order@.len() ==> order@[m] < self.rules@.len(),
                index_views(order@, self.rules@) == sort_rules_spec(
                    rule_views(self.rules@.take(i as int)),
                ),
            decreases self.rules@.len() - i,
    {
            insert_sorted_index(&mut order, &self.rules, i);
            proof {
                let taken = rule_views(self.rules@.take(i as int + 1));
                assert(taken.drop_last() =~= rule_views(self.rules@.take(i as int)));
                assert(taken.last() == self.rules@[i as int]@);
            }
            i = i + 1;
        }
        assert(rule_views(self.rules@.take(i as int)) =~= rule_views(self.rules@));
        order
    }

    /// The decision this group's rules give for a decoded path: the
    /// permission of the first matching rule in weight-descending order.
    pub(crate) fn rule_decision(&self, path: &Path) -> (r: Option<bool>)
        ensures
            r == rule_decision_spec(self@.rules, path@),
    {
        let order = self.get_rules_sorted_by_path_len_desc();
        let ghost sorted = sort_rules_spec(self@.rules);
        assert(index_views(order@, self.rules@).len() == order@.len());
        assert(sorted.skip(0) =~= sorted);
        let mut j: usize = 0;
        while j < order.len()
            invariant
                sorted == sort_rules_spec(self@.rules),
                j <= order@.len(),
                order@.len() == sorted.len(),
                forall|m: int| 0 <= m < order@.len() ==> order@[m] < self.rules@.len(),
                index_views(order@, self.rules@) == sorted,
                first_rule_match(sorted, path@) == first_rule_match(
                    sorted.skip(j as int),
                    path@,
                ),
            decreases order@.len() - j,
        {
            let idx = order[j];
            let rule = &self.rules[idx];
            proof {
                let oj = order@[j as int];
                assert(index_views(order@, self.rules@)[j as int] == self.rules@[oj as int]@);
            }
            assert(rule@ == sorted[j as int]);
            assert(sorted.skip(j as int)[0] == sorted[j as int]);
            if rule.applies_to(path) {
                assert(sorted.skip(j as int).len() > 0);
                assert(matches_from(sorted.skip(j as int)[0].pattern, path@));
                assert(first_rule_match(sorted.skip(j as int), path@) == Some(rule@.allowance));
                return Some(rule.get_allowance());
            }
            proof {
                lemma_skip_skip(sorted, j as int, 1);
            }
            j = j + 1;
        }
        assert(sorted.skip(j as int) =~= Seq::<SpecRule>::empty());
        None
    }
}

} // verus!
