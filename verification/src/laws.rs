//! Laws of the policy evaluator, stated and proved against the same
//! specifications the executable functions are verified against.

use vstd::prelude::*;
use crate::model::group::{SpecGroup, group_applies, is_default_group, rule_key, insert_rule,
    sort_rules_spec, first_rule_match, rule_decision_spec};
use crate::model::path_pattern::matches_from;
use crate::model::request_url::SpecUrl;
use crate::model::robots_txt::SpecRobotsTxt;
use crate::model::rule::SpecRule;
use crate::service::{can_fetch_spec, find_explicit, first_default_group, kept_pairs_rec};

verus! {

/// A rule list ordered by weight holds exactly the rules it was built from.
proof fn lemma_insert_rule_contains(r: SpecRule, s: Seq<SpecRule>, x: SpecRule)
    ensures
        insert_rule(r, s).contains(x) <==> (x == r || s.contains(x)),
    decreases s.len(),
{
    if s.len() == 0 {
        assert(insert_rule(r, s) =~= seq![r]);
        assert(seq![r].contains(x) <==> x == r) by {
            if x == r {
                assert(seq![r][0] == x);
            }
        }
    } else if rule_key(r) > rule_key(s[0]) {
        let t = seq![r] + s;
        assert(insert_rule(r, s) == t);
        if x == r {
            assert(t[0] == x);
        }
        if s.contains(x) {
            let i = choose|i: int| 0 <= i < s.len() && s[i] == x;
            assert(t[i + 1] == x);
        }
        if t.contains(x) {
            let i = choose|i: int| 0 <= i < t.len() && t[i] == x;
            if i > 0 {
                assert(s[i - 1] == x);
            }
        }
    } else {
        lemma_insert_rule_contains(r, s.skip(1), x);
        let t = seq![s[0]] + insert_rule(r, s.skip(1));
        assert(insert_rule(r, s) == t);
        if x == r || s.contains(x) {
            if x == s[0] {
                assert(t[0] == x);
            } else if x == r || s.skip(1).contains(x) {
                let i = choose|i: int|
                    0 <= i < insert_rule(r, s.skip(1)).len() && insert_rule(r, s.skip(1))[i] == x;
                assert(t[i + 1] == x);
            } else {
                let i = choose|i: int| 0 <= i < s.len() && s[i] == x;
                assert(i > 0);
                assert(s.skip(1)[i - 1] == x);
            }
        }
        if t.contains(x) {
            let i = choose|i: int| 0 <= i < t.len() && t[i] == x;
            if i == 0 {
                assert(s[0] == x);
            } else {
                assert(insert_rule(r, s.skip(1))[i - 1] == x);
                if !(x == r) {
                    assert(s.skip(1).contains(x));
                    let m = choose|m: int| 0 <= m < s.skip(1).len() && s.skip(1)[m] == x;
                    assert(s[m + 1] == x);
                }
            }
        }
    }
}

/// Sorting a rule list neither adds nor loses rules.
proof fn lemma_sort_rules_contains(s: Seq<SpecRule>, x: SpecRule)
    ensures
        sort_rules_spec(s).contains(x) <==> s.contains(x),
    decreases s.len(),
{
    if s.len() > 0 {
        lemma_sort_rules_contains(s.drop_last(), x);
        lemma_insert_rule_contains(s.last(), sort_rules_spec(s.drop_last()), x);
        if s.contains(x) {
            let i = choose|i: int| 0 <= i < s.len() && s[i] == x;
            if i < s.len() - 1 {
                assert(s.drop_last()[i] == x);
            }
        }
        if x == s.last() || s.drop_last().contains(x) {
            if x == s.last() {
                assert(s[s.len() - 1] == x);
            } else {
                let i = choose|i: int| 0 <= i < s.drop_last().len() && s.drop_last()[i] == x;
                assert(s[i] == x);
            }
        }
    }
}

/// A rule list ordered descending by weight.
pub open spec fn sorted_desc(s: Seq<SpecRule>) -> bool {
    forall|m: int, k: int| 0 <= m < k < s.len() ==> rule_key(s[m]) >= rule_key(s[k])
}

/// Inserting into a descending list keeps it descending.
proof fn lemma_insert_rule_sorted(r: SpecRule, s: Seq<SpecRule>)
    requires
        sorted_desc(s),
    ensures
        sorted_desc(insert_rule(r, s)),
    decreases s.len(),
{
    if s.len() == 0 {
    } else if rule_key(r) > rule_key(s[0]) {
        let t = seq![r] + s;
        assert forall|m: int, k: int| 0 <= m < k < t.len() implies rule_key(t[m]) >= rule_key(
            t[k],
        ) by {
            if m > 0 {
                assert(t[m] == s[m - 1] && t[k] == s[k - 1]);
            } else {
                assert(t[k] == s[k - 1]);
                if k > 1 {
                    assert(rule_key(s[0]) >= rule_key(s[k - 1]));
                }
            }
        }
    } else {
        assert(sorted_desc(s.skip(1))) by {
            assert(forall|m: int, k: int|
                0 <= m < k < s.skip(1).len() ==> s.skip(1)[m] == s[m + 1] && s.skip(1)[k] == s[k
                    + 1]);
        }
        lemma_insert_rule_sorted(r, s.skip(1));
        let t0 = insert_rule(r, s.skip(1));
        let t = seq![s[0]] + t0;
        assert forall|m: int, k: int| 0 <= m < k < t.len() implies rule_key(t[m]) >= rule_key(
            t[k],
        ) by {
            if m > 0 {
                assert(t[m] == t0[m - 1] && t[k] == t0[k - 1]);
            } else {
                assert(t[k] == t0[k - 1]);
                lemma_insert_rule_contains(r, s.skip(1), t0[k - 1]);
                if t0[k - 1] == r {
                } else {
                    assert(s.skip(1).contains(t0[k - 1])) by {
                        assert(t0.contains(t0[k - 1])) by {
                            assert(0 <= k - 1 < t0.len());
                        }
                    }
                    let j = choose|j: int|
                        0 <= j < s.skip(1).len() && s.skip(1)[j] == t0[k - 1];
                    assert(s[j + 1] == t0[k - 1]);
                    assert(rule_key(s[0]) >= rule_key(s[j + 1]));
                }
            }
        }
    }
}

/// The stable ordering is descending.
proof fn lemma_sort_rules_sorted(s: Seq<SpecRule>)
    ensures
        sorted_desc(sort_rules_spec(s)),
    decreases s.len(),
{
    if s.len() > 0 {
        lemma_sort_rules_sorted(s.drop_last());
        lemma_insert_rule_sorted(s.last(), sort_rules_spec(s.drop_last()));
    }
}

/// Where the first match in a list lies: at some position whose earlier
/// positions all fail to match.
proof fn lemma_first_rule_match_found(t: Seq<SpecRule>, subject: Seq<char>, b: bool)
    requires
        first_rule_match(t, subject) == Some(b),
    ensures
        exists|k: int|
            0 <= k < t.len() && matches_from(#[trigger] t[k].pattern, subject) && t[k].allowance
                == b && (forall|m: int| 0 <= m < k ==> !matches_from(#[trigger] t[m].pattern, subject)),
    decreases t.len(),
{
    if matches_from(t[0].pattern, subject) {
        assert(0 <= 0 < t.len() && matches_from(t[0].pattern, subject) && t[0].allowance == b && (
        forall|m: int| 0 <= m < 0 ==> !matches_from(#[trigger] t[m].pattern, subject)));
    } else {
        lemma_first_rule_match_found(t.skip(1), subject, b);
        let k0 = choose|k: int|
            0 <= k < t.skip(1).len() && matches_from(#[trigger] t.skip(1)[k].pattern, subject)
                && t.skip(1)[k].allowance == b && (forall|m: int|
                0 <= m < k ==> !matches_from(#[trigger] t.skip(1)[m].pattern, subject));
        let k = k0 + 1;
        assert(t[k] == t.skip(1)[k0]);
        assert forall|m: int| 0 <= m < k implies !matches_from(
            #[trigger] t[m].pattern,
            subject,
        ) by {
            if m > 0 {
                assert(t.skip(1)[m - 1] == t[m]);
            }
        }
        assert(0 <= k < t.len() && matches_from(t[k].pattern, subject) && t[k].allowance == b && (
        forall|m: int| 0 <= m < k ==> !matches_from(#[trigger] t[m].pattern, subject)));
    }
}

/// Specificity ordering: when a rule list reaches a decision for a subject,
/// the decision is the permission of a matching rule of maximal weight; no
/// matching rule outweighs the one that decided.
pub proof fn lemma_specificity_wins(rules: Seq<SpecRule>, subject: Seq<char>, b: bool)
    requires
        rule_decision_spec(rules, subject) == Some(b),
    ensures
        exists|i: int|
            0 <= i < rules.len() && matches_from(#[trigger] rules[i].pattern, subject)
                && rules[i].allowance == b && (forall|j: int|
                0 <= j < rules.len() && matches_from(#[trigger] rules[j].pattern, subject)
                    ==> rule_key(rules[j]) <= rule_key(rules[i])),
{
    let sorted = sort_rules_spec(rules);
    lemma_sort_rules_sorted(rules);
    lemma_first_rule_match_found(sorted, subject, b);
    let k = choose|k: int|
        0 <= k < sorted.len() && matches_from(#[trigger] sorted[k].pattern, subject)
            && sorted[k].allowance == b && (forall|m: int|
            0 <= m < k ==> !matches_from(#[trigger] sorted[m].pattern, subject));
    assert(sorted.contains(sorted[k]));
    lemma_sort_rules_contains(rules, sorted[k]);
    let i = choose|i: int| 0 <= i < rules.len() && rules[i] == sorted[k];
    assert forall|j: int|
        0 <= j < rules.len() && matches_from(#[trigger] rules[j].pattern, subject) implies rule_key(
        rules[j],
    ) <= rule_key(rules[i]) by {
        assert(rules.contains(rules[j]));
        lemma_sort_rules_contains(rules, rules[j]);
        let m = choose|m: int| 0 <= m < sorted.len() && sorted[m] == rules[j];
        if m < k {
            assert(!matches_from(sorted[m].pattern, subject));
        } else if m > k {
            assert(rule_key(sorted[k]) >= rule_key(sorted[m]));
        }
    }
    assert(0 <= i < rules.len() && matches_from(rules[i].pattern, subject) && rules[i].allowance
        == b && (forall|j: int|
        0 <= j < rules.len() && matches_from(#[trigger] rules[j].pattern, subject) ==> rule_key(
            rules[j],
        ) <= rule_key(rules[i])));
}

/// No applying group and no default group present: a same-origin URL may be
/// fetched.  An empty document is the simplest such case.
pub proof fn lemma_default_allow(doc: SpecRobotsTxt, ua: Seq<char>, url: SpecUrl)
    requires
        url.origin == doc.origin,
        forall|i: int|
            0 <= i < doc.groups.len() ==> !group_applies(#[trigger] doc.groups[i], ua)
                && !is_default_group(doc.groups[i]),
    ensures
        can_fetch_spec(doc, ua, url) == true,
{
    lemma_find_explicit_none(doc.groups, ua, crate::service::decision_fn(url));
    lemma_first_default_none(doc.groups);
}

/// With no applying group, the explicit pass yields nothing.
proof fn lemma_find_explicit_none<T>(
    groups: Seq<SpecGroup>,
    ua: Seq<char>,
    f: spec_fn(SpecGroup) -> Option<T>,
)
    requires
        forall|i: int| 0 <= i < groups.len() ==> !group_applies(#[trigger] groups[i], ua),
    ensures
        find_explicit(groups, ua, f) is None,
    decreases groups.len(),
{
    if groups.len() > 0 {
        assert forall|i: int| 0 <= i < groups.skip(1).len() implies !group_applies(
            #[trigger] groups.skip(1)[i],
            ua,
        ) by {
            assert(groups.skip(1)[i] == groups[i + 1]);
        }
        lemma_find_explicit_none(groups.skip(1), ua, f);
    }
}

/// With no default group, the fallback pass yields nothing.
proof fn lemma_first_default_none(groups: Seq<SpecGroup>)
    requires
        forall|i: int| 0 <= i < groups.len() ==> !is_default_group(#[trigger] groups[i]),
    ensures
        first_default_group(groups) is None,
    decreases groups.len(),
{
    if groups.len() > 0 {
        assert forall|i: int| 0 <= i < groups.skip(1).len() implies !is_default_group(
            #[trigger] groups.skip(1)[i],
        ) by {
            assert(groups.skip(1)[i] == groups[i + 1]);
        }
        lemma_first_default_none(groups.skip(1));
    }
}

/// Cross-origin guard: a URL on another origin than the document's is never
/// allowed by it.
pub proof fn lemma_cross_origin_denies(doc: SpecRobotsTxt, ua: Seq<char>, url: SpecUrl)
    requires
        url.origin != doc.origin,
    ensures
        !can_fetch_spec(doc, ua, url),
{
}

/// Stripping the kept pairs again keeps all of them: the filtering step of
/// query normalization is idempotent.  Together with the query codec's round
/// trip, this is why normalizing a URL twice yields what normalizing it once
/// yields.
pub proof fn lemma_kept_pairs_idempotent(
    pairs: Seq<(Seq<char>, Seq<char>)>,
    strip: Seq<Seq<char>>,
)
    ensures
        kept_pairs_rec(kept_pairs_rec(pairs, strip), strip) == kept_pairs_rec(pairs, strip),
    decreases pairs.len(),
{
    if pairs.len() == 0 {
        assert(kept_pairs_rec(pairs, strip) =~= Seq::<(Seq<char>, Seq<char>)>::empty());
    } else {
        lemma_kept_pairs_idempotent(pairs.skip(1), strip);
        let rest = kept_pairs_rec(pairs.skip(1), strip);
        if !strip.contains(pairs[0].0) {
            let whole = seq![pairs[0]] + rest;
            assert(kept_pairs_rec(pairs, strip) =~= whole);
            assert(whole[0] == pairs[0]);
            assert(whole.skip(1) =~= rest);
            assert(kept_pairs_rec(whole, strip) =~= seq![pairs[0]] + kept_pairs_rec(rest, strip));
            assert(kept_pairs_rec(whole, strip) =~= whole);
        } else {
            assert(kept_pairs_rec(pairs, strip) =~= rest);
        }
    }
}

} // verus!
