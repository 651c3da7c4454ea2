//! One `Allow` or `Disallow` line: a path pattern plus a permission.

use vstd::prelude::*;
use crate::model::path::Path;
use crate::model::path_pattern::{PathPattern, SpecPathToken, matches_from};

verus! {

/// The mathematical form of a rule.
#[verifier::ext_equal]
pub struct SpecRule {
    pub pattern: Seq<SpecPathToken>,
    pub allowance: bool,
}

/// A single rule: `allowance` is true for `Allow` and false for `Disallow`.
#[derive(Debug)]
pub struct Rule {
    pub path_pattern: PathPattern,
    pub allowance: bool,
}

impl View for Rule {
    type V = SpecRule;

    open spec fn view(&self) -> SpecRule {
        SpecRule { pattern: self.path_pattern@, allowance: self.allowance }
    }
}

/// The views of a sequence of rules.
pub open spec fn rule_views(s: Seq<Rule>) -> Seq<SpecRule> {
    s.map_values(|r: Rule| r@)
}

impl Rule {
    /// Pair a compiled pattern with its permission.
    pub fn new(path_pattern: PathPattern, allowance: bool) -> (r: Rule)
        ensures
            r@ == (SpecRule { pattern: path_pattern@, allowance }),
    {
        Rule { path_pattern, allowance }
    }

    /// Whether this rule's pattern matches the given decoded path.
    pub(crate) fn applies_to(&self, path: &Path) -> (r: bool)
        ensures
            r == matches_from(self@.pattern, path@),
    {
        self.path_pattern.applies_to(path)
    }

    /// The permission this rule grants or withholds.
    pub(crate) fn get_allowance(&self) -> (r: bool)
        ensures
            r == self@.allowance,
    {
        self.allowance
    }

    /// The rule's compiled pattern.
    pub(crate) fn get_path_pattern(&self) -> (r: &PathPattern)
        ensures
            r@ == self@.pattern,
    {
        &self.path_pattern
    }
}

} // verus!
