//! One `Clean-param` entry: the query parameters to strip from URLs whose
//! path matches a pattern.

use vstd::prelude::*;
use crate::model::group::string_views;
use crate::model::path_pattern::{PathPattern, SpecPathToken};

verus! {

/// The mathematical form of a clean-param entry.
#[verifier::ext_equal]
pub struct SpecCleanParams {
    pub pattern: Seq<SpecPathToken>,
    pub params: Seq<Seq<char>>,
}

/// A clean-param entry: a path pattern and the parameter names to strip when
/// it matches.
#[derive(Debug)]
pub struct CleanParams {
    pub path_pattern: PathPattern,
    pub params: Vec<String>,
}

impl View for CleanParams {
    type V = SpecCleanParams;

    open spec fn view(&self) -> SpecCleanParams {
        SpecCleanParams { pattern: self.path_pattern@, params: string_views(self.params@) }
    }
}

/// The views of a sequence of clean-param entries.
pub open spec fn clean_params_views(s: Seq<CleanParams>) -> Seq<SpecCleanParams> {
    s.map_values(|c: CleanParams| c@)
}

impl CleanParams {
    /// Pair a pattern with the parameter names it strips.
    pub fn new(path_pattern: PathPattern, params: Vec<String>) -> (r: CleanParams)
        ensures
            r@ == (SpecCleanParams { pattern: path_pattern@, params: string_views(params@) }),
    {
        CleanParams { path_pattern, params }
    }

    /// The entry's pattern.
    pub fn get_path_pattern(&self) -> (r: &PathPattern)
        ensures
            r@ == self@.pattern,
    {
        &self.path_pattern
    }

    /// The parameter names the entry strips.
    pub fn get_params(&self) -> (r: &Vec<String>)
        ensures
            string_views(r@) == self@.params,
    {
        &self.params
    }
}

} // verus!
