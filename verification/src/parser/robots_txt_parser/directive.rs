//! One `key: value` directive extracted from a document line.

use vstd::prelude::*;
use crate::foreign::{lowercased, lowercase_text};

verus! {

/// The mathematical form of a directive.
#[verifier::ext_equal]
pub struct SpecDirective {
    pub key: Seq<char>,
    pub value: Seq<char>,
}

/// A directive: the trimmed text before the first `:` and the trimmed text
/// after it.
#[derive(Debug)]
pub struct Directive {
    pub key: String,
    pub value: String,
}

impl View for Directive {
    type V = SpecDirective;

    open spec fn view(&self) -> SpecDirective {
        SpecDirective { key: self.key@, value: self.value@ }
    }
}

impl Directive {
    /// Pair a directive key with its value.
    pub fn new(key: String, value: String) -> (r: Directive)
        ensures
            r@ == (SpecDirective { key: key@, value: value@ }),
    {
        Directive { key, value }
    }

    /// The key, lowercased: directive keys are recognized case-insensitively.
    pub fn get_key_lowercase(&self) -> (r: String)
        ensures
            r@ == lowercased(self@.key),
    {
        lowercase_text(self.key.as_str())
    }

    /// The raw value.
    pub fn get_value(&self) -> (r: &String)
        ensures
            r@ == self@.value,
    {
        &self.value
    }
}

} // verus!
