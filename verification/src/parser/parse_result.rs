//! What a parse call hands back: the result plus the warnings gathered.

use vstd::prelude::*;
use crate::parser::warning::ParseWarning;

verus! {

/// A parse result: parsing never fails outright, so there is always a result;
/// the warnings record every directive that was dropped or questioned.
pub struct ParseResult<R> {
    pub result: R,
    pub warnings: Vec<ParseWarning>,
}

impl<R> ParseResult<R> {
    /// Wrap a result with no warnings.
    pub(crate) fn new(result: R) -> (r: ParseResult<R>)
        ensures
            r.result == result,
            r.warnings@.len() == 0,
    {
        ParseResult { result, warnings: Vec::new() }
    }

    /// Wrap a result with the warnings gathered while producing it.
    pub(crate) fn new_with_warnings(result: R, warnings: Vec<ParseWarning>) -> (r: ParseResult<R>)
        ensures
            r.result == result,
            r.warnings == warnings,
    {
        ParseResult { result, warnings }
    }

    /// Take the result, dropping the warnings.
    pub fn get_result(self) -> (r: R)
        ensures
            r == self.result,
    {
        self.result
    }

    /// The warnings, in the order their lines appear in the document.
    pub fn get_warnings(&self) -> (r: &Vec<ParseWarning>)
        ensures
            r == self.warnings,
    {
        &self.warnings
    }

    /// The result, or the first warning if there was any.
    pub fn ok_ref(&self) -> (r: Result<&R, &ParseWarning>)
        ensures
            match r {
                Ok(res) => self.warnings@.len() == 0 && *res == self.result,
                Err(w) => self.warnings@.len() > 0 && *w == self.warnings@[0],
            },
    {
        if self.warnings.len() > 0 {
            Err(&self.warnings[0])
        } else {
            Ok(&self.result)
        }
    }

    /// The result, or the first warning if there was any.
    pub fn ok(self) -> (r: Result<R, ParseWarning>)
        ensures
            match r {
                Ok(res) => self.warnings@.len() == 0 && res == self.result,
                Err(w) => self.warnings@.len() > 0 && w == self.warnings@[0],
            },
    {
        let ParseResult { result, mut warnings } = self;
        if warnings.is_empty() {
            Ok(result)
        } else {
            let first_warning = warnings.remove(0);
            Err(first_warning)
        }
    }
}

} // verus!
