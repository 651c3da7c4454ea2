//! A parse warning: the line it arose on, the raw line text, and the reason.

use vstd::prelude::*;
use crate::parser::line::{Line, SpecLine};
use crate::parser::warning_reason::{SpecWarningReason, WarningReason};

verus! {

/// The mathematical form of a warning.
#[verifier::ext_equal]
pub struct SpecWarning {
    pub line_no: int,
    pub line: Seq<char>,
    pub reason: SpecWarningReason,
}

/// A non-fatal problem found while parsing one line.
#[derive(Debug)]
pub struct ParseWarning {
    pub line_no: usize,
    pub line: String,
    pub reason: WarningReason,
}

impl View for ParseWarning {
    type V = SpecWarning;

    open spec fn view(&self) -> SpecWarning {
        SpecWarning { line_no: self.line_no as int, line: self.line@, reason: self.reason@ }
    }
}

/// The views of a sequence of warnings.
pub open spec fn warning_views(s: Seq<ParseWarning>) -> Seq<SpecWarning> {
    s.map_values(|w: ParseWarning| w@)
}

/// The warning a given reason raises for a given line.
pub open spec fn warning_for(line: SpecLine, reason: SpecWarningReason) -> SpecWarning {
    SpecWarning { line_no: line.number, line: line.text, reason }
}

impl ParseWarning {
    /// The 1-based number of the offending line.
    pub fn get_line_no(&self) -> (r: usize)
        ensures
            r as int == self@.line_no,
    {
        self.line_no
    }

    /// The raw text of the offending line.
    pub fn get_line_text(&self) -> (r: &String)
        ensures
            r@ == self@.line,
    {
        &self.line
    }

    /// Why the line was rejected or questioned.
    pub fn get_reason(&self) -> (r: &WarningReason)
        ensures
            r@ == self@.reason,
    {
        &self.reason
    }

    /// Build a warning carrying the given reason for the given line.
    pub(crate) fn with_reason(line: &Line, reason: WarningReason) -> (r: ParseWarning)
        ensures
            r@ == warning_for(line@, reason@),
    {
        ParseWarning { line_no: line.get_line_number(), line: line.get_line_text().clone(), reason }
    }

    pub(crate) fn invalid_directive_format(line: &Line) -> (r: ParseWarning)
        ensures
            r@ == warning_for(line@, SpecWarningReason::InvalidDirectiveFormat),
    {
        Self::with_reason(line, WarningReason::InvalidDirectiveFormat)
    }

    pub(crate) fn directive_key_is_empty(line: &Line) -> (r: ParseWarning)
        ensures
            r@ == warning_for(line@, SpecWarningReason::DirectiveKeyIsEmpty),
    {
        Self::with_reason(line, WarningReason::DirectiveKeyIsEmpty)
    }

    pub(crate) fn unsupported_directive_key(line: &Line, key: String) -> (r: ParseWarning)
        ensures
            r@ == warning_for(line@, SpecWarningReason::UnsupportedDirectiveKey(key@)),
    {
        Self::with_reason(line, WarningReason::UnsupportedDirectiveKey(key))
    }

    pub(crate) fn user_agent_cannot_be_empty(line: &Line) -> (r: ParseWarning)
        ensures
            r@ == warning_for(line@, SpecWarningReason::UserAgentCannotBeEmpty),
    {
        Self::with_reason(line, WarningReason::UserAgentCannotBeEmpty)
    }

    pub(crate) fn wrong_path_format(line: &Line) -> (r: ParseWarning)
        ensures
            r@ == warning_for(line@, SpecWarningReason::WrongPathFormat),
    {
        Self::with_reason(line, WarningReason::WrongPathFormat)
    }

    pub(crate) fn directive_without_user_agent(line: &Line) -> (r: ParseWarning)
        ensures
            r@ == warning_for(line@, SpecWarningReason::DirectiveWithoutUserAgent),
    {
        Self::with_reason(line, WarningReason::DirectiveWithoutUserAgent)
    }

    pub(crate) fn parse_crawl_delay_error(line: &Line) -> (r: ParseWarning)
        ensures
            r@ == warning_for(line@, SpecWarningReason::ParseCrawlDelayError),
    {
        Self::with_reason(line, WarningReason::ParseCrawlDelayError)
    }

    pub(crate) fn wrong_request_rate_format(line: &Line) -> (r: ParseWarning)
        ensures
            r@ == warning_for(line@, SpecWarningReason::WrongRequestRateFormat),
    {
        Self::with_reason(line, WarningReason::WrongRequestRateFormat)
    }

    pub(crate) fn parse_request_rate(line: &Line) -> (r: ParseWarning)
        ensures
            r@ == warning_for(line@, SpecWarningReason::ParseRequestRate),
    {
        Self::with_reason(line, WarningReason::ParseRequestRate)
    }

    pub(crate) fn parse_url(line: &Line) -> (r: ParseWarning)
        ensures
            r@ == warning_for(line@, SpecWarningReason::ParseUrl),
    {
        Self::with_reason(line, WarningReason::ParseUrl)
    }

    pub(crate) fn wrong_clean_param_format(line: &Line) -> (r: ParseWarning)
        ensures
            r@ == warning_for(line@, SpecWarningReason::WrongCleanParamFormat),
    {
        Self::with_reason(line, WarningReason::WrongCleanParamFormat)
    }

    pub(crate) fn ignored_clean_params(line: &Line, ignored: Vec<String>) -> (r: ParseWarning)
        ensures
            r@ == warning_for(
                line@,
                SpecWarningReason::IgnoredCleanParams(crate::model::group::string_views(ignored@)),
            ),
    {
        Self::with_reason(line, WarningReason::IgnoredCleanParams(ignored))
    }
}

} // verus!
