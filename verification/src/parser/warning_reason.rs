//! The closed set of reasons a directive can be rejected or questioned.

use vstd::prelude::*;
use crate::model::group::string_views;

verus! {

/// The mathematical form of a warning reason.
pub enum SpecWarningReason {
    InvalidDirectiveFormat,
    DirectiveKeyIsEmpty,
    UnsupportedDirectiveKey(Seq<char>),
    UserAgentCannotBeEmpty,
    DirectiveWithoutUserAgent,
    ParseCrawlDelayError,
    WrongRequestRateFormat,
    ParseRequestRate,
    ParseUrl,
    WrongCleanParamFormat,
    IgnoredCleanParams(Seq<Seq<char>>),
    WrongPathFormat,
}

/// Why a line was rejected or questioned during parsing.  Every reason is
/// recoverable: the offending directive is dropped and parsing continues.
#[derive(Debug)]
pub enum WarningReason {
    /// The line has no `:` separator.  Example: `` ` ``
    InvalidDirectiveFormat,
    /// The text before the first `:` is empty.  Example: `: value`
    DirectiveKeyIsEmpty,
    /// The key is not one this parser recognizes; it is carried lowercased.
    UnsupportedDirectiveKey(String),
    /// A `User-agent` directive with an empty value.
    UserAgentCannotBeEmpty,
    /// A group-scoped directive before any `User-agent` directive.
    DirectiveWithoutUserAgent,
    /// The `Crawl-delay` value is not a decimal number of seconds.
    ParseCrawlDelayError,
    /// The `Request-rate` value is not two `/`-separated fields.
    WrongRequestRateFormat,
    /// A `Request-rate` field is not a non-negative integer.
    ParseRequestRate,
    /// The `Sitemap` value does not parse as an absolute URL.
    ParseUrl,
    /// The `Clean-param` value has no tokens or more than two.
    WrongCleanParamFormat,
    /// These `Clean-param` names hold characters outside `A-Za-z0-9._-` and
    /// were ignored; the valid names of the same directive are still kept.
    IgnoredCleanParams(Vec<String>),
    /// An `Allow`/`Disallow` value that is non-empty yet starts with neither
    /// `*` nor `/`.
    WrongPathFormat,
}

impl View for WarningReason {
    type V = SpecWarningReason;

    open spec fn view(&self) -> SpecWarningReason {
        match self {
            WarningReason::InvalidDirectiveFormat => SpecWarningReason::InvalidDirectiveFormat,
            WarningReason::DirectiveKeyIsEmpty => SpecWarningReason::DirectiveKeyIsEmpty,
            WarningReason::UnsupportedDirectiveKey(key) => SpecWarningReason::UnsupportedDirectiveKey(
                key@,
            ),
            WarningReason::UserAgentCannotBeEmpty => SpecWarningReason::UserAgentCannotBeEmpty,
            WarningReason::DirectiveWithoutUserAgent => SpecWarningReason::DirectiveWithoutUserAgent,
            WarningReason::ParseCrawlDelayError => SpecWarningReason::ParseCrawlDelayError,
            WarningReason::WrongRequestRateFormat => SpecWarningReason::WrongRequestRateFormat,
            WarningReason::ParseRequestRate => SpecWarningReason::ParseRequestRate,
            WarningReason::ParseUrl => SpecWarningReason::ParseUrl,
            WarningReason::WrongCleanParamFormat => SpecWarningReason::WrongCleanParamFormat,
            WarningReason::IgnoredCleanParams(names) => SpecWarningReason::IgnoredCleanParams(
                string_views(names@),
            ),
            WarningReason::WrongPathFormat => SpecWarningReason::WrongPathFormat,
        }
    }
}

} // verus!
