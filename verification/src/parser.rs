//! The robots.txt parsers and their diagnostics.
//!
//! The directives understood are `User-agent`, `Allow`, `Disallow`,
//! `Crawl-delay`, `Request-rate`, `Sitemap` and `Clean-param`; a leading
//! byte-order mark is removed; anything malformed becomes a warning, never a
//! failure.

pub mod fetched_robots_txt_parser;
pub mod line;
pub mod numbers;
pub mod parse_result;
pub mod robots_txt_parser;
pub mod warning;
pub mod warning_reason;

pub use fetched_robots_txt_parser::parse as parse_fetched_robots_txt;
pub use parse_result::ParseResult;
pub use robots_txt_parser::parse as parse_robots_txt;
pub use warning::ParseWarning;
pub use warning_reason::WarningReason;
