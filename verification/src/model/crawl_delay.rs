//! The pause a `Crawl-Delay` directive asks for.

use vstd::prelude::*;

verus! {

/// A duration in whole seconds plus nanoseconds.  The directive
/// `Crawl-delay: 2.35` yields `CrawlDelay { seconds: 2, nanoseconds: 350000000 }`.
#[derive(Clone, Copy, Debug, PartialEq, Eq, Structural)]
pub struct CrawlDelay {
    pub seconds: u64,
    pub nanoseconds: u32,
}

} // verus!
