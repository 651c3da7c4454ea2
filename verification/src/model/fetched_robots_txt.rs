//! A policy as fetched over HTTP: a parsed document, or a fixed posture when
//! the response status forbade or failed the fetch.

use vstd::prelude::*;
use crate::foreign::current_time;
use crate::model::robots_txt::{RobotsTxt, SpecRobotsTxt};

verus! {

/// The three postures a fetched policy can take.
#[derive(Debug)]
pub enum FetchedRobotsTxtContainer {
    /// The fetch was answered 401 or 403: nothing may be fetched.
    FetchDenied,
    /// The fetch failed with any other non-200 status: nothing is restricted.
    FetchFailed,
    /// The fetch succeeded and the body parsed into a document.
    Fetched(RobotsTxt),
}

/// The mathematical form of a fetched policy.
pub enum SpecFetched {
    Denied,
    Failed,
    Fetched(SpecRobotsTxt),
}

impl View for FetchedRobotsTxtContainer {
    type V = SpecFetched;

    open spec fn view(&self) -> SpecFetched {
        match self {
            FetchedRobotsTxtContainer::FetchDenied => SpecFetched::Denied,
            FetchedRobotsTxtContainer::FetchFailed => SpecFetched::Failed,
            FetchedRobotsTxtContainer::Fetched(doc) => SpecFetched::Fetched(doc@),
        }
    }
}

/// A policy obtained over the network, with the time it was fetched.
#[derive(Debug)]
pub struct FetchedRobotsTxt {
    pub fetched_at: std::time::SystemTime,
    pub container: FetchedRobotsTxtContainer,
}

impl View for FetchedRobotsTxt {
    type V = SpecFetched;

    open spec fn view(&self) -> SpecFetched {
        self.container@
    }
}

impl FetchedRobotsTxt {
    /// Wrap a posture, stamping the current time.
    pub(crate) fn new(container: FetchedRobotsTxtContainer) -> (r: FetchedRobotsTxt)
        ensures
            r@ == container@,
    {
        FetchedRobotsTxt { fetched_at: current_time(), container }
    }

    /// The wrapped posture.
    pub(crate) fn get_container(&self) -> (r: &FetchedRobotsTxtContainer)
        ensures
            r@ == self@,
    {
        &self.container
    }

    /// When this policy was fetched.
    pub fn get_fetched_at(&self) -> (r: &std::time::SystemTime)
        ensures
            *r == self.fetched_at,
    {
        &self.fetched_at
    }
}

} // verus!
