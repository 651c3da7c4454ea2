//! The policy model a robots.txt document parses into.

pub mod clean_params;
pub mod crawl_delay;
pub mod fetched_robots_txt;
pub mod group;
pub mod path;
pub mod path_pattern;
pub mod request_rate;
pub mod request_url;
pub mod robots_txt;
pub mod rule;

pub use clean_params::CleanParams;
pub use crawl_delay::CrawlDelay;
pub use fetched_robots_txt::FetchedRobotsTxt;
pub use group::Group;
pub use path::Path;
pub use path_pattern::PathPattern;
pub use request_rate::RequestRate;
pub use request_url::RequestUrl;
pub use robots_txt::RobotsTxt;
pub use rule::Rule;
