use robotparser::model::{CrawlDelay, RequestUrl};
use robotparser::parser::{parse_fetched_robots_txt, parse_robots_txt};
use url::Url;

fn origin_text(url_text: &str) -> String {
    Url::parse(url_text).unwrap().origin().ascii_serialization()
}

fn request_url(url_text: &str) -> RequestUrl {
    let parsed = Url::parse(url_text).unwrap();
    RequestUrl::new(
        parsed.origin().ascii_serialization(),
        parsed.path().to_string(),
        parsed.query().map(|q| q.to_string()),
    )
}

fn display_url(url: &RequestUrl) -> String {
    match url.get_query() {
        Some(q) => format!("{}{}?{}", url.get_origin(), url.get_path(), q),
        None => format!("{}{}", url.get_origin(), url.get_path()),
    }
}

/// Any UTF-8 text parses into a usable document, with diagnostics instead of
/// failures.
#[test]
fn test_totality_on_arbitrary_text() {
    let inputs = [
        "",
        ":",
        ":::::",
        "\u{feff}",
        "no separators at all",
        "User-agent: *\nDisallow: /\u{1f980}/caf\u{e9}\n\u{0}\u{7}",
        "Disallow: /\nAllow: /\nCrawl-delay: x\nRequest-rate: 1/\nSitemap: :\nClean-param: a b c",
    ];
    for input in inputs.iter() {
        let result = parse_robots_txt(origin_text("https://example.com/robots.txt"), input);
        let parser = result.get_result();
        // The parsed document always answers queries.
        parser.can_fetch("*", &request_url("https://example.com/anything"));
    }
}

/// Longer (more specific) patterns win over shorter ones.
#[test]
fn test_specificity_ordering() {
    let doc = "User-agent: *\nDisallow: /a\nAllow: /a/b\n";
    let parser = parse_robots_txt(origin_text("https://example.com/robots.txt"), doc).get_result();
    assert!(parser.can_fetch("*", &request_url("https://example.com/a/b/c")));
    assert!(!parser.can_fetch("*", &request_url("https://example.com/a/x")));
}

/// An empty document, or one whose groups never match the agent, allows all.
#[test]
fn test_default_allow() {
    let parser = parse_robots_txt(origin_text("https://example.com/robots.txt"), "").get_result();
    assert!(parser.can_fetch("anybot", &request_url("https://example.com/everything/under")));

    let doc = "User-agent: somebot\nDisallow: /\n";
    let parser = parse_robots_txt(origin_text("https://example.com/robots.txt"), doc).get_result();
    assert!(parser.can_fetch("otherbot", &request_url("https://example.com/private")));
}

/// The first declared group whose agent token occurs in the queried agent
/// wins, even when a later group names the agent more exactly.
#[test]
fn test_first_default_wins_substring_collision() {
    let doc = "User-agent: Googlebot\nDisallow: /\nUser-agent: Googlebot-Mobile\nAllow: /\n";
    let parser = parse_robots_txt(origin_text("https://example.com/robots.txt"), doc).get_result();
    assert!(!parser.can_fetch("Googlebot-Mobile", &request_url("https://example.com/x")));
}

/// `$` anchors the end of the subject; `*` bridges to the next literal.
#[test]
fn test_anchors() {
    let doc = "User-agent: *\nDisallow: */rss$\n";
    let parser = parse_robots_txt(origin_text("https://example.com/robots.txt"), doc).get_result();
    assert!(!parser.can_fetch("*", &request_url("https://example.com/feed/rss")));
    assert!(parser.can_fetch("*", &request_url("https://example.com/feed/rss/extra")));

    let doc = "User-agent: *\nDisallow: /*video.html\n";
    let parser = parse_robots_txt(origin_text("https://example.com/robots.txt"), doc).get_result();
    assert!(!parser.can_fetch("*", &request_url("https://example.com/x-video.html")));
}

/// Normalizing twice yields what normalizing once yields, and a query that
/// loses all its pairs disappears entirely (no dangling `?`).
#[test]
fn test_clean_param_idempotence() {
    let doc = "User-agent: *\nClean-param: sid&ref\n";
    let parser = parse_robots_txt(origin_text("https://example.com/robots.txt"), doc).get_result();

    let mut url = request_url("https://example.com/page?sid=1&keep=2&ref=3");
    assert!(parser.normalize_url(&mut url));
    let once = display_url(&url);
    assert_eq!(once, "https://example.com/page?keep=2");
    assert!(parser.normalize_url(&mut url));
    assert_eq!(display_url(&url), once);

    // Only registered parameters: the query vanishes, `?` included.
    let mut url = request_url("https://example.com/page?sid=1&ref=3");
    assert!(parser.normalize_url(&mut url));
    assert_eq!(url.get_query(), &None);
    assert_eq!(display_url(&url), "https://example.com/page");
    assert!(parser.normalize_url(&mut url));
    assert_eq!(url.get_query(), &None);
}

/// A URL on a different origin is denied and never rewritten.
#[test]
fn test_cross_origin_guard() {
    let doc = "User-agent: *\nDisallow:\nClean-param: sid\n";
    let parser = parse_robots_txt(origin_text("https://example.com/robots.txt"), doc).get_result();
    let mut url = request_url("https://elsewhere.example/page?sid=1");
    assert!(!parser.can_fetch("*", &url));
    assert!(!parser.normalize_url(&mut url));
    assert_eq!(display_url(&url), "https://elsewhere.example/page?sid=1");
}

/// Crawl-delay values are read with exact decimal arithmetic.
#[test]
fn test_crawl_delay_numeric_fidelity() {
    let cases = [
        ("2.35", CrawlDelay { seconds: 2, nanoseconds: 350_000_000 }),
        ("8.1", CrawlDelay { seconds: 8, nanoseconds: 100_000_000 }),
        ("0.000000001", CrawlDelay { seconds: 0, nanoseconds: 1 }),
        ("5", CrawlDelay { seconds: 5, nanoseconds: 0 }),
        ("5.", CrawlDelay { seconds: 5, nanoseconds: 0 }),
        (".5", CrawlDelay { seconds: 0, nanoseconds: 500_000_000 }),
        ("+1.25", CrawlDelay { seconds: 1, nanoseconds: 250_000_000 }),
        ("-1", CrawlDelay { seconds: 0, nanoseconds: 0 }),
    ];
    for (text, expected) in cases.iter() {
        let doc = format!("User-agent: *\nCrawl-delay: {}\n", text);
        let parser =
            parse_robots_txt(origin_text("https://example.com/robots.txt"), &doc).get_result();
        assert_eq!(*expected, parser.get_crawl_delay("*").unwrap(), "value {}", text);
    }
}

/// Diagnostics carry the exact line number and line text.
#[test]
fn test_diagnostic_exactness() {
    let result = parse_robots_txt(origin_text("https://example.com/robots.txt"), ":");
    let warnings = result.get_warnings();
    assert_eq!(warnings.len(), 1);
    assert_eq!(warnings[0].get_line_no(), 1);
    assert_eq!(warnings[0].get_line_text(), ":");

    let result = parse_robots_txt(origin_text("https://example.com/robots.txt"), "Crawl-Delay: 5");
    let warnings = result.get_warnings();
    assert_eq!(warnings.len(), 1);
    assert_eq!(warnings[0].get_line_no(), 1);
    assert_eq!(warnings[0].get_line_text(), "Crawl-Delay: 5");
    let parser = result.get_result();
    assert!(parser.get_crawl_delay("*").is_none());
    assert!(parser.can_fetch("*", &request_url("https://example.com/anything")));

    let result = parse_robots_txt(
        origin_text("https://example.com/robots.txt"),
        "User-agent: *\n\n# note\nRequest-rate: one/5\n",
    );
    let warnings = result.get_warnings();
    assert_eq!(warnings.len(), 1);
    assert_eq!(warnings[0].get_line_no(), 4);
}

/// The fetch classifier: 401 and 403 deny everything, 200 parses, anything
/// else restricts nothing.
#[test]
fn test_fetched_statuses() {
    let origin = origin_text("https://example.com/robots.txt");
    let body = "User-agent: *\nDisallow: /private\n";
    let open_url = request_url("https://example.com/public");
    let closed_url = request_url("https://example.com/private/x");

    for status in [401u16, 403] {
        let policy = parse_fetched_robots_txt(origin.clone(), status, body).get_result();
        assert!(!policy.can_fetch("*", &open_url));
        assert!(!policy.can_fetch("*", &closed_url));
        assert!(policy.get_sitemaps().is_empty());
    }
    for status in [404u16, 500, 301, 0] {
        let policy = parse_fetched_robots_txt(origin.clone(), status, body).get_result();
        assert!(policy.can_fetch("*", &open_url));
        assert!(policy.can_fetch("*", &closed_url));
    }
    let policy = parse_fetched_robots_txt(origin.clone(), 200, body).get_result();
    assert!(policy.can_fetch("*", &open_url));
    assert!(!policy.can_fetch("*", &closed_url));
    policy.get_fetched_at();
}

/// `ParseResult` hands out the result, or its first warning.
#[test]
fn test_parse_result_access() {
    let origin = origin_text("https://example.com/robots.txt");
    let result = parse_robots_txt(origin.clone(), "User-agent: *\nDisallow: /\n");
    assert!(result.ok_ref().is_ok());
    assert!(result.ok().is_ok());

    let result = parse_robots_txt(origin, "junk\nUser-agent: *\nmore junk\n");
    assert_eq!(result.get_warnings().len(), 2);
    assert!(result.ok_ref().is_err());
    let first = result.ok().unwrap_err();
    assert_eq!(first.get_line_no(), 1);
    assert_eq!(first.get_line_text(), "junk");
}

/// A clean-param pattern scopes the stripping to matching paths.
#[test]
fn test_clean_param_with_pattern() {
    let doc = "User-agent: *\nClean-param: /forum/ sid\n";
    let parser = parse_robots_txt(origin_text("https://example.com/robots.txt"), doc).get_result();

    let mut url = request_url("https://example.com/forum/topic?sid=1&x=2");
    parser.normalize_url_ignore_origin(&mut url);
    assert_eq!(display_url(&url), "https://example.com/forum/topic?x=2");

    let mut url = request_url("https://example.com/blog/topic?sid=1&x=2");
    parser.normalize_url_ignore_origin(&mut url);
    assert_eq!(display_url(&url), "https://example.com/blog/topic?sid=1&x=2");
}

/// Specificity weighs a literal by its UTF-8 byte length: the two patterns
/// below tie at weight five (the two-byte letter counts as two), so the rule
/// declared first wins; counting characters would make the second win.
#[test]
fn test_specificity_weight_counts_bytes() {
    let doc = "User-agent: *\nAllow: /*\u{e9}\nDisallow: /*xy\n";
    let parser = parse_robots_txt(origin_text("https://example.com/robots.txt"), doc).get_result();
    assert!(parser.can_fetch("*", &request_url("https://example.com/axy\u{e9}")));
}

/// A carriage return on the final, newline-less line is not a line ending:
/// the stored line text keeps it.
#[test]
fn test_final_line_keeps_lone_carriage_return() {
    let result = parse_robots_txt(origin_text("https://example.com/robots.txt"), "junk\r");
    let warnings = result.get_warnings();
    assert_eq!(warnings.len(), 1);
    assert_eq!(warnings[0].get_line_text(), "junk\r");
}

/// Consecutive `User-agent` lines union into one group, and a group-scoped
/// directive closes the agent list, so the next `User-agent` opens a new one.
#[test]
fn test_user_agent_grouping() {
    let doc = "User-agent: alpha\nUser-agent: beta\nDisallow: /\n";
    let parser = parse_robots_txt(origin_text("https://example.com/robots.txt"), doc).get_result();
    assert!(!parser.can_fetch("alpha", &request_url("https://example.com/x")));
    assert!(!parser.can_fetch("beta", &request_url("https://example.com/x")));

    let doc = "User-agent: alpha\nDisallow: /x\nUser-agent: beta\nDisallow: /y\n";
    let parser = parse_robots_txt(origin_text("https://example.com/robots.txt"), doc).get_result();
    assert!(!parser.can_fetch("alpha", &request_url("https://example.com/x")));
    assert!(parser.can_fetch("alpha", &request_url("https://example.com/y")));
    assert!(!parser.can_fetch("beta", &request_url("https://example.com/y")));
    assert!(parser.can_fetch("beta", &request_url("https://example.com/x")));
}

/// A `Sitemap` line is document-scoped: it does not close an agent list.
#[test]
fn test_sitemap_between_user_agents() {
    let doc = "User-agent: alpha\nSitemap: https://example.com/s.xml\nUser-agent: beta\nDisallow: /\n";
    let parser = parse_robots_txt(origin_text("https://example.com/robots.txt"), doc).get_result();
    assert!(!parser.can_fetch("alpha", &request_url("https://example.com/x")));
    assert!(!parser.can_fetch("beta", &request_url("https://example.com/x")));
    assert_eq!(parser.get_sitemaps().len(), 1);
}

/// An applying group without a crawl delay does not end the search: a later
/// default group's delay still applies.
#[test]
fn test_crawl_delay_falls_through() {
    let doc = "User-agent: alpha\nDisallow: /x\nUser-agent: *\nCrawl-delay: 1\n";
    let parser = parse_robots_txt(origin_text("https://example.com/robots.txt"), doc).get_result();
    assert_eq!(
        parser.get_crawl_delay("alpha"),
        Some(CrawlDelay { seconds: 1, nanoseconds: 0 })
    );
}

/// Valid clean-param names of a partly invalid list are still honoured.
#[test]
fn test_clean_param_partial_validity() {
    let doc = "User-agent: *\nClean-param: good&b?d\n";
    let result = parse_robots_txt(origin_text("https://example.com/robots.txt"), doc);
    assert_eq!(result.get_warnings().len(), 1);
    let parser = result.get_result();
    let mut url = request_url("https://example.com/p?good=1&b%3Fd=2&z=3");
    parser.normalize_url_ignore_origin(&mut url);
    assert_eq!(display_url(&url), "https://example.com/p?b%3Fd=2&z=3");
}
