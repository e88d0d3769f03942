//! The redirect probe, the fetch pool's schedule, the controller's
//! decisions, the dashboard state, and the WebDriver adapter.

use gh0st::controller::{
    extract_sitemap_references, extract_xml_loc_values, filter_sitemap_locs, reconciliation_urls,
    retry_queued_message, retry_skip_message, site_origin, take_first_strings, DiscoveryState,
    LinkDecision,
};
use gh0st::issues::SeoIssue;
use gh0st::page::unretrieved_row;
use gh0st::pool::{
    current_fetch_concurrency, judge_final_fetch, may_spawn_fetch, next_fetch_step,
    sanitize_fetch_concurrency, FetchOutcome, FetchStep,
};
use gh0st::probe::{probe_backoff_ms, RedirectProbe};
use gh0st::state::{matches_status_filter, AppState};
use gh0st::types::{PageSortMode, SortDirection};
use gh0st::types::{BrowserArg, CrawlEvent, RetryScope};
use gh0st::ui::{point_in_rect, status_buckets, table_row_index_at, top_status_codes, ScreenRect};
use gh0st::urlnorm::dedupe_strings;
use gh0st::webdriver::{
    browser_candidates, chrome_capability_args, configure_webdriver_args, delete_endpoint,
    edge_capability_args, execute_endpoint, extract_session_id, firefox_capability_args,
    interpret_link_list, interpret_rendered_snapshot, navigate_endpoint,
    normalize_local_webdriver_endpoint, session_endpoint, truncate_for_log, webdriver_error,
};

fn page_row(url: &str, status: u16) -> gh0st::types::CrawlRow {
    let mut row = unretrieved_row(url.to_string(), String::new());
    row.status = status;
    row.retrieval_status = "retrieved".to_string();
    row.indexability = "Indexable".to_string();
    row.issues = vec![];
    row.seo_score = 100;
    row
}

#[test]
fn concurrency_is_always_clamped() {
    assert_eq!(sanitize_fetch_concurrency(0), 1);
    assert_eq!(sanitize_fetch_concurrency(1), 1);
    assert_eq!(sanitize_fetch_concurrency(12), 12);
    assert_eq!(sanitize_fetch_concurrency(256), 256);
    assert_eq!(sanitize_fetch_concurrency(1000), 256);
    assert_eq!(current_fetch_concurrency(usize::MAX), 256);
    assert!(may_spawn_fetch(0, 0));
    assert!(!may_spawn_fetch(1, 0), "a stored 0 is observed as 1");
    assert!(may_spawn_fetch(255, 1000));
    assert!(!may_spawn_fetch(256, 1000), "a stored 1000 is observed as 256");
}

#[test]
fn pool_queue_drops_no_urls() {
    // Fifty distinct URLs survive the dedup that feeds the queue.
    let mut urls = Vec::new();
    for i in 0..50 {
        urls.push(format!("https://example.test/{i}"));
    }
    urls.push("https://example.test/0".to_string());
    let queued = dedupe_strings(&urls);
    assert_eq!(queued.len(), 50);
    for i in 0..50 {
        assert!(queued.contains(&format!("https://example.test/{i}")));
    }
}

#[test]
fn retry_schedule_recovers_on_fourth_attempt() {
    // Three attempts per round, one requeue round: 503, 503, 503 then 200.
    assert_eq!(next_fetch_step(503, 0, 3, 0, 1), FetchStep::RetryAfterMs(150));
    assert_eq!(next_fetch_step(503, 1, 3, 0, 1), FetchStep::RetryAfterMs(150));
    assert_eq!(next_fetch_step(503, 2, 3, 0, 1), FetchStep::RequeueAfterMs(350));
    assert_eq!(next_fetch_step(200, 0, 3, 1, 1), FetchStep::Done);
    match judge_final_fetch(200, 1000, 3, 1) {
        FetchOutcome::Emit => {}
        FetchOutcome::Unretrieved(_) => panic!("a 200 with a body is emitted"),
    }
}

#[test]
fn exhausted_5xx_reports_the_budget() {
    assert_eq!(next_fetch_step(503, 2, 3, 2, 2), FetchStep::Done);
    match judge_final_fetch(503, 0, 3, 2) {
        FetchOutcome::Unretrieved(reason) => {
            assert_eq!(reason, "http 503 after 3 retries and 2 requeues");
        }
        FetchOutcome::Emit => panic!("an empty 503 body is not emitted"),
    }
    assert_eq!(next_fetch_step(503, 1, 3, 0, 2), FetchStep::RetryAfterMs(150));
    assert_eq!(next_fetch_step(503, 2, 3, 1, 2), FetchStep::RequeueAfterMs(700));
    assert_eq!(probe_backoff_ms(2), 240);
}

#[test]
fn redirect_probe_builds_a_simple_chain() {
    let mut probe = RedirectProbe::new("https://example.test/", 8);
    let first = probe.begin_hop().expect("first hop goes out");
    assert_eq!(first, "https://example.test/");
    let hop = probe
        .on_response(
            301,
            &vec![
                ("Location".to_string(), "https://example.test/home".to_string()),
                ("Content-Type".to_string(), "text/html".to_string()),
            ],
            5,
        )
        .expect("a 301 with a location yields a hop");
    assert_eq!(hop.0.url, "https://example.test/");
    assert_eq!(hop.0.status, 301);
    assert_eq!(hop.0.redirect_url, "https://example.test/home");
    assert_eq!(hop.0.redirect_type, "Permanent");
    assert_eq!(hop.0.retrieval_status, "retrieved");
    assert_eq!(hop.0.indexability, "Non-Indexable");
    assert_eq!(hop.0.seo_score, 100);
    assert_eq!(hop.0.link_count, 1);
    assert_eq!(hop.1, vec!["https://example.test/home".to_string()]);

    let second = probe.begin_hop().expect("second hop goes out");
    assert_eq!(second, "https://example.test/home");
    assert!(probe.on_response(200, &vec![], 3).is_none(), "a 200 ends the chain");
    assert_eq!(probe.final_url(), "https://example.test/home");
}

#[test]
fn redirect_probe_stops_on_a_loop() {
    let mut probe = RedirectProbe::new("https://example.test/a", 8);
    let _ = probe.begin_hop().expect("first hop");
    let hop = probe
        .on_response(302, &vec![("location".to_string(), "/b".to_string())], 1)
        .expect("hop to b");
    assert_eq!(hop.0.redirect_url, "https://example.test/b");
    let _ = probe.begin_hop().expect("second hop");
    let _ = probe
        .on_response(302, &vec![("location".to_string(), "/a".to_string())], 1)
        .expect("hop back to a");
    assert!(probe.begin_hop().is_none(), "a revisited URL ends the chain");
}

#[test]
fn redirect_probe_stops_without_location() {
    let mut probe = RedirectProbe::new("https://example.test/", 8);
    let _ = probe.begin_hop().unwrap();
    assert!(probe.on_response(301, &vec![], 1).is_none());
    let mut probe2 = RedirectProbe::new("https://example.test/", 8);
    let _ = probe2.begin_hop().unwrap();
    probe2.on_error();
    assert!(probe2.begin_hop().is_none());
}

#[test]
fn state_keeps_one_record_per_url() {
    let mut state = AppState::new();
    let first = page_row("https://example.test/", 503);
    assert!(state.push_row(first, vec!["https://example.test/next".to_string()]));
    assert_eq!(state.parsed, 1);
    assert_eq!(state.all_rows.len(), 1);
    assert_eq!(state.seen.len(), 1);

    let second = page_row("https://example.test/next", 200);
    assert!(state.push_row(second, vec![]));
    assert_eq!(state.parsed, 2);

    // A record for a seen URL replaces the old one; nothing is added.
    let replacement = page_row("https://example.test/", 200);
    assert!(!state.push_row(replacement, vec![]));
    assert_eq!(state.parsed, 2);
    assert_eq!(state.all_rows.len(), 2);
    assert_eq!(state.all_rows[0].status, 200, "the store reflects only the latest");
    assert_eq!(state.retry_failed_urls(), Vec::<String>::new());
}

#[test]
fn state_link_graph_and_discovered() {
    let mut state = AppState::new();
    let row = page_row("https://example.test/", 200);
    state.push_row(
        row,
        vec![
            "https://example.test/a".to_string(),
            "https://example.test/a".to_string(),
            "https://other.test/x".to_string(),
        ],
    );
    assert_eq!(state.discovered_seen.len(), 2);
    assert_eq!(state.incoming_count("https://example.test/a"), 1);
    assert_eq!(
        state.incoming_sources("https://example.test/a", 5),
        vec!["https://example.test/".to_string()]
    );
    assert_eq!(state.incoming_count("https://example.test/"), 0);
    assert_eq!(state.discovered_total(), 2);
}

#[test]
fn state_statistics() {
    let mut state = AppState::new();
    let mut a = page_row("https://example.test/a", 200);
    a.seo_score = 80;
    a.title = "Shared Title".to_string();
    let mut b = page_row("https://example.test/b", 200);
    b.seo_score = 100;
    b.title = " shared title ".to_string();
    let mut c = page_row("https://example.test/c", 503);
    c.retrieval_status = "not_retrieved".to_string();
    c.seo_score = 30;
    state.push_row(a, vec![]);
    state.push_row(b, vec![]);
    state.push_row(c, vec![]);
    assert_eq!(state.average_seo_score(), 90, "only retrieved rows count");
    assert_eq!(state.duplicate_title_pages(), 2);
    assert_eq!(state.duplicate_meta_pages(), 0);
    assert_eq!(state.count_status_between(200, 299), 2);
    assert_eq!(state.retry_failed_urls(), vec!["https://example.test/c".to_string()]);
    let all = state.retry_all_urls();
    assert_eq!(all.len(), 3);
}

#[test]
fn state_top_issues() {
    let mut state = AppState::new();
    let mut a = page_row("https://example.test/a", 200);
    a.issues = vec![SeoIssue::MissingTitle, SeoIssue::LowWordCount];
    let mut b = page_row("https://example.test/b", 200);
    b.issues = vec![SeoIssue::LowWordCount];
    state.push_row(a, vec![]);
    state.push_row(b, vec![]);
    let top = state.top_issues(10);
    assert_eq!(top, vec![(SeoIssue::LowWordCount, 2), (SeoIssue::MissingTitle, 1)]);
    let only_one = state.top_issues(1);
    assert_eq!(only_one, vec![(SeoIssue::LowWordCount, 2)]);
}

#[test]
fn state_events() {
    let mut state = AppState::new();
    let emitted = state.apply_event(CrawlEvent::Page {
        row: page_row("https://example.test/", 200),
        discovered_links: vec![],
    });
    assert!(emitted.is_some());
    assert!(state.apply_event(CrawlEvent::Stats { discovered: 7 }).is_none());
    assert_eq!(state.discovered_targets, 7);
    assert!(state.apply_event(CrawlEvent::Stats { discovered: 3 }).is_none());
    assert_eq!(state.discovered_targets, 7, "only larger totals stick");
    assert!(state.apply_event(CrawlEvent::Status("working".to_string())).is_none());
    assert!(state.apply_event(CrawlEvent::Error("oops".to_string())).is_none());
    assert!(state.apply_event(CrawlEvent::Finished).is_none());
    assert!(state.done);
    let unret = state.apply_event(CrawlEvent::Unretrieved {
        url: "https://example.test/gone".to_string(),
        reason: "gone".to_string(),
    });
    assert_eq!(unret.unwrap().0.status, 0);
}

#[test]
fn state_filtering() {
    let mut state = AppState::new();
    let mut a = page_row("https://example.test/alpha", 200);
    a.title = "Alpha Page".to_string();
    let mut b = page_row("https://example.test/beta", 404);
    b.title = "Beta Page".to_string();
    b.issues = vec![SeoIssue::Http4xx];
    state.push_row(a, vec![]);
    state.push_row(b, vec![]);
    let newest = state.filtered_rows_sorted("", PageSortMode::Latest, SortDirection::Desc);
    assert_eq!(newest.len(), 2);
    assert_eq!(newest[0].url, "https://example.test/beta", "newest first");
    let only_404 = state.filtered_rows_sorted("4xx", PageSortMode::Latest, SortDirection::Desc);
    assert_eq!(only_404.len(), 1);
    assert_eq!(only_404[0].url, "https://example.test/beta");
    let by_status = state.filtered_rows_sorted("", PageSortMode::Status, SortDirection::Asc);
    assert_eq!(by_status[0].status, 200);
    assert_eq!(by_status[1].status, 404);
    let negated = state.filtered_rows_sorted("-beta", PageSortMode::Latest, SortDirection::Desc);
    assert_eq!(negated.len(), 1);
    assert_eq!(negated[0].url, "https://example.test/alpha");
    let keyed = state.filtered_rows_sorted(
        "title:alpha",
        PageSortMode::Latest,
        SortDirection::Desc,
    );
    assert_eq!(keyed.len(), 1);
}

#[test]
fn status_filters() {
    let row = page_row("https://example.test/", 404);
    assert!(matches_status_filter(&row, "4xx"));
    assert!(matches_status_filter(&row, "status:404"));
    assert!(matches_status_filter(&row, "STATUS=4"));
    assert!(!matches_status_filter(&row, "2xx"));
    assert!(!matches_status_filter(&row, ""));
    let gone = unretrieved_row("https://example.test/x".to_string(), String::new());
    assert!(matches_status_filter(&gone, "failed"));
    assert!(matches_status_filter(&gone, "0"));
}

#[test]
fn reconciliation_collects_gaps_and_5xx() {
    let discovered = vec![
        "https://example.test/a".to_string(),
        "https://example.test/b#frag".to_string(),
        "https://other.test/c".to_string(),
    ];
    let from_pages = vec!["https://example.test/c".to_string()];
    let seen = vec!["https://example.test/a".to_string()];
    let retry_5xx = vec!["https://example.test/err".to_string()];
    let (total, recovery) = reconciliation_urls(
        &discovered,
        &from_pages,
        "https://example.test/",
        &seen,
        &retry_5xx,
        Some("example.test"),
    );
    assert_eq!(total, 4, "a, b, c and the seed are crawlable");
    assert_eq!(
        recovery,
        vec![
            "https://example.test/".to_string(),
            "https://example.test/b".to_string(),
            "https://example.test/c".to_string(),
            "https://example.test/err".to_string(),
        ],
        "the recovery set comes back sorted"
    );
}

#[test]
fn discovery_state_breadth_first() {
    let mut d = DiscoveryState::new("https://example.test/".to_string(), 1);
    assert!(d.admit_seed("https://example.test/seeded".to_string()));
    assert!(!d.admit_seed("https://example.test/seeded".to_string()));
    let (url, depth) = d.pop_next().expect("the seed is queued");
    assert_eq!(url, "https://example.test/");
    assert_eq!(depth, 0);
    assert!(d.mark_visited(&url));
    assert!(!d.mark_visited(&url));
    assert_eq!(
        d.admit_link("https://example.test/deep".to_string(), 0),
        LinkDecision::Enqueued
    );
    assert_eq!(
        d.admit_link("https://example.test/deep".to_string(), 0),
        LinkDecision::AlreadyKnown
    );
    assert_eq!(
        d.admit_link("https://example.test/too-deep".to_string(), 1),
        LinkDecision::FetchDirectly,
        "past the depth limit the link is fetched, not crawled"
    );
    assert_eq!(d.discovered_count(), 4);
    let mut unlimited = DiscoveryState::new("https://example.test/".to_string(), 0);
    assert_eq!(
        unlimited.admit_link("https://example.test/x".to_string(), 99),
        LinkDecision::Enqueued
    );
}

#[test]
fn retry_messages() {
    assert_eq!(
        retry_skip_message(RetryScope::FailedOnly),
        "retry request 'failed_only' skipped: no valid URLs"
    );
    assert_eq!(
        retry_queued_message(RetryScope::Complete, 12),
        "retry request 'complete' queued for 12 URLs"
    );
    assert_eq!(RetryScope::SingleEntry.label(), "single_entry");
}

#[test]
fn sitemap_scanning() {
    let xml = "<urlset><url><loc> https://example.test/a </loc></url>\
               <url><loc>https://example.test/b</loc></url><url><loc>  </loc></url></urlset>";
    assert_eq!(
        extract_xml_loc_values(xml),
        vec!["https://example.test/a".to_string(), "https://example.test/b".to_string()]
    );
    let robots = "User-agent: *\nSitemap: https://example.test/map.xml\r\nsitemap:https://example.test/m2.xml\nDisallow: /x\n";
    assert_eq!(
        extract_sitemap_references(robots),
        vec![
            "https://example.test/map.xml".to_string(),
            "https://example.test/m2.xml".to_string(),
        ]
    );
    let locs = vec![
        "https://example.test/a".to_string(),
        "https://other.test/b".to_string(),
        "https://example.test/a".to_string(),
        "relative/c".to_string(),
    ];
    assert_eq!(
        filter_sitemap_locs(&locs, Some("example.test")),
        vec!["https://example.test/a".to_string()]
    );
    let capped = take_first_strings(&locs, 2);
    assert_eq!(capped.len(), 2);
    assert_eq!(
        site_origin("https://example.test:8080/deep/page"),
        Some("https://example.test:8080".to_string())
    );
    assert_eq!(site_origin("not a url"), None);
}

#[test]
fn browser_candidate_order() {
    assert_eq!(browser_candidates(BrowserArg::Firefox, false), vec![BrowserArg::Firefox]);
    assert_eq!(
        browser_candidates(BrowserArg::Firefox, true),
        vec![BrowserArg::Firefox, BrowserArg::Chrome, BrowserArg::Edge]
    );
    assert_eq!(
        browser_candidates(BrowserArg::Safari, false),
        vec![BrowserArg::Chrome],
        "Safari is never preferred when alternatives exist"
    );
    assert_eq!(
        browser_candidates(BrowserArg::Edge, true),
        vec![BrowserArg::Edge, BrowserArg::Chrome, BrowserArg::Firefox]
    );
}

#[test]
fn webdriver_endpoints_and_replies() {
    assert_eq!(session_endpoint("http://127.0.0.1:4444/"), "http://127.0.0.1:4444/session");
    assert_eq!(
        navigate_endpoint("http://127.0.0.1:4444", "abc"),
        "http://127.0.0.1:4444/session/abc/url"
    );
    assert_eq!(
        execute_endpoint("http://127.0.0.1:4444", "abc"),
        "http://127.0.0.1:4444/session/abc/execute/sync"
    );
    assert_eq!(delete_endpoint("http://127.0.0.1:4444", "abc"), "http://127.0.0.1:4444/session/abc");

    let created = "{\"value\": {\"sessionId\": \"s-123\"}}";
    assert_eq!(extract_session_id(created), Some("s-123".to_string()));
    let top_level = "{\"sessionId\": \"s-9\"}";
    assert_eq!(extract_session_id(top_level), Some("s-9".to_string()));
    assert_eq!(extract_session_id("{}"), None);

    let err = "{\"value\": {\"error\": \"no such window\", \"message\": \"gone\"}}";
    assert_eq!(
        webdriver_error(err, "unknown webdriver error"),
        Some(("no such window".to_string(), "gone".to_string()))
    );
    let bare = "{\"value\": {\"error\": \"boom\"}}";
    assert_eq!(
        webdriver_error(bare, "unknown webdriver error"),
        Some(("boom".to_string(), "unknown webdriver error".to_string()))
    );
    assert_eq!(webdriver_error("{\"value\": {}}", "d"), None);

    let snap = "{\"value\": {\"url\": \"https://example.test/\", \"html\": \"<html></html>\"}}";
    assert_eq!(
        interpret_rendered_snapshot(snap),
        Some(("https://example.test/".to_string(), "<html></html>".to_string()))
    );
    assert_eq!(
        interpret_rendered_snapshot("{\"value\": {\"url\": \"\", \"html\": \"x\"}}"),
        None
    );

    let links = "{\"value\": [\"https://example.test/a\", 42, \"https://example.test/b\"]}";
    assert_eq!(
        interpret_link_list(links),
        vec!["https://example.test/a".to_string(), "https://example.test/b".to_string()]
    );
    assert_eq!(interpret_link_list("{\"value\": 3}"), Vec::<String>::new());
}

#[test]
fn webdriver_arguments() {
    assert_eq!(firefox_capability_args(true), vec!["-headless".to_string()]);
    assert_eq!(firefox_capability_args(false), Vec::<String>::new());
    let edge = edge_capability_args(true);
    assert_eq!(edge[0], "--headless=new");
    assert!(edge.contains(&"--disk-cache-size=0".to_string()));
    let chrome = chrome_capability_args(true, "/tmp/profile-1", true);
    assert_eq!(chrome[0], "--user-data-dir=/tmp/profile-1");
    assert_eq!(chrome[1], "--headless");
    assert!(chrome.contains(&"--window-size=1400,1200".to_string()));
    assert_eq!(chrome.last().unwrap(), "--no-sandbox");

    assert_eq!(
        configure_webdriver_args("geckodriver", BrowserArg::Firefox, 4444, None),
        vec!["--port".to_string(), "4444".to_string()]
    );
    let chromed = configure_webdriver_args("/usr/bin/chromedriver", BrowserArg::Chrome, 9515, Some("10.0.0.1"));
    assert_eq!(
        chromed,
        vec![
            "--port=9515".to_string(),
            "--allowed-origins=*".to_string(),
            "--allowed-ips=10.0.0.1".to_string(),
            "--log-level=SEVERE".to_string(),
        ]
    );
}

#[test]
fn endpoint_normalization_and_logging() {
    assert_eq!(
        normalize_local_webdriver_endpoint("http://localhost:4444"),
        "http://127.0.0.1:4444"
    );
    assert_eq!(
        normalize_local_webdriver_endpoint("http://localhost"),
        "http://127.0.0.1:80"
    );
    assert_eq!(
        normalize_local_webdriver_endpoint("http://driver.example.test:4444"),
        "http://driver.example.test:4444"
    );
    assert_eq!(truncate_for_log("abcdef", 4), "abcd...");
    assert_eq!(truncate_for_log("abc", 4), "abc");
}

#[test]
fn ui_geometry_and_tables() {
    let rect = ScreenRect { x: 10, y: 5, width: 20, height: 10 };
    assert!(point_in_rect(10, 5, rect));
    assert!(point_in_rect(29, 14, rect));
    assert!(!point_in_rect(30, 5, rect));
    assert!(!point_in_rect(9, 5, rect));
    assert_eq!(table_row_index_at(rect, 7), Some(0));
    assert_eq!(table_row_index_at(rect, 13), Some(6));
    assert_eq!(table_row_index_at(rect, 14), None);
    assert_eq!(table_row_index_at(rect, 6), None);
    let small = ScreenRect { x: 0, y: 0, width: 5, height: 3 };
    assert_eq!(table_row_index_at(small, 1), None);

    let counts = vec![(200u16, 5usize), (301, 2), (404, 1), (503, 1), (0, 3)];
    let buckets = status_buckets(&counts);
    assert_eq!(buckets.c2, 5);
    assert_eq!(buckets.c3, 2);
    assert_eq!(buckets.c4, 1);
    assert_eq!(buckets.c5, 1);
    assert_eq!(buckets.c0, 3);
    let top = top_status_codes(&counts, 3);
    assert_eq!(top, vec![(200, 5), (0, 3), (301, 2)]);
    let tied = top_status_codes(&vec![(404u16, 2usize), (200, 2)], 10);
    assert_eq!(tied, vec![(200, 2), (404, 2)], "equal counts order by code");
}

#[test]
fn state_status_table_feeds_the_ui() {
    let mut state = AppState::new();
    state.push_row(page_row("https://example.test/a", 200), vec![]);
    state.push_row(page_row("https://example.test/b", 200), vec![]);
    state.push_row(page_row("https://example.test/c", 404), vec![]);
    let mut counts = state.status_code_counts();
    counts.sort();
    assert_eq!(counts, vec![(200, 2), (404, 1)]);
    let buckets = status_buckets(&counts);
    assert_eq!(buckets.c2, 2);
    assert_eq!(buckets.c4, 1);
    assert_eq!(top_status_codes(&counts, 1), vec![(200, 2)]);
}

#[test]
fn retry_lists_come_back_sorted() {
    let mut state = AppState::new();
    let mut b = page_row("https://example.test/b", 503);
    b.retrieval_status = "not_retrieved".to_string();
    let mut a = page_row("https://example.test/a", 500);
    a.retrieval_status = "not_retrieved".to_string();
    state.push_row(b, vec!["https://example.test/z".to_string()]);
    state.push_row(a, vec!["https://example.test/y".to_string()]);
    assert_eq!(
        state.retry_failed_urls(),
        vec!["https://example.test/a".to_string(), "https://example.test/b".to_string()],
        "failed URLs come back in sorted order"
    );
    assert_eq!(
        state.retry_all_urls(),
        vec![
            "https://example.test/a".to_string(),
            "https://example.test/b".to_string(),
            "https://example.test/y".to_string(),
            "https://example.test/z".to_string(),
        ],
        "the complete scope is the sorted union of records and observed links"
    );
}

#[test]
fn incoming_sources_come_back_sorted() {
    let mut state = AppState::new();
    state.push_row(
        page_row("https://example.test/b", 200),
        vec!["https://example.test/t".to_string()],
    );
    state.push_row(
        page_row("https://example.test/a", 200),
        vec!["https://example.test/t".to_string()],
    );
    assert_eq!(
        state.incoming_sources("https://example.test/t", 5),
        vec!["https://example.test/a".to_string(), "https://example.test/b".to_string()]
    );
    assert_eq!(
        state.incoming_sources("https://example.test/t", 1),
        vec!["https://example.test/a".to_string()],
        "the cap keeps the sorted head"
    );
}

#[test]
fn status_filter_accepts_a_signed_code() {
    let row = page_row("https://example.test/", 404);
    assert!(matches_status_filter(&row, "+404"));
    assert!(matches_status_filter(&row, "status:+404"));
    assert!(!matches_status_filter(&row, "+"));
    assert!(!matches_status_filter(&row, "++404"));
}

#[test]
fn filtered_view_breaks_ties_by_url() {
    let mut state = AppState::new();
    state.push_row(page_row("https://example.test/b", 200), vec![]);
    state.push_row(page_row("https://example.test/a", 200), vec![]);
    let asc = state.filtered_rows_sorted("", PageSortMode::Status, SortDirection::Asc);
    assert_eq!(asc.len(), 2);
    assert_eq!(asc[0].url, "https://example.test/a", "equal keys order by URL");
    assert_eq!(asc[1].url, "https://example.test/b");
    let desc = state.filtered_rows_sorted("", PageSortMode::Status, SortDirection::Desc);
    assert_eq!(desc[0].url, "https://example.test/b");
}
