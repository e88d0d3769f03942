//! Records, URL normalization, HTML signals and the exported dataset.

use gh0st::export::{
    csv_encode_record, csv_headers, detect_data_format, export_record_fields,
    export_record_to_json_text, export_record_to_row, issues_from_csv, issues_to_csv,
    load_rows_from_csv_text, load_rows_from_json_text, row_to_export_record, JsonArrayFraming,
};
use gh0st::html::{
    count_elements, count_structured_data_blocks, count_words, extract_canonical,
    extract_crawl_links_with_breakdown, extract_meta_description, extract_real_h1, extract_title,
    has_noindex_meta, image_alt_stats, normalize_text,
};
use gh0st::issues::{collect_row_issues, compute_seo_score, crawl_quality_bucket, SeoIssue};
use gh0st::page::{header_value, infer_mime_from_page, page_to_row, unretrieved_row, FetchedPage};
use gh0st::types::{redirect_class, CrawlRow, DataFormat};
use gh0st::urlnorm::{
    filter_crawlable_links, is_same_host, is_tracking_query_param, normalize_crawl_url,
    resolve_href,
};

fn sample_page(body: &str, status: u16) -> FetchedPage {
    FetchedPage {
        requested_url: "https://example.test/".to_string(),
        final_url: "https://example.test/".to_string(),
        status,
        body: body.to_string(),
        size: body.len(),
        headers: vec![("Content-Type".to_string(), "text/html; charset=utf-8".to_string())],
        response_time: 12,
        page_links: None,
    }
}

fn many_words(n: usize) -> String {
    let mut s = String::new();
    for i in 0..n {
        if i > 0 {
            s.push(' ');
        }
        s.push_str("word");
    }
    s
}

#[test]
fn issue_labels_round_trip() {
    let all = [
        SeoIssue::NotRetrieved,
        SeoIssue::Http4xx,
        SeoIssue::Http5xx,
        SeoIssue::Noindex,
        SeoIssue::MissingTitle,
        SeoIssue::TitleTooShort,
        SeoIssue::TitleTooLong,
        SeoIssue::MissingMetaDescription,
        SeoIssue::MetaDescriptionTooShort,
        SeoIssue::MetaDescriptionTooLong,
        SeoIssue::MissingH1,
        SeoIssue::MultipleH1,
        SeoIssue::MissingCanonical,
        SeoIssue::LowWordCount,
        SeoIssue::ImagesMissingAlt,
        SeoIssue::TooManyExternalLinks,
    ];
    for issue in all {
        assert_eq!(SeoIssue::from_label(issue.label()), Some(issue));
    }
    assert_eq!(SeoIssue::from_label("  noindex  "), Some(SeoIssue::Noindex));
    assert_eq!(SeoIssue::from_label("nonsense"), None);
}

#[test]
fn score_is_hundred_minus_penalties_floored() {
    assert_eq!(compute_seo_score(&vec![]), 100);
    assert_eq!(compute_seo_score(&vec![SeoIssue::LowWordCount]), 90);
    assert_eq!(
        compute_seo_score(&vec![SeoIssue::NotRetrieved]),
        30,
        "not_retrieved carries a penalty of 70"
    );
    // 70 + 65 + 40 exceeds 100, so the score floors at 0.
    assert_eq!(
        compute_seo_score(&vec![SeoIssue::NotRetrieved, SeoIssue::Http5xx, SeoIssue::Http4xx]),
        0
    );
}

#[test]
fn collected_issues_have_no_duplicates_and_fixed_order() {
    let issues = collect_row_issues(200, "retrieved", true, true, 0, 0, 0, "", 0, 2, 100);
    assert_eq!(
        issues,
        vec![
            SeoIssue::Noindex,
            SeoIssue::MissingTitle,
            SeoIssue::MissingMetaDescription,
            SeoIssue::MissingH1,
            SeoIssue::MissingCanonical,
            SeoIssue::LowWordCount,
            SeoIssue::ImagesMissingAlt,
            SeoIssue::TooManyExternalLinks,
        ]
    );
    let mut dedup = issues.clone();
    dedup.dedup();
    assert_eq!(issues.len(), dedup.len());
    // A non-retrieved row carries exactly the one issue saying so.
    let nr = collect_row_issues(0, "not_retrieved", false, false, 0, 0, 0, "", 0, 0, 0);
    assert_eq!(nr, vec![SeoIssue::NotRetrieved]);
    // Content checks are skipped outside the success range.
    let err = collect_row_issues(503, "retrieved", true, true, 0, 0, 0, "", 0, 1, 0);
    assert_eq!(err, vec![SeoIssue::Http5xx]);
}

#[test]
fn quality_buckets() {
    assert_eq!(crawl_quality_bucket(100), "excellent");
    assert_eq!(crawl_quality_bucket(85), "excellent");
    assert_eq!(crawl_quality_bucket(84), "good");
    assert_eq!(crawl_quality_bucket(70), "good");
    assert_eq!(crawl_quality_bucket(69), "warning");
    assert_eq!(crawl_quality_bucket(50), "warning");
    assert_eq!(crawl_quality_bucket(49), "critical");
    assert_eq!(crawl_quality_bucket(0), "critical");
}

#[test]
fn normalizer_strips_tracking_and_fragments() {
    assert_eq!(
        normalize_crawl_url("https://example.test/a?utm_source=x#frag"),
        Some("https://example.test/a".to_string())
    );
    assert_eq!(
        normalize_crawl_url("https://example.test/a?keep=1&utm_medium=m&page=2"),
        Some("https://example.test/a?keep=1&page=2".to_string())
    );
    assert_eq!(normalize_crawl_url("ftp://example.test/x"), None);
    assert_eq!(normalize_crawl_url("   "), None);
    assert_eq!(normalize_crawl_url("not a url"), None);
}

#[test]
fn normalizer_is_idempotent_on_samples() {
    let samples = [
        "https://example.test/",
        "https://Example.Test/Path?b=2&a=1",
        "http://example.test:8080/x/y?gclid=abc&keep=1#f",
        "https://example.test/a?utm_source=x",
    ];
    for s in samples {
        let once = normalize_crawl_url(s).expect("normalizes");
        let twice = normalize_crawl_url(&once).expect("normalizes again");
        assert_eq!(once, twice, "normalize is idempotent on {s}");
    }
}

#[test]
fn tracking_params() {
    assert!(is_tracking_query_param("utm_source"));
    assert!(is_tracking_query_param("UTM_CAMPAIGN"));
    assert!(is_tracking_query_param("gad_source"));
    assert!(is_tracking_query_param("gclid"));
    assert!(is_tracking_query_param("_gl"));
    assert!(!is_tracking_query_param("page"));
    assert!(!is_tracking_query_param("utmost"));
}

#[test]
fn same_host_gate() {
    assert!(is_same_host("https://example.test/a", Some("example.test")));
    assert!(is_same_host("https://EXAMPLE.test/a", Some("example.test")));
    assert!(!is_same_host("https://other.test/", Some("example.test")));
    assert!(is_same_host("anything at all", None));
    assert!(!is_same_host("not a url", Some("example.test")));
}

#[test]
fn crawlable_link_scenario() {
    let links = vec![
        "https://example.test/a?utm_source=x#f".to_string(),
        "https://example.test/a".to_string(),
        "https://other.test/".to_string(),
    ];
    let out = filter_crawlable_links(links, Some("example.test"));
    assert_eq!(out, vec!["https://example.test/a".to_string()]);
}

#[test]
fn href_resolution() {
    assert_eq!(
        resolve_href("https://example.test/dir/", "page"),
        Some("https://example.test/dir/page".to_string())
    );
    assert_eq!(
        resolve_href("https://example.test/", "https://other.test/x"),
        Some("https://other.test/x".to_string())
    );
    assert_eq!(resolve_href("https://example.test/", "#top"), None);
    assert_eq!(resolve_href("https://example.test/", "mailto:a@b"), None);
    assert_eq!(resolve_href("https://example.test/", "javascript:void(0)"), None);
    assert_eq!(resolve_href("https://example.test/", "tel:123"), None);
    assert_eq!(resolve_href("https://example.test/", ""), None);
}

#[test]
fn html_signal_extraction() {
    let html = "<html><head><title>  A   Title </title>\
        <meta name=\"description\" content=\"Short description.\">\
        <link rel=\"canonical\" href=\"/canon\">\
        <script type=\"application/ld+json\">{}</script>\
        <script type=\"application/ld+json\">  </script>\
        </head><body><h1>First Heading</h1><h2>Sub</h2><h2>Sub2</h2>\
        <img src=\"a.png\" alt=\"ok\"><img src=\"b.png\" alt=\" \"><img src=\"c.png\">\
        <a href=\"/x\">x</a><a href=\"https://other.test/y\">y</a>\
        </body></html>";
    assert_eq!(extract_title(html), "A Title");
    assert_eq!(extract_real_h1(html), "First Heading");
    assert_eq!(extract_meta_description(html), "Short description.");
    assert_eq!(
        extract_canonical(html, "https://example.test/page"),
        "https://example.test/canon"
    );
    assert_eq!(count_elements(html, "h1"), 1);
    assert_eq!(count_elements(html, "h2"), 2);
    assert_eq!(image_alt_stats(html), (3, 2));
    assert_eq!(count_structured_data_blocks(html), 1);
    assert!(!has_noindex_meta(html));
    let (links, internal, external) =
        extract_crawl_links_with_breakdown(html, "https://example.test/page", Some("example.test"));
    assert_eq!(links, vec![
        "https://example.test/x".to_string(),
        "https://other.test/y".to_string(),
    ]);
    assert_eq!(internal, 1);
    assert_eq!(external, 1);
}

#[test]
fn title_fallbacks() {
    let og = "<html><head><meta property=\"og:title\" content=\"Social Title\"></head></html>";
    assert_eq!(extract_title(og), "Social Title");
    let tw = "<html><head><meta name=\"twitter:title\" content=\"Tweet Title\"></head></html>";
    assert_eq!(extract_title(tw), "Tweet Title");
}

#[test]
fn noindex_meta() {
    let html = "<html><head><meta name=\"robots\" content=\"NOINDEX, nofollow\"></head></html>";
    assert!(has_noindex_meta(html));
    let bot = "<html><head><meta name=\"googlebot\" content=\"noindex\"></head></html>";
    assert!(has_noindex_meta(bot));
}

#[test]
fn whitespace_normalization_and_words() {
    assert_eq!(normalize_text("  a \t b\n\nc  "), "a b c");
    assert_eq!(normalize_text(""), "");
    let html = "<html><body><p>one two</p><p>three</p></body></html>";
    assert_eq!(count_words(html), 3);
}

#[test]
fn mime_inference() {
    let mut page = sample_page("plain data", 200);
    page.headers = vec![];
    page.requested_url = "https://example.test/data.json".to_string();
    assert_eq!(infer_mime_from_page(&page), "application/json");
    page.requested_url = "https://example.test/x".to_string();
    page.body = "<!doctype html><html></html>".to_string();
    assert_eq!(infer_mime_from_page(&page), "text/html");
    page.body = "just text".to_string();
    assert_eq!(infer_mime_from_page(&page), "unknown");
}

#[test]
fn header_lookup_is_case_insensitive() {
    let page = sample_page("x", 200);
    assert_eq!(
        header_value(&page, "content-type"),
        Some("text/html; charset=utf-8".to_string())
    );
    assert_eq!(header_value(&page, "CONTENT-TYPE").is_some(), true);
    assert_eq!(header_value(&page, "x-missing"), None);
}

#[test]
fn redirect_classes() {
    assert_eq!(redirect_class(301), "Permanent");
    assert_eq!(redirect_class(308), "Permanent");
    assert_eq!(redirect_class(302), "Temporary");
    assert_eq!(redirect_class(303), "Temporary");
    assert_eq!(redirect_class(307), "Temporary");
    assert_eq!(redirect_class(300), "Redirect");
    assert_eq!(redirect_class(399), "Redirect");
    assert_eq!(redirect_class(200), "");
}

#[test]
fn analyzer_success_page() {
    // A healthy page, except its word count stays below the threshold.
    let meta = "m".repeat(90);
    let body = format!(
        "<html><head><title>A title of healthy length</title>\
         <meta name=\"description\" content=\"{meta}\">\
         <link rel=\"canonical\" href=\"https://example.test/\"></head>\
         <body><h1>The One Heading</h1><p>{}</p></body></html>",
        many_words(100)
    );
    let page = sample_page(&body, 200);
    let (row, _links) = page_to_row(&page, Some("example.test"));
    assert_eq!(row.status, 200);
    assert_eq!(row.indexability, "Indexable");
    assert_eq!(row.retrieval_status, "retrieved");
    assert_eq!(row.issues, vec![SeoIssue::LowWordCount]);
    assert_eq!(row.seo_score, 90);
    assert_eq!(row.url, "https://example.test/");
    assert_eq!(row.h1_count, 1);
}

#[test]
fn analyzer_noindex_page_is_non_indexable() {
    let body = "<html><head><title>T</title>\
        <meta name=\"robots\" content=\"noindex\"></head><body></body></html>";
    let page = sample_page(body, 200);
    let (row, _) = page_to_row(&page, None);
    assert_eq!(row.indexability, "Non-Indexable");
    assert!(row.issues.contains(&SeoIssue::Noindex));
}

#[test]
fn unretrieved_record_shape() {
    let row = unretrieved_row("https://example.test/x".to_string(), "gone".to_string());
    assert_eq!(row.status, 0);
    assert_eq!(row.retrieval_status, "not_retrieved");
    assert_eq!(row.indexability, "Not Retrieved");
    assert_eq!(row.issues, vec![SeoIssue::NotRetrieved]);
    assert_eq!(row.seo_score, 30);
    assert_eq!(row.meta, "gone");
    assert_eq!(row.mime, "unknown");
}

fn sample_row() -> CrawlRow {
    CrawlRow {
        url: "https://example.test/p".to_string(),
        status: 200,
        mime: "text/html".to_string(),
        retrieval_status: "retrieved".to_string(),
        indexability: "Indexable".to_string(),
        title: "A title, with a comma".to_string(),
        title_length: 21,
        meta: "desc \"quoted\"".to_string(),
        meta_length: 13,
        h1: "H".to_string(),
        canonical: "https://example.test/p".to_string(),
        word_count: 250,
        size: 1234,
        response_time: 45,
        last_modified: "Mon, 01 Jan 2024 00:00:00 GMT".to_string(),
        redirect_url: String::new(),
        redirect_type: String::new(),
        link_count: 2,
        internal_link_count: 1,
        external_link_count: 1,
        h1_count: 1,
        h2_count: 2,
        image_count: 3,
        image_missing_alt_count: 1,
        structured_data_count: 0,
        seo_score: 92,
        issues: vec![SeoIssue::ImagesMissingAlt],
        crawl_timestamp: "2024-01-01T00:00:00+00:00".to_string(),
    }
}

#[test]
fn issue_field_round_trip() {
    let issues = vec![SeoIssue::Http4xx, SeoIssue::MissingTitle, SeoIssue::LowWordCount];
    let field = issues_to_csv(&issues);
    assert_eq!(field, "status_4xx|missing_title|low_word_count");
    assert_eq!(issues_from_csv(&field), issues);
    assert_eq!(issues_from_csv(""), vec![]);
}

#[test]
fn csv_write_then_read_reconstructs_the_row() {
    let row = sample_row();
    let links = vec!["https://example.test/a".to_string(), "https://example.test/b".to_string()];
    let rec = row_to_export_record(&row, &links);
    assert_eq!(rec.issue_count, 1);
    assert_eq!(rec.crawl_quality_bucket, "excellent");

    let mut text = csv_encode_record(&csv_headers());
    text.push_str(&csv_encode_record(&export_record_fields(&rec)));
    let loaded = load_rows_from_csv_text(&text).expect("well-formed csv");
    assert_eq!(loaded.len(), 1);
    let (back, back_links) = &loaded[0];
    assert_eq!(back.url, row.url);
    assert_eq!(back.status, row.status);
    assert_eq!(back.title, row.title);
    assert_eq!(back.meta, row.meta);
    assert_eq!(back.issues, row.issues);
    assert_eq!(back.seo_score, row.seo_score);
    assert_eq!(back.word_count, row.word_count);
    assert_eq!(back.response_time, row.response_time);
    assert_eq!(back.last_modified, row.last_modified);
    assert_eq!(back_links, &links);
}

#[test]
fn csv_score_recovery_and_not_retrieved_marker() {
    // A stored zero score with issues present is recomputed from them.
    let mut row = sample_row();
    row.seo_score = 0;
    row.issues = vec![SeoIssue::MissingTitle];
    let rec = row_to_export_record(&row, &vec![]);
    let mut text = csv_encode_record(&csv_headers());
    text.push_str(&csv_encode_record(&export_record_fields(&rec)));
    let loaded = load_rows_from_csv_text(&text).expect("well-formed csv");
    assert_eq!(loaded[0].0.seo_score, 75);
    // A not-retrieved row with an empty issue field regains its marker.
    let (back, _) = export_record_to_row(gh0st::export::ExportRecord {
        retrieval_status: "not_retrieved".to_string(),
        issues: String::new(),
        ..row_to_export_record(&sample_row(), &vec![])
    });
    assert_eq!(back.issues, vec![SeoIssue::NotRetrieved]);
}

#[test]
fn json_array_write_then_read() {
    let row = sample_row();
    let links = vec!["https://example.test/a".to_string()];
    let rec = row_to_export_record(&row, &links);
    let obj = export_record_to_json_text(&rec);
    let text = format!("[\n{obj}\n]\n");
    let loaded = load_rows_from_json_text(&text).expect("array form loads");
    assert_eq!(loaded.len(), 1);
    assert_eq!(loaded[0].0.url, row.url);
    assert_eq!(loaded[0].0.issues, row.issues);
    assert_eq!(loaded[0].0.seo_score, row.seo_score);
    assert_eq!(loaded[0].1, links);
}

#[test]
fn json_lines_write_then_read() {
    let a = row_to_export_record(&sample_row(), &vec![]);
    let mut b_row = sample_row();
    b_row.url = "https://example.test/q".to_string();
    let b = row_to_export_record(&b_row, &vec![]);
    let text = format!("{}\n\n{}\n", export_record_to_json_text(&a), export_record_to_json_text(&b));
    let loaded = load_rows_from_json_text(&text).expect("json lines load");
    assert_eq!(loaded.len(), 2);
    assert_eq!(loaded[0].0.url, "https://example.test/p");
    assert_eq!(loaded[1].0.url, "https://example.test/q");
    assert!(load_rows_from_json_text("   ").expect("blank input").is_empty());
    assert!(load_rows_from_json_text("{\"url\": \"x\"}").is_none());
}

#[test]
fn format_detection() {
    assert_eq!(detect_data_format("out.JSON", DataFormat::Csv), DataFormat::Json);
    assert_eq!(detect_data_format("out.csv", DataFormat::Json), DataFormat::Csv);
    assert_eq!(detect_data_format("out.txt", DataFormat::Json), DataFormat::Json);
}

#[test]
fn json_sink_framing() {
    let mut f = JsonArrayFraming::new();
    assert_eq!(f.opening_text(), "[\n");
    assert_eq!(f.separator(), "");
    assert_eq!(f.separator(), ",\n");
    assert_eq!(f.closing(), "\n]\n");
    assert_eq!(f.closing(), "", "a second finalize writes nothing");
    let mut empty = JsonArrayFraming::new();
    assert_eq!(empty.closing(), "]\n");
}

#[test]
fn csv_loader_tolerates_reordered_and_missing_columns() {
    // Legacy exports may reorder columns, rename a few, or drop some.
    let text = "status,word count,url,issues\n\
                404,55,https://example.test/old,status_4xx\n\
                ,,   ,\n\
                200,not-a-number,https://example.test/new,\n";
    let loaded = load_rows_from_csv_text(text).expect("well-formed csv");
    assert_eq!(loaded.len(), 2, "the blank-URL record is skipped");
    assert_eq!(loaded[0].0.status, 404);
    assert_eq!(loaded[0].0.word_count, 55);
    assert_eq!(loaded[0].0.issues, vec![SeoIssue::Http4xx]);
    assert_eq!(loaded[0].0.retrieval_status, "retrieved", "inferred from the status");
    assert_eq!(loaded[1].0.word_count, 0, "an unparseable number falls back");
    assert_eq!(loaded[1].0.mime, "", "a missing column reads as empty");
}

#[test]
fn csv_loader_rejects_malformed_input() {
    assert!(load_rows_from_csv_text("a,b\n\"unclosed\n").is_none());
    assert!(load_rows_from_csv_text("").expect("empty csv").is_empty());
}

#[test]
fn decimal_formatting_and_parsing() {
    let digits = |s: &str| gh0st::strutil::str_chars(s);
    assert_eq!(gh0st::strutil::fmt_u128(0), digits("0"));
    assert_eq!(gh0st::strutil::fmt_u128(906), digits("906"));
    assert_eq!(
        gh0st::strutil::fmt_u128(u128::MAX),
        digits("340282366920938463463374607431768211455")
    );
    assert_eq!(gh0st::strutil::parse_u16(&digits("65535")), Some(65535));
    assert_eq!(gh0st::strutil::parse_u16(&digits("65536")), None);
    assert_eq!(gh0st::strutil::parse_u16(&digits("")), None);
    assert_eq!(gh0st::strutil::parse_u16(&digits("12a")), None);
    assert_eq!(
        gh0st::strutil::parse_u128(&digits("340282366920938463463374607431768211455")),
        Some(u128::MAX)
    );
    assert_eq!(
        gh0st::strutil::parse_u128(&digits("340282366920938463463374607431768211456")),
        None
    );
}

#[test]
fn link_counts_partition_the_deduplicated_links() {
    // A page repeating one same-host link: the breakdown covers the
    // deduplicated list, not the raw occurrences.
    let html = "<html><body><a href=\"/x\">1</a><a href=\"/x\">2</a>\
        <a href=\"https://other.test/y\">3</a></body></html>";
    let (links, internal, external) =
        extract_crawl_links_with_breakdown(html, "https://example.test/", Some("example.test"));
    assert_eq!(links.len(), 2);
    assert_eq!(internal, 1);
    assert_eq!(external, 1);
    assert_eq!(internal + external, links.len());

    let page = sample_page(html, 200);
    let (row, out_links) = page_to_row(&page, Some("example.test"));
    assert_eq!(row.link_count, 2);
    assert_eq!(row.internal_link_count, 1);
    assert_eq!(row.external_link_count, 1);
    assert_eq!(row.link_count, row.internal_link_count + row.external_link_count);
    assert_eq!(out_links.len(), row.link_count);
}

#[test]
fn fetcher_links_are_classified_too() {
    // A non-HTML response whose fetcher exposed two links: they are the
    // record's links and the counts partition them.
    let mut page = sample_page("binary payload", 200);
    page.headers = vec![("Content-Type".to_string(), "application/pdf".to_string())];
    page.page_links = Some(vec![
        "https://example.test/doc".to_string(),
        "https://other.test/doc".to_string(),
        "https://example.test/doc".to_string(),
    ]);
    let (row, links) = page_to_row(&page, Some("example.test"));
    assert_eq!(links.len(), 2, "fetcher links are deduplicated");
    assert_eq!(row.link_count, 2);
    assert_eq!(row.internal_link_count, 1);
    assert_eq!(row.external_link_count, 1);
    assert_eq!(row.link_count, row.internal_link_count + row.external_link_count);
}
