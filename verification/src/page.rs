//! From one fetched page to its canonical record.
//!
//! A fetched page is modelled by the plain values the analyzer reads:
//! requested and final URL, status, body, byte size, headers and timing.
//! The caller that performs the HTTP work fills this in; everything from
//! there to the finished `CrawlRow` is verified.

use vstd::prelude::*;
use vstd::string::StringSliceAdditionalSpecFns;

use crate::clock::now_rfc3339;
use crate::html::{
    canonical_of, count_elements, count_structured_data_blocks, count_words, crawl_link_acc,
    crawl_link_selector, document_text_of, extract_canonical, extract_crawl_links_with_breakdown,
    extract_meta_description, extract_real_h1, extract_title, first_text_from, has_noindex_meta,
    image_alt_stats, image_stats_from, meta_description_of, nonblank_texts_from, noindex_meta_of,
    selected_attrs_of, selected_texts_of, title_of,
};
use crate::issues::{compute_seo_score, issues_for_row, score_of, SeoIssue};
use crate::strutil::{
    chars_string, contains_seq, eq_ignore_case_seq, lower_seq, lower_vec, split_seq, split_vec,
    str_chars, trim_seq, trim_vec, vec_contains, vec_eq, vec_ends_with, ws_tokens,
};
use crate::types::{redirect_class, redirect_class_of, row_wf, CrawlRow};
use crate::urlnorm::{
    dedup_first, dedupe_strings, normalized_url, opt_view, pair_views, string_views,
};

verus! {

/// A fetched page, reduced to the plain values the analyzer reads.
pub struct FetchedPage {
    /// The URL that was requested.
    pub requested_url: String,
    /// The URL the response came from, after any followed redirects.
    pub final_url: String,
    /// The HTTP status, 0 when no response was obtained.
    pub status: u16,
    /// The response body decoded as text.
    pub body: String,
    /// The size of the raw response body in bytes.
    pub size: usize,
    /// The response headers, in order.
    pub headers: Vec<(String, String)>,
    /// Elapsed retrieval time in milliseconds.
    pub response_time: u128,
    /// Links the fetcher itself exposed for this page, when it did.
    pub page_links: Option<Vec<String>>,
}

/// The first header whose name matches case-insensitively, from `i` on.
pub open spec fn header_value_from(
    headers: Seq<(Seq<char>, Seq<char>)>,
    name: Seq<char>,
    i: int,
) -> Option<Seq<char>>
    decreases headers.len() - i,
{
    if i < 0 || i >= headers.len() {
        None
    } else if eq_ignore_case_seq(headers[i].0, name) {
        Some(headers[i].1)
    } else {
        header_value_from(headers, name, i + 1)
    }
}

/// The value of the first header with this name, case-insensitively.
pub open spec fn header_value_of(headers: Seq<(Seq<char>, Seq<char>)>, name: Seq<char>) -> Option<
    Seq<char>,
> {
    header_value_from(headers, name, 0)
}

/// Find the first header with this name, case-insensitively.
pub fn find_header(headers: &Vec<(String, String)>, name: &str) -> (r: Option<String>)
    ensures
        r is Some <==> header_value_of(pair_views(headers@), name@) is Some,
        r matches Some(v) ==> header_value_of(pair_views(headers@), name@) == Some(v@),
{
    let ghost hv = pair_views(headers@);
    let nv = str_chars(name);
    let mut i: usize = 0;
    while i < headers.len()
        invariant
            i <= headers@.len(),
            hv == pair_views(headers@),
            nv@ == name@,
            header_value_from(hv, name@, 0) == header_value_from(hv, name@, i as int),
        decreases headers@.len() - i,
    {
        let h = str_chars(headers[i].0.as_str());
        if crate::strutil::vec_eq_ignore_case(&h, &nv) {
            proof {
                assert(hv[i as int] == (headers@[i as int].0@, headers@[i as int].1@));
                assert(header_value_from(hv, name@, i as int) == Some(headers@[i as int].1@));
            }
            let v = headers[i].1.clone();
            return Some(v);
        }
        proof {
            assert(hv[i as int] == (headers@[i as int].0@, headers@[i as int].1@));
            assert(header_value_from(hv, name@, i as int) == header_value_from(
                hv,
                name@,
                i + 1,
            ));
        }
        i = i + 1;
    }
    proof {
        assert(header_value_from(hv, name@, i as int) is None);
    }
    None
}

/// Look up one response header of a fetched page.
pub fn header_value(page: &FetchedPage, name: &str) -> (r: Option<String>)
    ensures
        r is Some <==> header_value_of(pair_views(page.headers@), name@) is Some,
        r matches Some(v) ==> header_value_of(pair_views(page.headers@), name@) == Some(v@),
{
    find_header(&page.headers, name)
}

/// The MIME type guessed from the URL's extension or the body's prologue
/// when no usable Content-Type header is present.
pub open spec fn inferred_mime_of(url: Seq<char>, body: Seq<char>) -> Seq<char> {
    let u = lower_seq(url);
    if crate::strutil::ends_with_seq(u, ".xml"@) {
        "application/xml"@
    } else if crate::strutil::ends_with_seq(u, ".json"@) {
        "application/json"@
    } else if crate::strutil::ends_with_seq(u, ".pdf"@) {
        "application/pdf"@
    } else if crate::strutil::ends_with_seq(u, ".css"@) {
        "text/css"@
    } else if crate::strutil::ends_with_seq(u, ".js"@) {
        "application/javascript"@
    } else if crate::strutil::ends_with_seq(u, ".svg"@) {
        "image/svg+xml"@
    } else if crate::strutil::ends_with_seq(u, ".png"@) {
        "image/png"@
    } else if crate::strutil::ends_with_seq(u, ".jpg"@) || crate::strutil::ends_with_seq(
        u,
        ".jpeg"@,
    ) {
        "image/jpeg"@
    } else if crate::strutil::ends_with_seq(u, ".webp"@) {
        "image/webp"@
    } else {
        let b = lower_seq(body);
        if contains_seq(b, "<html"@) || contains_seq(b, "<!doctype html"@) || contains_seq(
            b,
            "<body"@,
        ) {
            "text/html"@
        } else {
            "unknown"@
        }
    }
}

/// Guess the MIME type from the requested URL and the body.
pub fn infer_mime_from_page(page: &FetchedPage) -> (r: String)
    ensures
        r@ == inferred_mime_of(page.requested_url@, page.body@),
{
    let uv = str_chars(page.requested_url.as_str());
    let u = lower_vec(&uv);
    let xml = str_chars(".xml");
    let json = str_chars(".json");
    let pdf = str_chars(".pdf");
    let css = str_chars(".css");
    let js = str_chars(".js");
    let svg = str_chars(".svg");
    let png = str_chars(".png");
    let jpg = str_chars(".jpg");
    let jpeg = str_chars(".jpeg");
    let webp = str_chars(".webp");
    if vec_ends_with(&u, &xml) {
        return chars_string(&str_chars("application/xml"));
    }
    if vec_ends_with(&u, &json) {
        return chars_string(&str_chars("application/json"));
    }
    if vec_ends_with(&u, &pdf) {
        return chars_string(&str_chars("application/pdf"));
    }
    if vec_ends_with(&u, &css) {
        return chars_string(&str_chars("text/css"));
    }
    if vec_ends_with(&u, &js) {
        return chars_string(&str_chars("application/javascript"));
    }
    if vec_ends_with(&u, &svg) {
        return chars_string(&str_chars("image/svg+xml"));
    }
    if vec_ends_with(&u, &png) {
        return chars_string(&str_chars("image/png"));
    }
    if vec_ends_with(&u, &jpg) || vec_ends_with(&u, &jpeg) {
        return chars_string(&str_chars("image/jpeg"));
    }
    if vec_ends_with(&u, &webp) {
        return chars_string(&str_chars("image/webp"));
    }
    let bv = str_chars(page.body.as_str());
    let b = lower_vec(&bv);
    let html_tag = str_chars("<html");
    let doctype = str_chars("<!doctype html");
    let body_tag = str_chars("<body");
    if vec_contains(&b, &html_tag) || vec_contains(&b, &doctype) || vec_contains(&b, &body_tag) {
        chars_string(&str_chars("text/html"))
    } else {
        chars_string(&str_chars("unknown"))
    }
}

/// The MIME of a page: the Content-Type header's primary type when it is
/// non-blank, otherwise inferred.
pub open spec fn page_mime_of(page: FetchedPage) -> Seq<char> {
    match header_value_of(pair_views(page.headers@), "content-type"@) {
        Some(v) => {
            let first = split_seq(v, ';').first();
            let t = trim_seq(first);
            if t.len() > 0 {
                t
            } else {
                inferred_mime_of(page.requested_url@, page.body@)
            }
        },
        None => inferred_mime_of(page.requested_url@, page.body@),
    }
}

/// The primary MIME type of the page.
pub fn page_mime(page: &FetchedPage) -> (r: String)
    ensures
        r@ == page_mime_of(*page),
{
    match header_value(page, "content-type") {
        Some(v) => {
            let vv = str_chars(v.as_str());
            let parts = split_vec(&vv, ';');
            proof {
                crate::strutil::lemma_split_len(vv@, ';');
                assert(parts@.map_values(|p: Vec<char>| p@)[0] == split_seq(vv@, ';').first());
            }
            let t = trim_vec(&parts[0]);
            if t.len() > 0 {
                chars_string(&t)
            } else {
                infer_mime_from_page(page)
            }
        },
        None => infer_mime_from_page(page),
    }
}

/// Does the page ask not to be indexed, through a robots meta tag or the
/// X-Robots-Tag header?
pub open spec fn page_noindex_of(page: FetchedPage) -> bool {
    noindex_meta_of(page.body@) || match header_value_of(
        pair_views(page.headers@),
        "x-robots-tag"@,
    ) {
        Some(v) => contains_seq(lower_seq(v), "noindex"@),
        None => false,
    }
}

/// Whether meta robots or the X-Robots-Tag header carries `noindex`.
pub fn has_noindex(page: &FetchedPage) -> (r: bool)
    ensures
        r == page_noindex_of(*page),
{
    if has_noindex_meta(page.body.as_str()) {
        return true;
    }
    match header_value(page, "x-robots-tag") {
        Some(v) => {
            let vv = str_chars(v.as_str());
            let low = lower_vec(&vv);
            let needle = str_chars("noindex");
            vec_contains(&low, &needle)
        },
        None => false,
    }
}

/// A URL normalized, or kept as it came when normalization rejects it.
pub open spec fn normalized_or_raw(s: Seq<char>) -> Seq<char> {
    match normalized_url(s) {
        Some(n) => n,
        None => s,
    }
}

/// Normalize a URL, falling back to the raw text.
pub fn normalize_or_keep(raw: &str) -> (r: String)
    ensures
        r@ == normalized_or_raw(raw@),
{
    match crate::urlnorm::normalize_crawl_url(raw) {
        Some(n) => n,
        None => {
            let rv = str_chars(raw);
            chars_string(&rv)
        },
    }
}

/// The URL a record is filed under: the requested URL for 3xx responses,
/// the final URL when a redirect was followed, the requested URL
/// otherwise; all normalized.
pub open spec fn row_url_of(page: FetchedPage) -> Seq<char> {
    let req = normalized_or_raw(page.requested_url@);
    let fin = normalized_or_raw(page.final_url@);
    if 300 <= page.status <= 399 {
        req
    } else if req != fin {
        fin
    } else {
        req
    }
}

/// The redirect target recorded for the row: only a followed 3xx carries
/// one.
pub open spec fn row_redirect_url_of(page: FetchedPage) -> Seq<char> {
    let req = normalized_or_raw(page.requested_url@);
    let fin = normalized_or_raw(page.final_url@);
    if 300 <= page.status <= 399 && req != fin {
        fin
    } else {
        Seq::empty()
    }
}

/// The page title with the H1 fallback applied.
pub open spec fn row_title_of(page: FetchedPage) -> Seq<char> {
    let t = title_of(page.body@);
    if t.len() > 0 {
        t
    } else {
        first_text_from(selected_texts_of(page.body@, "h1"@), 0)
    }
}

/// Is the mime an HTML type?
pub open spec fn page_is_html_of(page: FetchedPage) -> bool {
    contains_seq(lower_seq(page_mime_of(page)), "html"@)
}

/// The links reported for the page before deduplication: what the fetcher
/// exposed, then what the document's anchors and alternates resolve to.
pub open spec fn page_raw_links_of(page: FetchedPage, root: Option<Seq<char>>) -> Seq<Seq<char>> {
    (match page.page_links {
        Some(ls) => string_views(ls@),
        None => Seq::<Seq<char>>::empty(),
    }) + (if page_is_html_of(page) {
        crawl_link_acc(
            selected_attrs_of(page.body@, crawl_link_selector(), "href"@),
            row_url_of(page),
            root,
        ).0
    } else {
        Seq::<Seq<char>>::empty()
    })
}

} // verus!

verus! {

/// The indexability label of a fetched page.
pub open spec fn row_indexability_of(page: FetchedPage) -> Seq<char> {
    if 200 <= page.status <= 299 && !page_noindex_of(page) {
        "Indexable"@
    } else {
        "Non-Indexable"@
    }
}

/// The internal/external partition of the page's deduplicated link
/// union: every outgoing link (fetcher-exposed links included) is
/// classified once by the same-host gate, so the two counts always add
/// up to the link count.
pub open spec fn page_link_counts_of(page: FetchedPage, root: Option<Seq<char>>) -> (int, int) {
    let links = dedup_first(page_raw_links_of(page, root));
    let internal = crate::urlnorm::count_same_host(links, root);
    (internal, links.len() - internal)
}

/// The issue list of a fetched page, as the analyzer computes it.
pub open spec fn page_issues_of(page: FetchedPage, root: Option<Seq<char>>) -> Seq<SeoIssue> {
    issues_for_row(
        page.status,
        "retrieved"@,
        page_is_html_of(page),
        page_noindex_of(page),
        row_title_of(page).len() as int,
        meta_description_of(page.body@).len() as int,
        (if page_is_html_of(page) {
            selected_texts_of(page.body@, "h1"@).len() as int
        } else {
            0
        }),
        canonical_of(page.body@, row_url_of(page)),
        (if page_is_html_of(page) {
            ws_tokens(document_text_of(page.body@)).len() as int
        } else {
            0
        }),
        (if page_is_html_of(page) {
            image_stats_from(selected_attrs_of(page.body@, "img"@, "alt"@), 0).1
        } else {
            0
        }),
        page_link_counts_of(page, root).1,
    )
}

/// Analyze one fetched page into its record and outgoing link list.
#[verifier::rlimit(100)]
pub fn page_to_row(page: &FetchedPage, root_host: Option<&str>) -> (r: (CrawlRow, Vec<String>))
    ensures
        r.0.url@ == row_url_of(*page),
        r.0.status == page.status,
        r.0.mime@ == page_mime_of(*page),
        r.0.retrieval_status@ == "retrieved"@,
        r.0.indexability@ == row_indexability_of(*page),
        r.0.title@ == row_title_of(*page),
        r.0.title_length == row_title_of(*page).len(),
        r.0.meta@ == meta_description_of(page.body@),
        r.0.meta_length == meta_description_of(page.body@).len(),
        r.0.h1@ == first_text_from(selected_texts_of(page.body@, "h1"@), 0),
        r.0.canonical@ == canonical_of(page.body@, row_url_of(*page)),
        r.0.word_count == (if page_is_html_of(*page) {
            ws_tokens(document_text_of(page.body@)).len() as int
        } else {
            0
        }),
        r.0.size == page.size,
        r.0.response_time == page.response_time,
        r.0.last_modified@ == (match header_value_of(pair_views(page.headers@), "last-modified"@) {
            Some(v) => v,
            None => Seq::<char>::empty(),
        }),
        r.0.redirect_url@ == row_redirect_url_of(*page),
        r.0.redirect_type@ == (if 300 <= page.status <= 399 {
            redirect_class_of(page.status)
        } else {
            Seq::<char>::empty()
        }),
        string_views(r.1@) == dedup_first(page_raw_links_of(*page, opt_view(root_host))),
        r.0.link_count == r.1@.len(),
        r.0.internal_link_count == page_link_counts_of(*page, opt_view(root_host)).0,
        r.0.external_link_count == page_link_counts_of(*page, opt_view(root_host)).1,
        r.0.link_count == r.0.internal_link_count + r.0.external_link_count,
        r.0.h1_count == (if page_is_html_of(*page) {
            selected_texts_of(page.body@, "h1"@).len() as int
        } else {
            0
        }),
        r.0.h2_count == (if page_is_html_of(*page) {
            selected_texts_of(page.body@, "h2"@).len() as int
        } else {
            0
        }),
        r.0.image_count == (if page_is_html_of(*page) {
            image_stats_from(selected_attrs_of(page.body@, "img"@, "alt"@), 0).0
        } else {
            0
        }),
        r.0.image_missing_alt_count == (if page_is_html_of(*page) {
            image_stats_from(selected_attrs_of(page.body@, "img"@, "alt"@), 0).1
        } else {
            0
        }),
        r.0.structured_data_count == (if page_is_html_of(*page) {
            nonblank_texts_from(
                selected_texts_of(page.body@, "script[type=\"application/ld+json\"]"@),
                0,
            )
        } else {
            0
        }),
        r.0.issues@ == page_issues_of(*page, opt_view(root_host)),
        r.0.seo_score == score_of(r.0.issues@),
        row_wf(r.0),
{
    let body = page.body.as_str();
    let mut title = extract_title(body);
    let meta = extract_meta_description(body);
    let h1 = extract_real_h1(body);
    let mime = page_mime(page);
    let status = page.status;

    let requested_url = normalize_or_keep(page.requested_url.as_str());
    let final_url = normalize_or_keep(page.final_url.as_str());
    let is_followed_redirect = {
        let a = str_chars(requested_url.as_str());
        let b = str_chars(final_url.as_str());
        !vec_eq(&a, &b)
    };
    let is_redirect_status = 300 <= status && status <= 399;
    let row_url = if is_redirect_status {
        requested_url.clone()
    } else if is_followed_redirect {
        final_url.clone()
    } else {
        requested_url.clone()
    };
    let redirect_url = if is_redirect_status && is_followed_redirect {
        final_url.clone()
    } else {
        String::new()
    };
    let redirect_type = if is_redirect_status {
        let c = redirect_class(status);
        String::from_str(c)
    } else {
        String::new()
    };

    if title.as_str().unicode_len() == 0 {
        title = h1.clone();
    }
    let canonical = extract_canonical(body, row_url.as_str());
    let noindex = has_noindex(page);
    let is_html = {
        let mv = str_chars(mime.as_str());
        let low = lower_vec(&mv);
        let needle = str_chars("html");
        vec_contains(&low, &needle)
    };
    let h1_count: usize = if is_html {
        count_elements(body, "h1")
    } else {
        0
    };
    let h2_count: usize = if is_html {
        count_elements(body, "h2")
    } else {
        0
    };
    let (image_count, image_missing_alt_count): (usize, usize) = if is_html {
        image_alt_stats(body)
    } else {
        (0, 0)
    };
    let structured_data_count: usize = if is_html {
        count_structured_data_blocks(body)
    } else {
        0
    };
    let word_count: usize = if is_html {
        count_words(body)
    } else {
        0
    };
    let doc_links: Vec<String> = if is_html {
        let (links, _, _) = extract_crawl_links_with_breakdown(body, row_url.as_str(), root_host);
        links
    } else {
        Vec::new()
    };

    let size = page.size;
    let response_time = page.response_time;
    let last_modified = match header_value(page, "last-modified") {
        Some(v) => v,
        None => String::new(),
    };

    let mut all_links: Vec<String> = Vec::new();
    let ghost base_links = match &page.page_links {
        Some(ls) => string_views(ls@),
        None => Seq::<Seq<char>>::empty(),
    };
    match &page.page_links {
        Some(ls) => {
            let mut i: usize = 0;
            proof {
                assert(string_views(all_links@) =~= base_links.subrange(0, 0));
            }
            while i < ls.len()
                invariant
                    i <= ls@.len(),
                    base_links == string_views(ls@),
                    string_views(all_links@) == base_links.subrange(0, i as int),
                decreases ls@.len() - i,
            {
                let ghost prev = all_links@;
                let l = ls[i].clone();
                all_links.push(l);
                proof {
                    assert(l@ == ls@[i as int]@);
                    assert(all_links@ == prev.push(l));
                    assert(string_views(all_links@) =~= string_views(prev).push(l@));
                    assert(base_links[i as int] == ls@[i as int]@);
                    assert(string_views(all_links@) =~= base_links.subrange(0, i + 1));
                }
                i = i + 1;
            }
            proof {
                assert(base_links.subrange(0, base_links.len() as int) =~= base_links);
            }
        },
        None => {
            proof {
                assert(string_views(all_links@) =~= base_links);
            }
        },
    }
    let ghost doc_views = string_views(doc_links@);
    let mut i: usize = 0;
    proof {
        assert(string_views(all_links@) =~= base_links + doc_views.subrange(0, 0));
    }
    while i < doc_links.len()
        invariant
            i <= doc_links@.len(),
            doc_views == string_views(doc_links@),
            string_views(all_links@) == base_links + doc_views.subrange(0, i as int),
        decreases doc_links@.len() - i,
    {
        let ghost prev = all_links@;
        let l = doc_links[i].clone();
        all_links.push(l);
        proof {
            assert(l@ == doc_links@[i as int]@);
            assert(all_links@ == prev.push(l));
            assert(string_views(all_links@) =~= string_views(prev).push(l@));
            assert(doc_views[i as int] == doc_links@[i as int]@);
            assert(string_views(all_links@) =~= base_links + doc_views.subrange(0, i + 1));
        }
        i = i + 1;
    }
    proof {
        assert(doc_views.subrange(0, doc_views.len() as int) =~= doc_views);
    }
    let discovered_links = dedupe_strings(&all_links);
    let (internal_link_count, external_link_count) = crate::urlnorm::classify_links(
        &discovered_links,
        root_host,
    );

    let title_length = title.as_str().unicode_len();
    let meta_length = meta.as_str().unicode_len();
    let issues = crate::issues::collect_row_issues(
        status,
        "retrieved",
        is_html,
        noindex,
        title_length,
        meta_length,
        h1_count,
        canonical.as_str(),
        word_count,
        image_missing_alt_count,
        external_link_count,
    );
    let seo_score = compute_seo_score(&issues);
    let indexability = if 200 <= status && status <= 299 && !noindex {
        String::from_str("Indexable")
    } else {
        String::from_str("Non-Indexable")
    };
    let link_count = discovered_links.len();

    let row = CrawlRow {
        url: row_url,
        status,
        mime,
        retrieval_status: String::from_str("retrieved"),
        indexability,
        title,
        title_length,
        meta,
        meta_length,
        h1,
        canonical,
        word_count,
        size,
        response_time,
        last_modified,
        redirect_url,
        redirect_type,
        link_count,
        internal_link_count,
        external_link_count,
        h1_count,
        h2_count,
        image_count,
        image_missing_alt_count,
        structured_data_count,
        seo_score,
        issues,
        crawl_timestamp: now_rfc3339(),
    };
    (row, discovered_links)
}

} // verus!

verus! {

/// The issue list after a rendered snapshot has been applied over a row.
pub open spec fn rendered_issues_of(
    row: CrawlRow,
    html: Seq<char>,
    root: Option<Seq<char>>,
) -> Seq<SeoIssue> {
    issues_for_row(
        row.status,
        row.retrieval_status@,
        true,
        noindex_meta_of(html),
        rendered_title_of(row, html).len() as int,
        meta_description_of(html).len() as int,
        selected_texts_of(html, "h1"@).len() as int,
        canonical_of(html, row.url@),
        ws_tokens(document_text_of(html)).len() as int,
        image_stats_from(selected_attrs_of(html, "img"@, "alt"@), 0).1,
        crawl_link_acc(selected_attrs_of(html, crawl_link_selector(), "href"@), row.url@, root).2,
    )
}

/// The title after the rendered snapshot: the rendered title when it is
/// non-empty, the row's old title otherwise.
pub open spec fn rendered_title_of(row: CrawlRow, html: Seq<char>) -> Seq<char> {
    if title_of(html).len() > 0 {
        title_of(html)
    } else {
        row.title@
    }
}

/// Overlay the signals of a rendered HTML snapshot onto a row: content
/// fields, counts, indexability and issues are recomputed from the
/// rendered document; identity, status and timing stay.
#[verifier::rlimit(100)]
pub fn apply_rendered_html_to_row(row: &mut CrawlRow, html: &str, root_host: Option<&str>)
    ensures
        final(row).url == old(row).url,
        final(row).status == old(row).status,
        final(row).retrieval_status == old(row).retrieval_status,
        final(row).response_time == old(row).response_time,
        final(row).last_modified == old(row).last_modified,
        final(row).redirect_url == old(row).redirect_url,
        final(row).redirect_type == old(row).redirect_type,
        final(row).crawl_timestamp == old(row).crawl_timestamp,
        final(row).title@ == rendered_title_of(*old(row), html@),
        final(row).title_length == final(row).title@.len(),
        final(row).meta@ == meta_description_of(html@),
        final(row).meta_length == final(row).meta@.len(),
        final(row).h1@ == first_text_from(selected_texts_of(html@, "h1"@), 0),
        final(row).h1_count == selected_texts_of(html@, "h1"@).len(),
        final(row).h2_count == selected_texts_of(html@, "h2"@).len(),
        final(row).canonical@ == canonical_of(html@, old(row).url@),
        final(row).word_count == ws_tokens(document_text_of(html@)).len(),
        final(row).size == html.spec_bytes().len() as usize,
        final(row).image_count == image_stats_from(
            selected_attrs_of(html@, "img"@, "alt"@),
            0,
        ).0,
        final(row).image_missing_alt_count == image_stats_from(
            selected_attrs_of(html@, "img"@, "alt"@),
            0,
        ).1,
        final(row).structured_data_count == nonblank_texts_from(
            selected_texts_of(html@, "script[type=\"application/ld+json\"]"@),
            0,
        ),
        final(row).internal_link_count == crawl_link_acc(
            selected_attrs_of(html@, crawl_link_selector(), "href"@),
            old(row).url@,
            opt_view(root_host),
        ).1,
        final(row).external_link_count == crawl_link_acc(
            selected_attrs_of(html@, crawl_link_selector(), "href"@),
            old(row).url@,
            opt_view(root_host),
        ).2,
        final(row).link_count == final(row).internal_link_count
            + final(row).external_link_count,
        final(row).mime@ == "text/html"@,
        final(row).indexability@ == (if 200 <= old(row).status <= 299 && !noindex_meta_of(html@) {
            "Indexable"@
        } else {
            "Non-Indexable"@
        }),
        final(row).issues@ == rendered_issues_of(*old(row), html@, opt_view(root_host)),
        final(row).seo_score == score_of(final(row).issues@),
        final(row).issues@.no_duplicates(),
{
    let title = extract_title(html);
    let meta = extract_meta_description(html);
    let h1 = extract_real_h1(html);
    let canonical = extract_canonical(html, row.url.as_str());
    let noindex = has_noindex_meta(html);
    let h1_count = count_elements(html, "h1");
    let h2_count = count_elements(html, "h2");
    let (image_count, image_missing_alt_count) = image_alt_stats(html);
    let structured_data_count = count_structured_data_blocks(html);
    let (rendered_links, internal_link_count, external_link_count) =
        extract_crawl_links_with_breakdown(html, row.url.as_str(), root_host);
    let rendered_total = rendered_links.len();
    proof {
        assert(internal_link_count + external_link_count == rendered_total);
    }
    let word_count = count_words(html);

    if title.as_str().unicode_len() > 0 {
        row.title = title;
        row.title_length = row.title.as_str().unicode_len();
    } else {
        row.title_length = row.title.as_str().unicode_len();
    }
    row.meta = meta;
    row.meta_length = row.meta.as_str().unicode_len();
    row.h1 = h1;
    row.h1_count = h1_count;
    row.h2_count = h2_count;
    row.canonical = canonical;
    row.word_count = word_count;
    row.size = html.len();
    row.image_count = image_count;
    row.image_missing_alt_count = image_missing_alt_count;
    row.structured_data_count = structured_data_count;
    row.internal_link_count = internal_link_count;
    row.external_link_count = external_link_count;
    row.link_count = internal_link_count + external_link_count;
    row.mime = String::from_str("text/html");
    row.indexability = if 200 <= row.status && row.status <= 299 && !noindex {
        String::from_str("Indexable")
    } else {
        String::from_str("Non-Indexable")
    };
    row.issues = crate::issues::collect_row_issues(
        row.status,
        row.retrieval_status.as_str(),
        true,
        noindex,
        row.title_length,
        row.meta_length,
        row.h1_count,
        row.canonical.as_str(),
        row.word_count,
        row.image_missing_alt_count,
        row.external_link_count,
    );
    row.seo_score = compute_seo_score(&row.issues);
}

/// The record filed for a URL that was never retrieved: status 0, the
/// reason kept in the meta field, and the one issue that says so.
pub fn unretrieved_row(url: String, reason: String) -> (r: CrawlRow)
    ensures
        r.url == url,
        r.status == 0,
        r.mime@ == "unknown"@,
        r.retrieval_status@ == "not_retrieved"@,
        r.indexability@ == "Not Retrieved"@,
        r.title@ == Seq::<char>::empty(),
        r.title_length == 0,
        r.meta == reason,
        r.meta_length == reason@.len(),
        r.h1@ == Seq::<char>::empty(),
        r.canonical@ == Seq::<char>::empty(),
        r.word_count == 0,
        r.size == 0,
        r.response_time == 0,
        r.last_modified@ == Seq::<char>::empty(),
        r.redirect_url@ == Seq::<char>::empty(),
        r.redirect_type@ == Seq::<char>::empty(),
        r.link_count == 0,
        r.internal_link_count == 0,
        r.external_link_count == 0,
        r.h1_count == 0,
        r.h2_count == 0,
        r.image_count == 0,
        r.image_missing_alt_count == 0,
        r.structured_data_count == 0,
        r.issues@ == seq![SeoIssue::NotRetrieved],
        r.seo_score == 30,
        row_wf(r),
{
    let reason_len = reason.as_str().unicode_len();
    let mut issues: Vec<SeoIssue> = Vec::new();
    issues.push(SeoIssue::NotRetrieved);
    proof {
        assert(issues@ =~= seq![SeoIssue::NotRetrieved]);
        assert(crate::issues::total_penalty(seq![SeoIssue::NotRetrieved].drop_last()) == 0);
        assert(crate::issues::total_penalty(seq![SeoIssue::NotRetrieved]) == 70);
    }
    let seo_score = compute_seo_score(&issues);
    CrawlRow {
        url,
        status: 0,
        mime: String::from_str("unknown"),
        retrieval_status: String::from_str("not_retrieved"),
        indexability: String::from_str("Not Retrieved"),
        title: String::new(),
        title_length: 0,
        meta: reason,
        meta_length: reason_len,
        h1: String::new(),
        canonical: String::new(),
        word_count: 0,
        size: 0,
        response_time: 0,
        last_modified: String::new(),
        redirect_url: String::new(),
        redirect_type: String::new(),
        link_count: 0,
        internal_link_count: 0,
        external_link_count: 0,
        h1_count: 0,
        h2_count: 0,
        image_count: 0,
        image_missing_alt_count: 0,
        structured_data_count: 0,
        seo_score,
        issues,
        crawl_timestamp: now_rfc3339(),
    }
}

} // verus!

verus! {

/// File a record under a different URL (the pool files its record under
/// the probed final fetch URL); every other field stays.
pub fn set_row_url(row: &mut CrawlRow, url: String)
    ensures
        final(row).url == url,
        final(row).status == old(row).status,
        final(row).mime == old(row).mime,
        final(row).retrieval_status == old(row).retrieval_status,
        final(row).indexability == old(row).indexability,
        final(row).title == old(row).title,
        final(row).title_length == old(row).title_length,
        final(row).meta == old(row).meta,
        final(row).meta_length == old(row).meta_length,
        final(row).h1 == old(row).h1,
        final(row).canonical == old(row).canonical,
        final(row).word_count == old(row).word_count,
        final(row).size == old(row).size,
        final(row).response_time == old(row).response_time,
        final(row).last_modified == old(row).last_modified,
        final(row).redirect_url == old(row).redirect_url,
        final(row).redirect_type == old(row).redirect_type,
        final(row).link_count == old(row).link_count,
        final(row).internal_link_count == old(row).internal_link_count,
        final(row).external_link_count == old(row).external_link_count,
        final(row).h1_count == old(row).h1_count,
        final(row).h2_count == old(row).h2_count,
        final(row).image_count == old(row).image_count,
        final(row).image_missing_alt_count == old(row).image_missing_alt_count,
        final(row).structured_data_count == old(row).structured_data_count,
        final(row).seo_score == old(row).seo_score,
        final(row).issues == old(row).issues,
        final(row).crawl_timestamp == old(row).crawl_timestamp,
{
    row.url = url;
}

/// Count the same-host links a live browser rendered as the record's
/// internal links, keeping the link count equal to internal plus
/// external.
pub fn apply_browser_link_counts(row: &mut CrawlRow, rendered_internal_links: &Vec<String>)
    requires
        rendered_internal_links@.len() + old(row).external_link_count <= usize::MAX,
    ensures
        final(row).internal_link_count == rendered_internal_links@.len(),
        final(row).external_link_count == old(row).external_link_count,
        final(row).link_count == final(row).internal_link_count
            + final(row).external_link_count,
        final(row).url == old(row).url,
        final(row).status == old(row).status,
        final(row).issues == old(row).issues,
        final(row).seo_score == old(row).seo_score,
        final(row).title == old(row).title,
        final(row).meta == old(row).meta,
        final(row).retrieval_status == old(row).retrieval_status,
{
    row.internal_link_count = rendered_internal_links.len();
    row.link_count = row.internal_link_count + row.external_link_count;
}

} // verus!
