//! HTML signal extraction.
//!
//! The scraper crate parses documents and runs CSS selectors; what it
//! returns for a given document and selector is named by uninterpreted
//! functions. The selection of titles, descriptions, canonicals and link
//! breakdowns out of those results is verified.

use vstd::prelude::*;

use crate::strutil::{
    chars_string, contains_seq, join_with, lower_seq, lower_vec, str_chars, trim_seq, trim_vec,
    vec_contains, ws_tokens,
};
use crate::urlnorm::{opt_view, resolve_href, resolved_href, same_host_of};

verus! {

/// What scraper's `Html::parse_document` and `select` yield for a document
/// and selector: each matched element's text nodes joined with single
/// spaces, in document order. Empty when the selector does not parse.
pub uninterp spec fn selected_texts_of(html: Seq<char>, selector: Seq<char>) -> Seq<Seq<char>>;

/// What scraper's `select` yields for a document, selector and attribute
/// name: each matched element's attribute value, in document order. Empty
/// when the selector does not parse.
pub uninterp spec fn selected_attrs_of(html: Seq<char>, selector: Seq<char>, attr: Seq<char>) -> Seq<
    Option<Seq<char>>,
>;

/// What scraper's `root_element().text()` yields, joined with single
/// spaces.
pub uninterp spec fn document_text_of(html: Seq<char>) -> Seq<char>;

/// Relies on scraper's `Html::parse_document`, `Selector::parse` and
/// `select`: the text of every element matched by the selector, a function
/// of document and selector alone.
#[verifier::external_body]
pub(crate) fn select_texts(html: &str, selector: &str) -> (r: Vec<String>)
    ensures
        crate::urlnorm::string_views(r@) == selected_texts_of(html@, selector@),
{
    let sel = match scraper::Selector::parse(selector) {
        Ok(s) => s,
        Err(_) => return Vec::new(),
    };
    let doc = scraper::Html::parse_document(html);
    doc.select(&sel).map(|el| el.text().collect::<Vec<_>>().join(" ")).collect()
}

/// Relies on scraper's `Html::parse_document`, `Selector::parse` and
/// `select`: one attribute of every element matched by the selector, a
/// function of document, selector and attribute name alone.
#[verifier::external_body]
pub(crate) fn select_attrs(html: &str, selector: &str, attr: &str) -> (r: Vec<Option<String>>)
    ensures
        attr_views(r@) == selected_attrs_of(html@, selector@, attr@),
{
    let sel = match scraper::Selector::parse(selector) {
        Ok(s) => s,
        Err(_) => return Vec::new(),
    };
    let doc = scraper::Html::parse_document(html);
    doc.select(&sel).map(|el| el.value().attr(attr).map(|v| v.to_string())).collect()
}

/// Relies on scraper's `Html::parse_document` and `root_element`: the text
/// content of the whole document, a function of the document alone.
#[verifier::external_body]
pub(crate) fn document_text(html: &str) -> (r: String)
    ensures
        r@ == document_text_of(html@),
{
    let doc = scraper::Html::parse_document(html);
    doc.root_element().text().collect::<Vec<_>>().join(" ")
}

/// The character views of a list of optional strings.
pub open spec fn attr_views(s: Seq<Option<String>>) -> Seq<Option<Seq<char>>> {
    s.map_values(
        |x: Option<String>|
            match x {
                Some(v) => Some(v@),
                None => None,
            },
    )
}

/// Runs of whitespace collapsed to single spaces, ends trimmed.
pub open spec fn normalized_text_of(s: Seq<char>) -> Seq<char> {
    join_with(ws_tokens(s), ' ')
}

/// Collapse whitespace runs to single spaces and trim the ends.
pub fn normalize_text(input: &str) -> (r: String)
    ensures
        r@ == normalized_text_of(input@),
{
    let v = str_chars(input);
    let toks = crate::strutil::tokenize_ws(&v);
    let joined = crate::strutil::join_vec(&toks, ' ');
    chars_string(&joined)
}

/// The first non-empty normalized text among `texts`, starting at `i`.
pub open spec fn first_text_from(texts: Seq<Seq<char>>, i: int) -> Seq<char>
    decreases texts.len() - i,
{
    if i < 0 || i >= texts.len() {
        Seq::empty()
    } else if normalized_text_of(texts[i]).len() > 0 {
        normalized_text_of(texts[i])
    } else {
        first_text_from(texts, i + 1)
    }
}

/// The first non-empty (after whitespace normalization) text of an element
/// matched by the selector.
pub fn extract_first_text(html: &str, selector: &str) -> (r: String)
    ensures
        r@ == first_text_from(selected_texts_of(html@, selector@), 0),
{
    let texts = select_texts(html, selector);
    let ghost tv = selected_texts_of(html@, selector@);
    let mut i: usize = 0;
    while i < texts.len()
        invariant
            i <= texts@.len(),
            tv == crate::urlnorm::string_views(texts@),
            tv == selected_texts_of(html@, selector@),
            first_text_from(tv, 0) == first_text_from(tv, i as int),
        decreases texts@.len() - i,
    {
        let t = normalize_text(texts[i].as_str());
        if t.as_str().unicode_len() > 0 {
            proof {
                assert(t@.len() > 0);
                assert(first_text_from(tv, i as int) == t@);
            }
            return t;
        }
        proof {
            assert(t@.len() == 0);
            assert(first_text_from(tv, i as int) == first_text_from(tv, i + 1));
        }
        i = i + 1;
    }
    proof {
        assert(first_text_from(tv, i as int) =~= Seq::<char>::empty());
    }
    String::new()
}

/// The first attribute value carried by any matched element, starting at
/// `i`: the first `Some`, or `None` when every element lacks it.
pub open spec fn first_attr_from(attrs: Seq<Option<Seq<char>>>, i: int) -> Option<Seq<char>>
    decreases attrs.len() - i,
{
    if i < 0 || i >= attrs.len() {
        None
    } else {
        match attrs[i] {
            Some(v) => Some(v),
            None => first_attr_from(attrs, i + 1),
        }
    }
}

/// The first `content` attribute among elements matched by the selector,
/// whitespace-normalized; empty when none carries one.
pub open spec fn meta_content_of(html: Seq<char>, selector: Seq<char>) -> Seq<char> {
    match first_attr_from(selected_attrs_of(html, selector, "content"@), 0) {
        Some(v) => normalized_text_of(v),
        None => Seq::empty(),
    }
}

/// The normalized `content` of the first matched meta element that has
/// one.
pub fn extract_meta_content(html: &str, selector: &str) -> (r: String)
    ensures
        r@ == meta_content_of(html@, selector@),
{
    let attrs = select_attrs(html, selector, "content");
    let ghost av = selected_attrs_of(html@, selector@, "content"@);
    let mut i: usize = 0;
    while i < attrs.len()
        invariant
            i <= attrs@.len(),
            av == attr_views(attrs@),
            av == selected_attrs_of(html@, selector@, "content"@),
            first_attr_from(av, 0) == first_attr_from(av, i as int),
        decreases attrs@.len() - i,
    {
        match &attrs[i] {
            Some(v) => {
                proof {
                    assert(av[i as int] == Some(v@));
                    assert(first_attr_from(av, i as int) == Some(v@));
                }
                return normalize_text(v.as_str());
            },
            None => {
                proof {
                    assert(av[i as int] is None);
                    assert(first_attr_from(av, i as int) == first_attr_from(av, i + 1));
                }
            },
        }
        i = i + 1;
    }
    proof {
        assert(first_attr_from(av, i as int) is None);
    }
    String::new()
}

/// The page title: the `<title>` text, else `og:title`, else
/// `twitter:title`.
pub open spec fn title_of(html: Seq<char>) -> Seq<char> {
    let t = first_text_from(selected_texts_of(html, "title"@), 0);
    if t.len() > 0 {
        t
    } else {
        let og = meta_content_of(html, "meta[property=\"og:title\"]"@);
        if og.len() > 0 {
            og
        } else {
            meta_content_of(html, "meta[name=\"twitter:title\"]"@)
        }
    }
}

/// Extract the page title, exactly as `title_of` describes.
pub fn extract_title(html: &str) -> (r: String)
    ensures
        r@ == title_of(html@),
{
    let title = extract_first_text(html, "title");
    if title.as_str().unicode_len() > 0 {
        return title;
    }
    let og = extract_meta_content(html, "meta[property=\"og:title\"]");
    if og.as_str().unicode_len() > 0 {
        return og;
    }
    extract_meta_content(html, "meta[name=\"twitter:title\"]")
}

/// The text of the first `<h1>`.
pub fn extract_real_h1(html: &str) -> (r: String)
    ensures
        r@ == first_text_from(selected_texts_of(html@, "h1"@), 0),
{
    extract_first_text(html, "h1")
}

/// The meta description: `description`, else `og:description`, else
/// `twitter:description`.
pub open spec fn meta_description_of(html: Seq<char>) -> Seq<char> {
    let d = meta_content_of(html, "meta[name=\"description\"]"@);
    if d.len() > 0 {
        d
    } else {
        let og = meta_content_of(html, "meta[property=\"og:description\"]"@);
        if og.len() > 0 {
            og
        } else {
            meta_content_of(html, "meta[name=\"twitter:description\"]"@)
        }
    }
}

/// Extract the meta description, exactly as `meta_description_of`
/// describes.
pub fn extract_meta_description(html: &str) -> (r: String)
    ensures
        r@ == meta_description_of(html@),
{
    let d = extract_meta_content(html, "meta[name=\"description\"]");
    if d.as_str().unicode_len() > 0 {
        return d;
    }
    let og = extract_meta_content(html, "meta[property=\"og:description\"]");
    if og.as_str().unicode_len() > 0 {
        return og;
    }
    extract_meta_content(html, "meta[name=\"twitter:description\"]")
}

/// The canonical URL: the first `<link rel=canonical>`'s `href`, resolved
/// against the page URL, with the raw href kept when resolution fails.
pub open spec fn canonical_of(html: Seq<char>, page_url: Seq<char>) -> Seq<char> {
    let attrs = selected_attrs_of(html, "link[rel=\"canonical\"]"@, "href"@);
    if attrs.len() == 0 {
        Seq::empty()
    } else {
        match attrs[0] {
            None => Seq::empty(),
            Some(href) => {
                let h = normalized_text_of(href);
                match resolved_href(page_url, h) {
                    Some(res) => res,
                    None => h,
                }
            },
        }
    }
}

/// Extract the canonical URL, exactly as `canonical_of` describes.
pub fn extract_canonical(html: &str, page_url: &str) -> (r: String)
    ensures
        r@ == canonical_of(html@, page_url@),
{
    let attrs = select_attrs(html, "link[rel=\"canonical\"]", "href");
    let ghost av = selected_attrs_of(html@, "link[rel=\"canonical\"]"@, "href"@);
    if attrs.len() == 0 {
        return String::new();
    }
    match &attrs[0] {
        None => {
            proof {
                assert(av[0] is None);
            }
            String::new()
        },
        Some(href) => {
            proof {
                assert(av[0] == Some(href@));
            }
            let h = normalize_text(href.as_str());
            match resolve_href(page_url, h.as_str()) {
                Some(res) => res,
                None => h,
            }
        },
    }
}

/// Does any attribute value in the list carry `noindex`, case-insensitively?
pub open spec fn any_noindex_attr(attrs: Seq<Option<Seq<char>>>) -> bool {
    exists|i: int|
        0 <= i < attrs.len() && match #[trigger] attrs[i] {
            Some(v) => contains_seq(lower_seq(v), "noindex"@),
            None => false,
        }
}

/// Does any matched robots meta element carry `noindex` in its `content`?
pub open spec fn noindex_meta_of(html: Seq<char>) -> bool {
    any_noindex_attr(
        selected_attrs_of(html, "meta[name=\"robots\"], meta[name=\"googlebot\"]"@, "content"@),
    )
}

/// Whether a robots or googlebot meta tag asks for `noindex`.
pub fn has_noindex_meta(html: &str) -> (r: bool)
    ensures
        r == noindex_meta_of(html@),
{
    let attrs = select_attrs(html, "meta[name=\"robots\"], meta[name=\"googlebot\"]", "content");
    let ghost av = selected_attrs_of(
        html@,
        "meta[name=\"robots\"], meta[name=\"googlebot\"]"@,
        "content"@,
    );
    let needle = str_chars("noindex");
    let mut i: usize = 0;
    while i < attrs.len()
        invariant
            i <= attrs@.len(),
            av == attr_views(attrs@),
            av == selected_attrs_of(
                html@,
                "meta[name=\"robots\"], meta[name=\"googlebot\"]"@,
                "content"@,
            ),
            needle@ == "noindex"@,
            forall|k: int|
                0 <= k < i ==> match #[trigger] av[k] {
                    Some(v) => !contains_seq(lower_seq(v), "noindex"@),
                    None => true,
                },
        decreases attrs@.len() - i,
    {
        match &attrs[i] {
            Some(v) => {
                let vv = str_chars(v.as_str());
                let low = lower_vec(&vv);
                if vec_contains(&low, &needle) {
                    proof {
                        assert(av[i as int] == Some(v@));
                    }
                    return true;
                }
                proof {
                    assert(av[i as int] == Some(v@));
                }
            },
            None => {
                proof {
                    assert(av[i as int] is None);
                }
            },
        }
        i = i + 1;
    }
    false
}

/// How many elements the selector matches.
pub fn count_elements(html: &str, selector: &str) -> (r: usize)
    ensures
        r == selected_texts_of(html@, selector@).len(),
{
    let texts = select_texts(html, selector);
    texts.len()
}

/// How many images the document has, and how many of them lack alt text,
/// counting from position `i`.
pub open spec fn image_stats_from(attrs: Seq<Option<Seq<char>>>, i: int) -> (int, int)
    decreases attrs.len() - i,
{
    if i < 0 || i >= attrs.len() {
        (0, 0)
    } else {
        let (t, m) = image_stats_from(attrs, i + 1);
        let missing = match attrs[i] {
            None => true,
            Some(v) => trim_seq(v).len() == 0,
        };
        (t + 1, if missing {
            m + 1
        } else {
            m
        })
    }
}

/// Count the images and the images whose `alt` is missing or blank.
pub fn image_alt_stats(html: &str) -> (r: (usize, usize))
    ensures
        r.0 as int == image_stats_from(selected_attrs_of(html@, "img"@, "alt"@), 0).0,
        r.1 as int == image_stats_from(selected_attrs_of(html@, "img"@, "alt"@), 0).1,
        r.0 == selected_attrs_of(html@, "img"@, "alt"@).len(),
        r.1 <= r.0,
{
    let attrs = select_attrs(html, "img", "alt");
    let ghost av = selected_attrs_of(html@, "img"@, "alt"@);
    proof {
        lemma_image_stats_bounds(av, 0);
    }
    let mut missing: usize = 0;
    let mut i: usize = attrs.len();
    while i > 0
        invariant
            i <= attrs@.len(),
            av == attr_views(attrs@),
            av == selected_attrs_of(html@, "img"@, "alt"@),
            missing as int == image_stats_from(av, i as int).1,
            missing as int <= av.len() - i,
            av.len() <= usize::MAX,
        decreases i,
    {
        i = i - 1;
        proof {
            lemma_image_stats_bounds(av, i as int);
        }
        let is_missing = match &attrs[i] {
            None => true,
            Some(v) => {
                let vv = str_chars(v.as_str());
                let t = trim_vec(&vv);
                t.len() == 0
            },
        };
        proof {
            assert(av[i as int] == attr_views(attrs@)[i as int]);
        }
        if is_missing {
            missing = missing + 1;
        }
    }
    (attrs.len(), missing)
}

proof fn lemma_image_stats_bounds(attrs: Seq<Option<Seq<char>>>, i: int)
    requires
        0 <= i <= attrs.len(),
    ensures
        image_stats_from(attrs, i).0 == attrs.len() - i,
        0 <= image_stats_from(attrs, i).1 <= attrs.len() - i,
    decreases attrs.len() - i,
{
    if i < attrs.len() {
        lemma_image_stats_bounds(attrs, i + 1);
    }
}

/// How many matched script blocks have non-blank content, counting from
/// position `i`.
pub open spec fn nonblank_texts_from(texts: Seq<Seq<char>>, i: int) -> int
    decreases texts.len() - i,
{
    if i < 0 || i >= texts.len() {
        0
    } else {
        nonblank_texts_from(texts, i + 1) + (if normalized_text_of(texts[i]).len() > 0 {
            1int
        } else {
            0int
        })
    }
}

proof fn lemma_nonblank_bounds(texts: Seq<Seq<char>>, i: int)
    requires
        0 <= i <= texts.len(),
    ensures
        0 <= nonblank_texts_from(texts, i) <= texts.len() - i,
    decreases texts.len() - i,
{
    if i < texts.len() {
        lemma_nonblank_bounds(texts, i + 1);
    }
}

/// Count the non-empty JSON-LD structured-data blocks.
pub fn count_structured_data_blocks(html: &str) -> (r: usize)
    ensures
        r as int == nonblank_texts_from(
            selected_texts_of(html@, "script[type=\"application/ld+json\"]"@),
            0,
        ),
{
    let texts = select_texts(html, "script[type=\"application/ld+json\"]");
    let ghost tv = selected_texts_of(html@, "script[type=\"application/ld+json\"]"@);
    let mut count: usize = 0;
    let mut i: usize = texts.len();
    while i > 0
        invariant
            i <= texts@.len(),
            tv == crate::urlnorm::string_views(texts@),
            tv == selected_texts_of(html@, "script[type=\"application/ld+json\"]"@),
            count as int == nonblank_texts_from(tv, i as int),
            count as int <= tv.len() - i,
            tv.len() <= usize::MAX,
        decreases i,
    {
        i = i - 1;
        proof {
            lemma_nonblank_bounds(tv, i as int);
        }
        let t = normalize_text(texts[i].as_str());
        if t.as_str().unicode_len() > 0 {
            count = count + 1;
        }
    }
    count
}

/// How many whitespace-separated words the document's text content has.
pub fn count_words(html: &str) -> (r: usize)
    ensures
        r == ws_tokens(document_text_of(html@)).len(),
{
    let text = document_text(html);
    let tv = str_chars(text.as_str());
    let toks = crate::strutil::tokenize_ws(&tv);
    proof {
        assert(crate::urlnorm::string_views(Seq::<String>::empty()) =~= Seq::<Seq<char>>::empty());
    }
    toks.len()
}

} // verus!

verus! {

/// The crawl links of a page and the internal/external tally, folded over
/// the matched `href` attributes: each is trimmed and resolved, the
/// result deduplicated, and every deduplicated link classified once as
/// internal or external, so the counts always partition the list.
pub open spec fn crawl_link_acc(
    attrs: Seq<Option<Seq<char>>>,
    page_url: Seq<char>,
    root: Option<Seq<char>>,
) -> (Seq<Seq<char>>, int, int)
    decreases attrs.len(),
{
    if attrs.len() == 0 {
        (Seq::empty(), 0, 0)
    } else {
        let (ls, ic, ec) = crawl_link_acc(attrs.drop_last(), page_url, root);
        match attrs.last() {
            None => (ls, ic, ec),
            Some(href) => {
                let h = trim_seq(href);
                match resolved_href(page_url, h) {
                    None => (ls, ic, ec),
                    Some(res) => {
                        if ls.contains(res) {
                            (ls, ic, ec)
                        } else if same_host_of(res, root) {
                            (ls.push(res), ic + 1, ec)
                        } else {
                            (ls.push(res), ic, ec + 1)
                        }
                    },
                }
            },
        }
    }
}

/// The selector whose matches feed the link breakdown.
pub open spec fn crawl_link_selector() -> Seq<char> {
    "link[rel=\"alternate\"][href], link[hreflang][href], a[href]"@
}

pub proof fn lemma_crawl_link_acc_bounds(
    attrs: Seq<Option<Seq<char>>>,
    page_url: Seq<char>,
    root: Option<Seq<char>>,
)
    ensures
        0 <= crawl_link_acc(attrs, page_url, root).1,
        0 <= crawl_link_acc(attrs, page_url, root).2,
        crawl_link_acc(attrs, page_url, root).1 + crawl_link_acc(attrs, page_url, root).2
            == crawl_link_acc(attrs, page_url, root).0.len(),
        crawl_link_acc(attrs, page_url, root).0.len() <= attrs.len(),
    decreases attrs.len(),
{
    if attrs.len() > 0 {
        lemma_crawl_link_acc_bounds(attrs.drop_last(), page_url, root);
    }
}

/// Collect the document's crawlable links with the internal/external
/// breakdown, exactly as `crawl_link_acc` over the matched `href`s
/// describes: the deduplicated link list, partitioned by the host gate.
pub fn extract_crawl_links_with_breakdown(html: &str, page_url: &str, root_host: Option<&str>) -> (r:
    (Vec<String>, usize, usize))
    ensures
        ({
            let acc = crawl_link_acc(
                selected_attrs_of(html@, crawl_link_selector(), "href"@),
                page_url@,
                opt_view(root_host),
            );
            crate::urlnorm::string_views(r.0@) == acc.0 && r.1 == acc.1 && r.2 == acc.2
        }),
        r.1 as int + r.2 as int == r.0@.len(),
{
    let attrs = select_attrs(
        html,
        "link[rel=\"alternate\"][href], link[hreflang][href], a[href]",
        "href",
    );
    let ghost av = selected_attrs_of(html@, crawl_link_selector(), "href"@);
    let ghost page = page_url@;
    let ghost root = opt_view(root_host);
    let mut out: Vec<String> = Vec::new();
    let mut internal: usize = 0;
    let mut external: usize = 0;
    let mut i: usize = 0;
    let n: usize = attrs.len();
    proof {
        assert(av.len() == n);
        assert(av.subrange(0, 0) =~= Seq::<Option<Seq<char>>>::empty());
        assert(crate::urlnorm::string_views(out@) =~= Seq::<Seq<char>>::empty());
    }
    while i < attrs.len()
        invariant
            i <= attrs@.len(),
            av == attr_views(attrs@),
            av.len() <= usize::MAX,
            page == page_url@,
            root == opt_view(root_host),
            crate::urlnorm::string_views(out@) == crawl_link_acc(
                av.subrange(0, i as int),
                page,
                root,
            ).0,
            internal as int == crawl_link_acc(av.subrange(0, i as int), page, root).1,
            external as int == crawl_link_acc(av.subrange(0, i as int), page, root).2,
        decreases attrs@.len() - i,
    {
        let ghost pv = av.subrange(0, i as int);
        let ghost qv = av.subrange(0, i + 1);
        proof {
            assert(qv.drop_last() =~= pv);
            assert(qv.last() == av[i as int]);
            lemma_crawl_link_acc_bounds(pv, page, root);
            assert(pv.len() == i);
        }
        match &attrs[i] {
            None => {
                proof {
                    assert(av[i as int] is None);
                    assert(crawl_link_acc(qv, page, root) == crawl_link_acc(pv, page, root));
                }
            },
            Some(href) => {
                proof {
                    assert(av[i as int] == Some(href@));
                }
                let hv = str_chars(href.as_str());
                let ht = trim_vec(&hv);
                let hs = chars_string(&ht);
                match resolve_href(page_url, hs.as_str()) {
                    None => {
                        proof {
                            assert(crawl_link_acc(qv, page, root) == crawl_link_acc(
                                pv,
                                page,
                                root,
                            ));
                        }
                    },
                    Some(res) => {
                        let same = crate::urlnorm::is_same_host(res.as_str(), root_host);
                        let rv = str_chars(res.as_str());
                        let already = {
                            let mut found = false;
                            let mut k: usize = 0;
                            while k < out.len()
                                invariant
                                    k <= out@.len(),
                                    found == exists|t: int|
                                        0 <= t < k && crate::urlnorm::string_views(out@)[t]
                                            == rv@,
                                    rv@ == res@,
                                decreases out@.len() - k,
                            {
                                let ov = str_chars(out[k].as_str());
                                if crate::strutil::vec_eq(&ov, &rv) {
                                    proof {
                                        assert(crate::urlnorm::string_views(out@)[k as int]
                                            == rv@);
                                    }
                                    found = true;
                                    k = out.len();
                                } else {
                                    proof {
                                        assert(crate::urlnorm::string_views(out@)[k as int]
                                            != rv@);
                                    }
                                    k = k + 1;
                                }
                            }
                            found
                        };
                        proof {
                            if already {
                                assert(crate::urlnorm::string_views(out@).contains(res@));
                            } else {
                                if crate::urlnorm::string_views(out@).contains(res@) {
                                    let t = choose|t: int|
                                        0 <= t < out@.len() && crate::urlnorm::string_views(
                                            out@,
                                        )[t] == res@;
                                    assert(false);
                                }
                            }
                        }
                        if !already {
                            out.push(res);
                            if same {
                                internal = internal + 1;
                            } else {
                                external = external + 1;
                            }
                            proof {
                                assert(crate::urlnorm::string_views(out@) =~= crawl_link_acc(
                                    pv,
                                    page,
                                    root,
                                ).0.push(rv@));
                            }
                        }
                        proof {
                            assert(crawl_link_acc(qv, page, root).0 == crate::urlnorm::string_views(
                                out@,
                            ));
                        }
                    },
                }
            },
        }
        i = i + 1;
    }
    proof {
        assert(av.subrange(0, av.len() as int) =~= av);
        lemma_crawl_link_acc_bounds(av, page, root);
    }
    (out, internal, external)
}

} // verus!
