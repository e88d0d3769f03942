//! URL normalization and the same-host gate.
//!
//! Parsing, joining and re-serialising URLs is done by the `url` crate; its
//! results are named by uninterpreted functions, and everything around them
//! (scheme gating, tracking-parameter stripping, deduplication) is verified.

use vstd::prelude::*;

use crate::strutil::{
    chars_string, eq_ignore_case_seq, lower_seq, lower_vec, starts_with_seq, str_chars, trim_seq,
    trim_vec, vec_eq, vec_eq_str, vec_starts_with,
};

verus! {

/// What `url::Url::parse` followed by `scheme` yields, `None` on a parse
/// failure.
pub uninterp spec fn url_scheme_of(s: Seq<char>) -> Option<Seq<char>>;

/// What `url::Url::parse` followed by `host_str` yields, `None` on a parse
/// failure or a URL without a host.
pub uninterp spec fn url_host_of(s: Seq<char>) -> Option<Seq<char>>;

/// What `url::Url::parse` followed by `query_pairs` yields, decoded and in
/// order, `None` on a parse failure.
pub uninterp spec fn url_query_pairs_of(s: Seq<char>) -> Option<Seq<(Seq<char>, Seq<char>)>>;

/// What `url::Url::parse`, `set_query`, `set_fragment(None)` and
/// `to_string` yield, `None` on a parse failure.
pub uninterp spec fn url_with_query_of(s: Seq<char>, q: Option<Seq<char>>) -> Option<Seq<char>>;

/// What `url::Url::join` on a parsed base yields, re-serialised; `None`
/// when base or join fail to parse.
pub uninterp spec fn url_join_of(base: Seq<char>, rel: Seq<char>) -> Option<Seq<char>>;

/// What `url::form_urlencoded::Serializer` produces for a pair list.
pub uninterp spec fn form_urlencoded_of(pairs: Seq<(Seq<char>, Seq<char>)>) -> Seq<char>;

/// What `url::Url::parse` followed by `port_or_known_default` yields.
pub uninterp spec fn url_port_or_default_of(s: Seq<char>) -> Option<u16>;

/// What `url::Url::parse` followed by `port` yields.
pub uninterp spec fn url_port_of(s: Seq<char>) -> Option<u16>;

/// Relies on `url::Url::parse` and `Url::scheme`: the scheme of a parsed
/// URL, which depends on the input string alone.
#[verifier::external_body]
pub(crate) fn url_scheme(s: &str) -> (r: Option<String>)
    ensures
        r is Some <==> url_scheme_of(s@) is Some,
        r matches Some(v) ==> url_scheme_of(s@) == Some(v@),
{
    url::Url::parse(s).ok().map(|u| u.scheme().to_string())
}

/// Relies on `url::Url::parse` and `Url::host_str`: the host of a parsed
/// URL, which depends on the input string alone.
#[verifier::external_body]
pub(crate) fn url_host(s: &str) -> (r: Option<String>)
    ensures
        r is Some <==> url_host_of(s@) is Some,
        r matches Some(v) ==> url_host_of(s@) == Some(v@),
{
    url::Url::parse(s).ok().and_then(|u| u.host_str().map(|h| h.to_string()))
}

/// Relies on `url::Url::parse` and `Url::query_pairs`: the decoded query
/// pairs of a parsed URL, in order.
#[verifier::external_body]
pub(crate) fn url_query_pairs(s: &str) -> (r: Option<Vec<(String, String)>>)
    ensures
        r is Some <==> url_query_pairs_of(s@) is Some,
        r matches Some(v) ==> url_query_pairs_of(s@) == Some(pair_views(v@)),
{
    url::Url::parse(s).ok().map(|u| {
        u.query_pairs().map(|(k, v)| (k.into_owned(), v.into_owned())).collect()
    })
}

/// Relies on `url::Url::parse`, `set_query`, `set_fragment` and
/// `Url::to_string`: the URL re-serialised with the given query and no
/// fragment.
#[verifier::external_body]
pub(crate) fn url_with_query(s: &str, q: Option<&str>) -> (r: Option<String>)
    ensures
        r is Some <==> url_with_query_of(s@, opt_view(q)) is Some,
        r matches Some(v) ==> url_with_query_of(s@, opt_view(q)) == Some(v@),
{
    url::Url::parse(s).ok().map(|mut u| {
        u.set_query(q);
        u.set_fragment(None);
        u.to_string()
    })
}

/// Relies on `url::Url::join`: the relative reference resolved against the
/// base, re-serialised.
#[verifier::external_body]
pub(crate) fn url_join(base: &str, rel: &str) -> (r: Option<String>)
    ensures
        r is Some <==> url_join_of(base@, rel@) is Some,
        r matches Some(v) ==> url_join_of(base@, rel@) == Some(v@),
{
    url::Url::parse(base).ok().and_then(|b| b.join(rel).ok()).map(|u| u.to_string())
}

/// Relies on `url::form_urlencoded::Serializer`: the pairs encoded as an
/// `application/x-www-form-urlencoded` query string.
#[verifier::external_body]
pub(crate) fn form_urlencode(pairs: &Vec<(String, String)>) -> (r: String)
    ensures
        r@ == form_urlencoded_of(pair_views(pairs@)),
{
    let mut ser = url::form_urlencoded::Serializer::new(String::new());
    for (k, v) in pairs.iter() {
        ser.append_pair(k, v);
    }
    ser.finish()
}

/// Relies on `url::Url::port_or_known_default`.
#[verifier::external_body]
pub(crate) fn url_port_or_default(s: &str) -> (r: Option<u16>)
    ensures
        r == url_port_or_default_of(s@),
{
    url::Url::parse(s).ok().and_then(|u| u.port_or_known_default())
}

/// Relies on `url::Url::port`.
#[verifier::external_body]
pub(crate) fn url_port(s: &str) -> (r: Option<u16>)
    ensures
        r == url_port_of(s@),
{
    url::Url::parse(s).ok().and_then(|u| u.port())
}

/// The character views of a pair of strings.
pub open spec fn pair_views(s: Seq<(String, String)>) -> Seq<(Seq<char>, Seq<char>)> {
    s.map_values(|p: (String, String)| (p.0@, p.1@))
}

/// The character view of an optional string slice.
pub open spec fn opt_view(s: Option<&str>) -> Option<Seq<char>> {
    match s {
        Some(v) => Some(v@),
        None => None,
    }
}

/// Is this query parameter one of the tracking parameters that the
/// normalizer strips?
pub open spec fn is_tracking_param(name: Seq<char>) -> bool {
    let n = lower_seq(name);
    ||| starts_with_seq(n, "utm_"@)
    ||| starts_with_seq(n, "gad_"@)
    ||| n == "gclid"@
    ||| n == "fbclid"@
    ||| n == "gbraid"@
    ||| n == "wbraid"@
    ||| n == "_gl"@
    ||| n == "mc_cid"@
    ||| n == "mc_eid"@
    ||| n == "pk_campaign"@
    ||| n == "pk_kwd"@
    ||| n == "pk_source"@
    ||| n == "pk_medium"@
    ||| n == "pk_content"@
}

/// Whether a query parameter is a tracking parameter (`utm_`/`gad_`
/// prefixes and a fixed list of exact names, case-insensitively).
pub fn is_tracking_query_param(param: &str) -> (r: bool)
    ensures
        r == is_tracking_param(param@),
{
    let pv = str_chars(param);
    let n = lower_vec(&pv);
    let utm = str_chars("utm_");
    let gad = str_chars("gad_");
    if vec_starts_with(&n, &utm) || vec_starts_with(&n, &gad) {
        return true;
    }
    vec_eq_str(&n, "gclid") || vec_eq_str(&n, "fbclid") || vec_eq_str(&n, "gbraid") || vec_eq_str(
        &n,
        "wbraid",
    ) || vec_eq_str(&n, "_gl") || vec_eq_str(&n, "mc_cid") || vec_eq_str(&n, "mc_eid")
        || vec_eq_str(&n, "pk_campaign") || vec_eq_str(&n, "pk_kwd") || vec_eq_str(&n, "pk_source")
        || vec_eq_str(&n, "pk_medium") || vec_eq_str(&n, "pk_content")
}

/// The query pairs that survive tracking-parameter stripping, in order.
pub open spec fn kept_query_pairs(pairs: Seq<(Seq<char>, Seq<char>)>) -> Seq<
    (Seq<char>, Seq<char>),
>
    decreases pairs.len(),
{
    if pairs.len() == 0 {
        Seq::empty()
    } else {
        kept_query_pairs(pairs.drop_last()) + (if is_tracking_param(pairs.last().0) {
            Seq::<(Seq<char>, Seq<char>)>::empty()
        } else {
            seq![pairs.last()]
        })
    }
}

/// Stripping is idempotent: a second pass removes nothing.
pub proof fn lemma_kept_query_pairs_idempotent(pairs: Seq<(Seq<char>, Seq<char>)>)
    ensures
        kept_query_pairs(kept_query_pairs(pairs)) == kept_query_pairs(pairs),
    decreases pairs.len(),
{
    if pairs.len() == 0 {
        assert(kept_query_pairs(pairs) =~= Seq::<(Seq<char>, Seq<char>)>::empty());
    } else {
        lemma_kept_query_pairs_idempotent(pairs.drop_last());
        let k = kept_query_pairs(pairs);
        let kp = kept_query_pairs(pairs.drop_last());
        if is_tracking_param(pairs.last().0) {
            assert(k =~= kp);
        } else {
            assert(k =~= kp.push(pairs.last()));
            assert(k.drop_last() =~= kp);
            assert(kept_query_pairs(k) =~= kept_query_pairs(kp) + seq![pairs.last()]);
            assert(kept_query_pairs(k) =~= k);
        }
    }
}

/// The normalized form of a URL: trimmed, scheme gated to http(s),
/// tracking parameters stripped, remaining query re-encoded in order,
/// fragment dropped.
pub open spec fn normalized_url(s: Seq<char>) -> Option<Seq<char>> {
    let t = trim_seq(s);
    if t.len() == 0 {
        None
    } else {
        match url_scheme_of(t) {
            None => None,
            Some(sch) => {
                let low = lower_seq(sch);
                if low != "http"@ && low != "https"@ {
                    None
                } else {
                    match url_query_pairs_of(t) {
                        None => None,
                        Some(pairs) => {
                            let kept = kept_query_pairs(pairs);
                            let q = if kept.len() == 0 {
                                None
                            } else {
                                Some(form_urlencoded_of(kept))
                            };
                            url_with_query_of(t, q)
                        },
                    }
                }
            },
        }
    }
}

/// Normalize a crawl URL, exactly as `normalized_url` describes.
pub fn normalize_crawl_url(raw: &str) -> (r: Option<String>)
    ensures
        r is Some <==> normalized_url(raw@) is Some,
        r matches Some(v) ==> normalized_url(raw@) == Some(v@),
{
    let rawv = str_chars(raw);
    let t = trim_vec(&rawv);
    if t.len() == 0 {
        return None;
    }
    let ts = chars_string(&t);
    let sch = match url_scheme(ts.as_str()) {
        None => {
            return None;
        },
        Some(s) => s,
    };
    let schv = str_chars(sch.as_str());
    let low = lower_vec(&schv);
    if !(vec_eq_str(&low, "http") || vec_eq_str(&low, "https")) {
        return None;
    }
    let pairs = match url_query_pairs(ts.as_str()) {
        None => {
            return None;
        },
        Some(p) => p,
    };
    let mut kept: Vec<(String, String)> = Vec::new();
    let mut i: usize = 0;
    proof {
        assert(pair_views(pairs@.subrange(0, 0)) =~= Seq::<(Seq<char>, Seq<char>)>::empty());
        assert(kept_query_pairs(pair_views(pairs@.subrange(0, 0))) =~= Seq::<
            (Seq<char>, Seq<char>),
        >::empty());
        assert(pair_views(kept@) =~= Seq::<(Seq<char>, Seq<char>)>::empty());
    }
    while i < pairs.len()
        invariant
            i <= pairs@.len(),
            pair_views(kept@) == kept_query_pairs(pair_views(pairs@.subrange(0, i as int))),
        decreases pairs@.len() - i,
    {
        let ghost pv = pair_views(pairs@.subrange(0, i as int));
        let ghost qv = pair_views(pairs@.subrange(0, i + 1));
        proof {
            assert(pairs@.subrange(0, i + 1).drop_last() =~= pairs@.subrange(0, i as int));
            assert(qv.drop_last() =~= pv);
            assert(qv.last() == (pairs@[i as int].0@, pairs@[i as int].1@));
        }
        let tracking = is_tracking_query_param(pairs[i].0.as_str());
        if !tracking {
            let k = pairs[i].0.clone();
            let v = pairs[i].1.clone();
            kept.push((k, v));
            proof {
                assert(pair_views(kept@) =~= kept_query_pairs(pv).push(qv.last()));
                assert(kept_query_pairs(qv) =~= kept_query_pairs(pv).push(qv.last()));
            }
        } else {
            proof {
                assert(kept_query_pairs(qv) =~= kept_query_pairs(pv));
            }
        }
        i = i + 1;
    }
    proof {
        assert(pairs@.subrange(0, pairs@.len() as int) =~= pairs@);
    }
    if kept.len() == 0 {
        proof {
            assert(kept_query_pairs(pair_views(pairs@)).len() == 0);
        }
        url_with_query(ts.as_str(), None)
    } else {
        let q = form_urlencode(&kept);
        url_with_query(ts.as_str(), Some(q.as_str()))
    }
}

/// Is the candidate on the crawl's root host? True when no root host is
/// set.
pub open spec fn same_host_of(candidate: Seq<char>, root: Option<Seq<char>>) -> bool {
    match root {
        None => true,
        Some(rh) => match url_host_of(candidate) {
            None => false,
            Some(h) => eq_ignore_case_seq(h, rh),
        },
    }
}

/// The same-host gate: no root host admits everything; otherwise the
/// candidate must parse and its host must match case-insensitively.
pub fn is_same_host(candidate: &str, root_host: Option<&str>) -> (r: bool)
    ensures
        r == same_host_of(candidate@, opt_view(root_host)),
{
    let root = match root_host {
        None => {
            return true;
        },
        Some(rh) => rh,
    };
    match url_host(candidate) {
        None => false,
        Some(h) => {
            let hv = str_chars(h.as_str());
            let rv = str_chars(root);
            crate::strutil::vec_eq_ignore_case(&hv, &rv)
        },
    }
}

/// Where a document link leads, if it is crawlable at all: empty links,
/// fragments, and mail/script/phone schemes are rejected; absolute http(s)
/// links stand as they are; anything else is joined with the page URL; the
/// result is normalized.
pub open spec fn resolved_href(page_url: Seq<char>, href: Seq<char>) -> Option<Seq<char>> {
    if href.len() == 0 || href.first() == '#' || starts_with_seq(href, "mailto:"@)
        || starts_with_seq(href, "javascript:"@) || starts_with_seq(href, "tel:"@) {
        None
    } else if starts_with_seq(href, "http://"@) || starts_with_seq(href, "https://"@) {
        normalized_url(href)
    } else {
        match url_join_of(page_url, href) {
            None => None,
            Some(j) => normalized_url(j),
        }
    }
}

/// Resolve one `href` against the page URL, exactly as `resolved_href`
/// describes.
pub fn resolve_href(page_url: &str, href: &str) -> (r: Option<String>)
    ensures
        r is Some <==> resolved_href(page_url@, href@) is Some,
        r matches Some(v) ==> resolved_href(page_url@, href@) == Some(v@),
{
    let hv = str_chars(href);
    if hv.len() == 0 {
        return None;
    }
    if hv[0] == '#' {
        return None;
    }
    let mailto = str_chars("mailto:");
    let script = str_chars("javascript:");
    let tel = str_chars("tel:");
    if vec_starts_with(&hv, &mailto) || vec_starts_with(&hv, &script) || vec_starts_with(
        &hv,
        &tel,
    ) {
        return None;
    }
    let http = str_chars("http://");
    let https = str_chars("https://");
    if vec_starts_with(&hv, &http) || vec_starts_with(&hv, &https) {
        return normalize_crawl_url(href);
    }
    match url_join(page_url, href) {
        None => None,
        Some(j) => normalize_crawl_url(j.as_str()),
    }
}

} // verus!

verus! {

/// The character views of a list of strings.
pub open spec fn string_views(s: Seq<String>) -> Seq<Seq<char>> {
    s.map_values(|x: String| x@)
}

/// The crawlable links among `links`: each normalized, gated to the root
/// host, and deduplicated preserving first-occurrence order.
pub open spec fn crawlable_links(links: Seq<Seq<char>>, root: Option<Seq<char>>) -> Seq<Seq<char>>
    decreases links.len(),
{
    if links.len() == 0 {
        Seq::empty()
    } else {
        let prev = crawlable_links(links.drop_last(), root);
        match normalized_url(links.last()) {
            None => prev,
            Some(n) => if !same_host_of(n, root) {
                prev
            } else if prev.contains(n) {
                prev
            } else {
                prev.push(n)
            },
        }
    }
}

/// Everything `crawlable_links` yields is deduplicated, same-host, and the
/// normalization of one of the inputs.
pub proof fn lemma_crawlable_links_wf(links: Seq<Seq<char>>, root: Option<Seq<char>>)
    ensures
        crawlable_links(links, root).no_duplicates(),
        forall|i: int|
            0 <= i < crawlable_links(links, root).len() ==> same_host_of(
                #[trigger] crawlable_links(links, root)[i],
                root,
            ),
        forall|i: int|
            0 <= i < crawlable_links(links, root).len() ==> exists|j: int|
                0 <= j < links.len() && normalized_url(#[trigger] links[j]) == Some(
                    #[trigger] crawlable_links(links, root)[i],
                ),
    decreases links.len(),
{
    if links.len() > 0 {
        lemma_crawlable_links_wf(links.drop_last(), root);
        let prev = crawlable_links(links.drop_last(), root);
        let cur = crawlable_links(links, root);
        assert(forall|j: int| 0 <= j < links.len() - 1 ==> links.drop_last()[j] == links[j]);
        match normalized_url(links.last()) {
            None => {},
            Some(n) => {
                if same_host_of(n, root) && !prev.contains(n) {
                    assert(cur =~= prev.push(n));
                    assert forall|i: int| 0 <= i < cur.len() implies exists|j: int|
                        0 <= j < links.len() && normalized_url(#[trigger] links[j]) == Some(
                            #[trigger] cur[i],
                        ) by {
                        if i < prev.len() {
                            let j = choose|j: int|
                                0 <= j < links.len() - 1 && normalized_url(
                                    #[trigger] links.drop_last()[j],
                                ) == Some(prev[i]);
                            assert(normalized_url(links[j]) == Some(cur[i]));
                        } else {
                            assert(normalized_url(links[links.len() - 1]) == Some(cur[i]));
                        }
                    }
                }
            },
        }
    }
}

/// Does a list of strings contain this very character sequence?
pub fn strings_contain(list: &Vec<String>, s: &Vec<char>) -> (r: bool)
    ensures
        r == string_views(list@).contains(s@),
{
    let mut i: usize = 0;
    while i < list.len()
        invariant
            i <= list@.len(),
            forall|k: int| 0 <= k < i ==> string_views(list@)[k] != s@,
        decreases list@.len() - i,
    {
        let lv = str_chars(list[i].as_str());
        if vec_eq(&lv, s) {
            assert(string_views(list@)[i as int] == s@);
            return true;
        }
        i = i + 1;
    }
    proof {
        if string_views(list@).contains(s@) {
            let k = choose|k: int|
                0 <= k < string_views(list@).len() && string_views(list@)[k] == s@;
            assert(false);
        }
    }
    false
}

/// Normalize, gate to the root host, and deduplicate a link list, exactly
/// as `crawlable_links` describes.
pub fn filter_crawlable_links(links: Vec<String>, root_host: Option<&str>) -> (r: Vec<String>)
    ensures
        string_views(r@) == crawlable_links(string_views(links@), opt_view(root_host)),
        string_views(r@).no_duplicates(),
        forall|i: int|
            0 <= i < r@.len() ==> same_host_of(#[trigger] string_views(r@)[i], opt_view(
                root_host,
            )),
{
    let ghost all = string_views(links@);
    let ghost root = opt_view(root_host);
    let mut out: Vec<String> = Vec::new();
    let mut i: usize = 0;
    proof {
        assert(string_views(links@.subrange(0, 0)) =~= Seq::<Seq<char>>::empty());
        assert(crawlable_links(string_views(links@.subrange(0, 0)), root) =~= Seq::<
            Seq<char>,
        >::empty());
        assert(string_views(out@) =~= Seq::<Seq<char>>::empty());
    }
    while i < links.len()
        invariant
            i <= links@.len(),
            root == opt_view(root_host),
            string_views(out@) == crawlable_links(string_views(links@.subrange(0, i as int)), root),
        decreases links@.len() - i,
    {
        let ghost pv = string_views(links@.subrange(0, i as int));
        let ghost qv = string_views(links@.subrange(0, i + 1));
        proof {
            assert(links@.subrange(0, i + 1).drop_last() =~= links@.subrange(0, i as int));
            assert(qv.drop_last() =~= pv);
            assert(qv.last() == links@[i as int]@);
        }
        let normalized = normalize_crawl_url(links[i].as_str());
        match normalized {
            None => {
                proof {
                    assert(crawlable_links(qv, root) =~= crawlable_links(pv, root));
                }
            },
            Some(n) => {
                if is_same_host(n.as_str(), root_host) {
                    let nv = str_chars(n.as_str());
                    if !strings_contain(&out, &nv) {
                        out.push(n);
                        proof {
                            assert(string_views(out@) =~= crawlable_links(pv, root).push(nv@));
                            assert(crawlable_links(qv, root) =~= crawlable_links(pv, root).push(
                                nv@,
                            ));
                        }
                    } else {
                        proof {
                            assert(crawlable_links(qv, root) =~= crawlable_links(pv, root));
                        }
                    }
                } else {
                    proof {
                        assert(crawlable_links(qv, root) =~= crawlable_links(pv, root));
                    }
                }
            },
        }
        i = i + 1;
    }
    proof {
        assert(links@.subrange(0, links@.len() as int) =~= links@);
        lemma_crawlable_links_wf(all, root);
    }
    out
}

} // verus!

verus! {

/// `links` with later duplicates removed, first occurrences kept in order.
pub open spec fn dedup_first(links: Seq<Seq<char>>) -> Seq<Seq<char>>
    decreases links.len(),
{
    if links.len() == 0 {
        Seq::empty()
    } else {
        let prev = dedup_first(links.drop_last());
        if prev.contains(links.last()) {
            prev
        } else {
            prev.push(links.last())
        }
    }
}

/// The deduplicated list never repeats an element and keeps only elements
/// of the input.
pub proof fn lemma_dedup_first_wf(links: Seq<Seq<char>>)
    ensures
        dedup_first(links).no_duplicates(),
        forall|i: int|
            0 <= i < dedup_first(links).len() ==> links.contains(
                #[trigger] dedup_first(links)[i],
            ),
        forall|i: int| 0 <= i < links.len() ==> dedup_first(links).contains(#[trigger] links[i]),
    decreases links.len(),
{
    if links.len() > 0 {
        lemma_dedup_first_wf(links.drop_last());
        let prev = dedup_first(links.drop_last());
        let cur = dedup_first(links);
        assert(forall|j: int| 0 <= j < links.len() - 1 ==> links.drop_last()[j] == links[j]);
        assert forall|i: int| 0 <= i < cur.len() implies links.contains(#[trigger] cur[i]) by {
            if i < prev.len() {
                assert(links.drop_last().contains(prev[i]));
                let j = choose|j: int|
                    0 <= j < links.drop_last().len() && links.drop_last()[j] == prev[i];
                assert(links[j] == cur[i]);
            } else {
                assert(cur[i] == links.last());
                assert(links[links.len() - 1] == links.last());
            }
        }
        assert forall|i: int| 0 <= i < links.len() implies cur.contains(#[trigger] links[i]) by {
            if i < links.len() - 1 {
                assert(links.drop_last()[i] == links[i]);
                assert(prev.contains(links[i]));
                let t = choose|t: int| 0 <= t < prev.len() && prev[t] == links[i];
                if prev.contains(links.last()) {
                    assert(cur[t] == links[i]);
                } else {
                    assert(cur[t] == links[i]);
                }
            } else {
                if prev.contains(links.last()) {
                    let t = choose|t: int| 0 <= t < prev.len() && prev[t] == links.last();
                    assert(cur[t] == links.last());
                } else {
                    assert(cur[cur.len() - 1] == links.last());
                }
            }
        }
    }
}

/// Remove duplicate strings, keeping first occurrences in order.
pub fn dedupe_strings(links: &Vec<String>) -> (r: Vec<String>)
    ensures
        string_views(r@) == dedup_first(string_views(links@)),
        string_views(r@).no_duplicates(),
{
    let ghost all = string_views(links@);
    let mut out: Vec<String> = Vec::new();
    let mut i: usize = 0;
    proof {
        assert(string_views(links@.subrange(0, 0)) =~= Seq::<Seq<char>>::empty());
        assert(dedup_first(string_views(links@.subrange(0, 0))) =~= Seq::<Seq<char>>::empty());
        assert(string_views(out@) =~= Seq::<Seq<char>>::empty());
    }
    while i < links.len()
        invariant
            i <= links@.len(),
            string_views(out@) == dedup_first(string_views(links@.subrange(0, i as int))),
        decreases links@.len() - i,
    {
        let ghost pv = string_views(links@.subrange(0, i as int));
        let ghost qv = string_views(links@.subrange(0, i + 1));
        proof {
            assert(links@.subrange(0, i + 1).drop_last() =~= links@.subrange(0, i as int));
            assert(qv.drop_last() =~= pv);
            assert(qv.last() == links@[i as int]@);
        }
        let lv = str_chars(links[i].as_str());
        if !strings_contain(&out, &lv) {
            let l = links[i].clone();
            out.push(l);
            proof {
                assert(string_views(out@) =~= dedup_first(pv).push(qv.last()));
            }
        }
        proof {
            assert(string_views(out@) =~= dedup_first(qv));
        }
        i = i + 1;
    }
    proof {
        assert(links@.subrange(0, links@.len() as int) =~= links@);
        lemma_dedup_first_wf(all);
    }
    out
}

} // verus!

verus! {

/// Is the list of views sorted lexicographically?
pub open spec fn views_sorted(s: Seq<Seq<char>>) -> bool {
    forall|k: int, l: int|
        0 <= k < l < s.len() ==> crate::strutil::lex_le(#[trigger] s[k], #[trigger] s[l])
}

/// Sort strings lexicographically (the order `String` comparisons give);
/// the result holds exactly the input's strings, and stays
/// duplicate-free when the input was.
pub fn sort_strings(input: Vec<String>) -> (r: Vec<String>)
    ensures
        string_views(r@).to_multiset() == string_views(input@).to_multiset(),
        views_sorted(string_views(r@)),
        string_views(input@).no_duplicates() ==> string_views(r@).no_duplicates(),
{
    broadcast use vstd::seq_lib::group_to_multiset_ensures;

    let ghost input_views = string_views(input@);
    let mut rest = input;
    let mut out: Vec<String> = Vec::new();
    while rest.len() > 0
        invariant
            string_views(out@).to_multiset().add(string_views(rest@).to_multiset())
                == input_views.to_multiset(),
            input_views == string_views(input@),
            views_sorted(string_views(out@)),
            forall|k: int, l: int|
                0 <= k < out@.len() && 0 <= l < rest@.len() ==> crate::strutil::lex_le(
                    #[trigger] string_views(out@)[k],
                    #[trigger] string_views(rest@)[l],
                ),
        decreases rest@.len(),
    {
        let mut m: usize = 0;
        let mut mv = str_chars(rest[0].as_str());
        proof {
            crate::strutil::lemma_lex_refl(mv@);
        }
        let mut t: usize = 1;
        while t < rest.len()
            invariant
                m < rest@.len(),
                t <= rest@.len(),
                mv@ == string_views(rest@)[m as int],
                forall|k: int|
                    0 <= k < t ==> crate::strutil::lex_le(
                        string_views(rest@)[m as int],
                        #[trigger] string_views(rest@)[k],
                    ),
            decreases rest@.len() - t,
        {
            let tv = str_chars(rest[t].as_str());
            if !crate::strutil::vec_lex_le(&mv, &tv) {
                proof {
                    crate::strutil::lemma_lex_total(mv@, tv@);
                    assert forall|k: int| 0 <= k < t implies crate::strutil::lex_le(
                        tv@,
                        #[trigger] string_views(rest@)[k],
                    ) by {
                        crate::strutil::lemma_lex_trans(tv@, mv@, string_views(rest@)[k]);
                    }
                }
                m = t;
                mv = tv;
                proof {
                    crate::strutil::lemma_lex_refl(mv@);
                }
            }
            t = t + 1;
        }
        let ghost old_rest_views = string_views(rest@);
        let ghost old_out_views = string_views(out@);
        let x = rest.remove(m);
        out.push(x);
        proof {
            assert(string_views(rest@) =~= old_rest_views.remove(m as int));
            assert(string_views(out@) =~= old_out_views.push(mv@));
            assert(old_rest_views[m as int] == mv@);
            old_rest_views.to_multiset_ensures();
            old_out_views.to_multiset_ensures();
            assert(string_views(out@).to_multiset() =~= old_out_views.to_multiset().insert(mv@));
            assert(string_views(rest@).to_multiset() =~= old_rest_views.to_multiset().remove(
                mv@,
            ));
            assert(string_views(out@).to_multiset().add(string_views(rest@).to_multiset())
                =~= input_views.to_multiset());
            assert(forall|l: int|
                0 <= l < string_views(rest@).len() ==> #[trigger] string_views(rest@)[l] == (
                if l < m {
                    old_rest_views[l]
                } else {
                    old_rest_views[l + 1]
                }));
        }
    }
    proof {
        assert(string_views(rest@).to_multiset() =~= vstd::multiset::Multiset::<
            Seq<char>,
        >::empty());
        assert(string_views(out@).to_multiset().add(
            vstd::multiset::Multiset::<Seq<char>>::empty(),
        ) =~= string_views(out@).to_multiset());
        if input_views.no_duplicates() {
            input_views.lemma_multiset_has_no_duplicates();
            assert(forall|x: Seq<char>|
                string_views(out@).to_multiset().contains(x)
                    ==> #[trigger] string_views(out@).to_multiset().count(x) == 1);
            string_views(out@).lemma_multiset_has_no_duplicates_conv();
        }
    }
    out
}

} // verus!

verus! {

/// How many of the links pass the same-host gate.
pub open spec fn count_same_host(links: Seq<Seq<char>>, root: Option<Seq<char>>) -> int
    decreases links.len(),
{
    if links.len() == 0 {
        0
    } else {
        count_same_host(links.drop_last(), root) + (if same_host_of(links.last(), root) {
            1int
        } else {
            0int
        })
    }
}

/// Partition a link list by the same-host gate: how many are internal
/// and how many external. The two counts always cover the whole list.
pub fn classify_links(links: &Vec<String>, root_host: Option<&str>) -> (r: (usize, usize))
    ensures
        r.0 == count_same_host(string_views(links@), opt_view(root_host)),
        r.0 + r.1 == links@.len(),
{
    let ghost root = opt_view(root_host);
    let mut internal: usize = 0;
    let mut i: usize = 0;
    proof {
        assert(string_views(links@).subrange(0, 0) =~= Seq::<Seq<char>>::empty());
    }
    while i < links.len()
        invariant
            i <= links@.len(),
            root == opt_view(root_host),
            internal as int == count_same_host(
                string_views(links@).subrange(0, i as int),
                root,
            ),
            internal <= i,
        decreases links@.len() - i,
    {
        let ghost pv = string_views(links@).subrange(0, i as int);
        let ghost qv = string_views(links@).subrange(0, i + 1);
        proof {
            assert(qv.drop_last() =~= pv);
            assert(qv.last() == string_views(links@)[i as int]);
            assert(string_views(links@)[i as int] == links@[i as int]@);
        }
        if is_same_host(links[i].as_str(), root_host) {
            internal = internal + 1;
        }
        i = i + 1;
    }
    proof {
        assert(string_views(links@).subrange(0, string_views(links@).len() as int) =~= string_views(
            links@,
        ));
    }
    (internal, links.len() - internal)
}

} // verus!
