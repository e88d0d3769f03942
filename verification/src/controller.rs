//! The crawl controller's decisions: sitemap seeding, reconciliation of
//! coverage gaps, retry dispatch, and the browser-driven discovery state.
//!
//! The controller's loops await network work; every choice they make
//! between awaits is a function or state machine here.

use vstd::prelude::*;

use crate::strutil::{
    chars_string, dec_str, fmt_usize, lower_seq, lower_vec, split_seq, split_vec,
    starts_with_seq, str_chars, trim_seq, trim_vec, vec_starts_with,
};
use crate::types::{retry_scope_label_of, RetryScope};
use crate::urlnorm::{
    crawlable_links, dedup_first, dedupe_strings, filter_crawlable_links, is_same_host, opt_view,
    same_host_of, sort_strings, string_views, url_host_of, url_port_of, url_scheme_of,
    views_sorted,
};

verus! {

/// The first position at or after `from` where `n` occurs in `h`;
/// `h.len()` when it never does.
pub open spec fn find_from(h: Seq<char>, n: Seq<char>, from: int) -> int
    decreases h.len() - from,
{
    if from < 0 || from + n.len() > h.len() {
        h.len() as int
    } else if n.len() == 0 || h.subrange(from, from + n.len()) == n {
        from
    } else {
        find_from(h, n, from + 1)
    }
}

pub proof fn lemma_find_from_bounds(h: Seq<char>, n: Seq<char>, from: int)
    requires
        0 <= from <= h.len(),
    ensures
        from <= find_from(h, n, from) <= h.len(),
        find_from(h, n, from) + n.len() <= h.len() ==> h.subrange(
            find_from(h, n, from),
            find_from(h, n, from) + n.len(),
        ) == n,
        forall|k: int|
            from <= k < find_from(h, n, from) && k + n.len() <= h.len() ==> #[trigger] h.subrange(
                k,
                k + n.len(),
            ) != n,
    decreases h.len() - from,
{
    if from + n.len() > h.len() {
    } else if n.len() == 0 || h.subrange(from, from + n.len()) == n {
        if n.len() == 0 {
            assert(h.subrange(from, from + n.len()) =~= n);
        }
    } else {
        lemma_find_from_bounds(h, n, from + 1);
    }
}

/// Find one pattern in a character vector, from a given position.
pub fn vec_find_from(h: &Vec<char>, n: &Vec<char>, from: usize) -> (r: usize)
    requires
        from <= h@.len(),
        n@.len() >= 1,
    ensures
        r == find_from(h@, n@, from as int),
        r <= h@.len(),
{
    proof {
        lemma_find_from_bounds(h@, n@, from as int);
    }
    if n.len() > h.len() {
        return h.len();
    }
    let bound: usize = h.len() - n.len();
    let mut i: usize = from;
    while i <= bound
        invariant
            from <= i,
            i <= h@.len() + 1,
            n@.len() >= 1,
            bound == h@.len() - n@.len(),
            h@.len() <= usize::MAX,
            find_from(h@, n@, from as int) == find_from(h@, n@, i as int),
        decreases h@.len() - i,
    {
        let mut k: usize = 0;
        let mut m: bool = true;
        while k < n.len()
            invariant
                i + n@.len() <= h@.len(),
                h@.len() <= usize::MAX,
                k <= n@.len(),
                m == (forall|t: int| 0 <= t < k ==> h@[i + t] == n@[t]),
            decreases n@.len() - k,
        {
            if h[i + k] != n[k] {
                m = false;
                k = n.len();
            } else {
                k = k + 1;
            }
        }
        if m {
            proof {
                assert(h@.subrange(i as int, i + n@.len()) =~= n@);
            }
            return i;
        }
        proof {
            if h@.subrange(i as int, i + n@.len()) == n@ {
                assert(forall|t: int| 0 <= t < n@.len() ==> h@[i + t] == #[trigger] n@[t]);
                assert(false);
            }
        }
        i = i + 1;
    }
    proof {
        assert(find_from(h@, n@, i as int) == h@.len());
    }
    h.len()
}

/// The `<loc>` values of a sitemap document from position `start` on:
/// each trimmed, empties skipped, scanning stops at the first unmatched
/// tag.
pub open spec fn loc_values_from(xml: Seq<char>, start: int) -> Seq<Seq<char>>
    decreases xml.len() - start,
    when 0 <= start <= xml.len()
    via loc_values_from_dec
{
    let open = find_from(xml, "<loc>"@, start);
    if open + 5 > xml.len() {
        Seq::empty()
    } else {
        let vstart = open + 5;
        let close = find_from(xml, "</loc>"@, vstart);
        if close + 6 > xml.len() {
            Seq::empty()
        } else {
            let v = trim_seq(xml.subrange(vstart, close));
            (if v.len() > 0 {
                seq![v]
            } else {
                Seq::<Seq<char>>::empty()
            }) + loc_values_from(xml, close + 6)
        }
    }
}

#[via_fn]
proof fn loc_values_from_dec(xml: Seq<char>, start: int) {
    reveal_strlit("<loc>");
    reveal_strlit("</loc>");
    lemma_find_from_bounds(xml, "<loc>"@, start);
    let open = find_from(xml, "<loc>"@, start);
    if open + 5 <= xml.len() {
        lemma_find_from_bounds(xml, "</loc>"@, open + 5);
    }
}

/// Scan the `<loc>` entries out of a sitemap document, exactly as
/// `loc_values_from` describes.
pub fn extract_xml_loc_values(xml: &str) -> (r: Vec<String>)
    ensures
        string_views(r@) == loc_values_from(xml@, 0),
{
    let xv = str_chars(xml);
    let open_tag = str_chars("<loc>");
    let close_tag = str_chars("</loc>");
    let mut out: Vec<String> = Vec::new();
    let mut start: usize = 0;
    proof {
        reveal_strlit("<loc>");
        reveal_strlit("</loc>");
        assert(string_views(out@) =~= Seq::<Seq<char>>::empty());
    }
    loop
        invariant
            start <= xv@.len(),
            xv@ == xml@,
            open_tag@ == "<loc>"@,
            close_tag@ == "</loc>"@,
            open_tag@.len() == 5,
            close_tag@.len() == 6,
            loc_values_from(xml@, 0) == string_views(out@) + loc_values_from(
                xml@,
                start as int,
            ),
        decreases xv@.len() - start,
    {
        proof {
            reveal_strlit("<loc>");
            reveal_strlit("</loc>");
            lemma_find_from_bounds(xv@, open_tag@, start as int);
        }
        let open = vec_find_from(&xv, &open_tag, start);
        if xv.len() - open < 5 {
            proof {
                assert(loc_values_from(xml@, start as int) =~= Seq::<Seq<char>>::empty());
                assert(string_views(out@) + Seq::<Seq<char>>::empty() =~= string_views(out@));
            }
            return out;
        }
        let vstart = open + 5;
        proof {
            lemma_find_from_bounds(xv@, close_tag@, vstart as int);
        }
        let close = vec_find_from(&xv, &close_tag, vstart);
        if xv.len() - close < 6 {
            proof {
                assert(loc_values_from(xml@, start as int) =~= Seq::<Seq<char>>::empty());
                assert(string_views(out@) + Seq::<Seq<char>>::empty() =~= string_views(out@));
            }
            return out;
        }
        let mut piece: Vec<char> = Vec::new();
        let mut i: usize = vstart;
        while i < close
            invariant
                vstart <= i <= close <= xv@.len(),
                piece@ == xv@.subrange(vstart as int, i as int),
            decreases close - i,
        {
            piece.push(xv[i]);
            i = i + 1;
            proof {
                assert(piece@ =~= xv@.subrange(vstart as int, i as int));
            }
        }
        let t = trim_vec(&piece);
        let ghost prev = string_views(out@);
        if t.len() > 0 {
            out.push(chars_string(&t));
            proof {
                assert(string_views(out@) =~= prev.push(t@));
            }
        }
        proof {
            let v = trim_seq(xml@.subrange(vstart as int, close as int));
            assert(loc_values_from(xml@, start as int) =~= (if v.len() > 0 {
                seq![v]
            } else {
                Seq::<Seq<char>>::empty()
            }) + loc_values_from(xml@, close + 6));
            assert(string_views(out@) =~= prev + (if v.len() > 0 {
                seq![v]
            } else {
                Seq::<Seq<char>>::empty()
            }));
            assert(loc_values_from(xml@, 0) =~= string_views(out@) + loc_values_from(
                xml@,
                close + 6,
            ));
        }
        start = close + 6;
    }
}

} // verus!

verus! {

/// The sitemap reference carried by one robots.txt line, if any: a line
/// that starts with `sitemap:` (case-insensitively, after trimming)
/// yields what follows the first colon, trimmed, when non-empty.
pub open spec fn sitemap_line_value(line: Seq<char>) -> Option<Seq<char>> {
    let t = trim_seq(line);
    if !starts_with_seq(lower_seq(t), "sitemap:"@) {
        None
    } else {
        let idx = find_from(t, ":"@, 0);
        if idx + 1 > t.len() {
            None
        } else {
            let rhs = trim_seq(t.subrange(idx + 1, t.len() as int));
            if rhs.len() > 0 {
                Some(rhs)
            } else {
                None
            }
        }
    }
}

/// The sitemap references of a list of lines, in order.
pub open spec fn sitemap_values_of(lines: Seq<Seq<char>>) -> Seq<Seq<char>>
    decreases lines.len(),
{
    if lines.len() == 0 {
        Seq::empty()
    } else {
        sitemap_values_of(lines.drop_last()) + (match sitemap_line_value(lines.last()) {
            Some(v) => seq![v],
            None => Seq::<Seq<char>>::empty(),
        })
    }
}

/// Scan the `Sitemap:` references out of a robots.txt body.
pub fn extract_sitemap_references(robots: &str) -> (r: Vec<String>)
    ensures
        string_views(r@) == sitemap_values_of(split_seq(robots@, '\n')),
{
    let rv = str_chars(robots);
    let lines = split_vec(&rv, '\n');
    let ghost lv = lines@.map_values(|p: Vec<char>| p@);
    let mut out: Vec<String> = Vec::new();
    let mut i: usize = 0;
    proof {
        assert(lv.subrange(0, 0) =~= Seq::<Seq<char>>::empty());
        assert(sitemap_values_of(lv.subrange(0, 0)) =~= Seq::<Seq<char>>::empty());
        assert(string_views(out@) =~= Seq::<Seq<char>>::empty());
    }
    while i < lines.len()
        invariant
            i <= lines@.len(),
            lv == lines@.map_values(|p: Vec<char>| p@),
            lv == split_seq(robots@, '\n'),
            string_views(out@) == sitemap_values_of(lv.subrange(0, i as int)),
        decreases lines@.len() - i,
    {
        let ghost pv = lv.subrange(0, i as int);
        let ghost qv = lv.subrange(0, i + 1);
        proof {
            assert(qv.drop_last() =~= pv);
            assert(qv.last() == lv[i as int]);
        }
        let t = trim_vec(&lines[i]);
        let low = lower_vec(&t);
        let prefix = str_chars("sitemap:");
        let ghost prev = string_views(out@);
        if vec_starts_with(&low, &prefix) {
            proof {
                lemma_find_from_bounds(t@, ":"@, 0);
            }
            let colon = str_chars(":");
            proof {
                reveal_strlit(":");
            }
            let idx = vec_find_from(&t, &colon, 0);
            if t.len() - idx >= 1 {
                let mut rhs_raw: Vec<char> = Vec::new();
                let mut k: usize = idx + 1;
                while k < t.len()
                    invariant
                        idx + 1 <= k <= t@.len(),
                        rhs_raw@ == t@.subrange(idx + 1, k as int),
                    decreases t@.len() - k,
                {
                    rhs_raw.push(t[k]);
                    k = k + 1;
                    proof {
                        assert(rhs_raw@ =~= t@.subrange(idx + 1, k as int));
                    }
                }
                let rhs = trim_vec(&rhs_raw);
                if rhs.len() > 0 {
                    out.push(chars_string(&rhs));
                    proof {
                        assert(string_views(out@) =~= prev.push(rhs@));
                    }
                }
            }
        }
        proof {
            assert(string_views(out@) =~= sitemap_values_of(qv));
        }
        i = i + 1;
    }
    proof {
        assert(lv.subrange(0, lv.len() as int) =~= lv);
    }
    out
}

/// The sitemap locations worth seeding: absolute http(s), on the root
/// host, deduplicated in order.
pub open spec fn seedable_locs(locs: Seq<Seq<char>>, root: Option<Seq<char>>) -> Seq<Seq<char>>
    decreases locs.len(),
{
    if locs.len() == 0 {
        Seq::empty()
    } else {
        let prev = seedable_locs(locs.drop_last(), root);
        let l = locs.last();
        if (starts_with_seq(l, "http://"@) || starts_with_seq(l, "https://"@)) && same_host_of(
            l,
            root,
        ) && !prev.contains(l) {
            prev.push(l)
        } else {
            prev
        }
    }
}

/// Keep the sitemap locations worth seeding, exactly as `seedable_locs`
/// describes.
pub fn filter_sitemap_locs(locs: &Vec<String>, root_host: Option<&str>) -> (r: Vec<String>)
    ensures
        string_views(r@) == seedable_locs(string_views(locs@), opt_view(root_host)),
{
    let ghost all = string_views(locs@);
    let ghost root = opt_view(root_host);
    let mut out: Vec<String> = Vec::new();
    let mut i: usize = 0;
    proof {
        assert(string_views(locs@.subrange(0, 0)) =~= Seq::<Seq<char>>::empty());
        assert(seedable_locs(string_views(locs@.subrange(0, 0)), root) =~= Seq::<
            Seq<char>,
        >::empty());
        assert(string_views(out@) =~= Seq::<Seq<char>>::empty());
    }
    while i < locs.len()
        invariant
            i <= locs@.len(),
            root == opt_view(root_host),
            string_views(out@) == seedable_locs(string_views(locs@.subrange(0, i as int)), root),
        decreases locs@.len() - i,
    {
        let ghost pv = string_views(locs@.subrange(0, i as int));
        let ghost qv = string_views(locs@.subrange(0, i + 1));
        proof {
            assert(locs@.subrange(0, i + 1).drop_last() =~= locs@.subrange(0, i as int));
            assert(qv.drop_last() =~= pv);
            assert(qv.last() == locs@[i as int]@);
        }
        let lv = str_chars(locs[i].as_str());
        let http = str_chars("http://");
        let https = str_chars("https://");
        let scheme_ok = vec_starts_with(&lv, &http) || vec_starts_with(&lv, &https);
        if scheme_ok && is_same_host(locs[i].as_str(), root_host) && !crate::urlnorm::strings_contain(
            &out,
            &lv,
        ) {
            let l = locs[i].clone();
            out.push(l);
            proof {
                assert(string_views(out@) =~= seedable_locs(pv, root).push(qv.last()));
            }
        }
        proof {
            assert(string_views(out@) =~= seedable_locs(qv, root));
        }
        i = i + 1;
    }
    proof {
        assert(locs@.subrange(0, locs@.len() as int) =~= locs@);
    }
    out
}

/// At most the first `n` entries of a string list.
pub fn take_first_strings(v: &Vec<String>, n: usize) -> (r: Vec<String>)
    ensures
        r@.len() == (if v@.len() <= n {
            v@.len() as int
        } else {
            n as int
        }),
        forall|i: int| 0 <= i < r@.len() ==> #[trigger] r@[i]@ == v@[i]@,
{
    let mut out: Vec<String> = Vec::new();
    let mut i: usize = 0;
    while i < v.len() && i < n
        invariant
            i <= v@.len(),
            i <= n,
            out@.len() == i,
            forall|k: int| 0 <= k < i ==> #[trigger] out@[k]@ == v@[k]@,
        decreases v@.len() - i,
    {
        let s = v[i].clone();
        out.push(s);
        i = i + 1;
    }
    out
}

/// The origin `scheme://host[:port]` of a URL, when it has a host.
pub open spec fn origin_of(s: Seq<char>) -> Option<Seq<char>> {
    match url_host_of(s) {
        None => None,
        Some(h) => {
            let scheme = match url_scheme_of(s) {
                Some(sch) => sch,
                None => Seq::<char>::empty(),
            };
            let port = match url_port_of(s) {
                Some(p) => ":"@ + dec_str(p as nat),
                None => Seq::<char>::empty(),
            };
            Some(scheme + "://"@ + h + port)
        },
    }
}

/// Build the origin of the start URL, for sitemap and robots.txt lookups.
pub fn site_origin(start_url: &str) -> (r: Option<String>)
    ensures
        r is Some <==> origin_of(start_url@) is Some,
        r matches Some(v) ==> origin_of(start_url@) == Some(v@),
{
    let host = match crate::urlnorm::url_host(start_url) {
        None => {
            return None;
        },
        Some(h) => h,
    };
    let scheme = match crate::urlnorm::url_scheme(start_url) {
        Some(sch) => sch,
        None => String::new(),
    };
    let mut out = str_chars(scheme.as_str());
    let mut sep = str_chars("://");
    out.append(&mut sep);
    let mut hv = str_chars(host.as_str());
    out.append(&mut hv);
    match crate::urlnorm::url_port(start_url) {
        Some(p) => {
            let mut colon = str_chars(":");
            out.append(&mut colon);
            let mut pv = crate::strutil::fmt_u16(p);
            out.append(&mut pv);
        },
        None => {},
    }
    Some(chars_string(&out))
}

/// The status line for a retry request that carried no usable URL.
pub fn retry_skip_message(scope: RetryScope) -> (r: String)
    ensures
        r@ == "retry request '"@ + retry_scope_label_of(scope) + "' skipped: no valid URLs"@,
{
    let mut m = str_chars("retry request '");
    let mut l = str_chars(scope.label());
    m.append(&mut l);
    let mut t = str_chars("' skipped: no valid URLs");
    m.append(&mut t);
    chars_string(&m)
}

/// The status line for a retry request that was queued.
pub fn retry_queued_message(scope: RetryScope, url_count: usize) -> (r: String)
    ensures
        r@ == "retry request '"@ + retry_scope_label_of(scope) + "' queued for "@ + dec_str(
            url_count as nat,
        ) + " URLs"@,
{
    let mut m = str_chars("retry request '");
    let mut l = str_chars(scope.label());
    m.append(&mut l);
    let mut mid = str_chars("' queued for ");
    m.append(&mut mid);
    let mut n = fmt_usize(url_count);
    m.append(&mut n);
    let mut t = str_chars(" URLs");
    m.append(&mut t);
    chars_string(&m)
}

} // verus!

verus! {

/// The elements of `urls` whose views are not in `seen`, in order.
pub open spec fn not_yet_seen(urls: Seq<Seq<char>>, seen: Seq<Seq<char>>) -> Seq<Seq<char>>
    decreases urls.len(),
{
    if urls.len() == 0 {
        Seq::empty()
    } else {
        not_yet_seen(urls.drop_last(), seen) + (if seen.contains(urls.last()) {
            Seq::<Seq<char>>::empty()
        } else {
            seq![urls.last()]
        })
    }
}

/// Keep the URLs that have no record yet.
fn keep_unseen(urls: &Vec<String>, seen: &Vec<String>) -> (r: Vec<String>)
    ensures
        string_views(r@) == not_yet_seen(string_views(urls@), string_views(seen@)),
{
    let ghost sv = string_views(seen@);
    let mut out: Vec<String> = Vec::new();
    let mut i: usize = 0;
    proof {
        assert(string_views(urls@.subrange(0, 0)) =~= Seq::<Seq<char>>::empty());
        assert(not_yet_seen(string_views(urls@.subrange(0, 0)), sv) =~= Seq::<
            Seq<char>,
        >::empty());
        assert(string_views(out@) =~= Seq::<Seq<char>>::empty());
    }
    while i < urls.len()
        invariant
            i <= urls@.len(),
            sv == string_views(seen@),
            string_views(out@) == not_yet_seen(string_views(urls@.subrange(0, i as int)), sv),
        decreases urls@.len() - i,
    {
        let ghost pv = string_views(urls@.subrange(0, i as int));
        let ghost qv = string_views(urls@.subrange(0, i + 1));
        proof {
            assert(urls@.subrange(0, i + 1).drop_last() =~= urls@.subrange(0, i as int));
            assert(qv.drop_last() =~= pv);
            assert(qv.last() == urls@[i as int]@);
        }
        let uv = str_chars(urls[i].as_str());
        let ghost prev = string_views(out@);
        if !crate::urlnorm::strings_contain(seen, &uv) {
            let u = urls[i].clone();
            out.push(u);
            proof {
                assert(string_views(out@) =~= prev.push(qv.last()));
            }
        }
        proof {
            assert(string_views(out@) =~= not_yet_seen(qv, sv));
        }
        i = i + 1;
    }
    proof {
        assert(urls@.subrange(0, urls@.len() as int) =~= urls@);
    }
    out
}

/// After HTTP discovery ends: the crawlable candidate set (everything the
/// crawler returned, every link seen on a page, and the seed), the
/// discovered total, and the URLs to feed to the fetch pool — candidates
/// without a record, together with the URLs whose last record was a 5xx,
/// sorted and without repetition.
pub fn reconciliation_urls(
    discovered_urls: &Vec<String>,
    discovered_from_pages: &Vec<String>,
    seed: &str,
    seen: &Vec<String>,
    retry_5xx_urls: &Vec<String>,
    root_host: Option<&str>,
) -> (r: (usize, Vec<String>))
    ensures
        ({
            let cand = string_views(discovered_urls@) + string_views(discovered_from_pages@)
                + seq![seed@];
            let crawlable = crawlable_links(cand, opt_view(root_host));
            let missing = not_yet_seen(crawlable, string_views(seen@));
            &&& r.0 == (if crawlable.len() >= string_views(seen@).len() {
                crawlable.len() as int
            } else {
                string_views(seen@).len() as int
            })
            &&& string_views(r.1@).to_multiset() == dedup_first(
                missing + string_views(retry_5xx_urls@),
            ).to_multiset()
            &&& views_sorted(string_views(r.1@))
            &&& string_views(r.1@).no_duplicates()
        }),
{
    let ghost cand_view = string_views(discovered_urls@) + string_views(discovered_from_pages@)
        + seq![seed@];
    let mut cand: Vec<String> = Vec::new();
    let mut i: usize = 0;
    proof {
        assert(string_views(cand@) =~= string_views(discovered_urls@).subrange(0, 0));
    }
    while i < discovered_urls.len()
        invariant
            i <= discovered_urls@.len(),
            string_views(cand@) == string_views(discovered_urls@).subrange(0, i as int),
        decreases discovered_urls@.len() - i,
    {
        let ghost prev = cand@;
        let u = discovered_urls[i].clone();
        cand.push(u);
        proof {
            assert(u@ == discovered_urls@[i as int]@);
            assert(string_views(cand@) =~= string_views(prev).push(u@));
            assert(string_views(discovered_urls@)[i as int] == discovered_urls@[i as int]@);
            assert(string_views(cand@) =~= string_views(discovered_urls@).subrange(0, i + 1));
        }
        i = i + 1;
    }
    proof {
        assert(string_views(discovered_urls@).subrange(
            0,
            string_views(discovered_urls@).len() as int,
        ) =~= string_views(discovered_urls@));
    }
    let mut k: usize = 0;
    while k < discovered_from_pages.len()
        invariant
            k <= discovered_from_pages@.len(),
            string_views(cand@) == string_views(discovered_urls@) + string_views(
                discovered_from_pages@,
            ).subrange(0, k as int),
        decreases discovered_from_pages@.len() - k,
    {
        let ghost prev = cand@;
        let u = discovered_from_pages[k].clone();
        cand.push(u);
        proof {
            assert(u@ == discovered_from_pages@[k as int]@);
            assert(string_views(cand@) =~= string_views(prev).push(u@));
            assert(string_views(discovered_from_pages@)[k as int] == discovered_from_pages@[k as int]@);
            assert(string_views(cand@) =~= string_views(discovered_urls@) + string_views(
                discovered_from_pages@,
            ).subrange(0, k + 1));
        }
        k = k + 1;
    }
    proof {
        assert(string_views(discovered_from_pages@).subrange(
            0,
            string_views(discovered_from_pages@).len() as int,
        ) =~= string_views(discovered_from_pages@));
    }
    let sv = str_chars(seed);
    cand.push(chars_string(&sv));
    proof {
        assert(string_views(cand@) =~= cand_view);
    }
    let crawlable = crate::urlnorm::filter_crawlable_links(cand, root_host);
    let discovered = if crawlable.len() >= seen.len() {
        crawlable.len()
    } else {
        seen.len()
    };
    let missing = keep_unseen(&crawlable, seen);
    let mut recovery = missing;
    let ghost missing_view = string_views(recovery@);
    let mut t: usize = 0;
    while t < retry_5xx_urls.len()
        invariant
            t <= retry_5xx_urls@.len(),
            string_views(recovery@) == missing_view + string_views(retry_5xx_urls@).subrange(
                0,
                t as int,
            ),
        decreases retry_5xx_urls@.len() - t,
    {
        let ghost prev = recovery@;
        let u = retry_5xx_urls[t].clone();
        recovery.push(u);
        proof {
            assert(u@ == retry_5xx_urls@[t as int]@);
            assert(string_views(recovery@) =~= string_views(prev).push(u@));
            assert(string_views(retry_5xx_urls@)[t as int] == retry_5xx_urls@[t as int]@);
            assert(string_views(recovery@) =~= missing_view + string_views(
                retry_5xx_urls@,
            ).subrange(0, t + 1));
        }
        t = t + 1;
    }
    proof {
        assert(string_views(retry_5xx_urls@).subrange(
            0,
            string_views(retry_5xx_urls@).len() as int,
        ) =~= string_views(retry_5xx_urls@));
    }
    let deduped = sort_strings(dedupe_strings(&recovery));
    proof {
        assert(string_views(seen@).len() == seen@.len());
    }
    (discovered, deduped)
}

/// What to do with one link found on a rendered page.
#[derive(Debug, Clone, Copy, PartialEq, Eq, Structural)]
pub enum LinkDecision {
    /// The link was already discovered; nothing to do.
    AlreadyKnown,
    /// The link entered the breadth-first queue.
    Enqueued,
    /// The depth limit is reached: fetch the link directly.
    FetchDirectly,
}

/// The browser-driven discovery's breadth-first state over the rendered
/// site.
pub struct DiscoveryState {
    /// Every URL ever admitted, in admission order, never repeating.
    pub discovered: Vec<String>,
    /// Every URL already visited in the browser, never repeating.
    pub visited: Vec<String>,
    /// The breadth-first queue of `(url, depth)`; entries before `head`
    /// are consumed.
    pub queue: Vec<(String, usize)>,
    /// How many queue entries were already taken.
    pub head: usize,
    /// The depth limit; 0 means unlimited.
    pub depth_limit: usize,
}

impl DiscoveryState {
    /// The discovery invariant: no URL is admitted or visited twice, and
    /// the queue is consumed in order.
    pub open spec fn wf(self) -> bool {
        &&& string_views(self.discovered@).no_duplicates()
        &&& string_views(self.visited@).no_duplicates()
        &&& self.head <= self.queue@.len()
    }

    /// Start discovery at a seed URL with a depth limit (0 = unlimited).
    pub fn new(seed_url: String, depth_limit: usize) -> (r: DiscoveryState)
        ensures
            r.wf(),
            string_views(r.discovered@) == seq![seed_url@],
            r.visited@.len() == 0,
            r.queue@.len() == 1,
            r.queue@[0].0@ == seed_url@,
            r.queue@[0].1 == 0,
            r.head == 0,
            r.depth_limit == depth_limit,
    {
        let mut discovered: Vec<String> = Vec::new();
        let mut queue: Vec<(String, usize)> = Vec::new();
        let seed_for_queue = seed_url.clone();
        discovered.push(seed_url);
        queue.push((seed_for_queue, 0));
        proof {
            assert(string_views(discovered@) =~= seq![discovered@[0]@]);
        }
        DiscoveryState { discovered, visited: Vec::new(), queue, head: 0, depth_limit }
    }

    /// Admit one sitemap seed at depth 0; ignored when already known.
    pub fn admit_seed(&mut self, url: String) -> (admitted: bool)
        requires
            old(self).wf(),
        ensures
            final(self).wf(),
            admitted <==> !string_views(old(self).discovered@).contains(url@),
            admitted ==> string_views(final(self).discovered@) == string_views(
                old(self).discovered@,
            ).push(url@) && final(self).queue@.len() == old(self).queue@.len() + 1
                && final(self).queue@.last().0@ == url@ && final(self).queue@.last().1 == 0,
            !admitted ==> *final(self) == *old(self),
            final(self).visited@ == old(self).visited@,
            final(self).head == old(self).head,
            final(self).depth_limit == old(self).depth_limit,
    {
        let uv = str_chars(url.as_str());
        if crate::urlnorm::strings_contain(&self.discovered, &uv) {
            return false;
        }
        let ghost prev = string_views(self.discovered@);
        let for_queue = url.clone();
        self.discovered.push(url);
        self.queue.push((for_queue, 0));
        proof {
            assert(string_views(self.discovered@) =~= prev.push(uv@));
            assert(!prev.contains(uv@));
        }
        true
    }

    /// Take the next queued `(url, depth)`, if any.
    pub fn pop_next(&mut self) -> (r: Option<(String, usize)>)
        requires
            old(self).wf(),
        ensures
            final(self).wf(),
            r is Some <==> old(self).head < old(self).queue@.len(),
            r matches Some(p) ==> p.0@ == old(self).queue@[old(self).head as int].0@ && p.1
                == old(self).queue@[old(self).head as int].1
                && final(self).head == old(self).head + 1,
            r is None ==> *final(self) == *old(self),
            final(self).discovered@ == old(self).discovered@,
            final(self).visited@ == old(self).visited@,
            final(self).queue@ == old(self).queue@,
            final(self).depth_limit == old(self).depth_limit,
    {
        if self.head < self.queue.len() {
            let url = self.queue[self.head].0.clone();
            let depth = self.queue[self.head].1;
            self.head = self.head + 1;
            Some((url, depth))
        } else {
            None
        }
    }

    /// Mark a URL visited; false when it already was, so the caller skips
    /// it.
    pub fn mark_visited(&mut self, url: &str) -> (fresh: bool)
        requires
            old(self).wf(),
        ensures
            final(self).wf(),
            fresh <==> !string_views(old(self).visited@).contains(url@),
            fresh ==> string_views(final(self).visited@) == string_views(
                old(self).visited@,
            ).push(url@),
            !fresh ==> *final(self) == *old(self),
            final(self).discovered@ == old(self).discovered@,
            final(self).queue@ == old(self).queue@,
            final(self).head == old(self).head,
            final(self).depth_limit == old(self).depth_limit,
    {
        let uv = str_chars(url);
        if crate::urlnorm::strings_contain(&self.visited, &uv) {
            return false;
        }
        let ghost prev = string_views(self.visited@);
        let u = chars_string(&uv);
        self.visited.push(u);
        proof {
            assert(string_views(self.visited@) =~= prev.push(url@));
            assert(!prev.contains(url@));
        }
        true
    }

    /// Admit one link found at `depth`: unknown links are queued one
    /// level deeper while the depth allows, fetched directly otherwise.
    pub fn admit_link(&mut self, link: String, depth: usize) -> (r: LinkDecision)
        requires
            old(self).wf(),
            depth < usize::MAX,
        ensures
            final(self).wf(),
            r is AlreadyKnown <==> string_views(old(self).discovered@).contains(link@),
            r is AlreadyKnown ==> *final(self) == *old(self),
            !(r is AlreadyKnown) ==> string_views(final(self).discovered@) == string_views(
                old(self).discovered@,
            ).push(link@),
            r is Enqueued <==> !string_views(old(self).discovered@).contains(link@)
                && (old(self).depth_limit == 0 || depth < old(self).depth_limit),
            r is Enqueued ==> final(self).queue@.len() == old(self).queue@.len() + 1
                && final(self).queue@.last().0@ == link@ && final(self).queue@.last().1 == depth
                + 1,
            r is FetchDirectly ==> final(self).queue@ == old(self).queue@,
            final(self).visited@ == old(self).visited@,
            final(self).head == old(self).head,
            final(self).depth_limit == old(self).depth_limit,
    {
        let lv = str_chars(link.as_str());
        if crate::urlnorm::strings_contain(&self.discovered, &lv) {
            return LinkDecision::AlreadyKnown;
        }
        let ghost prev = string_views(self.discovered@);
        if self.depth_limit == 0 || depth < self.depth_limit {
            let for_queue = link.clone();
            self.discovered.push(link);
            self.queue.push((for_queue, depth + 1));
            proof {
                assert(string_views(self.discovered@) =~= prev.push(lv@));
                assert(!prev.contains(lv@));
            }
            LinkDecision::Enqueued
        } else {
            self.discovered.push(link);
            proof {
                assert(string_views(self.discovered@) =~= prev.push(lv@));
                assert(!prev.contains(lv@));
            }
            LinkDecision::FetchDirectly
        }
    }

    /// How many distinct URLs discovery has admitted.
    pub fn discovered_count(&self) -> (r: usize)
        ensures
            r == self.discovered@.len(),
    {
        self.discovered.len()
    }

    /// Is a progress report due? One is emitted every tenth visit.
    pub fn stats_due(&self) -> (r: bool)
        ensures
            r == (self.visited@.len() % 10 == 0),
    {
        self.visited.len() % 10 == 0
    }
}

} // verus!
