//! The redirect probe: hop-by-hop reconstruction of a 3xx chain.
//!
//! The probe is a state machine. The caller performs one redirect-disabled
//! GET per hop and hands back status and headers; the probe decides when
//! the chain ends and builds each hop's record. The hop records always
//! form a simple chain: their URLs are pairwise distinct, each hop's
//! redirect target is the next hop's URL, and the last target is the final
//! fetch URL.

use vstd::prelude::*;

use crate::clock::now_rfc3339;
use crate::page::{header_value_of, normalized_or_raw, normalize_or_keep, find_header};
use crate::strutil::{chars_string, split_seq, split_vec, str_chars, trim_seq, trim_vec};
use crate::types::{redirect_class, redirect_class_of, row_wf, CrawlRow};
use crate::urlnorm::{string_views, url_join, url_join_of, pair_views};

verus! {

/// Do the hop pairs `(url, target)` form a simple chain ending at
/// `final_url`? Hop URLs are pairwise distinct, every hop's target is the
/// next hop's URL, and the last target is `final_url`.
pub open spec fn simple_chain(chain: Seq<(Seq<char>, Seq<char>)>, final_url: Seq<char>) -> bool {
    &&& (forall|i: int, j: int|
        0 <= i < j < chain.len() ==> (#[trigger] chain[i]).0 != (#[trigger] chain[j]).0)
    &&& (forall|i: int| 0 <= i < chain.len() - 1 ==> (#[trigger] chain[i]).1 == chain[i + 1].0)
    &&& (chain.len() > 0 ==> chain.last().1 == final_url)
}

/// Where one hop's `Location` header leads: joined with the hop URL when
/// that parses, the raw location otherwise, then normalized with the raw
/// result kept as fallback.
pub open spec fn probe_target_of(current: Seq<char>, location: Seq<char>) -> Seq<char> {
    let joined = match url_join_of(current, location) {
        Some(j) => j,
        None => location,
    };
    normalized_or_raw(joined)
}

/// The MIME recorded for a hop: the Content-Type's primary type, or
/// `unknown`.
pub open spec fn hop_mime_of(headers: Seq<(Seq<char>, Seq<char>)>) -> Seq<char> {
    match header_value_of(headers, "content-type"@) {
        Some(v) => {
            let t = trim_seq(split_seq(v, ';').first());
            if t.len() > 0 {
                t
            } else {
                "unknown"@
            }
        },
        None => "unknown"@,
    }
}

/// The redirect probe's state across hops.
pub struct RedirectProbe {
    /// The URL the next request goes to; after the run, the final fetch
    /// URL.
    pub current: String,
    /// How many hops may still be followed.
    pub hops_left: usize,
    /// Every URL already requested.
    pub seen: Vec<String>,
    /// Whether a request for `current` is outstanding.
    pub awaiting: bool,
    /// Whether the chain has ended.
    pub done: bool,
    /// The `(url, target)` pairs of the hop records built so far.
    pub chain: Ghost<Seq<(Seq<char>, Seq<char>)>>,
}

impl RedirectProbe {
    /// The probe's invariant: what was emitted so far is a simple chain
    /// ending at `current`, and chain URLs never repeat because each was
    /// recorded in `seen` before its request went out.
    pub open spec fn wf(self) -> bool {
        &&& simple_chain(self.chain@, self.current@)
        &&& (forall|i: int|
            0 <= i < self.chain@.len() ==> string_views(self.seen@).contains(
                (#[trigger] self.chain@[i]).0,
            ))
        &&& (self.awaiting ==> !self.done && string_views(self.seen@).contains(self.current@)
            && forall|i: int|
                0 <= i < self.chain@.len() ==> (#[trigger] self.chain@[i]).0 != self.current@)
    }

    /// Start a probe at a URL, following at most `max_hops` hops (at least
    /// one).
    pub fn new(start_url: &str, max_hops: usize) -> (r: RedirectProbe)
        ensures
            r.wf(),
            r.chain@ == Seq::<(Seq<char>, Seq<char>)>::empty(),
            r.current@ == normalized_or_raw(start_url@),
            r.hops_left == (if max_hops >= 1 {
                max_hops as int
            } else {
                1
            }),
            !r.done,
            !r.awaiting,
    {
        let current = normalize_or_keep(start_url);
        let hops = if max_hops >= 1 {
            max_hops
        } else {
            1
        };
        RedirectProbe {
            current,
            hops_left: hops,
            seen: Vec::new(),
            awaiting: false,
            done: false,
            chain: Ghost(Seq::empty()),
        }
    }

    /// Begin the next hop: `Some(url)` to request, or `None` when the
    /// chain has ended (hops exhausted or a URL revisited).
    pub fn begin_hop(&mut self) -> (r: Option<String>)
        requires
            old(self).wf(),
            !old(self).awaiting,
        ensures
            final(self).wf(),
            final(self).chain@ == old(self).chain@,
            final(self).current@ == old(self).current@,
            r is Some <==> (!old(self).done && old(self).hops_left > 0 && !string_views(
                old(self).seen@,
            ).contains(old(self).current@)),
            r matches Some(u) ==> u@ == old(self).current@ && final(self).awaiting,
            r is None ==> final(self).done && !final(self).awaiting,
    {
        if self.done {
            self.done = true;
            return None;
        }
        if self.hops_left == 0 {
            self.done = true;
            return None;
        }
        let cv = str_chars(self.current.as_str());
        let already = {
            let mut found = false;
            let mut k: usize = 0;
            while k < self.seen.len()
                invariant
                    k <= self.seen@.len(),
                    found == exists|t: int|
                        0 <= t < k && string_views(self.seen@)[t] == cv@,
                    cv@ == self.current@,
                decreases self.seen@.len() - k,
            {
                let sv = str_chars(self.seen[k].as_str());
                if crate::strutil::vec_eq(&sv, &cv) {
                    proof {
                        assert(string_views(self.seen@)[k as int] == cv@);
                    }
                    found = true;
                    k = self.seen.len();
                } else {
                    proof {
                        assert(string_views(self.seen@)[k as int] != cv@);
                    }
                    k = k + 1;
                }
            }
            found
        };
        proof {
            if already {
                assert(string_views(self.seen@).contains(self.current@));
            } else {
                if string_views(self.seen@).contains(self.current@) {
                    let t = choose|t: int|
                        0 <= t < string_views(self.seen@).len() && string_views(self.seen@)[t]
                            == self.current@;
                    assert(false);
                }
            }
        }
        if already {
            self.done = true;
            return None;
        }
        let ghost old_seen = string_views(self.seen@);
        let u = self.current.clone();
        self.seen.push(u);
        self.hops_left = self.hops_left - 1;
        self.awaiting = true;
        proof {
            assert(string_views(self.seen@) =~= old_seen.push(self.current@));
            assert(string_views(self.seen@)[old_seen.len() as int] == self.current@);
            assert(string_views(self.seen@).contains(self.current@));
            assert forall|i: int|
                0 <= i < self.chain@.len() implies string_views(self.seen@).contains(
                (#[trigger] self.chain@[i]).0,
            ) by {
                assert(old_seen.contains(self.chain@[i].0));
                let t = choose|t: int|
                    0 <= t < old_seen.len() && old_seen[t] == self.chain@[i].0;
                assert(string_views(self.seen@)[t] == self.chain@[i].0);
            }
            assert forall|i: int|
                0 <= i < self.chain@.len() implies (#[trigger] self.chain@[i]).0
                != self.current@ by {
                assert(old_seen.contains(self.chain@[i].0));
            }
        }
        let out = self.current.clone();
        Some(out)
    }

    /// The request for the pending hop failed: the chain ends here.
    pub fn on_error(&mut self)
        requires
            old(self).wf(),
            old(self).awaiting,
        ensures
            final(self).wf(),
            final(self).done,
            !final(self).awaiting,
            final(self).chain@ == old(self).chain@,
            final(self).current@ == old(self).current@,
    {
        self.awaiting = false;
        self.done = true;
    }

    /// Feed the response of the pending hop. A 3xx with a non-blank
    /// `Location` yields the hop's record (with the one outgoing link it
    /// carries) and moves the probe to the resolved target; anything else
    /// ends the chain.
    #[verifier::rlimit(100)]
    pub fn on_response(
        &mut self,
        status: u16,
        headers: &Vec<(String, String)>,
        elapsed_ms: u128,
    ) -> (r: Option<(CrawlRow, Vec<String>)>)
        requires
            old(self).wf(),
            old(self).awaiting,
        ensures
            final(self).wf(),
            !final(self).awaiting,
            r is Some <==> (300 <= status <= 399 && match header_value_of(
                pair_views(headers@),
                "location"@,
            ) {
                Some(v) => trim_seq(v).len() > 0,
                None => false,
            }),
            r is None ==> final(self).done && final(self).chain@ == old(self).chain@
                && final(self).current@ == old(self).current@,
            r matches Some(p) ==> {
                &&& p.0.url@ == old(self).current@
                &&& p.0.status == status
                &&& p.0.mime@ == hop_mime_of(pair_views(headers@))
                &&& p.0.retrieval_status@ == "retrieved"@
                &&& p.0.indexability@ == "Non-Indexable"@
                &&& p.0.redirect_url@ == final(self).current@
                &&& p.0.redirect_type@ == redirect_class_of(status)
                &&& p.0.response_time == elapsed_ms
                &&& p.0.seo_score == 100
                &&& p.0.issues@ == Seq::<crate::issues::SeoIssue>::empty()
                &&& p.0.link_count == 1
                &&& p.0.internal_link_count == 1
                &&& p.0.external_link_count == 0
                &&& p.0.last_modified@ == (match header_value_of(
                    pair_views(headers@),
                    "last-modified"@,
                ) {
                    Some(v) => v,
                    None => Seq::<char>::empty(),
                })
                &&& row_wf(p.0)
                &&& string_views(p.1@) == seq![final(self).current@]
                &&& final(self).current@ == probe_target_of(
                    old(self).current@,
                    trim_seq(
                        match header_value_of(pair_views(headers@), "location"@) {
                            Some(v) => v,
                            None => Seq::<char>::empty(),
                        },
                    ),
                )
                &&& final(self).chain@ == old(self).chain@.push(
                    (old(self).current@, final(self).current@),
                )
            },
    {
        self.awaiting = false;
        if !(300 <= status && status <= 399) {
            self.done = true;
            return None;
        }
        let location_raw = match find_header(headers, "location") {
            Some(v) => v,
            None => String::new(),
        };
        let lv = str_chars(location_raw.as_str());
        let lt = trim_vec(&lv);
        if lt.len() == 0 {
            self.done = true;
            return None;
        }
        let location = chars_string(&lt);
        let resolved = match url_join(self.current.as_str(), location.as_str()) {
            Some(j) => normalize_or_keep(j.as_str()),
            None => normalize_or_keep(location.as_str()),
        };
        let mime = match find_header(headers, "content-type") {
            Some(v) => {
                let vv = str_chars(v.as_str());
                let parts = split_vec(&vv, ';');
                proof {
                    crate::strutil::lemma_split_len(vv@, ';');
                    assert(parts@.map_values(|p: Vec<char>| p@)[0] == split_seq(
                        vv@,
                        ';',
                    ).first());
                }
                let t = trim_vec(&parts[0]);
                if t.len() > 0 {
                    chars_string(&t)
                } else {
                    String::from_str("unknown")
                }
            },
            None => String::from_str("unknown"),
        };
        let last_modified = match find_header(headers, "last-modified") {
            Some(v) => v,
            None => String::new(),
        };
        let hop_url = self.current.clone();
        let target_for_row = resolved.clone();
        let target_link = resolved.clone();
        let ghost old_chain = self.chain@;
        let ghost old_current = self.current@;
        self.current = resolved;
        proof {
            self.chain@ = old_chain.push((old_current, self.current@));
        }
        let row = CrawlRow {
            url: hop_url,
            status,
            mime,
            retrieval_status: String::from_str("retrieved"),
            indexability: String::from_str("Non-Indexable"),
            title: String::new(),
            title_length: 0,
            meta: String::new(),
            meta_length: 0,
            h1: String::new(),
            canonical: String::new(),
            word_count: 0,
            size: 0,
            response_time: elapsed_ms,
            last_modified,
            redirect_url: target_for_row,
            redirect_type: String::from_str(redirect_class(status)),
            link_count: 1,
            internal_link_count: 1,
            external_link_count: 0,
            h1_count: 0,
            h2_count: 0,
            image_count: 0,
            image_missing_alt_count: 0,
            structured_data_count: 0,
            seo_score: 100,
            issues: Vec::new(),
            crawl_timestamp: now_rfc3339(),
        };
        let mut links: Vec<String> = Vec::new();
        links.push(target_link);
        proof {
            assert(string_views(links@) =~= seq![self.current@]);
            assert(crate::issues::total_penalty(row.issues@) == 0);
            let c = self.chain@;
            assert(c.last() == (old_current, self.current@));
            assert forall|i: int, j: int|
                0 <= i < j < c.len() implies (#[trigger] c[i]).0 != (#[trigger] c[j]).0 by {
                if j < c.len() - 1 {
                    assert(old_chain[i].0 != old_chain[j].0);
                } else {
                    assert(c[j].0 == old_current);
                    assert(old_chain[i].0 != old_current);
                }
            }
            assert forall|i: int| 0 <= i < c.len() - 1 implies (#[trigger] c[i]).1 == c[i
                + 1].0 by {
                if i < c.len() - 2 {
                    assert(old_chain[i].1 == old_chain[i + 1].0);
                } else {
                    assert(old_chain.len() > 0 ==> old_chain.last().1 == old_current);
                }
            }
            assert forall|i: int|
                0 <= i < c.len() implies string_views(self.seen@).contains(
                (#[trigger] c[i]).0,
            ) by {
                if i < c.len() - 1 {
                    assert(string_views(self.seen@).contains(old_chain[i].0));
                } else {
                    assert(string_views(self.seen@).contains(old_current));
                }
            }
        }
        Some((row, links))
    }

    /// End the probe and hand back the final fetch URL. What was emitted
    /// forms a simple chain ending there.
    pub fn final_url(&self) -> (r: String)
        requires
            self.wf(),
        ensures
            r@ == self.current@,
            simple_chain(self.chain@, r@),
    {
        let cv = str_chars(self.current.as_str());
        chars_string(&cv)
    }
}

/// The hop records a probe has produced always form a simple chain: no
/// hop URL repeats, each hop's target is the next hop's URL, and the last
/// target is the final fetch URL.
pub proof fn lemma_probe_emits_simple_chain(probe: RedirectProbe)
    requires
        probe.wf(),
    ensures
        simple_chain(probe.chain@, probe.current@),
{
}

/// The backoff before retrying one probe request.
pub fn probe_backoff_ms(attempt: usize) -> (r: u64)
    requires
        attempt <= 1000000,
    ensures
        r == 120 * attempt,
{
    120u64 * (attempt as u64)
}

} // verus!
