//! The in-memory state behind the dashboard: every record, the seen and
//! discovered URL sets, the link graph, and the derived statistics.
//!
//! A URL has at most one record here: a record for a URL that was already
//! seen replaces the old one, while the on-disk dataset only ever appends.

use vstd::multiset::Multiset;
use vstd::prelude::*;

use crate::issues::SeoIssue;
use crate::strutil::{
    chars_string, lower_seq, lower_vec, str_chars, trim_seq, trim_vec, vec_eq,
};
use crate::types::CrawlRow;
use crate::urlnorm::{
    dedupe_strings, dedup_first, sort_strings, string_views, strings_contain, views_sorted,
};

verus! {

/// The URL views of a row list.
pub open spec fn row_urls(rows: Seq<CrawlRow>) -> Seq<Seq<char>> {
    rows.map_values(|r: CrawlRow| r.url@)
}

/// The key views of a string-keyed adjacency list.
pub open spec fn key_views(m: Seq<(String, Vec<String>)>) -> Seq<Seq<char>> {
    m.map_values(|e: (String, Vec<String>)| e.0@)
}

/// The first entry with this key, if any.
pub open spec fn map_idx(m: Seq<(String, Vec<String>)>, key: Seq<char>) -> Option<int>
    decreases m.len(),
{
    if m.len() == 0 {
        None
    } else if m.first().0@ == key {
        Some(0)
    } else {
        match map_idx(m.drop_first(), key) {
            Some(i) => Some(i + 1),
            None => None,
        }
    }
}

pub proof fn lemma_map_idx(m: Seq<(String, Vec<String>)>, key: Seq<char>)
    ensures
        match map_idx(m, key) {
            Some(i) => 0 <= i < m.len() && m[i].0@ == key,
            None => forall|i: int| 0 <= i < m.len() ==> (#[trigger] m[i]).0@ != key,
        },
    decreases m.len(),
{
    if m.len() > 0 {
        lemma_map_idx(m.drop_first(), key);
        if m.first().0@ != key {
            match map_idx(m.drop_first(), key) {
                Some(i) => {
                    assert(m.drop_first()[i] == m[i + 1]);
                },
                None => {
                    assert(forall|i: int|
                        1 <= i < m.len() ==> (#[trigger] m[i]).0@ == m.drop_first()[i - 1].0@);
                },
            }
        }
    }
}

/// Find the entry for a key in an adjacency list.
fn find_map_entry(m: &Vec<(String, Vec<String>)>, key: &Vec<char>) -> (r: Option<usize>)
    ensures
        match r {
            Some(i) => map_idx(m@, key@) == Some(i as int),
            None => map_idx(m@, key@) is None,
        },
{
    let mut i: usize = 0;
    while i < m.len()
        invariant
            i <= m@.len(),
            forall|k: int| 0 <= k < i ==> (#[trigger] m@[k]).0@ != key@,
        decreases m@.len() - i,
    {
        let kv = str_chars(m[i].0.as_str());
        if vec_eq(&kv, key) {
            proof {
                lemma_map_idx_prefix(m@, key@, i as int);
            }
            return Some(i);
        }
        i = i + 1;
    }
    proof {
        lemma_map_idx(m@, key@);
        match map_idx(m@, key@) {
            Some(j) => {
                assert(m@[j].0@ == key@);
                assert(m@[j].0@ != key@);
            },
            None => {},
        }
    }
    None
}

/// The first matching index is the one `map_idx` names.
proof fn lemma_map_idx_prefix(m: Seq<(String, Vec<String>)>, key: Seq<char>, i: int)
    requires
        0 <= i < m.len(),
        m[i].0@ == key,
        forall|k: int| 0 <= k < i ==> (#[trigger] m[k]).0@ != key,
    ensures
        map_idx(m, key) == Some(i),
    decreases m.len(),
{
    if i == 0 {
    } else {
        assert(m.first().0@ != key);
        assert(m.drop_first()[i - 1] == m[i]);
        assert(forall|k: int|
            0 <= k < i - 1 ==> (#[trigger] m.drop_first()[k]).0@ == m[k + 1].0@);
        lemma_map_idx_prefix(m.drop_first(), key, i - 1);
    }
}

/// `base` with every element of `items` added once, in first-appearance
/// order.
pub open spec fn set_add_all(base: Seq<Seq<char>>, items: Seq<Seq<char>>) -> Seq<Seq<char>>
    decreases items.len(),
{
    if items.len() == 0 {
        base
    } else {
        let prev = set_add_all(base, items.drop_last());
        if prev.contains(items.last()) {
            prev
        } else {
            prev.push(items.last())
        }
    }
}

/// The dashboard's in-memory state.
pub struct AppState {
    /// How many records are held (one per seen URL).
    pub parsed: usize,
    /// The largest discovered-target count reported by the crawl.
    pub discovered_targets: usize,
    /// Every current record, one per URL, in first-seen order.
    pub all_rows: Vec<CrawlRow>,
    /// The latest-first display window over the records, at most 500.
    pub rows: Vec<CrawlRow>,
    /// The URLs with a record, in first-seen order.
    pub seen: Vec<String>,
    /// Every URL ever referenced by a page, including cross-origin.
    pub discovered_seen: Vec<String>,
    /// Which pages link to a URL.
    pub incoming_links: Vec<(String, Vec<String>)>,
    /// The deduplicated outgoing links of each seen URL.
    pub outgoing_links: Vec<(String, Vec<String>)>,
    /// Whether the crawl has finished.
    pub done: bool,
    /// The latest errors, newest first, at most 10.
    pub errors: Vec<String>,
    /// The latest status messages, newest first, at most 20.
    pub status_messages: Vec<String>,
}

impl AppState {
    /// The state invariant: the seen URLs are exactly the record URLs, in
    /// order and without repetition, so every seen URL has exactly one
    /// record; the display window stays bounded; the link maps keep one
    /// entry per key.
    pub open spec fn wf(self) -> bool {
        &&& string_views(self.seen@) == row_urls(self.all_rows@)
        &&& string_views(self.seen@).no_duplicates()
        &&& self.parsed == self.all_rows@.len()
        &&& self.rows@.len() <= 500
        &&& key_views(self.incoming_links@).no_duplicates()
        &&& key_views(self.outgoing_links@).no_duplicates()
        &&& string_views(self.discovered_seen@).no_duplicates()
        &&& self.errors@.len() <= 10
        &&& self.status_messages@.len() <= 20
    }

    /// An empty state.
    pub fn new() -> (r: AppState)
        ensures
            r.wf(),
            r.parsed == 0,
            r.all_rows@.len() == 0,
            r.rows@.len() == 0,
            r.seen@.len() == 0,
            r.discovered_seen@.len() == 0,
            r.incoming_links@.len() == 0,
            r.outgoing_links@.len() == 0,
            !r.done,
            r.discovered_targets == 0,
            r.errors@.len() == 0,
            r.status_messages@.len() == 0,
    {
        let r = AppState {
            parsed: 0,
            discovered_targets: 0,
            all_rows: Vec::new(),
            rows: Vec::new(),
            seen: Vec::new(),
            discovered_seen: Vec::new(),
            incoming_links: Vec::new(),
            outgoing_links: Vec::new(),
            done: false,
            errors: Vec::new(),
            status_messages: Vec::new(),
        };
        proof {
            assert(string_views(r.seen@) =~= row_urls(r.all_rows@));
            assert(key_views(r.incoming_links@) =~= Seq::<Seq<char>>::empty());
            assert(key_views(r.outgoing_links@) =~= Seq::<Seq<char>>::empty());
            assert(string_views(r.discovered_seen@) =~= Seq::<Seq<char>>::empty());
        }
        r
    }

    /// Keep the newest errors, at most ten: the new error goes in front,
    /// the older ones shift back, the oldest past ten is dropped. Nothing
    /// else changes.
    pub fn push_error(&mut self, error: String)
        requires
            old(self).wf(),
        ensures
            final(self).wf(),
            final(self).errors@ == seq![error] + old(self).errors@.subrange(
                0,
                (if old(self).errors@.len() <= 9 {
                    old(self).errors@.len() as int
                } else {
                    9
                }),
            ),
            final(self).parsed == old(self).parsed,
            final(self).discovered_targets == old(self).discovered_targets,
            final(self).all_rows@ == old(self).all_rows@,
            final(self).rows@ == old(self).rows@,
            final(self).seen@ == old(self).seen@,
            final(self).discovered_seen@ == old(self).discovered_seen@,
            final(self).incoming_links@ == old(self).incoming_links@,
            final(self).outgoing_links@ == old(self).outgoing_links@,
            final(self).done == old(self).done,
            final(self).status_messages@ == old(self).status_messages@,
    {
        self.errors.insert(0, error);
        self.errors.truncate(10);
        proof {
            assert(final(self).errors@ =~= seq![error] + old(self).errors@.subrange(
                0,
                (if old(self).errors@.len() <= 9 {
                    old(self).errors@.len() as int
                } else {
                    9
                }),
            ));
        }
    }

    /// Keep the newest status messages, at most twenty: the new message
    /// goes in front, the older ones shift back, the oldest past twenty
    /// is dropped. Nothing else changes.
    pub fn push_status(&mut self, message: String)
        requires
            old(self).wf(),
        ensures
            final(self).wf(),
            final(self).status_messages@ == seq![message] + old(self).status_messages@.subrange(
                0,
                (if old(self).status_messages@.len() <= 19 {
                    old(self).status_messages@.len() as int
                } else {
                    19
                }),
            ),
            final(self).parsed == old(self).parsed,
            final(self).discovered_targets == old(self).discovered_targets,
            final(self).all_rows@ == old(self).all_rows@,
            final(self).rows@ == old(self).rows@,
            final(self).seen@ == old(self).seen@,
            final(self).discovered_seen@ == old(self).discovered_seen@,
            final(self).incoming_links@ == old(self).incoming_links@,
            final(self).outgoing_links@ == old(self).outgoing_links@,
            final(self).done == old(self).done,
            final(self).errors@ == old(self).errors@,
    {
        self.status_messages.insert(0, message);
        self.status_messages.truncate(20);
        proof {
            assert(final(self).status_messages@ =~= seq![message]
                + old(self).status_messages@.subrange(
                0,
                (if old(self).status_messages@.len() <= 19 {
                    old(self).status_messages@.len() as int
                } else {
                    19
                }),
            ));
        }
    }

    /// The best known discovered total: the largest of the reported
    /// target count, the referenced-URL count, and the record count.
    pub fn discovered_total(&self) -> (r: usize)
        ensures
            r == (if self.discovered_targets >= self.discovered_seen@.len() && self.discovered_targets >= self.parsed {
                self.discovered_targets as int
            } else if self.discovered_seen@.len() >= self.parsed {
                self.discovered_seen@.len() as int
            } else {
                self.parsed as int
            }),
    {
        let mut best = self.discovered_targets;
        if self.discovered_seen.len() > best {
            best = self.discovered_seen.len();
        }
        if self.parsed > best {
            best = self.parsed;
        }
        best
    }
}

} // verus!

verus! {

/// The recorded sources of a link target, if the target has an entry.
pub open spec fn incoming_value(m: Seq<(String, Vec<String>)>, key: Seq<char>) -> Option<
    Seq<Seq<char>>,
> {
    match map_idx(m, key) {
        Some(i) => Some(string_views(m[i].1@)),
        None => None,
    }
}

/// Pushing a fresh entry leaves every other lookup unchanged.
proof fn lemma_map_idx_push(
    a: Seq<(String, Vec<String>)>,
    e: (String, Vec<String>),
    k: Seq<char>,
)
    requires
        k != e.0@,
    ensures
        map_idx(a.push(e), k) == map_idx(a, k),
    decreases a.len(),
{
    if a.len() == 0 {
        assert(a.push(e).first().0@ == e.0@);
        assert(a.push(e).first().0@ != k);
        assert(a.push(e).drop_first() =~= Seq::<(String, Vec<String>)>::empty());
        assert(map_idx(a.push(e).drop_first(), k) is None);
        assert(map_idx(a.push(e), k) is None);
        assert(map_idx(a, k) is None);
    } else {
        assert(a.push(e).first() == a.first());
        assert(a.push(e).drop_first() =~= a.drop_first().push(e));
        lemma_map_idx_push(a.drop_first(), e, k);
        assert(map_idx(a.push(e).drop_first(), k) == map_idx(a.drop_first(), k));
        if a.first().0@ == k {
        } else {
            assert(map_idx(a.push(e), k) == (match map_idx(a.push(e).drop_first(), k) {
                Some(i) => Some(i + 1),
                None => None::<int>,
            }));
        }
    }
}

/// Record one incoming edge `url -> link`: the target's entry collects
/// the source once; every other entry stays as it was.
fn add_incoming(inc: &mut Vec<(String, Vec<String>)>, link: &String, url: &String)
    requires
        key_views(old(inc)@).no_duplicates(),
    ensures
        key_views(final(inc)@).no_duplicates(),
        match incoming_value(final(inc)@, link@) {
            Some(vs) => vs.contains(url@),
            None => false,
        },
        forall|k2: Seq<char>|
            k2 != link@ ==> #[trigger] incoming_value(final(inc)@, k2) == incoming_value(
                old(inc)@,
                k2,
            ),
{
    let ghost m0 = inc@;
    let lv = str_chars(link.as_str());
    let uv = str_chars(url.as_str());
    match find_map_entry(inc, &lv) {
        Some(i) => {
            proof {
                lemma_map_idx(inc@, lv@);
            }
            if !strings_contain(&inc[i].1, &uv) {
                let mut entry = inc.remove(i);
                let u = url.clone();
                entry.1.push(u);
                inc.insert(i, entry);
                proof {
                    assert(inc@ =~= m0.update(i as int, (m0[i as int].0, inc@[i as int].1)));
                    assert(key_views(inc@) =~= key_views(m0));
                    assert(string_views(inc@[i as int].1@) =~= string_views(
                        m0[i as int].1@,
                    ).push(url@));
                    assert(string_views(inc@[i as int].1@).last() == url@);
                    lemma_map_idx_unchanged_keys(m0, inc@, lv@);
                    assert(map_idx(inc@, lv@) == Some(i as int));
                    assert forall|k2: Seq<char>| k2 != link@ implies #[trigger] incoming_value(
                        inc@,
                        k2,
                    ) == incoming_value(m0, k2) by {
                        assert(map_idx(inc@, k2) == map_idx(m0, k2));
                        match map_idx(m0, k2) {
                            Some(j) => {
                                lemma_map_idx(m0, k2);
                                assert(m0[j].0@ == k2);
                                assert(j != i);
                                assert(inc@[j] == m0[j]);
                            },
                            None => {},
                        }
                    }
                }
            } else {
                proof {
                    assert(map_idx(inc@, lv@) == Some(i as int));
                }
            }
        },
        None => {
            proof {
                lemma_map_idx(inc@, lv@);
            }
            let k = link.clone();
            let u = url.clone();
            let mut sources: Vec<String> = Vec::new();
            sources.push(u);
            inc.push((k, sources));
            proof {
                assert(key_views(inc@) =~= key_views(m0).push(link@));
                assert(key_views(inc@).drop_last() =~= key_views(m0));
                assert(!key_views(m0).contains(link@)) by {
                    if key_views(m0).contains(link@) {
                        let t = choose|t: int|
                            0 <= t < key_views(m0).len() && key_views(m0)[t] == link@;
                        assert(m0[t].0@ == link@);
                    }
                }
                assert(forall|t: int| 0 <= t < m0.len() ==> #[trigger] inc@[t] == m0[t]);
                lemma_map_idx_prefix_push(m0, inc@, link@);
                assert(string_views(inc@[inc@.len() - 1].1@) =~= seq![url@]);
                assert(string_views(inc@[inc@.len() - 1].1@)[0] == url@);
                assert(string_views(inc@[inc@.len() - 1].1@).contains(url@));
                assert forall|k2: Seq<char>| k2 != link@ implies #[trigger] incoming_value(
                    inc@,
                    k2,
                ) == incoming_value(m0, k2) by {
                    assert(inc@ =~= m0.push(inc@[inc@.len() - 1]));
                    lemma_map_idx_push(m0, inc@[inc@.len() - 1], k2);
                    lemma_map_idx(m0, k2);
                    match map_idx(m0, k2) {
                        Some(j) => {
                            assert(0 <= j < m0.len());
                            assert(inc@[j] == m0[j]);
                        },
                        None => {},
                    }
                }
            }
        },
    }
}

/// A key with unique keys finds its own entry.
proof fn lemma_map_idx_self(m: Seq<(String, Vec<String>)>, k: int)
    requires
        key_views(m).no_duplicates(),
        0 <= k < m.len(),
    ensures
        map_idx(m, m[k].0@) == Some(k),
{
    assert forall|t: int| 0 <= t < k implies (#[trigger] m[t]).0@ != m[k].0@ by {
        assert(key_views(m)[t] == m[t].0@);
        assert(key_views(m)[k] == m[k].0@);
        assert(key_views(m)[t] != key_views(m)[k]);
    }
    lemma_map_idx_prefix(m, m[k].0@, k);
}

/// Updating an entry's value leaves every lookup position unchanged.
proof fn lemma_map_idx_unchanged_keys(
    a: Seq<(String, Vec<String>)>,
    b: Seq<(String, Vec<String>)>,
    key: Seq<char>,
)
    requires
        a.len() == b.len(),
        key_views(a) == key_views(b),
    ensures
        forall|k: Seq<char>| #[trigger] map_idx(a, k) == map_idx(b, k),
    decreases a.len(),
{
    assert forall|k: Seq<char>| #[trigger] map_idx(a, k) == map_idx(b, k) by {
        lemma_map_idx_same_keys(a, b, k);
    }
}

proof fn lemma_map_idx_same_keys(
    a: Seq<(String, Vec<String>)>,
    b: Seq<(String, Vec<String>)>,
    k: Seq<char>,
)
    requires
        a.len() == b.len(),
        key_views(a) == key_views(b),
    ensures
        map_idx(a, k) == map_idx(b, k),
    decreases a.len(),
{
    if a.len() > 0 {
        assert(key_views(a)[0] == key_views(b)[0]);
        assert(a.first().0@ == b.first().0@);
        assert(key_views(a.drop_first()) =~= key_views(a).drop_first());
        assert(key_views(b.drop_first()) =~= key_views(b).drop_first());
        lemma_map_idx_same_keys(a.drop_first(), b.drop_first(), k);
    }
}

/// A pushed new key is found at the end.
proof fn lemma_map_idx_prefix_push(
    old_m: Seq<(String, Vec<String>)>,
    new_m: Seq<(String, Vec<String>)>,
    key: Seq<char>,
)
    requires
        new_m.len() == old_m.len() + 1,
        forall|t: int| 0 <= t < old_m.len() ==> #[trigger] new_m[t] == old_m[t],
        new_m.last().0@ == key,
        forall|t: int| 0 <= t < old_m.len() ==> (#[trigger] old_m[t]).0@ != key,
    ensures
        map_idx(new_m, key) == Some(old_m.len() as int),
{
    assert(forall|t: int| 0 <= t < old_m.len() ==> (#[trigger] new_m[t]).0@ != key);
    lemma_map_idx_prefix(new_m, key, old_m.len() as int);
}

} // verus!

verus! {

/// Replace (or create) the outgoing-link entry of a URL; every other
/// entry stays as it was.
fn set_outgoing(out_map: &mut Vec<(String, Vec<String>)>, url: &String, links: Vec<String>)
    requires
        key_views(old(out_map)@).no_duplicates(),
    ensures
        key_views(final(out_map)@).no_duplicates(),
        incoming_value(final(out_map)@, url@) == Some(string_views(links@)),
        forall|k2: Seq<char>|
            k2 != url@ ==> #[trigger] incoming_value(final(out_map)@, k2) == incoming_value(
                old(out_map)@,
                k2,
            ),
{
    let ghost m0 = out_map@;
    let ghost lviews = string_views(links@);
    let uv = str_chars(url.as_str());
    match find_map_entry(out_map, &uv) {
        Some(i) => {
            proof {
                lemma_map_idx(out_map@, uv@);
            }
            let old_entry = out_map.remove(i);
            let key = old_entry.0;
            out_map.insert(i, (key, links));
            proof {
                assert(out_map@ =~= m0.update(i as int, (m0[i as int].0, out_map@[i as int].1)));
                assert(key_views(out_map@) =~= key_views(m0));
                assert(string_views(out_map@[i as int].1@) == lviews);
                lemma_map_idx_unchanged_keys(m0, out_map@, uv@);
                assert(map_idx(out_map@, uv@) == Some(i as int));
                assert forall|k2: Seq<char>| k2 != url@ implies #[trigger] incoming_value(
                    out_map@,
                    k2,
                ) == incoming_value(m0, k2) by {
                    assert(map_idx(out_map@, k2) == map_idx(m0, k2));
                    match map_idx(m0, k2) {
                        Some(j) => {
                            lemma_map_idx(m0, k2);
                            assert(m0[j].0@ == k2);
                            assert(j != i);
                            assert(out_map@[j] == m0[j]);
                        },
                        None => {},
                    }
                }
            }
        },
        None => {
            proof {
                lemma_map_idx(out_map@, uv@);
            }
            let key = url.clone();
            out_map.push((key, links));
            proof {
                assert(key_views(out_map@) =~= key_views(m0).push(url@));
                assert(key_views(out_map@).drop_last() =~= key_views(m0));
                assert(!key_views(m0).contains(url@)) by {
                    if key_views(m0).contains(url@) {
                        let t = choose|t: int|
                            0 <= t < key_views(m0).len() && key_views(m0)[t] == url@;
                        assert(m0[t].0@ == url@);
                    }
                }
                assert(forall|t: int| 0 <= t < m0.len() ==> #[trigger] out_map@[t] == m0[t]);
                lemma_map_idx_prefix_push(m0, out_map@, url@);
                assert(string_views(out_map@[out_map@.len() - 1].1@) == lviews);
                assert forall|k2: Seq<char>| k2 != url@ implies #[trigger] incoming_value(
                    out_map@,
                    k2,
                ) == incoming_value(m0, k2) by {
                    assert(out_map@ =~= m0.push(out_map@[out_map@.len() - 1]));
                    lemma_map_idx_push(m0, out_map@[out_map@.len() - 1], k2);
                    lemma_map_idx(m0, k2);
                    match map_idx(m0, k2) {
                        Some(j) => {
                            assert(0 <= j < m0.len());
                            assert(out_map@[j] == m0[j]);
                        },
                        None => {},
                    }
                }
            }
        },
    }
}

/// Copy an issue list.
pub fn clone_issues(v: &Vec<SeoIssue>) -> (r: Vec<SeoIssue>)
    ensures
        r@ == v@,
{
    let mut r: Vec<SeoIssue> = Vec::new();
    let mut i: usize = 0;
    while i < v.len()
        invariant
            i <= v@.len(),
            r@ == v@.subrange(0, i as int),
        decreases v@.len() - i,
    {
        r.push(v[i]);
        i = i + 1;
        proof {
            assert(r@ =~= v@.subrange(0, i as int));
        }
    }
    proof {
        assert(v@.subrange(0, v@.len() as int) =~= v@);
    }
    r
}

/// Do two rows agree on every field?
pub open spec fn rows_agree(a: CrawlRow, b: CrawlRow) -> bool {
    &&& a.url@ == b.url@
    &&& a.status == b.status
    &&& a.mime@ == b.mime@
    &&& a.retrieval_status@ == b.retrieval_status@
    &&& a.indexability@ == b.indexability@
    &&& a.title@ == b.title@
    &&& a.title_length == b.title_length
    &&& a.meta@ == b.meta@
    &&& a.meta_length == b.meta_length
    &&& a.h1@ == b.h1@
    &&& a.canonical@ == b.canonical@
    &&& a.word_count == b.word_count
    &&& a.size == b.size
    &&& a.response_time == b.response_time
    &&& a.last_modified@ == b.last_modified@
    &&& a.redirect_url@ == b.redirect_url@
    &&& a.redirect_type@ == b.redirect_type@
    &&& a.link_count == b.link_count
    &&& a.internal_link_count == b.internal_link_count
    &&& a.external_link_count == b.external_link_count
    &&& a.h1_count == b.h1_count
    &&& a.h2_count == b.h2_count
    &&& a.image_count == b.image_count
    &&& a.image_missing_alt_count == b.image_missing_alt_count
    &&& a.structured_data_count == b.structured_data_count
    &&& a.seo_score == b.seo_score
    &&& a.issues@ == b.issues@
    &&& a.crawl_timestamp@ == b.crawl_timestamp@
}

/// Copy a record.
pub fn clone_row(r: &CrawlRow) -> (c: CrawlRow)
    ensures
        rows_agree(c, *r),
        c.url == r.url,
{
    CrawlRow {
        url: r.url.clone(),
        status: r.status,
        mime: r.mime.clone(),
        retrieval_status: r.retrieval_status.clone(),
        indexability: r.indexability.clone(),
        title: r.title.clone(),
        title_length: r.title_length,
        meta: r.meta.clone(),
        meta_length: r.meta_length,
        h1: r.h1.clone(),
        canonical: r.canonical.clone(),
        word_count: r.word_count,
        size: r.size,
        response_time: r.response_time,
        last_modified: r.last_modified.clone(),
        redirect_url: r.redirect_url.clone(),
        redirect_type: r.redirect_type.clone(),
        link_count: r.link_count,
        internal_link_count: r.internal_link_count,
        external_link_count: r.external_link_count,
        h1_count: r.h1_count,
        h2_count: r.h2_count,
        image_count: r.image_count,
        image_missing_alt_count: r.image_missing_alt_count,
        structured_data_count: r.structured_data_count,
        seo_score: r.seo_score,
        issues: clone_issues(&r.issues),
        crawl_timestamp: r.crawl_timestamp.clone(),
    }
}

impl AppState {
    /// Record one page observation. Every referenced link is noted in the
    /// discovered set and the reverse adjacency. A URL seen for the first
    /// time appends its record; a URL seen before has its record and
    /// outgoing links replaced, so the store reflects only the latest
    /// record. Returns whether the URL was new.
    #[verifier::rlimit(100)]
    pub fn push_row(&mut self, row: CrawlRow, discovered_links: Vec<String>) -> (is_new: bool)
        requires
            old(self).wf(),
        ensures
            final(self).wf(),
            is_new <==> !string_views(old(self).seen@).contains(row.url@),
            string_views(final(self).discovered_seen@) == set_add_all(
                string_views(old(self).discovered_seen@),
                string_views(discovered_links@),
            ),
            forall|l: int|
                0 <= l < discovered_links@.len() && discovered_links@[l]@ != row.url@
                    ==> match incoming_value(
                    final(self).incoming_links@,
                    #[trigger] discovered_links@[l]@,
                ) {
                    Some(vs) => vs.contains(row.url@),
                    None => false,
                },
            forall|k2: Seq<char>|
                !string_views(discovered_links@).contains(k2) ==> #[trigger] incoming_value(
                    final(self).incoming_links@,
                    k2,
                ) == incoming_value(old(self).incoming_links@, k2),
            incoming_value(final(self).outgoing_links@, row.url@) == Some(
                dedup_first(string_views(discovered_links@)),
            ),
            forall|k2: Seq<char>|
                k2 != row.url@ ==> #[trigger] incoming_value(final(self).outgoing_links@, k2)
                    == incoming_value(old(self).outgoing_links@, k2),
            is_new ==> final(self).all_rows@ == old(self).all_rows@.push(row) && string_views(
                final(self).seen@,
            ) == string_views(old(self).seen@).push(row.url@) && final(self).parsed == old(
                self,
            ).parsed + 1,
            !is_new ==> final(self).seen@ == old(self).seen@ && final(self).parsed == old(
                self,
            ).parsed && exists|j: int|
                0 <= j < old(self).all_rows@.len() && string_views(old(self).seen@)[j] == row.url@
                    && final(self).all_rows@ == old(self).all_rows@.update(j, row),
            final(self).done == old(self).done,
            final(self).discovered_targets == old(self).discovered_targets,
            final(self).errors@ == old(self).errors@,
            final(self).status_messages@ == old(self).status_messages@,
    {
        let dedup_outgoing = dedupe_strings(&discovered_links);
        let url_v = str_chars(self_row_url(&row));

        let mut inc: Vec<(String, Vec<String>)> = Vec::new();
        core::mem::swap(&mut inc, &mut self.incoming_links);
        let ghost m0 = inc@;
        let mut i: usize = 0;
        while i < discovered_links.len()
            invariant
                i <= discovered_links@.len(),
                key_views(inc@).no_duplicates(),
                url_v@ == row.url@,
                forall|l: int|
                    0 <= l < i && discovered_links@[l]@ != row.url@ ==> match incoming_value(
                        inc@,
                        #[trigger] discovered_links@[l]@,
                    ) {
                        Some(vs) => vs.contains(row.url@),
                        None => false,
                    },
                forall|k2: Seq<char>|
                    !string_views(discovered_links@).contains(k2) ==> #[trigger] incoming_value(
                        inc@,
                        k2,
                    ) == incoming_value(m0, k2),
            decreases discovered_links@.len() - i,
        {
            let lv = str_chars(discovered_links[i].as_str());
            if !crate::strutil::vec_eq(&lv, &url_v) {
                let ghost before = inc@;
                add_incoming(&mut inc, &discovered_links[i], row_url_ref(&row));
                proof {
                    assert(string_views(discovered_links@)[i as int] == discovered_links@[i as int]@);
                    assert(string_views(discovered_links@).contains(discovered_links@[i as int]@));
                    assert forall|l: int|
                        0 <= l < i + 1 && discovered_links@[l]@ != row.url@ implies match incoming_value(
                        inc@,
                        #[trigger] discovered_links@[l]@,
                    ) {
                        Some(vs) => vs.contains(row.url@),
                        None => false,
                    } by {
                        if discovered_links@[l]@ == discovered_links@[i as int]@ {
                        } else {
                            assert(incoming_value(inc@, discovered_links@[l]@) == incoming_value(
                                before,
                                discovered_links@[l]@,
                            ));
                        }
                    }
                }
            } else {
                proof {
                    assert(discovered_links@[i as int]@ == row.url@);
                }
            }
            i = i + 1;
        }
        core::mem::swap(&mut inc, &mut self.incoming_links);

        let mut disc: Vec<String> = Vec::new();
        core::mem::swap(&mut disc, &mut self.discovered_seen);
        let ghost d0 = string_views(disc@);
        let mut k: usize = 0;
        proof {
            assert(string_views(discovered_links@).subrange(0, 0) =~= Seq::<Seq<char>>::empty());
            assert(set_add_all(d0, string_views(discovered_links@).subrange(0, 0)) == d0);
        }
        while k < discovered_links.len()
            invariant
                k <= discovered_links@.len(),
                string_views(disc@) == set_add_all(
                    d0,
                    string_views(discovered_links@).subrange(0, k as int),
                ),
                d0.no_duplicates() ==> string_views(disc@).no_duplicates(),
            decreases discovered_links@.len() - k,
        {
            let ghost pre = string_views(discovered_links@).subrange(0, k as int);
            let ghost cur = string_views(discovered_links@).subrange(0, k + 1);
            proof {
                assert(cur.drop_last() =~= pre);
                assert(cur.last() == string_views(discovered_links@)[k as int]);
                assert(string_views(discovered_links@)[k as int]
                    == discovered_links@[k as int]@);
            }
            let lv = str_chars(discovered_links[k].as_str());
            if !strings_contain(&disc, &lv) {
                let ghost prev = string_views(disc@);
                let l = discovered_links[k].clone();
                disc.push(l);
                proof {
                    assert(string_views(disc@) =~= prev.push(lv@));
                    assert(!prev.contains(lv@));
                }
            }
            proof {
                assert(string_views(disc@) =~= set_add_all(d0, cur));
            }
            k = k + 1;
        }
        proof {
            assert(string_views(discovered_links@).subrange(
                0,
                string_views(discovered_links@).len() as int,
            ) =~= string_views(discovered_links@));
        }
        core::mem::swap(&mut disc, &mut self.discovered_seen);

        let mut out_map: Vec<(String, Vec<String>)> = Vec::new();
        core::mem::swap(&mut out_map, &mut self.outgoing_links);
        set_outgoing(&mut out_map, row_url_ref(&row), dedup_outgoing);
        core::mem::swap(&mut out_map, &mut self.outgoing_links);

        let is_new = !strings_contain(&self.seen, &url_v);
        if is_new {
            let u = row_url_ref(&row).clone();
            let ghost seen0 = string_views(self.seen@);
            self.seen.push(u);
            let display = clone_row(&row);
            self.rows.insert(0, display);
            self.rows.truncate(500);
            self.all_rows.push(row);
            self.parsed = self.all_rows.len();
            proof {
                assert(string_views(self.seen@) =~= seen0.push(self.all_rows@.last().url@));
                assert(row_urls(self.all_rows@) =~= row_urls(
                    old(self).all_rows@,
                ).push(self.all_rows@.last().url@));
                assert(string_views(self.seen@) =~= row_urls(self.all_rows@));
                assert(!seen0.contains(self.all_rows@.last().url@));
            }
            true
        } else {
            let mut j: usize = 0;
            let ghost seen_views = string_views(self.seen@);
            proof {
                assert(seen_views.contains(url_v@));
            }
            while j < self.seen.len()
                invariant
                    j <= self.seen@.len(),
                    url_v@ == row.url@,
                    seen_views == string_views(self.seen@),
                    seen_views.contains(url_v@),
                    forall|t: int| 0 <= t < j ==> seen_views[t] != url_v@,
                    self.seen@.len() == self.all_rows@.len(),
                ensures
                    j < self.seen@.len(),
                    seen_views[j as int] == url_v@,
                    seen_views == string_views(self.seen@),
                    url_v@ == row.url@,
                    self.seen@.len() == self.all_rows@.len(),
                decreases self.seen@.len() - j,
            {
                let sv = str_chars(self.seen[j].as_str());
                if crate::strutil::vec_eq(&sv, &url_v) {
                    proof {
                        assert(seen_views[j as int] == url_v@);
                    }
                    break;
                }
                proof {
                    assert(string_views(self.seen@)[j as int] != url_v@);
                }
                j = j + 1;
            }
            let ghost rows0 = self.all_rows@;
            self.all_rows.remove(j);
            self.all_rows.insert(j, row);
            proof {
                assert(self.all_rows@ =~= rows0.update(j as int, self.all_rows@[j as int]));
                assert(row_urls(rows0)[j as int] == seen_views[j as int]);
                assert(self.all_rows@[j as int].url@ == url_v@);
                assert(row_urls(self.all_rows@) =~= row_urls(rows0));
                assert(string_views(self.seen@) =~= row_urls(self.all_rows@));
            }
            false
        }
    }
}

/// The URL field of a row, for borrowing around moves.
fn row_url_ref(row: &CrawlRow) -> (r: &String)
    ensures
        r == row.url,
{
    &row.url
}

fn self_row_url(row: &CrawlRow) -> (r: &str)
    ensures
        r@ == row.url@,
{
    row.url.as_str()
}

} // verus!

verus! {

/// Does a row fall in the class a status filter names? The query may
/// carry a `status:` or `status=` prefix; classes are the hundred-blocks,
/// `retrieved`, the not-retrieved aliases, or one exact code.
pub open spec fn status_filter_matches(row: CrawlRow, filter: Seq<char>) -> bool {
    let q0 = lower_seq(trim_seq(filter));
    if q0.len() == 0 {
        false
    } else {
        let q = if crate::strutil::starts_with_seq(q0, "status:"@) {
            trim_seq(q0.subrange(7, q0.len() as int))
        } else if crate::strutil::starts_with_seq(q0, "status="@) {
            trim_seq(q0.subrange(7, q0.len() as int))
        } else {
            q0
        };
        if q == "0"@ || q == "0xx"@ {
            row.status == 0
        } else if q == "2xx"@ || q == "2"@ {
            200 <= row.status <= 299
        } else if q == "3xx"@ || q == "3"@ {
            300 <= row.status <= 399
        } else if q == "4xx"@ || q == "4"@ {
            400 <= row.status <= 499
        } else if q == "5xx"@ || q == "5"@ {
            500 <= row.status <= 599
        } else if q == "retrieved"@ {
            row.retrieval_status@ == "retrieved"@
        } else if q == "not_retrieved"@ || q == "unretrieved"@ || q == "failed"@ {
            row.retrieval_status@ != "retrieved"@ || row.status == 0
        } else if q.len() == 0 {
            false
        } else {
            let d = if q.first() == '+' {
                q.drop_first()
            } else {
                q
            };
            d.len() > 0 && crate::strutil::all_digits(d) && crate::strutil::dec_val(d)
                <= u16::MAX && row.status == crate::strutil::dec_val(d)
        }
    }
}

/// Test a row against a status filter, exactly as `status_filter_matches`
/// describes.
pub fn matches_status_filter(row: &CrawlRow, filter: &str) -> (r: bool)
    ensures
        r == status_filter_matches(*row, filter@),
{
    let fv = str_chars(filter);
    let ft = trim_vec(&fv);
    let q0 = lower_vec(&ft);
    if q0.len() == 0 {
        return false;
    }
    let pref_colon = str_chars("status:");
    let pref_eq = str_chars("status=");
    proof {
        reveal_strlit("status:");
        reveal_strlit("status=");
    }
    let q: Vec<char> = if crate::strutil::vec_starts_with(&q0, &pref_colon)
        || crate::strutil::vec_starts_with(&q0, &pref_eq) {
        let mut rest: Vec<char> = Vec::new();
        let mut i: usize = 7;
        while i < q0.len()
            invariant
                7 <= i <= q0@.len(),
                q0@.len() >= 7,
                rest@ == q0@.subrange(7, i as int),
            decreases q0@.len() - i,
        {
            rest.push(q0[i]);
            i = i + 1;
            proof {
                assert(rest@ =~= q0@.subrange(7, i as int));
            }
        }
        trim_vec(&rest)
    } else {
        let mut copy: Vec<char> = Vec::new();
        let mut i: usize = 0;
        while i < q0.len()
            invariant
                i <= q0@.len(),
                copy@ == q0@.subrange(0, i as int),
            decreases q0@.len() - i,
        {
            copy.push(q0[i]);
            i = i + 1;
            proof {
                assert(copy@ =~= q0@.subrange(0, i as int));
            }
        }
        proof {
            assert(q0@.subrange(0, q0@.len() as int) =~= q0@);
        }
        copy
    };
    let retrieved = {
        let rs = str_chars(row.retrieval_status.as_str());
        crate::strutil::vec_eq_str(&rs, "retrieved")
    };
    if crate::strutil::vec_eq_str(&q, "0") || crate::strutil::vec_eq_str(&q, "0xx") {
        row.status == 0
    } else if crate::strutil::vec_eq_str(&q, "2xx") || crate::strutil::vec_eq_str(&q, "2") {
        200 <= row.status && row.status <= 299
    } else if crate::strutil::vec_eq_str(&q, "3xx") || crate::strutil::vec_eq_str(&q, "3") {
        300 <= row.status && row.status <= 399
    } else if crate::strutil::vec_eq_str(&q, "4xx") || crate::strutil::vec_eq_str(&q, "4") {
        400 <= row.status && row.status <= 499
    } else if crate::strutil::vec_eq_str(&q, "5xx") || crate::strutil::vec_eq_str(&q, "5") {
        500 <= row.status && row.status <= 599
    } else if crate::strutil::vec_eq_str(&q, "retrieved") {
        retrieved
    } else if crate::strutil::vec_eq_str(&q, "not_retrieved") || crate::strutil::vec_eq_str(
        &q,
        "unretrieved",
    ) || crate::strutil::vec_eq_str(&q, "failed") {
        !retrieved || row.status == 0
    } else if q.len() == 0 {
        false
    } else {
        let digits: Vec<char> = if q[0] == '+' {
            let mut rest: Vec<char> = Vec::new();
            let mut i: usize = 1;
            while i < q.len()
                invariant
                    1 <= i <= q@.len(),
                    rest@ == q@.subrange(1, i as int),
                decreases q@.len() - i,
            {
                rest.push(q[i]);
                i = i + 1;
                proof {
                    assert(rest@ =~= q@.subrange(1, i as int));
                }
            }
            proof {
                assert(q@.subrange(1, q@.len() as int) =~= q@.drop_first());
            }
            rest
        } else {
            q
        };
        match crate::strutil::parse_u16(&digits) {
            Some(code) => row.status == code,
            None => false,
        }
    }
}

/// Does the URL's host contain this fragment?
pub open spec fn host_contains(url: Seq<char>, host_filter: Seq<char>) -> bool {
    match crate::urlnorm::url_host_of(url) {
        Some(h) => crate::strutil::contains_seq(lower_seq(h), host_filter),
        None => false,
    }
}

/// Whether the row URL's host contains the (already lower-cased) filter
/// fragment.
pub fn row_host_contains(url: &str, host_filter: &str) -> (r: bool)
    ensures
        r == host_contains(url@, host_filter@),
{
    match crate::urlnorm::url_host(url) {
        Some(h) => {
            let hv = str_chars(h.as_str());
            let low = lower_vec(&hv);
            let nf = str_chars(host_filter);
            crate::strutil::vec_contains(&low, &nf)
        },
        None => false,
    }
}

/// Does any issue label of the row contain this fragment?
pub open spec fn issue_label_contains(issues: Seq<SeoIssue>, fragment: Seq<char>) -> bool {
    exists|i: int|
        0 <= i < issues.len() && crate::strutil::contains_seq(
            crate::issues::label_of(#[trigger] issues[i]),
            fragment,
        )
}

fn any_issue_label_contains(issues: &Vec<SeoIssue>, fragment: &Vec<char>) -> (r: bool)
    ensures
        r == issue_label_contains(issues@, fragment@),
{
    let mut i: usize = 0;
    while i < issues.len()
        invariant
            i <= issues@.len(),
            forall|k: int|
                0 <= k < i ==> !crate::strutil::contains_seq(
                    crate::issues::label_of(#[trigger] issues@[k]),
                    fragment@,
                ),
        decreases issues@.len() - i,
    {
        let l = str_chars(issues[i].label());
        if crate::strutil::vec_contains(&l, fragment) {
            return true;
        }
        i = i + 1;
    }
    false
}

/// Does one filter token match the row? `key:value` tokens address one
/// column; a bare token matches URL, title, meta, the status classes, or
/// an issue label. The `url`, `title` and `meta` arguments are the row's
/// fields already lower-cased.
pub open spec fn token_matches(
    row: CrawlRow,
    token: Seq<char>,
    url: Seq<char>,
    title: Seq<char>,
    meta: Seq<char>,
) -> bool {
    if token.len() == 0 {
        true
    } else {
        let ci = crate::controller::find_from(token, ":"@, 0);
        if ci < token.len() {
            let key = token.subrange(0, ci);
            let value = trim_seq(token.subrange(ci + 1, token.len() as int));
            if value.len() == 0 {
                false
            } else if key == "status"@ {
                status_filter_matches(row, value)
            } else if key == "issue"@ || key == "issues"@ {
                if value == "none"@ {
                    row.issues@.len() == 0
                } else {
                    issue_label_contains(row.issues@, value)
                }
            } else if key == "url"@ {
                crate::strutil::contains_seq(url, value)
            } else if key == "title"@ {
                crate::strutil::contains_seq(title, value)
            } else if key == "meta"@ {
                crate::strutil::contains_seq(meta, value)
            } else if key == "host"@ {
                host_contains(row.url@, value)
            } else if key == "retrieval"@ {
                crate::strutil::contains_seq(lower_seq(row.retrieval_status@), value)
            } else {
                false
            }
        } else {
            ||| crate::strutil::contains_seq(url, token)
            ||| crate::strutil::contains_seq(title, token)
            ||| crate::strutil::contains_seq(meta, token)
            ||| status_filter_matches(row, token)
            ||| issue_label_contains(row.issues@, token)
        }
    }
}

/// Test one filter token against a row, exactly as `token_matches`
/// describes.
#[verifier::rlimit(100)]
pub fn row_matches_token(
    row: &CrawlRow,
    token: &str,
    url: &Vec<char>,
    title: &Vec<char>,
    meta: &Vec<char>,
) -> (r: bool)
    ensures
        r == token_matches(*row, token@, url@, title@, meta@),
{
    let tv = str_chars(token);
    if tv.len() == 0 {
        return true;
    }
    let colon = str_chars(":");
    proof {
        reveal_strlit(":");
        crate::controller::lemma_find_from_bounds(tv@, ":"@, 0);
    }
    let ci = crate::controller::vec_find_from(&tv, &colon, 0);
    if ci < tv.len() {
        let mut key: Vec<char> = Vec::new();
        let mut i: usize = 0;
        while i < ci
            invariant
                i <= ci <= tv@.len(),
                key@ == tv@.subrange(0, i as int),
            decreases ci - i,
        {
            key.push(tv[i]);
            i = i + 1;
            proof {
                assert(key@ =~= tv@.subrange(0, i as int));
            }
        }
        let mut raw_value: Vec<char> = Vec::new();
        let mut k: usize = ci + 1;
        while k < tv.len()
            invariant
                ci + 1 <= k <= tv@.len(),
                raw_value@ == tv@.subrange(ci + 1, k as int),
            decreases tv@.len() - k,
        {
            raw_value.push(tv[k]);
            k = k + 1;
            proof {
                assert(raw_value@ =~= tv@.subrange(ci + 1, k as int));
            }
        }
        let value = trim_vec(&raw_value);
        if value.len() == 0 {
            return false;
        }
        let value_s = chars_string(&value);
        if crate::strutil::vec_eq_str(&key, "status") {
            matches_status_filter(row, value_s.as_str())
        } else if crate::strutil::vec_eq_str(&key, "issue") || crate::strutil::vec_eq_str(
            &key,
            "issues",
        ) {
            if crate::strutil::vec_eq_str(&value, "none") {
                row.issues.len() == 0
            } else {
                any_issue_label_contains(&row.issues, &value)
            }
        } else if crate::strutil::vec_eq_str(&key, "url") {
            crate::strutil::vec_contains(url, &value)
        } else if crate::strutil::vec_eq_str(&key, "title") {
            crate::strutil::vec_contains(title, &value)
        } else if crate::strutil::vec_eq_str(&key, "meta") {
            crate::strutil::vec_contains(meta, &value)
        } else if crate::strutil::vec_eq_str(&key, "host") {
            row_host_contains(row.url.as_str(), value_s.as_str())
        } else if crate::strutil::vec_eq_str(&key, "retrieval") {
            let rv = str_chars(row.retrieval_status.as_str());
            let low = lower_vec(&rv);
            crate::strutil::vec_contains(&low, &value)
        } else {
            false
        }
    } else {
        if crate::strutil::vec_contains(url, &tv) {
            return true;
        }
        if crate::strutil::vec_contains(title, &tv) {
            return true;
        }
        if crate::strutil::vec_contains(meta, &tv) {
            return true;
        }
        if matches_status_filter(row, token) {
            return true;
        }
        any_issue_label_contains(&row.issues, &tv)
    }
}

/// The terms of a query: whitespace-separated tokens, each possibly
/// negated with `!` or `-`.
pub open spec fn term_negated(raw: Seq<char>) -> (bool, Seq<char>) {
    if raw.len() > 0 && raw.first() == '!' {
        (true, raw.drop_first())
    } else if raw.len() > 0 && raw.first() == '-' {
        (true, raw.drop_first())
    } else {
        (false, raw)
    }
}

/// Do all positive terms match and no negated term match, over the
/// tokens from `i` on? Empty tokens after negation are skipped.
pub open spec fn terms_verdict(
    row: CrawlRow,
    toks: Seq<Seq<char>>,
    i: int,
    url: Seq<char>,
    title: Seq<char>,
    meta: Seq<char>,
) -> bool
    decreases toks.len() - i,
{
    if i < 0 || i >= toks.len() {
        true
    } else {
        let (neg, tok) = term_negated(toks[i]);
        if tok.len() == 0 {
            terms_verdict(row, toks, i + 1, url, title, meta)
        } else if neg {
            !token_matches(row, tok, url, title, meta) && terms_verdict(
                row,
                toks,
                i + 1,
                url,
                title,
                meta,
            )
        } else {
            token_matches(row, tok, url, title, meta) && terms_verdict(
                row,
                toks,
                i + 1,
                url,
                title,
                meta,
            )
        }
    }
}

/// Does the whole filter query match the row: either as one literal
/// token, or term-by-term with negations, provided the query has at
/// least one term.
pub open spec fn query_matches(row: CrawlRow, filter: Seq<char>) -> bool {
    let url = lower_seq(row.url@);
    let title = lower_seq(row.title@);
    let meta = lower_seq(row.meta@);
    if token_matches(row, filter, url, title, meta) {
        true
    } else {
        let toks = crate::strutil::ws_tokens(filter);
        toks.len() > 0 && terms_verdict(row, toks, 0, url, title, meta)
    }
}

/// Test a whole filter query against a row, exactly as `query_matches`
/// describes.
#[verifier::rlimit(100)]
pub fn row_matches_filter_query(row: &CrawlRow, filter: &str) -> (r: bool)
    ensures
        r == query_matches(*row, filter@),
{
    let uv = str_chars(row.url.as_str());
    let url = lower_vec(&uv);
    let tv = str_chars(row.title.as_str());
    let title = lower_vec(&tv);
    let mv = str_chars(row.meta.as_str());
    let meta = lower_vec(&mv);
    if row_matches_token(row, filter, &url, &title, &meta) {
        return true;
    }
    let fv = str_chars(filter);
    let toks = crate::strutil::tokenize_ws(&fv);
    let ghost tviews = crate::strutil::ws_tokens(filter@);
    if toks.len() == 0 {
        return false;
    }
    let mut i: usize = 0;
    while i < toks.len()
        invariant
            i <= toks@.len(),
            tviews == toks@.map_values(|p: Vec<char>| p@),
            tviews == crate::strutil::ws_tokens(filter@),
            url@ == lower_seq(row.url@),
            title@ == lower_seq(row.title@),
            meta@ == lower_seq(row.meta@),
            !token_matches(*row, filter@, url@, title@, meta@),
            toks@.len() > 0,
            terms_verdict(*row, tviews, 0, url@, title@, meta@) == terms_verdict(
                *row,
                tviews,
                i as int,
                url@,
                title@,
                meta@,
            ),
        decreases toks@.len() - i,
    {
        let raw = &toks[i];
        let (negated, tok): (bool, Vec<char>) = if raw.len() > 0 && raw[0] == '!' {
            let mut rest: Vec<char> = Vec::new();
            let mut k: usize = 1;
            while k < raw.len()
                invariant
                    1 <= k <= raw@.len(),
                    rest@ == raw@.subrange(1, k as int),
                decreases raw@.len() - k,
            {
                rest.push(raw[k]);
                k = k + 1;
                proof {
                    assert(rest@ =~= raw@.subrange(1, k as int));
                }
            }
            proof {
                assert(raw@.subrange(1, raw@.len() as int) =~= raw@.drop_first());
            }
            (true, rest)
        } else if raw.len() > 0 && raw[0] == '-' {
            let mut rest: Vec<char> = Vec::new();
            let mut k: usize = 1;
            while k < raw.len()
                invariant
                    1 <= k <= raw@.len(),
                    rest@ == raw@.subrange(1, k as int),
                decreases raw@.len() - k,
            {
                rest.push(raw[k]);
                k = k + 1;
                proof {
                    assert(rest@ =~= raw@.subrange(1, k as int));
                }
            }
            proof {
                assert(raw@.subrange(1, raw@.len() as int) =~= raw@.drop_first());
            }
            (true, rest)
        } else {
            let mut copy: Vec<char> = Vec::new();
            let mut k: usize = 0;
            while k < raw.len()
                invariant
                    k <= raw@.len(),
                    copy@ == raw@.subrange(0, k as int),
                decreases raw@.len() - k,
            {
                copy.push(raw[k]);
                k = k + 1;
                proof {
                    assert(copy@ =~= raw@.subrange(0, k as int));
                }
            }
            proof {
                assert(raw@.subrange(0, raw@.len() as int) =~= raw@);
            }
            (false, copy)
        };
        proof {
            assert(tviews[i as int] == raw@);
            assert(term_negated(tviews[i as int]) == (negated, tok@));
        }
        if tok.len() > 0 {
            let tok_s = chars_string(&tok);
            let matched = row_matches_token(row, tok_s.as_str(), &url, &title, &meta);
            if negated {
                if matched {
                    proof {
                        assert(!terms_verdict(*row, tviews, i as int, url@, title@, meta@));
                    }
                    return false;
                }
            } else if !matched {
                proof {
                    assert(!terms_verdict(*row, tviews, i as int, url@, title@, meta@));
                }
                return false;
            }
        }
        i = i + 1;
    }
    true
}

} // verus!

verus! {

/// The number of retrieved rows in a prefix.
pub open spec fn count_retrieved(rows: Seq<CrawlRow>) -> int
    decreases rows.len(),
{
    if rows.len() == 0 {
        0
    } else {
        count_retrieved(rows.drop_last()) + (if rows.last().retrieval_status@ == "retrieved"@ {
            1int
        } else {
            0int
        })
    }
}

/// The score total of the retrieved rows.
pub open spec fn sum_retrieved_scores(rows: Seq<CrawlRow>) -> int
    decreases rows.len(),
{
    if rows.len() == 0 {
        0
    } else {
        sum_retrieved_scores(rows.drop_last()) + (if rows.last().retrieval_status@
            == "retrieved"@ {
            rows.last().seo_score as int
        } else {
            0int
        })
    }
}

proof fn lemma_retrieved_bounds(rows: Seq<CrawlRow>)
    ensures
        0 <= count_retrieved(rows) <= rows.len(),
        0 <= sum_retrieved_scores(rows) <= 255 * count_retrieved(rows),
    decreases rows.len(),
{
    if rows.len() > 0 {
        lemma_retrieved_bounds(rows.drop_last());
    }
}

/// The number of rows whose status falls in one code class.
pub open spec fn count_status_class(rows: Seq<CrawlRow>, lo: u16, hi: u16) -> int
    decreases rows.len(),
{
    if rows.len() == 0 {
        0
    } else {
        count_status_class(rows.drop_last(), lo, hi) + (if lo <= rows.last().status <= hi {
            1int
        } else {
            0int
        })
    }
}

/// The number of rows carrying one issue.
pub open spec fn count_with_issue(rows: Seq<CrawlRow>, issue: SeoIssue) -> int
    decreases rows.len(),
{
    if rows.len() == 0 {
        0
    } else {
        count_with_issue(rows.drop_last(), issue) + (if rows.last().issues@.contains(issue) {
            1int
        } else {
            0int
        })
    }
}

proof fn lemma_count_with_issue_bounds(rows: Seq<CrawlRow>, issue: SeoIssue)
    ensures
        0 <= count_with_issue(rows, issue) <= rows.len(),
    decreases rows.len(),
{
    if rows.len() > 0 {
        lemma_count_with_issue_bounds(rows.drop_last(), issue);
    }
}

impl AppState {
    /// The average SEO score over the retrieved rows, zero when there are
    /// none.
    pub fn average_seo_score(&self) -> (r: u8)
        ensures
            count_retrieved(self.all_rows@) == 0 ==> r == 0,
            count_retrieved(self.all_rows@) > 0 ==> r == sum_retrieved_scores(self.all_rows@)
                / count_retrieved(self.all_rows@),
    {
        let mut sum: u128 = 0;
        let mut count: u128 = 0;
        let mut i: usize = 0;
        proof {
            assert(self.all_rows@.subrange(0, 0) =~= Seq::<CrawlRow>::empty());
        }
        while i < self.all_rows.len()
            invariant
                i <= self.all_rows@.len(),
                count == count_retrieved(self.all_rows@.subrange(0, i as int)),
                sum == sum_retrieved_scores(self.all_rows@.subrange(0, i as int)),
                count <= i,
                sum <= 255 * count,
            decreases self.all_rows@.len() - i,
        {
            let ghost p = self.all_rows@.subrange(0, i as int);
            let ghost q = self.all_rows@.subrange(0, i + 1);
            proof {
                assert(q.drop_last() =~= p);
                assert(q.last() == self.all_rows@[i as int]);
                lemma_retrieved_bounds(p);
            }
            let retrieved = {
                let rs = str_chars(self.all_rows[i].retrieval_status.as_str());
                crate::strutil::vec_eq_str(&rs, "retrieved")
            };
            if retrieved {
                sum = sum + self.all_rows[i].seo_score as u128;
                count = count + 1;
            }
            i = i + 1;
        }
        proof {
            assert(self.all_rows@.subrange(0, self.all_rows@.len() as int) =~= self.all_rows@);
        }
        if count == 0 {
            0
        } else {
            proof {
                lemma_retrieved_bounds(self.all_rows@);
                assert(sum / count <= 255) by (nonlinear_arith)
                    requires
                        count > 0,
                        sum <= 255 * count,
                ;
            }
            (sum / count) as u8
        }
    }

    /// The number of status codes a class has collected across the rows.
    pub fn count_status_between(&self, lo: u16, hi: u16) -> (r: usize)
        ensures
            r == count_status_class(self.all_rows@, lo, hi),
    {
        let mut count: usize = 0;
        let mut i: usize = 0;
        proof {
            assert(self.all_rows@.subrange(0, 0) =~= Seq::<CrawlRow>::empty());
        }
        while i < self.all_rows.len()
            invariant
                i <= self.all_rows@.len(),
                count == count_status_class(self.all_rows@.subrange(0, i as int), lo, hi),
                count <= i,
            decreases self.all_rows@.len() - i,
        {
            let ghost p = self.all_rows@.subrange(0, i as int);
            let ghost q = self.all_rows@.subrange(0, i + 1);
            proof {
                assert(q.drop_last() =~= p);
                assert(q.last() == self.all_rows@[i as int]);
            }
            if lo <= self.all_rows[i].status && self.all_rows[i].status <= hi {
                count = count + 1;
            }
            i = i + 1;
        }
        proof {
            assert(self.all_rows@.subrange(0, self.all_rows@.len() as int) =~= self.all_rows@);
        }
        count
    }

    /// How many rows carry one given issue.
    pub fn count_rows_with_issue(&self, issue: SeoIssue) -> (r: usize)
        ensures
            r == count_with_issue(self.all_rows@, issue),
    {
        let mut count: usize = 0;
        let mut i: usize = 0;
        proof {
            assert(self.all_rows@.subrange(0, 0) =~= Seq::<CrawlRow>::empty());
        }
        while i < self.all_rows.len()
            invariant
                i <= self.all_rows@.len(),
                count == count_with_issue(self.all_rows@.subrange(0, i as int), issue),
                count <= i,
            decreases self.all_rows@.len() - i,
        {
            let ghost p = self.all_rows@.subrange(0, i as int);
            let ghost q = self.all_rows@.subrange(0, i + 1);
            proof {
                assert(q.drop_last() =~= p);
                assert(q.last() == self.all_rows@[i as int]);
            }
            let has = {
                let issues = &self.all_rows[i].issues;
                let mut found = false;
                let mut k: usize = 0;
                while k < issues.len()
                    invariant
                        k <= issues@.len(),
                        found == exists|t: int| 0 <= t < k && issues@[t] == issue,
                    decreases issues@.len() - k,
                {
                    if issues[k] == issue {
                        found = true;
                        k = issues.len();
                    } else {
                        k = k + 1;
                    }
                }
                found
            };
            proof {
                if has {
                    assert(self.all_rows@[i as int].issues@.contains(issue));
                } else {
                    if self.all_rows@[i as int].issues@.contains(issue) {
                        let t = choose|t: int|
                            0 <= t < self.all_rows@[i as int].issues@.len()
                                && self.all_rows@[i as int].issues@[t] == issue;
                        assert(false);
                    }
                }
            }
            if has {
                count = count + 1;
            }
            i = i + 1;
        }
        proof {
            assert(self.all_rows@.subrange(0, self.all_rows@.len() as int) =~= self.all_rows@);
        }
        count
    }
}

/// The key under which titles are pooled for duplicate detection.
pub open spec fn title_key(row: CrawlRow) -> Seq<char> {
    lower_seq(trim_seq(row.title@))
}

/// Does a row share its non-empty title key with another row?
pub open spec fn title_duplicated(rows: Seq<CrawlRow>, i: int) -> bool {
    exists|j: int|
        0 <= j < rows.len() && j != i && rows[j].title@.len() > 0 && title_key(rows[j])
            == title_key(rows[i])
}

/// How many rows in the prefix have a non-empty title shared with
/// another row.
pub open spec fn count_dup_titles(rows: Seq<CrawlRow>, upto: int) -> int
    decreases upto,
{
    if upto <= 0 {
        0
    } else {
        count_dup_titles(rows, upto - 1) + (if rows[upto - 1].title@.len() > 0
            && title_duplicated(rows, upto - 1) {
            1int
        } else {
            0int
        })
    }
}

/// The key under which meta descriptions are pooled.
pub open spec fn meta_key(row: CrawlRow) -> Seq<char> {
    lower_seq(trim_seq(row.meta@))
}

/// Is this row's meta counted at all? It must be non-empty and the row
/// retrieved.
pub open spec fn meta_counted(row: CrawlRow) -> bool {
    row.meta@.len() > 0 && row.retrieval_status@ == "retrieved"@
}

/// Does a row share its counted meta key with another counted row?
pub open spec fn meta_duplicated(rows: Seq<CrawlRow>, i: int) -> bool {
    exists|j: int|
        0 <= j < rows.len() && j != i && meta_counted(rows[j]) && meta_key(rows[j]) == meta_key(
            rows[i],
        )
}

/// How many rows in the prefix have a counted meta shared with another
/// counted row.
pub open spec fn count_dup_metas(rows: Seq<CrawlRow>, upto: int) -> int
    decreases upto,
{
    if upto <= 0 {
        0
    } else {
        count_dup_metas(rows, upto - 1) + (if meta_counted(rows[upto - 1]) && meta_duplicated(
            rows,
            upto - 1,
        ) {
            1int
        } else {
            0int
        })
    }
}

impl AppState {
    /// How many pages share a non-empty title with another page.
    pub fn duplicate_title_pages(&self) -> (r: usize)
        ensures
            r == count_dup_titles(self.all_rows@, self.all_rows@.len() as int),
    {
        let ghost rows = self.all_rows@;
        let mut count: usize = 0;
        let mut i: usize = 0;
        while i < self.all_rows.len()
            invariant
                i <= self.all_rows@.len(),
                rows == self.all_rows@,
                count == count_dup_titles(rows, i as int),
                count <= i,
            decreases self.all_rows@.len() - i,
        {
            let ti = str_chars(self.all_rows[i].title.as_str());
            let counted = ti.len() > 0;
            let mut dup = false;
            if counted {
                let key_i = {
                    let t = trim_vec(&ti);
                    lower_vec(&t)
                };
                let mut j: usize = 0;
                while j < self.all_rows.len()
                    invariant
                        j <= self.all_rows@.len(),
                        rows == self.all_rows@,
                        i < rows.len(),
                        key_i@ == title_key(rows[i as int]),
                        dup == exists|t: int|
                            0 <= t < j && t != i && rows[t].title@.len() > 0 && title_key(
                                #[trigger] rows[t],
                            ) == title_key(rows[i as int]),
                    decreases self.all_rows@.len() - j,
                {
                    if j != i {
                        let tj = str_chars(self.all_rows[j].title.as_str());
                        if tj.len() > 0 {
                            let key_j = {
                                let t = trim_vec(&tj);
                                lower_vec(&t)
                            };
                            if crate::strutil::vec_eq(&key_j, &key_i) {
                                proof {
                                    assert(title_key(rows[j as int]) == title_key(
                                        rows[i as int],
                                    ));
                                }
                                dup = true;
                            }
                        }
                    }
                    j = j + 1;
                }
            }
            proof {
                if counted {
                    assert(dup == title_duplicated(rows, i as int));
                }
            }
            if counted && dup {
                count = count + 1;
            }
            i = i + 1;
        }
        count
    }

    /// How many pages share a counted meta description with another page.
    pub fn duplicate_meta_pages(&self) -> (r: usize)
        ensures
            r == count_dup_metas(self.all_rows@, self.all_rows@.len() as int),
    {
        let ghost rows = self.all_rows@;
        let mut count: usize = 0;
        let mut i: usize = 0;
        while i < self.all_rows.len()
            invariant
                i <= self.all_rows@.len(),
                rows == self.all_rows@,
                count == count_dup_metas(rows, i as int),
                count <= i,
            decreases self.all_rows@.len() - i,
        {
            let mi = str_chars(self.all_rows[i].meta.as_str());
            let counted = mi.len() > 0 && {
                let rs = str_chars(self.all_rows[i].retrieval_status.as_str());
                crate::strutil::vec_eq_str(&rs, "retrieved")
            };
            let mut dup = false;
            if counted {
                let key_i = {
                    let t = trim_vec(&mi);
                    lower_vec(&t)
                };
                let mut j: usize = 0;
                while j < self.all_rows.len()
                    invariant
                        j <= self.all_rows@.len(),
                        rows == self.all_rows@,
                        i < rows.len(),
                        key_i@ == meta_key(rows[i as int]),
                        dup == exists|t: int|
                            0 <= t < j && t != i && meta_counted(#[trigger] rows[t]) && meta_key(
                                rows[t],
                            ) == meta_key(rows[i as int]),
                    decreases self.all_rows@.len() - j,
                {
                    if j != i {
                        let mj = str_chars(self.all_rows[j].meta.as_str());
                        let counted_j = mj.len() > 0 && {
                            let rs = str_chars(self.all_rows[j].retrieval_status.as_str());
                            crate::strutil::vec_eq_str(&rs, "retrieved")
                        };
                        if counted_j {
                            let key_j = {
                                let t = trim_vec(&mj);
                                lower_vec(&t)
                            };
                            if crate::strutil::vec_eq(&key_j, &key_i) {
                                proof {
                                    assert(meta_key(rows[j as int]) == meta_key(rows[i as int]));
                                    assert(meta_counted(rows[j as int]));
                                }
                                dup = true;
                            }
                        }
                    }
                    j = j + 1;
                }
            }
            proof {
                if counted {
                    assert(meta_counted(rows[i as int]));
                    assert(dup == meta_duplicated(rows, i as int));
                }
            }
            if counted && dup {
                count = count + 1;
            }
            i = i + 1;
        }
        count
    }
}

} // verus!

verus! {

/// The alphabetical position of an issue's label among the sixteen
/// labels; ties in the issue tables are broken by it.
pub open spec fn label_rank(issue: SeoIssue) -> int {
    match issue {
        SeoIssue::ImagesMissingAlt => 1,
        SeoIssue::LowWordCount => 2,
        SeoIssue::MetaDescriptionTooLong => 3,
        SeoIssue::MetaDescriptionTooShort => 4,
        SeoIssue::MissingCanonical => 5,
        SeoIssue::MissingH1 => 6,
        SeoIssue::MissingMetaDescription => 7,
        SeoIssue::MissingTitle => 8,
        SeoIssue::MultipleH1 => 9,
        SeoIssue::Noindex => 10,
        SeoIssue::NotRetrieved => 11,
        SeoIssue::Http4xx => 12,
        SeoIssue::Http5xx => 13,
        SeoIssue::TitleTooLong => 14,
        SeoIssue::TitleTooShort => 15,
        SeoIssue::TooManyExternalLinks => 16,
    }
}

fn exec_label_rank(issue: SeoIssue) -> (r: u8)
    ensures
        r == label_rank(issue),
{
    match issue {
        SeoIssue::ImagesMissingAlt => 1,
        SeoIssue::LowWordCount => 2,
        SeoIssue::MetaDescriptionTooLong => 3,
        SeoIssue::MetaDescriptionTooShort => 4,
        SeoIssue::MissingCanonical => 5,
        SeoIssue::MissingH1 => 6,
        SeoIssue::MissingMetaDescription => 7,
        SeoIssue::MissingTitle => 8,
        SeoIssue::MultipleH1 => 9,
        SeoIssue::Noindex => 10,
        SeoIssue::NotRetrieved => 11,
        SeoIssue::Http4xx => 12,
        SeoIssue::Http5xx => 13,
        SeoIssue::TitleTooLong => 14,
        SeoIssue::TitleTooShort => 15,
        SeoIssue::TooManyExternalLinks => 16,
    }
}

/// Does entry `a` belong no later than `b` in an issue table: more
/// occurrences first, label order on ties.
pub open spec fn issue_entry_le(a: (SeoIssue, usize), b: (SeoIssue, usize)) -> bool {
    a.1 > b.1 || (a.1 == b.1 && label_rank(a.0) <= label_rank(b.0))
}

/// Sort issue-count entries: most frequent first, label order on ties.
fn sort_issue_entries(input: Vec<(SeoIssue, usize)>) -> (r: Vec<(SeoIssue, usize)>)
    ensures
        r@.to_multiset() == input@.to_multiset(),
        forall|k: int, l: int| 0 <= k < l < r@.len() ==> issue_entry_le(#[trigger] r@[k], #[trigger] r@[l]),
        input@.no_duplicates() ==> r@.no_duplicates(),
{
    broadcast use vstd::seq_lib::group_to_multiset_ensures;

    let mut rest = input;
    let mut out: Vec<(SeoIssue, usize)> = Vec::new();
    while rest.len() > 0
        invariant
            out@.to_multiset().add(rest@.to_multiset()) == input@.to_multiset(),
            forall|k: int, l: int|
                0 <= k < l < out@.len() ==> issue_entry_le(#[trigger] out@[k], #[trigger] out@[l]),
            forall|k: int, l: int|
                0 <= k < out@.len() && 0 <= l < rest@.len() ==> issue_entry_le(
                    #[trigger] out@[k],
                    #[trigger] rest@[l],
                ),
        decreases rest@.len(),
    {
        let mut m: usize = 0;
        let mut t: usize = 1;
        while t < rest.len()
            invariant
                m < rest@.len(),
                t <= rest@.len(),
                forall|k: int| 0 <= k < t ==> issue_entry_le(rest@[m as int], #[trigger] rest@[k]),
            decreases rest@.len() - t,
        {
            let better = rest[t].1 > rest[m].1 || (rest[t].1 == rest[m].1 && exec_label_rank(
                rest[t].0,
            ) < exec_label_rank(rest[m].0));
            if better {
                m = t;
            }
            t = t + 1;
        }
        let ghost old_rest = rest@;
        let ghost old_out = out@;
        let x = rest.remove(m);
        out.push(x);
        proof {
            assert(rest@ == old_rest.remove(m as int));
            assert(out@ == old_out.push(x));
            assert(old_rest[m as int] == x);
            old_rest.to_multiset_ensures();
            old_out.to_multiset_ensures();
            assert(out@.to_multiset() =~= old_out.to_multiset().insert(x));
            assert(rest@.to_multiset() =~= old_rest.to_multiset().remove(x));
            assert(old_rest.to_multiset().count(x) > 0);
            assert(out@.to_multiset().add(rest@.to_multiset()) =~= input@.to_multiset());
            assert(forall|l: int|
                0 <= l < rest@.len() ==> #[trigger] rest@[l] == (if l < m {
                    old_rest[l]
                } else {
                    old_rest[l + 1]
                }));
        }
    }
    proof {
        assert(rest@.to_multiset() =~= Multiset::<(SeoIssue, usize)>::empty());
        assert(out@.to_multiset().add(Multiset::empty()) =~= out@.to_multiset());
        if input@.no_duplicates() {
            input@.lemma_multiset_has_no_duplicates();
            assert(forall|x: (SeoIssue, usize)|
                out@.to_multiset().contains(x) ==> #[trigger] out@.to_multiset().count(x) == 1);
            out@.lemma_multiset_has_no_duplicates_conv();
        }
    }
    out
}

/// Does entry `a` belong no later than `b` in a status table: larger
/// counts first, smaller codes on ties.
pub open spec fn status_entry_le(a: (u16, usize), b: (u16, usize)) -> bool {
    a.1 > b.1 || (a.1 == b.1 && a.0 <= b.0)
}

/// Sort status-count entries: most frequent first, code order on ties.
pub fn sort_status_entries(input: Vec<(u16, usize)>) -> (r: Vec<(u16, usize)>)
    ensures
        r@.to_multiset() == input@.to_multiset(),
        forall|k: int, l: int|
            0 <= k < l < r@.len() ==> status_entry_le(#[trigger] r@[k], #[trigger] r@[l]),
        input@.no_duplicates() ==> r@.no_duplicates(),
{
    broadcast use vstd::seq_lib::group_to_multiset_ensures;

    let mut rest = input;
    let mut out: Vec<(u16, usize)> = Vec::new();
    while rest.len() > 0
        invariant
            out@.to_multiset().add(rest@.to_multiset()) == input@.to_multiset(),
            forall|k: int, l: int|
                0 <= k < l < out@.len() ==> status_entry_le(
                    #[trigger] out@[k],
                    #[trigger] out@[l],
                ),
            forall|k: int, l: int|
                0 <= k < out@.len() && 0 <= l < rest@.len() ==> status_entry_le(
                    #[trigger] out@[k],
                    #[trigger] rest@[l],
                ),
        decreases rest@.len(),
    {
        let mut m: usize = 0;
        let mut t: usize = 1;
        while t < rest.len()
            invariant
                m < rest@.len(),
                t <= rest@.len(),
                forall|k: int| 0 <= k < t ==> status_entry_le(rest@[m as int], #[trigger] rest@[k]),
            decreases rest@.len() - t,
        {
            let better = rest[t].1 > rest[m].1 || (rest[t].1 == rest[m].1 && rest[t].0
                < rest[m].0);
            if better {
                m = t;
            }
            t = t + 1;
        }
        let ghost old_rest = rest@;
        let ghost old_out = out@;
        let x = rest.remove(m);
        out.push(x);
        proof {
            assert(rest@ == old_rest.remove(m as int));
            assert(out@ == old_out.push(x));
            assert(old_rest[m as int] == x);
            old_rest.to_multiset_ensures();
            old_out.to_multiset_ensures();
            assert(out@.to_multiset() =~= old_out.to_multiset().insert(x));
            assert(rest@.to_multiset() =~= old_rest.to_multiset().remove(x));
            assert(old_rest.to_multiset().count(x) > 0);
            assert(out@.to_multiset().add(rest@.to_multiset()) =~= input@.to_multiset());
            assert(forall|l: int|
                0 <= l < rest@.len() ==> #[trigger] rest@[l] == (if l < m {
                    old_rest[l]
                } else {
                    old_rest[l + 1]
                }));
        }
    }
    proof {
        assert(rest@.to_multiset() =~= Multiset::<(u16, usize)>::empty());
        assert(out@.to_multiset().add(Multiset::empty()) =~= out@.to_multiset());
        if input@.no_duplicates() {
            input@.lemma_multiset_has_no_duplicates();
            assert(forall|x: (u16, usize)|
                out@.to_multiset().contains(x) ==> #[trigger] out@.to_multiset().count(x) == 1);
            out@.lemma_multiset_has_no_duplicates_conv();
        }
    }
    out
}

impl AppState {
    /// The issues present in the records with their page counts, most
    /// frequent first (labels break ties), at most `limit` entries but at
    /// least one slot. No issue appears twice, and every issue left out
    /// sorts after every kept entry.
    #[verifier::rlimit(100)]
    pub fn top_issues(&self, limit: usize) -> (r: Vec<(SeoIssue, usize)>)
        ensures
            forall|k: int|
                0 <= k < r@.len() ==> count_with_issue(self.all_rows@, (#[trigger] r@[k]).0)
                    == r@[k].1 && r@[k].1 > 0,
            forall|k: int, l: int|
                0 <= k < l < r@.len() ==> issue_entry_le(#[trigger] r@[k], #[trigger] r@[l]),
            forall|k: int, l: int|
                0 <= k < l < r@.len() ==> (#[trigger] r@[k]).0 != (#[trigger] r@[l]).0,
            forall|iss: SeoIssue| #![trigger count_with_issue(self.all_rows@, iss)]
                count_with_issue(self.all_rows@, iss) > 0 && (forall|k: int|
                    0 <= k < r@.len() ==> (#[trigger] r@[k]).0 != iss) ==> r@.len() == (
                if limit >= 1 {
                    limit as int
                } else {
                    1
                }) && (r@[r@.len() - 1].1 > count_with_issue(self.all_rows@, iss) || (r@[r@.len()
                    - 1].1 == count_with_issue(self.all_rows@, iss) && label_rank(
                    r@[r@.len() - 1].0,
                ) <= label_rank(iss))),
    {
        broadcast use vstd::seq_lib::group_to_multiset_ensures;

        let cap = if limit >= 1 {
            limit
        } else {
            1
        };
        let all = issue_variants();
        proof {
            lemma_every_issue_listed(all@, SeoIssue::NotRetrieved);
        }
        let mut entries: Vec<(SeoIssue, usize)> = Vec::new();
        let mut i: usize = 0;
        while i < all.len()
            invariant
                i <= all@.len(),
                all@.no_duplicates(),
                forall|k: int|
                    0 <= k < entries@.len() ==> count_with_issue(
                        self.all_rows@,
                        (#[trigger] entries@[k]).0,
                    ) == entries@[k].1 && entries@[k].1 > 0,
                forall|k: int|
                    0 <= k < entries@.len() ==> exists|t: int|
                        0 <= t < i && (#[trigger] entries@[k]).0 == all@[t],
                forall|k: int, l: int|
                    0 <= k < l < entries@.len() ==> (#[trigger] entries@[k]).0 != (
                    #[trigger] entries@[l]).0,
                forall|t: int|
                    0 <= t < i && count_with_issue(self.all_rows@, #[trigger] all@[t]) > 0
                        ==> exists|k: int|
                        0 <= k < entries@.len() && (#[trigger] entries@[k]).0 == all@[t],
            decreases all@.len() - i,
        {
            let ghost pre = entries@;
            let c = self.count_rows_with_issue(all[i]);
            if c > 0 {
                entries.push((all[i], c));
                proof {
                    assert forall|k: int, l: int|
                        0 <= k < l < entries@.len() implies (#[trigger] entries@[k]).0 != (
                    #[trigger] entries@[l]).0 by {
                        if l == entries@.len() - 1 {
                            let t = choose|t: int|
                                0 <= t < i && (#[trigger] pre[k]).0 == all@[t];
                            assert(all@[t] != all@[i as int]);
                        }
                    }
                }
            }
            proof {
                assert forall|t: int|
                    0 <= t < i + 1 && count_with_issue(self.all_rows@, #[trigger] all@[t])
                        > 0 implies exists|k: int|
                    0 <= k < entries@.len() && (#[trigger] entries@[k]).0 == all@[t] by {
                    if t < i {
                        let k = choose|k: int|
                            0 <= k < pre.len() && (#[trigger] pre[k]).0 == all@[t];
                        assert(entries@[k].0 == all@[t]);
                    } else {
                        assert(entries@[entries@.len() - 1].0 == all@[t]);
                    }
                }
            }
            i = i + 1;
        }
        proof {
            assert(entries@.no_duplicates()) by {
                assert forall|k: int, l: int|
                    0 <= k < entries@.len() && 0 <= l < entries@.len() && k != l implies entries@[k]
                    != entries@[l] by {
                    if k < l {
                        assert(entries@[k].0 != entries@[l].0);
                    } else {
                        assert(entries@[l].0 != entries@[k].0);
                    }
                }
            }
        }
        let ghost entry_set = entries@;
        let sorted = sort_issue_entries(entries);
        proof {
            assert forall|k: int|
                0 <= k < sorted@.len() implies count_with_issue(
                self.all_rows@,
                (#[trigger] sorted@[k]).0,
            ) == sorted@[k].1 && sorted@[k].1 > 0 by {
                assert(sorted@.to_multiset().count(sorted@[k]) > 0);
                assert(entry_set.to_multiset().count(sorted@[k]) > 0);
                assert(entry_set.contains(sorted@[k]));
                let t = choose|t: int| 0 <= t < entry_set.len() && entry_set[t] == sorted@[k];
            }
        }
        let mut out: Vec<(SeoIssue, usize)> = Vec::new();
        let mut k: usize = 0;
        proof {
            assert(sorted@.len() == sorted@.to_multiset().len());
            assert(entry_set.len() == entry_set.to_multiset().len());
            assert(out@ =~= sorted@.subrange(0, 0));
        }
        while k < sorted.len() && k < cap
            invariant
                k <= sorted@.len(),
                k <= cap,
                out@ == sorted@.subrange(0, k as int),
                sorted@.len() == entry_set.len(),
                sorted@.no_duplicates(),
                sorted@.to_multiset() == entry_set.to_multiset(),
                forall|a: int|
                    0 <= a < sorted@.len() ==> count_with_issue(
                        self.all_rows@,
                        (#[trigger] sorted@[a]).0,
                    ) == sorted@[a].1 && sorted@[a].1 > 0,
                forall|a: int, b: int|
                    0 <= a < b < sorted@.len() ==> issue_entry_le(
                        #[trigger] sorted@[a],
                        #[trigger] sorted@[b],
                    ),
            decreases sorted@.len() - k,
        {
            out.push(sorted[k]);
            k = k + 1;
            proof {
                assert(out@ =~= sorted@.subrange(0, k as int));
            }
        }
        proof {
            assert(out@.len() == k);
            assert(k == sorted@.len() || k == cap);
            assert forall|a: int, b: int|
                0 <= a < b < out@.len() implies (#[trigger] out@[a]).0 != (
            #[trigger] out@[b]).0 by {
                assert(out@[a] == sorted@[a]);
                assert(out@[b] == sorted@[b]);
                if sorted@[a].0 == sorted@[b].0 {
                    assert(sorted@[a].1 == count_with_issue(self.all_rows@, sorted@[a].0));
                    assert(sorted@[b].1 == count_with_issue(self.all_rows@, sorted@[b].0));
                    assert(sorted@[a] == sorted@[b]);
                    assert(!sorted@.no_duplicates());
                }
            }
            assert forall|iss: SeoIssue| #![trigger count_with_issue(self.all_rows@, iss)]
                count_with_issue(self.all_rows@, iss) > 0 && (forall|t: int|
                    0 <= t < out@.len() ==> (#[trigger] out@[t]).0 != iss) implies out@.len()
                == (if limit >= 1 {
                limit as int
            } else {
                1
            }) && (out@[out@.len() - 1].1 > count_with_issue(self.all_rows@, iss) || (out@[
                out@.len() - 1].1 == count_with_issue(self.all_rows@, iss) && label_rank(
                out@[out@.len() - 1].0,
            ) <= label_rank(iss))) by {
                lemma_every_issue_listed(all@, iss);
                let ti = choose|t: int| 0 <= t < all@.len() && #[trigger] all@[t] == iss;
                let ke = choose|k2: int|
                    0 <= k2 < entry_set.len() && (#[trigger] entry_set[k2]).0 == all@[ti];
                let p = entry_set[ke];
                assert(p.0 == iss);
                assert(entry_set.to_multiset().count(p) > 0);
                assert(sorted@.to_multiset().count(p) > 0);
                assert(sorted@.contains(p));
                let j = choose|j: int| 0 <= j < sorted@.len() && #[trigger] sorted@[j] == p;
                if j < out@.len() {
                    assert(out@[j] == p);
                    assert(out@[j].0 == iss);
                }
                assert(j >= out@.len());
                assert(out@.len() < sorted@.len());
                assert(out@.len() == cap);
                assert(out@[out@.len() - 1] == sorted@[out@.len() - 1]);
                assert(issue_entry_le(sorted@[out@.len() - 1], sorted@[j]));
                assert(p.1 == count_with_issue(self.all_rows@, iss));
            }
        }
        out
    }
}

/// The sixteen issues cover every value of the type.
proof fn lemma_every_issue_listed(all: Seq<SeoIssue>, iss: SeoIssue)
    requires
        all =~= seq![
            SeoIssue::NotRetrieved,
            SeoIssue::Http4xx,
            SeoIssue::Http5xx,
            SeoIssue::Noindex,
            SeoIssue::MissingTitle,
            SeoIssue::TitleTooShort,
            SeoIssue::TitleTooLong,
            SeoIssue::MissingMetaDescription,
            SeoIssue::MetaDescriptionTooShort,
            SeoIssue::MetaDescriptionTooLong,
            SeoIssue::MissingH1,
            SeoIssue::MultipleH1,
            SeoIssue::MissingCanonical,
            SeoIssue::LowWordCount,
            SeoIssue::ImagesMissingAlt,
            SeoIssue::TooManyExternalLinks,
        ],
    ensures
        all.no_duplicates(),
        exists|t: int| 0 <= t < all.len() && #[trigger] all[t] == iss,
{
    {
        match iss {
            SeoIssue::NotRetrieved => assert(all[0] == iss),
            SeoIssue::Http4xx => assert(all[1] == iss),
            SeoIssue::Http5xx => assert(all[2] == iss),
            SeoIssue::Noindex => assert(all[3] == iss),
            SeoIssue::MissingTitle => assert(all[4] == iss),
            SeoIssue::TitleTooShort => assert(all[5] == iss),
            SeoIssue::TitleTooLong => assert(all[6] == iss),
            SeoIssue::MissingMetaDescription => assert(all[7] == iss),
            SeoIssue::MetaDescriptionTooShort => assert(all[8] == iss),
            SeoIssue::MetaDescriptionTooLong => assert(all[9] == iss),
            SeoIssue::MissingH1 => assert(all[10] == iss),
            SeoIssue::MultipleH1 => assert(all[11] == iss),
            SeoIssue::MissingCanonical => assert(all[12] == iss),
            SeoIssue::LowWordCount => assert(all[13] == iss),
            SeoIssue::ImagesMissingAlt => assert(all[14] == iss),
            SeoIssue::TooManyExternalLinks => assert(all[15] == iss),
        }
    }
}

/// Every issue, in declaration order.
pub fn issue_variants() -> (r: Vec<SeoIssue>)
    ensures
        r@ =~= seq![
            SeoIssue::NotRetrieved,
            SeoIssue::Http4xx,
            SeoIssue::Http5xx,
            SeoIssue::Noindex,
            SeoIssue::MissingTitle,
            SeoIssue::TitleTooShort,
            SeoIssue::TitleTooLong,
            SeoIssue::MissingMetaDescription,
            SeoIssue::MetaDescriptionTooShort,
            SeoIssue::MetaDescriptionTooLong,
            SeoIssue::MissingH1,
            SeoIssue::MultipleH1,
            SeoIssue::MissingCanonical,
            SeoIssue::LowWordCount,
            SeoIssue::ImagesMissingAlt,
            SeoIssue::TooManyExternalLinks,
        ],
{
    let mut v: Vec<SeoIssue> = Vec::new();
    v.push(SeoIssue::NotRetrieved);
    v.push(SeoIssue::Http4xx);
    v.push(SeoIssue::Http5xx);
    v.push(SeoIssue::Noindex);
    v.push(SeoIssue::MissingTitle);
    v.push(SeoIssue::TitleTooShort);
    v.push(SeoIssue::TitleTooLong);
    v.push(SeoIssue::MissingMetaDescription);
    v.push(SeoIssue::MetaDescriptionTooShort);
    v.push(SeoIssue::MetaDescriptionTooLong);
    v.push(SeoIssue::MissingH1);
    v.push(SeoIssue::MultipleH1);
    v.push(SeoIssue::MissingCanonical);
    v.push(SeoIssue::LowWordCount);
    v.push(SeoIssue::ImagesMissingAlt);
    v.push(SeoIssue::TooManyExternalLinks);
    v
}

} // verus!

verus! {

/// The URLs of rows that failed: never retrieved, or last seen as a 5xx.
pub open spec fn failed_urls_of(rows: Seq<CrawlRow>) -> Seq<Seq<char>>
    decreases rows.len(),
{
    if rows.len() == 0 {
        Seq::empty()
    } else {
        failed_urls_of(rows.drop_last()) + (if rows.last().retrieval_status@ != "retrieved"@
            || (500 <= rows.last().status <= 599) {
            seq![rows.last().url@]
        } else {
            Seq::<Seq<char>>::empty()
        })
    }
}

impl AppState {
    /// The URLs worth retrying: every row that was never retrieved or
    /// last answered with a 5xx, sorted and without repetition.
    pub fn retry_failed_urls(&self) -> (r: Vec<String>)
        ensures
            string_views(r@).to_multiset() == dedup_first(
                failed_urls_of(self.all_rows@),
            ).to_multiset(),
            views_sorted(string_views(r@)),
            string_views(r@).no_duplicates(),
    {
        let mut urls: Vec<String> = Vec::new();
        let mut i: usize = 0;
        proof {
            assert(self.all_rows@.subrange(0, 0) =~= Seq::<CrawlRow>::empty());
            assert(string_views(urls@) =~= failed_urls_of(self.all_rows@.subrange(0, 0)));
        }
        while i < self.all_rows.len()
            invariant
                i <= self.all_rows@.len(),
                string_views(urls@) == failed_urls_of(self.all_rows@.subrange(0, i as int)),
            decreases self.all_rows@.len() - i,
        {
            let ghost p = self.all_rows@.subrange(0, i as int);
            let ghost q = self.all_rows@.subrange(0, i + 1);
            proof {
                assert(q.drop_last() =~= p);
                assert(q.last() == self.all_rows@[i as int]);
            }
            let retrieved = {
                let rs = str_chars(self.all_rows[i].retrieval_status.as_str());
                crate::strutil::vec_eq_str(&rs, "retrieved")
            };
            let failing = !retrieved || (500 <= self.all_rows[i].status && self.all_rows[i].status
                <= 599);
            if failing {
                let ghost prev = string_views(urls@);
                let u = self.all_rows[i].url.clone();
                urls.push(u);
                proof {
                    assert(string_views(urls@) =~= prev.push(self.all_rows@[i as int].url@));
                }
            }
            proof {
                assert(string_views(urls@) =~= failed_urls_of(q));
            }
            i = i + 1;
        }
        proof {
            assert(self.all_rows@.subrange(0, self.all_rows@.len() as int) =~= self.all_rows@);
        }
        sort_strings(dedupe_strings(&urls))
    }

    /// Every known URL: the seen records and every referenced link,
    /// sorted and without repetition.
    pub fn retry_all_urls(&self) -> (r: Vec<String>)
        ensures
            string_views(r@).to_multiset() == dedup_first(
                row_urls(self.all_rows@) + string_views(self.discovered_seen@),
            ).to_multiset(),
            views_sorted(string_views(r@)),
            string_views(r@).no_duplicates(),
    {
        let mut urls: Vec<String> = Vec::new();
        let mut i: usize = 0;
        proof {
            assert(string_views(urls@) =~= row_urls(self.all_rows@).subrange(0, 0));
        }
        while i < self.all_rows.len()
            invariant
                i <= self.all_rows@.len(),
                string_views(urls@) == row_urls(self.all_rows@).subrange(0, i as int),
            decreases self.all_rows@.len() - i,
        {
            let ghost prev = urls@;
            let u = self.all_rows[i].url.clone();
            urls.push(u);
            proof {
                assert(u@ == self.all_rows@[i as int].url@);
                assert(string_views(urls@) =~= string_views(prev).push(u@));
                assert(row_urls(self.all_rows@)[i as int] == self.all_rows@[i as int].url@);
                assert(string_views(urls@) =~= row_urls(self.all_rows@).subrange(0, i + 1));
            }
            i = i + 1;
        }
        proof {
            assert(row_urls(self.all_rows@).subrange(
                0,
                row_urls(self.all_rows@).len() as int,
            ) =~= row_urls(self.all_rows@));
        }
        let mut k: usize = 0;
        while k < self.discovered_seen.len()
            invariant
                k <= self.discovered_seen@.len(),
                string_views(urls@) == row_urls(self.all_rows@) + string_views(
                    self.discovered_seen@,
                ).subrange(0, k as int),
            decreases self.discovered_seen@.len() - k,
        {
            let ghost prev = urls@;
            let u = self.discovered_seen[k].clone();
            urls.push(u);
            proof {
                assert(u@ == self.discovered_seen@[k as int]@);
                assert(string_views(urls@) =~= string_views(prev).push(u@));
                assert(string_views(self.discovered_seen@)[k as int]
                    == self.discovered_seen@[k as int]@);
                assert(string_views(urls@) =~= row_urls(self.all_rows@) + string_views(
                    self.discovered_seen@,
                ).subrange(0, k + 1));
            }
            k = k + 1;
        }
        proof {
            assert(string_views(self.discovered_seen@).subrange(
                0,
                string_views(self.discovered_seen@).len() as int,
            ) =~= string_views(self.discovered_seen@));
        }
        sort_strings(dedupe_strings(&urls))
    }

    /// The pages that link to a URL, sorted, at most `limit` of them but
    /// at least one slot: the head of the sorted source list.
    pub fn incoming_sources(&self, url: &str, limit: usize) -> (r: Vec<String>)
        ensures
            ({
                let sources = match incoming_value(self.incoming_links@, url@) {
                    Some(vs) => vs,
                    None => Seq::<Seq<char>>::empty(),
                };
                let cap = if limit >= 1 {
                    limit as int
                } else {
                    1
                };
                exists|full: Seq<Seq<char>>|
                    {
                        &&& #[trigger] full.to_multiset() == sources.to_multiset()
                        &&& views_sorted(full)
                        &&& string_views(r@) == full.subrange(
                            0,
                            (if full.len() <= cap {
                                full.len() as int
                            } else {
                                cap
                            }),
                        )
                    }
            }),
    {
        let cap = if limit >= 1 {
            limit
        } else {
            1
        };
        let uv = str_chars(url);
        let mut copied: Vec<String> = Vec::new();
        match find_map_entry(&self.incoming_links, &uv) {
            Some(i) => {
                proof {
                    lemma_map_idx(self.incoming_links@, uv@);
                }
                let sources = &self.incoming_links[i].1;
                let mut k: usize = 0;
                while k < sources.len()
                    invariant
                        k <= sources@.len(),
                        i < self.incoming_links@.len(),
                        string_views(copied@) == string_views(sources@).subrange(0, k as int),
                    decreases sources@.len() - k,
                {
                    let ghost prev = copied@;
                    let scopy = sources[k].clone();
                    copied.push(scopy);
                    proof {
                        assert(copied@.last()@ == sources@[k as int]@);
                        assert(string_views(copied@) =~= string_views(prev).push(
                            sources@[k as int]@,
                        ));
                        assert(string_views(sources@)[k as int] == sources@[k as int]@);
                        assert(string_views(copied@) =~= string_views(sources@).subrange(
                            0,
                            k + 1,
                        ));
                    }
                    k = k + 1;
                }
                proof {
                    assert(string_views(sources@).subrange(
                        0,
                        string_views(sources@).len() as int,
                    ) =~= string_views(sources@));
                }
            },
            None => {
                proof {
                    assert(string_views(copied@) =~= Seq::<Seq<char>>::empty());
                }
            },
        }
        let sorted = sort_strings(copied);
        let ghost full = string_views(sorted@);
        let mut out: Vec<String> = Vec::new();
        let mut k: usize = 0;
        while k < sorted.len() && k < cap
            invariant
                k <= sorted@.len(),
                k <= cap,
                full == string_views(sorted@),
                string_views(out@) == full.subrange(0, k as int),
            decreases sorted@.len() - k,
        {
            let ghost prev = out@;
            let scopy = sorted[k].clone();
            out.push(scopy);
            proof {
                assert(out@.last()@ == sorted@[k as int]@);
                assert(string_views(out@) =~= string_views(prev).push(sorted@[k as int]@));
                assert(full[k as int] == sorted@[k as int]@);
                assert(string_views(out@) =~= full.subrange(0, k + 1));
            }
            k = k + 1;
        }
        out
    }

    /// How many pages link to a URL.
    pub fn incoming_count(&self, url: &str) -> (r: usize)
        ensures
            r == (match incoming_value(self.incoming_links@, url@) {
                Some(vs) => vs.len() as int,
                None => 0,
            }),
    {
        let uv = str_chars(url);
        match find_map_entry(&self.incoming_links, &uv) {
            Some(i) => {
                proof {
                    lemma_map_idx(self.incoming_links@, uv@);
                }
                self.incoming_links[i].1.len()
            },
            None => 0,
        }
    }
}

} // verus!

verus! {


/// The filtered, newest-first base list a display query works from.
pub open spec fn display_base(rows: Seq<CrawlRow>, filter: Seq<char>) -> Seq<CrawlRow> {
    filtered_rev(rows, lower_seq(trim_seq(filter)))
}

/// Every element agrees with some element of the base list.
/// Does this row agree with some row of the base list?
pub open spec fn agrees_with_some(x: CrawlRow, base: Seq<CrawlRow>) -> bool {
    exists|j: int| #![trigger base[j]] 0 <= j < base.len() && rows_agree(x, base[j])
}

pub open spec fn all_from(r: Seq<CrawlRow>, base: Seq<CrawlRow>) -> bool {
    forall|k: int| #![trigger r[k]] 0 <= k < r.len() ==> agrees_with_some(r[k], base)
}

/// The list mirrors the base list position by position.
pub open spec fn newest_first_order(r: Seq<CrawlRow>, base: Seq<CrawlRow>) -> bool {
    forall|k: int| 0 <= k < r.len() ==> rows_agree(#[trigger] r[k], base[k])
}

/// The list mirrors the base list back to front.
pub open spec fn oldest_first_order(r: Seq<CrawlRow>, base: Seq<CrawlRow>) -> bool {
    forall|k: int| 0 <= k < r.len() ==> rows_agree(#[trigger] r[k], base[base.len() - 1 - k])
}

/// Sort keys never decrease along the list.
pub open spec fn key_sorted_asc(mode: crate::types::PageSortMode, s: Seq<CrawlRow>) -> bool {
    forall|k: int, l: int|
        0 <= k < l < s.len() ==> row_sort_key(mode, #[trigger] s[k]) <= row_sort_key(
            mode,
            #[trigger] s[l],
        )
}

/// Sort keys never increase along the list.
pub open spec fn key_sorted_desc(mode: crate::types::PageSortMode, s: Seq<CrawlRow>) -> bool {
    forall|k: int, l: int|
        0 <= k < l < s.len() ==> row_sort_key(mode, #[trigger] s[k]) >= row_sort_key(
            mode,
            #[trigger] s[l],
        )
}

/// The display order within one sort mode: by the sort key, URLs
/// breaking ties.
pub open spec fn row_order_le(mode: crate::types::PageSortMode, a: CrawlRow, b: CrawlRow) -> bool {
    row_sort_key(mode, a) < row_sort_key(mode, b) || (row_sort_key(mode, a) == row_sort_key(
        mode,
        b,
    ) && crate::strutil::lex_le(a.url@, b.url@))
}

proof fn lemma_row_order_total(mode: crate::types::PageSortMode, a: CrawlRow, b: CrawlRow)
    ensures
        row_order_le(mode, a, b) || row_order_le(mode, b, a),
{
    if row_sort_key(mode, a) == row_sort_key(mode, b) {
        crate::strutil::lemma_lex_total(a.url@, b.url@);
    }
}

proof fn lemma_row_order_trans(
    mode: crate::types::PageSortMode,
    a: CrawlRow,
    b: CrawlRow,
    c: CrawlRow,
)
    requires
        row_order_le(mode, a, b),
        row_order_le(mode, b, c),
    ensures
        row_order_le(mode, a, c),
{
    if row_sort_key(mode, a) == row_sort_key(mode, b) && row_sort_key(mode, b) == row_sort_key(
        mode,
        c,
    ) {
        crate::strutil::lemma_lex_trans(a.url@, b.url@, c.url@);
    }
}

proof fn lemma_row_order_refl(mode: crate::types::PageSortMode, a: CrawlRow)
    ensures
        row_order_le(mode, a, a),
{
    crate::strutil::lemma_lex_refl(a.url@);
}

/// Rows never decrease under the display order along the list.
pub open spec fn order_sorted_asc(mode: crate::types::PageSortMode, s: Seq<CrawlRow>) -> bool {
    forall|k: int, l: int|
        0 <= k < l < s.len() ==> row_order_le(mode, #[trigger] s[k], #[trigger] s[l])
}

/// Rows never increase under the display order along the list.
pub open spec fn order_sorted_desc(mode: crate::types::PageSortMode, s: Seq<CrawlRow>) -> bool {
    forall|k: int, l: int|
        0 <= k < l < s.len() ==> row_order_le(mode, #[trigger] s[l], #[trigger] s[k])
}

/// A witness that `r` is a permutation of the base list up to copies:
/// pairwise-distinct base positions, one per element, each agreeing.
pub open spec fn index_witness(r: Seq<CrawlRow>, base: Seq<CrawlRow>, idx: Seq<int>) -> bool {
    &&& idx.len() == r.len()
    &&& idx.no_duplicates()
    &&& forall|k: int|
        #![trigger idx[k]]
        0 <= k < r.len() ==> 0 <= idx[k] < base.len() && rows_agree(r[k], base[idx[k]])
}

/// Does a row pass the (already lower-cased, trimmed) filter query? An
/// empty query admits everything.
pub open spec fn keep_row(row: CrawlRow, f: Seq<char>) -> bool {
    f.len() == 0 || query_matches(row, f)
}

/// The rows that pass the filter, newest first.
pub open spec fn filtered_rev(rows: Seq<CrawlRow>, f: Seq<char>) -> Seq<CrawlRow>
    decreases rows.len(),
{
    if rows.len() == 0 {
        Seq::empty()
    } else {
        (if keep_row(rows.last(), f) {
            seq![rows.last()]
        } else {
            Seq::<CrawlRow>::empty()
        }) + filtered_rev(rows.drop_last(), f)
    }
}

/// The sort key of a row under one display mode; the newest-first mode
/// keys everything alike.
pub open spec fn row_sort_key(mode: crate::types::PageSortMode, row: CrawlRow) -> int {
    match mode {
        crate::types::PageSortMode::Latest => 0,
        crate::types::PageSortMode::Status => row.status as int,
        crate::types::PageSortMode::LowestSeoScore => row.seo_score as int,
        crate::types::PageSortMode::HighestResponseTime => row.response_time as int,
    }
}

fn exec_row_sort_key(mode: crate::types::PageSortMode, row: &CrawlRow) -> (r: u128)
    ensures
        r == row_sort_key(mode, *row),
{
    match mode {
        crate::types::PageSortMode::Latest => 0,
        crate::types::PageSortMode::Status => row.status as u128,
        crate::types::PageSortMode::LowestSeoScore => row.seo_score as u128,
        crate::types::PageSortMode::HighestResponseTime => row.response_time,
    }
}

impl AppState {
    /// The rows passing the filter, newest first, then ordered by the
    /// chosen sort mode and direction (URLs break ties). The result is a
    /// permutation of the filtered rows: every row maps to a distinct
    /// base position it agrees with.
    #[verifier::rlimit(100)]
    pub fn filtered_rows_sorted(
        &self,
        filter: &str,
        sort: crate::types::PageSortMode,
        direction: crate::types::SortDirection,
    ) -> (r: Vec<CrawlRow>)
        ensures
            r@.len() == display_base(self.all_rows@, filter@).len(),
            all_from(r@, display_base(self.all_rows@, filter@)),
            exists|idx: Seq<int>|
                #[trigger] index_witness(r@, display_base(self.all_rows@, filter@), idx),
            sort is Latest && direction is Desc ==> newest_first_order(
                r@,
                display_base(self.all_rows@, filter@),
            ),
            sort is Latest && direction is Asc ==> oldest_first_order(
                r@,
                display_base(self.all_rows@, filter@),
            ),
            !(sort is Latest) && direction is Asc ==> order_sorted_asc(sort, r@),
            !(sort is Latest) && direction is Desc ==> order_sorted_desc(sort, r@),
            !(sort is Latest) && direction is Asc ==> key_sorted_asc(sort, r@),
            !(sort is Latest) && direction is Desc ==> key_sorted_desc(sort, r@),
    {
        let fv = str_chars(filter);
        let ft = trim_vec(&fv);
        let fq = lower_vec(&ft);
        let ghost f = lower_seq(trim_seq(filter@));
        proof {
            assert(fq@ == f);
        }
        let fq_s = chars_string(&fq);
        let ghost base = filtered_rev(self.all_rows@, f);
        let mut picked: Vec<CrawlRow> = Vec::new();
        let mut i: usize = self.all_rows.len();
        proof {
            assert(self.all_rows@.subrange(0, i as int) =~= self.all_rows@);
        }
        while i > 0
            invariant
                i <= self.all_rows@.len(),
                f == lower_seq(trim_seq(filter@)),
                fq_s@ == f,
                fq@ == f,
                picked@.len() == filtered_rev(self.all_rows@, f).len() - filtered_rev(
                    self.all_rows@.subrange(0, i as int),
                    f,
                ).len(),
                forall|k: int|
                    0 <= k < picked@.len() ==> rows_agree(
                        #[trigger] picked@[k],
                        filtered_rev(self.all_rows@, f)[k],
                    ),
                filtered_rev(self.all_rows@.subrange(0, i as int), f).len() <= filtered_rev(
                    self.all_rows@,
                    f,
                ).len(),
                forall|k: int|
                    0 <= k < filtered_rev(self.all_rows@.subrange(0, i as int), f).len()
                        ==> #[trigger] filtered_rev(self.all_rows@.subrange(0, i as int), f)[k]
                        == filtered_rev(self.all_rows@, f)[picked@.len() + k],
            decreases i,
        {
            i = i - 1;
            let ghost cur = self.all_rows@.subrange(0, i + 1);
            let ghost nxt = self.all_rows@.subrange(0, i as int);
            proof {
                assert(cur.drop_last() =~= nxt);
                assert(cur.last() == self.all_rows@[i as int]);
            }
            let keep = fq.len() == 0 || row_matches_filter_query(&self.all_rows[i], fq_s.as_str());
            proof {
                assert(keep == keep_row(self.all_rows@[i as int], f));
                if keep_row(self.all_rows@[i as int], f) {
                    assert(filtered_rev(cur, f) =~= seq![self.all_rows@[i as int]] + filtered_rev(
                        nxt,
                        f,
                    ));
                } else {
                    assert(filtered_rev(cur, f) =~= filtered_rev(nxt, f));
                }
            }
            if keep {
                proof {
                    assert(forall|k: int|
                        0 <= k < filtered_rev(nxt, f).len() ==> #[trigger] filtered_rev(
                            nxt,
                            f,
                        )[k] == filtered_rev(cur, f)[k + 1]);
                    assert(filtered_rev(cur, f)[0] == self.all_rows@[i as int]);
                }
                let c = clone_row(&self.all_rows[i]);
                picked.push(c);
                proof {
                    assert(rows_agree(picked@.last(), self.all_rows@[i as int]));
                }
            }
        }
        proof {
            assert(self.all_rows@.subrange(0, 0) =~= Seq::<CrawlRow>::empty());
            assert(filtered_rev(Seq::<CrawlRow>::empty(), f).len() == 0);
            assert(picked@.len() == base.len());
            assert forall|k: int| #![trigger picked@[k]] 0 <= k < picked@.len() implies agrees_with_some(
                picked@[k],
                base,
            ) by {
                assert(rows_agree(picked@[k], base[k]));
            }
            assert(all_from(picked@, base));
            assert(base == display_base(self.all_rows@, filter@));
        }
        let ghost identity = Seq::<int>::new(base.len(), |t: int| t);
        proof {
            assert(identity.no_duplicates());
            assert(index_witness(picked@, base, identity));
        }
        let is_latest = match sort {
            crate::types::PageSortMode::Latest => true,
            _ => false,
        };
        let asc = match direction {
            crate::types::SortDirection::Asc => true,
            crate::types::SortDirection::Desc => false,
        };
        if is_latest {
            if !asc {
                proof {
                    assert(newest_first_order(picked@, base));
                }
                return picked;
            }
            let mut rev: Vec<CrawlRow> = Vec::new();
            let mut k: usize = picked.len();
            while k > 0
                invariant
                    k <= picked@.len(),
                    rev@.len() == picked@.len() - k,
                    base == display_base(self.all_rows@, filter@),
                    forall|t: int|
                        0 <= t < rev@.len() ==> rows_agree(
                            #[trigger] rev@[t],
                            picked@[picked@.len() - 1 - t],
                        ),
                    picked@.len() == base.len(),
                    forall|t: int|
                        0 <= t < picked@.len() ==> rows_agree(#[trigger] picked@[t], base[t]),
                decreases k,
            {
                k = k - 1;
                let c = clone_row(&picked[k]);
                rev.push(c);
            }
            proof {
                assert forall|t: int| 0 <= t < rev@.len() implies rows_agree(
                    #[trigger] rev@[t],
                    base[base.len() - 1 - t],
                ) by {
                    lemma_rows_agree_trans(
                        rev@[t],
                        picked@[picked@.len() - 1 - t],
                        base[base.len() - 1 - t],
                    );
                }
                assert(oldest_first_order(rev@, base));
                assert forall|t: int| #![trigger rev@[t]] 0 <= t < rev@.len() implies agrees_with_some(
                    rev@[t],
                    base,
                ) by {
                    assert(rows_agree(rev@[t], base[base.len() - 1 - t]));
                }
                assert(all_from(rev@, base));
                let ridx = Seq::<int>::new(base.len(), |t: int| base.len() - 1 - t);
                assert(ridx.no_duplicates());
                assert(index_witness(rev@, base, ridx));
            }
            return rev;
        }
        let mut rest = picked;
        let ghost mut rest_idx = identity;
        let mut out: Vec<CrawlRow> = Vec::new();
        let ghost mut out_idx = Seq::<int>::empty();
        proof {
            assert(out_idx.no_duplicates());
            assert(index_witness(out@, base, out_idx));
        }
        while rest.len() > 0
            invariant
                out@.len() + rest@.len() == base.len(),
                base == display_base(self.all_rows@, filter@),
                index_witness(out@, base, out_idx),
                index_witness(rest@, base, rest_idx),
                forall|a: int, b: int|
                    0 <= a < out_idx.len() && 0 <= b < rest_idx.len() ==> #[trigger] out_idx[a]
                        != #[trigger] rest_idx[b],
                forall|k: int, l: int|
                    0 <= k < l < out@.len() ==> row_order_le(
                        sort,
                        #[trigger] out@[k],
                        #[trigger] out@[l],
                    ),
                forall|k: int, l: int|
                    0 <= k < out@.len() && 0 <= l < rest@.len() ==> row_order_le(
                        sort,
                        #[trigger] out@[k],
                        #[trigger] rest@[l],
                    ),
            decreases rest@.len(),
        {
            let mut m: usize = 0;
            proof {
                lemma_row_order_refl(sort, rest@[0]);
            }
            let mut t: usize = 1;
            while t < rest.len()
                invariant
                    m < rest@.len(),
                    t <= rest@.len(),
                    forall|k: int|
                        0 <= k < t ==> row_order_le(sort, rest@[m as int], #[trigger] rest@[k]),
                decreases rest@.len() - t,
            {
                let km = exec_row_sort_key(sort, &rest[m]);
                let kt = exec_row_sort_key(sort, &rest[t]);
                let m_le_t = km < kt || (km == kt && {
                    let mu = str_chars(rest[m].url.as_str());
                    let tu = str_chars(rest[t].url.as_str());
                    crate::strutil::vec_lex_le(&mu, &tu)
                });
                proof {
                    assert(m_le_t == row_order_le(sort, rest@[m as int], rest@[t as int]));
                }
                if !m_le_t {
                    proof {
                        lemma_row_order_total(sort, rest@[m as int], rest@[t as int]);
                        assert(row_order_le(sort, rest@[t as int], rest@[m as int]));
                        assert forall|k: int| 0 <= k < t implies row_order_le(
                            sort,
                            rest@[t as int],
                            #[trigger] rest@[k],
                        ) by {
                            lemma_row_order_trans(
                                sort,
                                rest@[t as int],
                                rest@[m as int],
                                rest@[k],
                            );
                        }
                        lemma_row_order_refl(sort, rest@[t as int]);
                    }
                    m = t;
                }
                t = t + 1;
            }
            let ghost old_rest = rest@;
            let ghost old_out = out@;
            let ghost old_rest_idx = rest_idx;
            let ghost old_out_idx = out_idx;
            let x = rest.remove(m);
            out.push(x);
            proof {
                rest_idx = old_rest_idx.remove(m as int);
                out_idx = old_out_idx.push(old_rest_idx[m as int]);
                assert(rest@ == old_rest.remove(m as int));
                assert(forall|l: int|
                    0 <= l < rest@.len() ==> #[trigger] rest@[l] == (if l < m {
                        old_rest[l]
                    } else {
                        old_rest[l + 1]
                    }));
                assert(forall|l: int|
                    0 <= l < rest_idx.len() ==> #[trigger] rest_idx[l] == (if l < m {
                        old_rest_idx[l]
                    } else {
                        old_rest_idx[l + 1]
                    }));
                assert(old_rest[m as int] == x);
                assert(rows_agree(x, base[old_rest_idx[m as int]]));
                assert(index_witness(out@, base, out_idx)) by {
                    assert forall|k: int, l: int|
                        0 <= k < out_idx.len() && 0 <= l < out_idx.len() && k != l implies
                        #[trigger] out_idx[k] != #[trigger] out_idx[l] by {
                        if k < out_idx.len() - 1 && l < out_idx.len() - 1 {
                            assert(out_idx[k] == old_out_idx[k]);
                            assert(out_idx[l] == old_out_idx[l]);
                        }
                    }
                }
                assert(index_witness(rest@, base, rest_idx)) by {
                    assert forall|k: int, l: int|
                        0 <= k < rest_idx.len() && 0 <= l < rest_idx.len() && k != l implies
                        #[trigger] rest_idx[k] != #[trigger] rest_idx[l] by {
                        let ks = if k < m {
                            k
                        } else {
                            k + 1
                        };
                        let ls = if l < m {
                            l
                        } else {
                            l + 1
                        };
                        assert(rest_idx[k] == old_rest_idx[ks]);
                        assert(rest_idx[l] == old_rest_idx[ls]);
                    }
                }
                assert forall|a: int, b: int|
                    0 <= a < out_idx.len() && 0 <= b < rest_idx.len() implies #[trigger] out_idx[a]
                    != #[trigger] rest_idx[b] by {
                    let bs = if b < m {
                        b
                    } else {
                        b + 1
                    };
                    assert(rest_idx[b] == old_rest_idx[bs]);
                    if a < out_idx.len() - 1 {
                        assert(out_idx[a] == old_out_idx[a]);
                    } else {
                        assert(out_idx[a] == old_rest_idx[m as int]);
                        assert(bs != m);
                    }
                }
            }
        }
        proof {
            assert forall|k: int| #![trigger out@[k]] 0 <= k < out@.len() implies agrees_with_some(
                out@[k],
                base,
            ) by {
                assert(rows_agree(out@[k], base[out_idx[k]]));
            }
            assert(all_from(out@, base));
            assert(order_sorted_asc(sort, out@));
            assert forall|k: int, l: int|
                0 <= k < l < out@.len() implies row_sort_key(sort, #[trigger] out@[k])
                <= row_sort_key(sort, #[trigger] out@[l]) by {
                assert(row_order_le(sort, out@[k], out@[l]));
            }
            assert(key_sorted_asc(sort, out@));
        }
        if asc {
            return out;
        }
        let ghost sorted_idx = out_idx;
        let mut rev: Vec<CrawlRow> = Vec::new();
        let mut k: usize = out.len();
        while k > 0
            invariant
                k <= out@.len(),
                rev@.len() == out@.len() - k,
                out@.len() == base.len(),
                base == display_base(self.all_rows@, filter@),
                forall|t: int|
                    0 <= t < rev@.len() ==> rows_agree(
                        #[trigger] rev@[t],
                        out@[out@.len() - 1 - t],
                    ),
                index_witness(out@, base, sorted_idx),
                order_sorted_asc(sort, out@),
            decreases k,
        {
            k = k - 1;
            let c = clone_row(&out[k]);
            rev.push(c);
        }
        proof {
            assert forall|t: int| #![trigger rev@[t]] 0 <= t < rev@.len() implies agrees_with_some(
                rev@[t],
                base,
            ) by {
                let src = out@[out@.len() - 1 - t];
                assert(rows_agree(rev@[t], src));
                assert(rows_agree(src, base[sorted_idx[out@.len() - 1 - t]]));
                lemma_rows_agree_trans(rev@[t], src, base[sorted_idx[out@.len() - 1 - t]]);
                assert(rows_agree(rev@[t], base[sorted_idx[out@.len() - 1 - t]]));
            }
            assert(all_from(rev@, base));
            let ridx = Seq::<int>::new(rev@.len() as nat, |t: int| sorted_idx[out@.len() - 1 - t]);
            assert(index_witness(rev@, base, ridx)) by {
                assert forall|a: int, b: int|
                    0 <= a < ridx.len() && 0 <= b < ridx.len() && a != b implies #[trigger] ridx[a]
                    != #[trigger] ridx[b] by {
                    assert(ridx[a] == sorted_idx[out@.len() - 1 - a]);
                    assert(ridx[b] == sorted_idx[out@.len() - 1 - b]);
                }
                assert forall|t: int| #![trigger ridx[t]] 0 <= t < rev@.len() implies 0 <= ridx[t]
                    < base.len() && rows_agree(rev@[t], base[ridx[t]]) by {
                    let src = out@[out@.len() - 1 - t];
                    assert(rows_agree(rev@[t], src));
                    assert(rows_agree(src, base[sorted_idx[out@.len() - 1 - t]]));
                    lemma_rows_agree_trans(rev@[t], src, base[sorted_idx[out@.len() - 1 - t]]);
                }
            }
            assert forall|a: int, b: int|
                0 <= a < b < rev@.len() implies row_order_le(
                sort,
                #[trigger] rev@[b],
                #[trigger] rev@[a],
            ) by {
                assert(rows_agree(rev@[a], out@[out@.len() - 1 - a]));
                assert(rows_agree(rev@[b], out@[out@.len() - 1 - b]));
                assert(row_order_le(
                    sort,
                    out@[out@.len() - 1 - b],
                    out@[out@.len() - 1 - a],
                ));
                lemma_rows_agree_order(
                    sort,
                    rev@[b],
                    out@[out@.len() - 1 - b],
                    rev@[a],
                    out@[out@.len() - 1 - a],
                );
            }
            assert(order_sorted_desc(sort, rev@));
            assert forall|a: int, b: int|
                0 <= a < b < rev@.len() implies row_sort_key(sort, #[trigger] rev@[a])
                >= row_sort_key(sort, #[trigger] rev@[b]) by {
                assert(row_order_le(sort, rev@[b], rev@[a]));
            }
            assert(key_sorted_desc(sort, rev@));
        }
        rev
    }
}

/// Agreement preserves the display order.
proof fn lemma_rows_agree_order(
    mode: crate::types::PageSortMode,
    a: CrawlRow,
    a2: CrawlRow,
    b: CrawlRow,
    b2: CrawlRow,
)
    requires
        rows_agree(a, a2),
        rows_agree(b, b2),
        row_order_le(mode, a2, b2),
    ensures
        row_order_le(mode, a, b),
{
}

/// Row agreement carries across copies.
proof fn lemma_rows_agree_trans(a: CrawlRow, b: CrawlRow, c: CrawlRow)
    requires
        rows_agree(a, b),
        rows_agree(b, c),
    ensures
        rows_agree(a, c),
{
}

} // verus!

verus! {

impl AppState {
    /// Apply one crawl event. Page and unretrieved events yield the row
    /// and links to append to the dataset; every other event only
    /// updates the state.
    pub fn apply_event(&mut self, event: crate::types::CrawlEvent) -> (r: Option<
        (CrawlRow, Vec<String>),
    >)
        requires
            old(self).wf(),
        ensures
            final(self).wf(),
            match event {
                crate::types::CrawlEvent::Page { row, .. } => r matches Some(p) && rows_agree(
                    p.0,
                    row,
                ),
                crate::types::CrawlEvent::Unretrieved { url, reason } => r matches Some(p)
                    && p.0.status == 0 && p.0.url@ == url@ && p.0.meta@ == reason@
                    && p.0.retrieval_status@ == "not_retrieved"@,
                crate::types::CrawlEvent::Stats { discovered } => r is None
                    && final(self).discovered_targets == (if old(self).discovered_targets
                    >= discovered {
                    old(self).discovered_targets as int
                } else {
                    discovered as int
                }),
                crate::types::CrawlEvent::Finished => r is None && final(self).done,
                crate::types::CrawlEvent::Status(..) => r is None,
                crate::types::CrawlEvent::Error(..) => r is None,
            },
    {
        match event {
            crate::types::CrawlEvent::Page { row, discovered_links } => {
                let row_copy = clone_row(&row);
                let mut links_copy: Vec<String> = Vec::new();
                let mut i: usize = 0;
                while i < discovered_links.len()
                    invariant
                        i <= discovered_links@.len(),
                        links_copy@.len() == i,
                    decreases discovered_links@.len() - i,
                {
                    let l = discovered_links[i].clone();
                    links_copy.push(l);
                    i = i + 1;
                }
                self.push_row(row, discovered_links);
                Some((row_copy, links_copy))
            },
            crate::types::CrawlEvent::Unretrieved { url, reason } => {
                let row = crate::page::unretrieved_row(url, reason);
                let row_copy = clone_row(&row);
                self.push_row(row, Vec::new());
                Some((row_copy, Vec::new()))
            },
            crate::types::CrawlEvent::Stats { discovered } => {
                if discovered > self.discovered_targets {
                    self.discovered_targets = discovered;
                }
                None
            },
            crate::types::CrawlEvent::Finished => {
                self.done = true;
                None
            },
            crate::types::CrawlEvent::Status(message) => {
                self.push_status(message);
                None
            },
            crate::types::CrawlEvent::Error(err) => {
                self.push_error(err);
                None
            },
        }
    }
}

} // verus!

verus! {

/// Is there an entry for this code in the table?
pub open spec fn has_code_entry(table: Seq<(u16, usize)>, code: u16) -> bool {
    exists|k: int| 0 <= k < table.len() && (#[trigger] table[k]).0 == code
}

/// Appending an entry keeps every existing code present.
proof fn lemma_has_code_push(table: Seq<(u16, usize)>, e: (u16, usize), code: u16)
    requires
        has_code_entry(table, code),
    ensures
        has_code_entry(table.push(e), code),
{
    let k = choose|k: int| 0 <= k < table.len() && (#[trigger] table[k]).0 == code;
    assert(table.push(e)[k].0 == code);
}

/// A row's own status is always counted.
proof fn lemma_status_counted(rows: Seq<CrawlRow>, i: int)
    requires
        0 <= i < rows.len(),
    ensures
        count_status_class(rows, rows[i].status, rows[i].status) >= 1,
    decreases rows.len(),
{
    if i == rows.len() - 1 {
        lemma_status_class_nonneg(rows.drop_last(), rows[i].status, rows[i].status);
    } else {
        assert(rows.drop_last()[i] == rows[i]);
        lemma_status_counted(rows.drop_last(), i);
    }
}

proof fn lemma_status_class_nonneg(rows: Seq<CrawlRow>, lo: u16, hi: u16)
    ensures
        count_status_class(rows, lo, hi) >= 0,
    decreases rows.len(),
{
    if rows.len() > 0 {
        lemma_status_class_nonneg(rows.drop_last(), lo, hi);
    }
}

impl AppState {
    /// The status-code table of the records: one entry per code that
    /// occurs, carrying how many records have it.
    pub fn status_code_counts(&self) -> (r: Vec<(u16, usize)>)
        ensures
            forall|k: int|
                0 <= k < r@.len() ==> (#[trigger] r@[k]).1 == count_status_class(
                    self.all_rows@,
                    r@[k].0,
                    r@[k].0,
                ) && r@[k].1 > 0,
            forall|k: int, l: int| 0 <= k < l < r@.len() ==> (#[trigger] r@[k]).0 != (
            #[trigger] r@[l]).0,
            forall|i: int|
                0 <= i < self.all_rows@.len() ==> has_code_entry(
                    r@,
                    (#[trigger] self.all_rows@[i]).status,
                ),
    {
        let mut out: Vec<(u16, usize)> = Vec::new();
        let mut i: usize = 0;
        while i < self.all_rows.len()
            invariant
                i <= self.all_rows@.len(),
                forall|k: int|
                    0 <= k < out@.len() ==> (#[trigger] out@[k]).1 == count_status_class(
                        self.all_rows@,
                        out@[k].0,
                        out@[k].0,
                    ) && out@[k].1 > 0,
                forall|k: int, l: int|
                    0 <= k < l < out@.len() ==> (#[trigger] out@[k]).0 != (#[trigger] out@[l]).0,
                forall|t: int|
                    0 <= t < i ==> has_code_entry(out@, (#[trigger] self.all_rows@[t]).status),
            decreases self.all_rows@.len() - i,
        {
            let code = self.all_rows[i].status;
            let mut present = false;
            let mut k: usize = 0;
            while k < out.len()
                invariant
                    k <= out@.len(),
                    present == exists|t: int| 0 <= t < k && (#[trigger] out@[t]).0 == code,
                decreases out@.len() - k,
            {
                if out[k].0 == code {
                    present = true;
                    k = out.len();
                } else {
                    k = k + 1;
                }
            }
            let ghost pre_out = out@;
            if !present {
                let n = self.count_status_between(code, code);
                proof {
                    lemma_status_counted(self.all_rows@, i as int);
                }
                out.push((code, n));
            }
            proof {
                assert forall|t: int| 0 <= t < i + 1 implies has_code_entry(
                    out@,
                    (#[trigger] self.all_rows@[t]).status,
                ) by {
                    if t < i {
                        if !present {
                            lemma_has_code_push(
                                pre_out,
                                out@[out@.len() - 1],
                                self.all_rows@[t].status,
                            );
                        }
                    } else {
                        if present {
                            let k2 = choose|k2: int|
                                0 <= k2 < pre_out.len() && (#[trigger] pre_out[k2]).0 == code;
                            assert(out@[k2].0 == code);
                        } else {
                            assert(out@[out@.len() - 1].0 == code);
                        }
                    }
                }
            }
            i = i + 1;
        }
        out
    }
}

} // verus!
