//! Small dashboard helpers: hit testing on screen rectangles and the
//! status-code tables.

use vstd::prelude::*;

use crate::state::{sort_status_entries, status_entry_le};

verus! {

/// A screen rectangle, as the terminal lays it out.
#[derive(Debug, Clone, Copy, PartialEq, Eq, Structural)]
pub struct ScreenRect {
    pub x: u16,
    pub y: u16,
    pub width: u16,
    pub height: u16,
}

/// Is the point inside the rectangle? The right and bottom edges are
/// exclusive and clipped at the coordinate range's end.
pub fn point_in_rect(x: u16, y: u16, rect: ScreenRect) -> (r: bool)
    ensures
        r == ({
            let right = if rect.x + rect.width > u16::MAX {
                u16::MAX as int
            } else {
                rect.x + rect.width
            };
            let bottom = if rect.y + rect.height > u16::MAX {
                u16::MAX as int
            } else {
                rect.y + rect.height
            };
            rect.x <= x && x < right && rect.y <= y && y < bottom
        }),
{
    let right = if rect.width > u16::MAX - rect.x {
        u16::MAX
    } else {
        rect.x + rect.width
    };
    let bottom = if rect.height > u16::MAX - rect.y {
        u16::MAX
    } else {
        rect.y + rect.height
    };
    x >= rect.x && x < right && y >= rect.y && y < bottom
}

/// The table row under the mouse, if the click lands in the data area: a
/// table shows a border and a header, so data starts two rows below the
/// top and ends one row above the bottom.
pub fn table_row_index_at(area: ScreenRect, mouse_row: u16) -> (r: Option<usize>)
    requires
        area.y + area.height <= u16::MAX,
    ensures
        area.height <= 3 ==> r is None,
        area.height > 3 ==> ({
            let first = if area.y + 2 > u16::MAX {
                u16::MAX as int
            } else {
                area.y + 2
            };
            let last = area.y + area.height - 1;
            if first <= mouse_row < last {
                r == Some((mouse_row - first) as usize)
            } else {
                r is None
            }
        }),
{
    if area.height <= 3 {
        return None;
    }
    let first_data_row = if 2 > u16::MAX - area.y {
        u16::MAX
    } else {
        area.y + 2
    };
    let last_data_row = area.y + area.height - 1;
    if mouse_row >= first_data_row && mouse_row < last_data_row {
        Some((mouse_row - first_data_row) as usize)
    } else {
        None
    }
}

/// The per-class totals of a status-count table.
pub struct StatusBuckets {
    pub c2: usize,
    pub c3: usize,
    pub c4: usize,
    pub c5: usize,
    pub c0: usize,
}

/// The total of the counts whose code lies in a class.
pub open spec fn class_total(counts: Seq<(u16, usize)>, lo: u16, hi: u16) -> int
    decreases counts.len(),
{
    if counts.len() == 0 {
        0
    } else {
        class_total(counts.drop_last(), lo, hi) + (if lo <= counts.last().0 <= hi {
            counts.last().1 as int
        } else {
            0int
        })
    }
}

/// The total of every count in the table.
pub open spec fn table_total(counts: Seq<(u16, usize)>) -> int
    decreases counts.len(),
{
    if counts.len() == 0 {
        0
    } else {
        table_total(counts.drop_last()) + counts.last().1
    }
}

proof fn lemma_class_le_total(counts: Seq<(u16, usize)>, lo: u16, hi: u16)
    ensures
        0 <= class_total(counts, lo, hi) <= table_total(counts),
    decreases counts.len(),
{
    if counts.len() > 0 {
        lemma_class_le_total(counts.drop_last(), lo, hi);
    }
}

/// Fold a status-count table into the five class buckets.
pub fn status_buckets(counts: &Vec<(u16, usize)>) -> (r: StatusBuckets)
    requires
        table_total(counts@) <= usize::MAX,
    ensures
        r.c0 == class_total(counts@, 0, 0),
        r.c2 == class_total(counts@, 200, 299),
        r.c3 == class_total(counts@, 300, 399),
        r.c4 == class_total(counts@, 400, 499),
        r.c5 == class_total(counts@, 500, 599),
{
    let mut c0: usize = 0;
    let mut c2: usize = 0;
    let mut c3: usize = 0;
    let mut c4: usize = 0;
    let mut c5: usize = 0;
    let mut i: usize = 0;
    proof {
        assert(counts@.subrange(0, 0) =~= Seq::<(u16, usize)>::empty());
    }
    while i < counts.len()
        invariant
            i <= counts@.len(),
            table_total(counts@) <= usize::MAX,
            c0 == class_total(counts@.subrange(0, i as int), 0, 0),
            c2 == class_total(counts@.subrange(0, i as int), 200, 299),
            c3 == class_total(counts@.subrange(0, i as int), 300, 399),
            c4 == class_total(counts@.subrange(0, i as int), 400, 499),
            c5 == class_total(counts@.subrange(0, i as int), 500, 599),
        decreases counts@.len() - i,
    {
        let ghost p = counts@.subrange(0, i as int);
        let ghost q = counts@.subrange(0, i + 1);
        proof {
            assert(q.drop_last() =~= p);
            assert(q.last() == counts@[i as int]);
            lemma_prefix_total(counts@, i + 1);
            lemma_class_le_total(q, 0, 0);
            lemma_class_le_total(q, 200, 299);
            lemma_class_le_total(q, 300, 399);
            lemma_class_le_total(q, 400, 499);
            lemma_class_le_total(q, 500, 599);
            lemma_class_le_total(p, 0, 0);
            lemma_class_le_total(p, 200, 299);
            lemma_class_le_total(p, 300, 399);
            lemma_class_le_total(p, 400, 499);
            lemma_class_le_total(p, 500, 599);
        }
        let code = counts[i].0;
        let n = counts[i].1;
        if code == 0 {
            c0 = c0 + n;
        } else if 200 <= code && code <= 299 {
            c2 = c2 + n;
        } else if 300 <= code && code <= 399 {
            c3 = c3 + n;
        } else if 400 <= code && code <= 499 {
            c4 = c4 + n;
        } else if 500 <= code && code <= 599 {
            c5 = c5 + n;
        }
        i = i + 1;
    }
    proof {
        assert(counts@.subrange(0, counts@.len() as int) =~= counts@);
    }
    StatusBuckets { c2, c3, c4, c5, c0 }
}

/// A prefix's total never exceeds the whole table's total.
proof fn lemma_prefix_total(counts: Seq<(u16, usize)>, upto: int)
    requires
        0 <= upto <= counts.len(),
    ensures
        0 <= table_total(counts.subrange(0, upto)) <= table_total(counts),
    decreases counts.len() - upto,
{
    if upto == counts.len() {
        assert(counts.subrange(0, upto) =~= counts);
        lemma_total_nonneg(counts);
    } else {
        lemma_prefix_total(counts, upto + 1);
        assert(counts.subrange(0, upto + 1).drop_last() =~= counts.subrange(0, upto));
        assert(counts.subrange(0, upto + 1).last() == counts[upto]);
        lemma_total_nonneg(counts.subrange(0, upto));
    }
}

proof fn lemma_total_nonneg(counts: Seq<(u16, usize)>)
    ensures
        table_total(counts) >= 0,
    decreases counts.len(),
{
    if counts.len() > 0 {
        lemma_total_nonneg(counts.drop_last());
    }
}

/// No two entries of a status table share a code.
pub open spec fn status_keys_distinct(s: Seq<(u16, usize)>) -> bool {
    forall|k: int, l: int| 0 <= k < l < s.len() ==> (#[trigger] s[k]).0 != (#[trigger] s[l]).0
}

/// The most frequent status codes, largest counts first (smaller codes
/// break ties), at most `limit` entries but at least one slot. Every
/// entry is one of the table's, codes stay distinct, and every omitted
/// entry sorts after every kept one.
pub fn top_status_codes(counts: &Vec<(u16, usize)>, limit: usize) -> (r: Vec<(u16, usize)>)
    ensures
        forall|k: int, l: int|
            0 <= k < l < r@.len() ==> status_entry_le(#[trigger] r@[k], #[trigger] r@[l]),
        forall|k: int| 0 <= k < r@.len() ==> counts@.contains(#[trigger] r@[k]),
        r@.len() == (if counts@.len() <= (if limit >= 1 {
            limit as int
        } else {
            1
        }) {
            counts@.len() as int
        } else {
            (if limit >= 1 {
                limit as int
            } else {
                1
            })
        }),
        status_keys_distinct(counts@) ==> status_keys_distinct(r@),
        forall|p: (u16, usize)|
            counts@.contains(p) && !r@.contains(p) ==> r@.len() == (if limit >= 1 {
                limit as int
            } else {
                1
            }) && status_entry_le(r@[r@.len() - 1], p),
{
    broadcast use vstd::seq_lib::group_to_multiset_ensures;

    let cap = if limit >= 1 {
        limit
    } else {
        1
    };
    let mut input: Vec<(u16, usize)> = Vec::new();
    let mut i: usize = 0;
    while i < counts.len()
        invariant
            i <= counts@.len(),
            input@ == counts@.subrange(0, i as int),
        decreases counts@.len() - i,
    {
        input.push((counts[i].0, counts[i].1));
        i = i + 1;
        proof {
            assert(input@ =~= counts@.subrange(0, i as int));
        }
    }
    proof {
        assert(counts@.subrange(0, counts@.len() as int) =~= counts@);
    }
    let ghost input_views = input@;
    let sorted = sort_status_entries(input);
    proof {
        assert forall|k: int| 0 <= k < sorted@.len() implies counts@.contains(
            #[trigger] sorted@[k],
        ) by {
            assert(sorted@.to_multiset().count(sorted@[k]) > 0);
            assert(counts@.to_multiset().count(sorted@[k]) > 0);
        }
        assert(sorted@.to_multiset().len() == counts@.to_multiset().len());
        if status_keys_distinct(counts@) {
            assert(counts@.no_duplicates()) by {
                assert forall|k: int, l: int|
                    0 <= k < counts@.len() && 0 <= l < counts@.len() && k != l implies counts@[k]
                    != counts@[l] by {
                    if k < l {
                        assert(counts@[k].0 != counts@[l].0);
                    } else {
                        assert(counts@[l].0 != counts@[k].0);
                    }
                }
            }
        }
    }
    let mut out: Vec<(u16, usize)> = Vec::new();
    let mut k: usize = 0;
    while k < sorted.len() && k < cap
        invariant
            k <= sorted@.len(),
            k <= cap,
            out@ == sorted@.subrange(0, k as int),
            sorted@.len() == counts@.len(),
            forall|a: int| 0 <= a < sorted@.len() ==> counts@.contains(#[trigger] sorted@[a]),
            forall|a: int, b: int|
                0 <= a < b < sorted@.len() ==> status_entry_le(
                    #[trigger] sorted@[a],
                    #[trigger] sorted@[b],
                ),
            counts@.no_duplicates() ==> sorted@.no_duplicates(),
        decreases sorted@.len() - k,
    {
        out.push(sorted[k]);
        k = k + 1;
        proof {
            assert(out@ =~= sorted@.subrange(0, k as int));
        }
    }
    proof {
        assert(out@.len() == k);
        assert(k == sorted@.len() || k == cap);
        if status_keys_distinct(counts@) {
            assert forall|a: int, b: int|
                0 <= a < b < out@.len() implies (#[trigger] out@[a]).0 != (
            #[trigger] out@[b]).0 by {
                assert(out@[a] == sorted@[a]);
                assert(out@[b] == sorted@[b]);
                if sorted@[a].0 == sorted@[b].0 {
                    if sorted@[a].1 == sorted@[b].1 {
                        assert(sorted@[a] == sorted@[b]);
                        assert(!sorted@.no_duplicates());
                    } else {
                        let pa = sorted@[a];
                        let pb = sorted@[b];
                        assert(counts@.contains(pa));
                        assert(counts@.contains(pb));
                        let ia = choose|t: int|
                            0 <= t < counts@.len() && #[trigger] counts@[t] == pa;
                        let ib = choose|t: int|
                            0 <= t < counts@.len() && #[trigger] counts@[t] == pb;
                        assert(ia != ib);
                        if ia < ib {
                            assert(counts@[ia].0 != counts@[ib].0);
                        } else {
                            assert(counts@[ib].0 != counts@[ia].0);
                        }
                    }
                }
            }
        }
        assert forall|p: (u16, usize)| counts@.contains(p) && !out@.contains(
            p,
        ) implies out@.len() == (if limit >= 1 {
            limit as int
        } else {
            1
        }) && status_entry_le(out@[out@.len() - 1], p) by {
            assert(counts@.to_multiset().count(p) > 0);
            assert(sorted@.to_multiset().count(p) > 0);
            assert(sorted@.contains(p));
            let j = choose|j: int| 0 <= j < sorted@.len() && #[trigger] sorted@[j] == p;
            if j < out@.len() {
                assert(out@[j] == p);
                assert(out@.contains(p));
            }
            assert(j >= out@.len());
            assert(out@.len() < sorted@.len());
            assert(out@.len() == cap);
            assert(out@[out@.len() - 1] == sorted@[out@.len() - 1]);
            assert(status_entry_le(sorted@[out@.len() - 1], sorted@[j]));
        }
    }
    out
}

} // verus!
