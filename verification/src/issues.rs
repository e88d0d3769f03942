//! The closed vocabulary of SEO issues, their labels and penalties, and the
//! score computed from them.

use vstd::prelude::*;

use crate::strutil::{str_chars, trim_seq, trim_vec, vec_eq_str};

verus! {

#[derive(Debug, Clone, Copy, PartialEq, Eq, Structural, Hash)]
pub enum SeoIssue {
    NotRetrieved,
    Http4xx,
    Http5xx,
    Noindex,
    MissingTitle,
    TitleTooShort,
    TitleTooLong,
    MissingMetaDescription,
    MetaDescriptionTooShort,
    MetaDescriptionTooLong,
    MissingH1,
    MultipleH1,
    MissingCanonical,
    LowWordCount,
    ImagesMissingAlt,
    TooManyExternalLinks,
}

/// The label under which an issue appears in exported data.
pub open spec fn label_of(issue: SeoIssue) -> Seq<char> {
    match issue {
        SeoIssue::NotRetrieved => "not_retrieved"@,
        SeoIssue::Http4xx => "status_4xx"@,
        SeoIssue::Http5xx => "status_5xx"@,
        SeoIssue::Noindex => "noindex"@,
        SeoIssue::MissingTitle => "missing_title"@,
        SeoIssue::TitleTooShort => "title_too_short"@,
        SeoIssue::TitleTooLong => "title_too_long"@,
        SeoIssue::MissingMetaDescription => "missing_meta_description"@,
        SeoIssue::MetaDescriptionTooShort => "meta_description_too_short"@,
        SeoIssue::MetaDescriptionTooLong => "meta_description_too_long"@,
        SeoIssue::MissingH1 => "missing_h1"@,
        SeoIssue::MultipleH1 => "multiple_h1"@,
        SeoIssue::MissingCanonical => "missing_canonical"@,
        SeoIssue::LowWordCount => "low_word_count"@,
        SeoIssue::ImagesMissingAlt => "images_missing_alt"@,
        SeoIssue::TooManyExternalLinks => "too_many_external_links"@,
    }
}

/// The score penalty an issue carries.
pub open spec fn penalty_of(issue: SeoIssue) -> int {
    match issue {
        SeoIssue::NotRetrieved => 70,
        SeoIssue::Http5xx => 65,
        SeoIssue::Http4xx => 40,
        SeoIssue::Noindex => 20,
        SeoIssue::MissingTitle => 25,
        SeoIssue::TitleTooShort => 10,
        SeoIssue::TitleTooLong => 8,
        SeoIssue::MissingMetaDescription => 20,
        SeoIssue::MetaDescriptionTooShort => 8,
        SeoIssue::MetaDescriptionTooLong => 8,
        SeoIssue::MissingH1 => 14,
        SeoIssue::MultipleH1 => 8,
        SeoIssue::MissingCanonical => 10,
        SeoIssue::LowWordCount => 10,
        SeoIssue::ImagesMissingAlt => 8,
        SeoIssue::TooManyExternalLinks => 6,
    }
}

/// The issue denoted by a trimmed label, if any.
pub open spec fn issue_of_label(s: Seq<char>) -> Option<SeoIssue> {
    let t = trim_seq(s);
    if t == "not_retrieved"@ {
        Some(SeoIssue::NotRetrieved)
    } else if t == "status_4xx"@ {
        Some(SeoIssue::Http4xx)
    } else if t == "status_5xx"@ {
        Some(SeoIssue::Http5xx)
    } else if t == "noindex"@ {
        Some(SeoIssue::Noindex)
    } else if t == "missing_title"@ {
        Some(SeoIssue::MissingTitle)
    } else if t == "title_too_short"@ {
        Some(SeoIssue::TitleTooShort)
    } else if t == "title_too_long"@ {
        Some(SeoIssue::TitleTooLong)
    } else if t == "missing_meta_description"@ {
        Some(SeoIssue::MissingMetaDescription)
    } else if t == "meta_description_too_short"@ {
        Some(SeoIssue::MetaDescriptionTooShort)
    } else if t == "meta_description_too_long"@ {
        Some(SeoIssue::MetaDescriptionTooLong)
    } else if t == "missing_h1"@ {
        Some(SeoIssue::MissingH1)
    } else if t == "multiple_h1"@ {
        Some(SeoIssue::MultipleH1)
    } else if t == "missing_canonical"@ {
        Some(SeoIssue::MissingCanonical)
    } else if t == "low_word_count"@ {
        Some(SeoIssue::LowWordCount)
    } else if t == "images_missing_alt"@ {
        Some(SeoIssue::ImagesMissingAlt)
    } else if t == "too_many_external_links"@ {
        Some(SeoIssue::TooManyExternalLinks)
    } else {
        None
    }
}

impl SeoIssue {
    /// The exported label of this issue.
    pub fn label(self) -> (r: &'static str)
        ensures
            r@ == label_of(self),
    {
        match self {
            SeoIssue::NotRetrieved => "not_retrieved",
            SeoIssue::Http4xx => "status_4xx",
            SeoIssue::Http5xx => "status_5xx",
            SeoIssue::Noindex => "noindex",
            SeoIssue::MissingTitle => "missing_title",
            SeoIssue::TitleTooShort => "title_too_short",
            SeoIssue::TitleTooLong => "title_too_long",
            SeoIssue::MissingMetaDescription => "missing_meta_description",
            SeoIssue::MetaDescriptionTooShort => "meta_description_too_short",
            SeoIssue::MetaDescriptionTooLong => "meta_description_too_long",
            SeoIssue::MissingH1 => "missing_h1",
            SeoIssue::MultipleH1 => "multiple_h1",
            SeoIssue::MissingCanonical => "missing_canonical",
            SeoIssue::LowWordCount => "low_word_count",
            SeoIssue::ImagesMissingAlt => "images_missing_alt",
            SeoIssue::TooManyExternalLinks => "too_many_external_links",
        }
    }

    /// The penalty this issue subtracts from a perfect score.
    pub fn penalty(self) -> (r: u8)
        ensures
            r == penalty_of(self),
    {
        match self {
            SeoIssue::NotRetrieved => 70,
            SeoIssue::Http5xx => 65,
            SeoIssue::Http4xx => 40,
            SeoIssue::Noindex => 20,
            SeoIssue::MissingTitle => 25,
            SeoIssue::TitleTooShort => 10,
            SeoIssue::TitleTooLong => 8,
            SeoIssue::MissingMetaDescription => 20,
            SeoIssue::MetaDescriptionTooShort => 8,
            SeoIssue::MetaDescriptionTooLong => 8,
            SeoIssue::MissingH1 => 14,
            SeoIssue::MultipleH1 => 8,
            SeoIssue::MissingCanonical => 10,
            SeoIssue::LowWordCount => 10,
            SeoIssue::ImagesMissingAlt => 8,
            SeoIssue::TooManyExternalLinks => 6,
        }
    }

    /// Parse an exported label (surrounding whitespace ignored).
    pub fn from_label(label: &str) -> (r: Option<SeoIssue>)
        ensures
            r == issue_of_label(label@),
    {
        let raw = str_chars(label);
        let t = trim_vec(&raw);
        if vec_eq_str(&t, "not_retrieved") {
            Some(SeoIssue::NotRetrieved)
        } else if vec_eq_str(&t, "status_4xx") {
            Some(SeoIssue::Http4xx)
        } else if vec_eq_str(&t, "status_5xx") {
            Some(SeoIssue::Http5xx)
        } else if vec_eq_str(&t, "noindex") {
            Some(SeoIssue::Noindex)
        } else if vec_eq_str(&t, "missing_title") {
            Some(SeoIssue::MissingTitle)
        } else if vec_eq_str(&t, "title_too_short") {
            Some(SeoIssue::TitleTooShort)
        } else if vec_eq_str(&t, "title_too_long") {
            Some(SeoIssue::TitleTooLong)
        } else if vec_eq_str(&t, "missing_meta_description") {
            Some(SeoIssue::MissingMetaDescription)
        } else if vec_eq_str(&t, "meta_description_too_short") {
            Some(SeoIssue::MetaDescriptionTooShort)
        } else if vec_eq_str(&t, "meta_description_too_long") {
            Some(SeoIssue::MetaDescriptionTooLong)
        } else if vec_eq_str(&t, "missing_h1") {
            Some(SeoIssue::MissingH1)
        } else if vec_eq_str(&t, "multiple_h1") {
            Some(SeoIssue::MultipleH1)
        } else if vec_eq_str(&t, "missing_canonical") {
            Some(SeoIssue::MissingCanonical)
        } else if vec_eq_str(&t, "low_word_count") {
            Some(SeoIssue::LowWordCount)
        } else if vec_eq_str(&t, "images_missing_alt") {
            Some(SeoIssue::ImagesMissingAlt)
        } else if vec_eq_str(&t, "too_many_external_links") {
            Some(SeoIssue::TooManyExternalLinks)
        } else {
            None
        }
    }
}

/// A label printed for an issue always parses back to that issue.
pub proof fn lemma_label_round_trip(issue: SeoIssue)
    ensures
        issue_of_label(label_of(issue)) == Some(issue),
{
    reveal_strlit("not_retrieved");
    reveal_strlit("status_4xx");
    reveal_strlit("status_5xx");
    reveal_strlit("noindex");
    reveal_strlit("missing_title");
    reveal_strlit("title_too_short");
    reveal_strlit("title_too_long");
    reveal_strlit("missing_meta_description");
    reveal_strlit("meta_description_too_short");
    reveal_strlit("meta_description_too_long");
    reveal_strlit("missing_h1");
    reveal_strlit("multiple_h1");
    reveal_strlit("missing_canonical");
    reveal_strlit("low_word_count");
    reveal_strlit("images_missing_alt");
    reveal_strlit("too_many_external_links");
    let l = label_of(issue);
    assert(l.len() > 0 && !crate::strutil::is_space_char(l.first()) && !crate::strutil::is_space_char(
        l.last(),
    ));
    assert(crate::strutil::trim_start_rec(l) == l);
    assert(crate::strutil::trim_end_rec(l) == l);
    assert(trim_seq(l) == l);
    assert("status_5xx"@ != "status_4xx"@) by {
        assert("status_5xx"@[7] == '5' && "status_4xx"@[7] == '4');
    }
    match issue {
        SeoIssue::NotRetrieved => assert(issue_of_label(l) == Some(issue)),
        SeoIssue::Http4xx => assert(issue_of_label(l) == Some(issue)),
        SeoIssue::Http5xx => assert(issue_of_label(l) == Some(issue)),
        SeoIssue::Noindex => assert(issue_of_label(l) == Some(issue)),
        SeoIssue::MissingTitle => assert(issue_of_label(l) == Some(issue)),
        SeoIssue::TitleTooShort => assert(issue_of_label(l) == Some(issue)),
        SeoIssue::TitleTooLong => assert(issue_of_label(l) == Some(issue)),
        SeoIssue::MissingMetaDescription => assert(issue_of_label(l) == Some(issue)),
        SeoIssue::MetaDescriptionTooShort => assert(issue_of_label(l) == Some(issue)),
        SeoIssue::MetaDescriptionTooLong => assert(issue_of_label(l) == Some(issue)),
        SeoIssue::MissingH1 => assert(issue_of_label(l) == Some(issue)),
        SeoIssue::MultipleH1 => assert(issue_of_label(l) == Some(issue)),
        SeoIssue::MissingCanonical => assert(issue_of_label(l) == Some(issue)),
        SeoIssue::LowWordCount => assert(issue_of_label(l) == Some(issue)),
        SeoIssue::ImagesMissingAlt => assert(issue_of_label(l) == Some(issue)),
        SeoIssue::TooManyExternalLinks => assert(issue_of_label(l) == Some(issue)),
    }
}

/// Distinct issues never share a label.
pub proof fn lemma_label_injective(a: SeoIssue, b: SeoIssue)
    requires
        label_of(a) == label_of(b),
    ensures
        a == b,
{
    lemma_label_round_trip(a);
    lemma_label_round_trip(b);
}

/// The total penalty of a list of issues.
pub open spec fn total_penalty(issues: Seq<SeoIssue>) -> int
    decreases issues.len(),
{
    if issues.len() == 0 {
        0
    } else {
        total_penalty(issues.drop_last()) + penalty_of(issues.last())
    }
}

/// The score a list of issues yields: 100 minus the penalties, floored at 0.
pub open spec fn score_of(issues: Seq<SeoIssue>) -> int {
    if total_penalty(issues) >= 100 {
        0
    } else {
        100 - total_penalty(issues)
    }
}

pub proof fn lemma_total_penalty_nonneg(issues: Seq<SeoIssue>)
    ensures
        total_penalty(issues) >= 0,
    decreases issues.len(),
{
    if issues.len() > 0 {
        lemma_total_penalty_nonneg(issues.drop_last());
    }
}

/// The SEO score for a list of issues: `max(0, 100 - sum of penalties)`.
pub fn compute_seo_score(issues: &Vec<SeoIssue>) -> (r: u8)
    ensures
        r == score_of(issues@),
        0 <= r <= 100,
{
    let mut acc: u16 = 0;
    let mut i: usize = 0;
    proof {
        assert(issues@.subrange(0, 0) =~= Seq::<SeoIssue>::empty());
    }
    while i < issues.len()
        invariant
            i <= issues@.len(),
            acc <= 200,
            acc < 100 ==> acc == total_penalty(issues@.subrange(0, i as int)),
            acc >= 100 ==> total_penalty(issues@.subrange(0, i as int)) >= 100,
        decreases issues@.len() - i,
    {
        let ghost p = issues@.subrange(0, i as int);
        let ghost q = issues@.subrange(0, i + 1);
        proof {
            assert(q.drop_last() =~= p);
            assert(q.last() == issues@[i as int]);
            lemma_total_penalty_nonneg(p);
        }
        if acc < 100 {
            acc = acc + issues[i].penalty() as u16;
        }
        i = i + 1;
        proof {
            lemma_total_penalty_nonneg(q);
        }
    }
    proof {
        assert(issues@.subrange(0, issues@.len() as int) =~= issues@);
    }
    if acc >= 100 {
        0
    } else {
        100 - (acc as u8)
    }
}

/// The quality bucket a score falls in.
pub open spec fn bucket_of(score: u8) -> Seq<char> {
    if 85 <= score {
        "excellent"@
    } else if 70 <= score {
        "good"@
    } else if 50 <= score {
        "warning"@
    } else {
        "critical"@
    }
}

/// Coarse quality category used in the exported dataset.
pub fn crawl_quality_bucket(seo_score: u8) -> (r: &'static str)
    ensures
        r@ == bucket_of(seo_score),
{
    if seo_score >= 85 {
        "excellent"
    } else if seo_score >= 70 {
        "good"
    } else if seo_score >= 50 {
        "warning"
    } else {
        "critical"
    }
}

} // verus!

verus! {

/// The issue contributed by the noindex flag.
pub open spec fn noindex_piece(noindex: bool) -> Seq<SeoIssue> {
    if noindex {
        seq![SeoIssue::Noindex]
    } else {
        Seq::<SeoIssue>::empty()
    }
}

/// The issue contributed by the title length.
pub open spec fn title_piece(title_length: int) -> Seq<SeoIssue> {
    if title_length == 0 {
        seq![SeoIssue::MissingTitle]
    } else if title_length < 15 {
        seq![SeoIssue::TitleTooShort]
    } else if title_length > 60 {
        seq![SeoIssue::TitleTooLong]
    } else {
        Seq::<SeoIssue>::empty()
    }
}

/// The issue contributed by the meta-description length.
pub open spec fn meta_piece(meta_length: int) -> Seq<SeoIssue> {
    if meta_length == 0 {
        seq![SeoIssue::MissingMetaDescription]
    } else if meta_length < 70 {
        seq![SeoIssue::MetaDescriptionTooShort]
    } else if meta_length > 160 {
        seq![SeoIssue::MetaDescriptionTooLong]
    } else {
        Seq::<SeoIssue>::empty()
    }
}

/// The issue contributed by the H1 count.
pub open spec fn h1_piece(h1_count: int) -> Seq<SeoIssue> {
    if h1_count == 0 {
        seq![SeoIssue::MissingH1]
    } else if h1_count > 1 {
        seq![SeoIssue::MultipleH1]
    } else {
        Seq::<SeoIssue>::empty()
    }
}

/// The issue contributed by a missing canonical link.
pub open spec fn canonical_piece(canonical: Seq<char>) -> Seq<SeoIssue> {
    if trim_seq(canonical).len() == 0 {
        seq![SeoIssue::MissingCanonical]
    } else {
        Seq::<SeoIssue>::empty()
    }
}

/// The issue contributed by the word count.
pub open spec fn word_piece(word_count: int) -> Seq<SeoIssue> {
    if word_count < 120 {
        seq![SeoIssue::LowWordCount]
    } else {
        Seq::<SeoIssue>::empty()
    }
}

/// The issue contributed by images without alt text.
pub open spec fn image_piece(image_missing_alt_count: int) -> Seq<SeoIssue> {
    if image_missing_alt_count > 0 {
        seq![SeoIssue::ImagesMissingAlt]
    } else {
        Seq::<SeoIssue>::empty()
    }
}

/// The issue contributed by the external-link count.
pub open spec fn extlink_piece(external_link_count: int) -> Seq<SeoIssue> {
    if external_link_count > 60 {
        seq![SeoIssue::TooManyExternalLinks]
    } else {
        Seq::<SeoIssue>::empty()
    }
}

/// The content-signal issues of an HTML success page.
pub open spec fn content_issues_for(
    noindex: bool,
    title_length: int,
    meta_length: int,
    h1_count: int,
    canonical: Seq<char>,
    word_count: int,
    image_missing_alt_count: int,
    external_link_count: int,
) -> Seq<SeoIssue> {
    noindex_piece(noindex) + title_piece(title_length) + meta_piece(meta_length) + h1_piece(
        h1_count,
    ) + canonical_piece(canonical) + word_piece(word_count) + image_piece(
        image_missing_alt_count,
    ) + extlink_piece(external_link_count)
}

/// The issues a page row should carry, from its observed signals.
pub open spec fn issues_for_row(
    status: u16,
    retrieval_status: Seq<char>,
    is_html: bool,
    noindex: bool,
    title_length: int,
    meta_length: int,
    h1_count: int,
    canonical: Seq<char>,
    word_count: int,
    image_missing_alt_count: int,
    external_link_count: int,
) -> Seq<SeoIssue> {
    if retrieval_status != "retrieved"@ {
        seq![SeoIssue::NotRetrieved]
    } else {
        let http = http_pieces(status);
        if !is_html || !(200 <= status <= 299) {
            http
        } else {
            http + content_issues_for(
                noindex,
                title_length,
                meta_length,
                h1_count,
                canonical,
                word_count,
                image_missing_alt_count,
                external_link_count,
            )
        }
    }
}

/// The issues contributed by a 4xx or 5xx status.
pub open spec fn http_pieces(status: u16) -> Seq<SeoIssue> {
    (if 400 <= status <= 499 {
        seq![SeoIssue::Http4xx]
    } else {
        Seq::<SeoIssue>::empty()
    }) + (if 500 <= status <= 599 {
        seq![SeoIssue::Http5xx]
    } else {
        Seq::<SeoIssue>::empty()
    })
}

/// Push order of the issues within one collected list.
pub open spec fn issue_rank(issue: SeoIssue) -> int {
    match issue {
        SeoIssue::NotRetrieved => 0,
        SeoIssue::Http4xx => 1,
        SeoIssue::Http5xx => 2,
        SeoIssue::Noindex => 3,
        SeoIssue::MissingTitle => 4,
        SeoIssue::TitleTooShort => 5,
        SeoIssue::TitleTooLong => 6,
        SeoIssue::MissingMetaDescription => 7,
        SeoIssue::MetaDescriptionTooShort => 8,
        SeoIssue::MetaDescriptionTooLong => 9,
        SeoIssue::MissingH1 => 10,
        SeoIssue::MultipleH1 => 11,
        SeoIssue::MissingCanonical => 12,
        SeoIssue::LowWordCount => 13,
        SeoIssue::ImagesMissingAlt => 14,
        SeoIssue::TooManyExternalLinks => 15,
    }
}

/// Ranks strictly increase along the list and stay inside the given bounds.
pub open spec fn ranks_within(s: Seq<SeoIssue>, lo: int, hi: int) -> bool {
    &&& (forall|i: int, j: int|
        0 <= i < j < s.len() ==> issue_rank(#[trigger] s[i]) < issue_rank(#[trigger] s[j]))
    &&& (forall|i: int| 0 <= i < s.len() ==> lo <= issue_rank(#[trigger] s[i]) < hi)
}

proof fn lemma_ranks_no_duplicates(s: Seq<SeoIssue>, lo: int, hi: int)
    requires
        ranks_within(s, lo, hi),
    ensures
        s.no_duplicates(),
{
    assert forall|i: int, j: int|
        0 <= i < s.len() && 0 <= j < s.len() && i != j implies s[i] != s[j] by {
        if i < j {
            assert(issue_rank(s[i]) < issue_rank(s[j]));
        } else {
            assert(issue_rank(s[j]) < issue_rank(s[i]));
        }
    }
}

proof fn lemma_ranks_concat(a: Seq<SeoIssue>, b: Seq<SeoIssue>, lo: int, mid: int, hi: int)
    requires
        lo <= mid <= hi,
        ranks_within(a, lo, mid),
        ranks_within(b, mid, hi),
    ensures
        ranks_within(a + b, lo, hi),
{
    let c = a + b;
    assert(forall|i: int| 0 <= i < a.len() ==> c[i] == a[i]);
    assert(forall|i: int| a.len() <= i < c.len() ==> c[i] == b[i - a.len()]);
}

fn push_noindex_issue(r: &mut Vec<SeoIssue>, noindex: bool)
    ensures
        final(r)@ == old(r)@ + noindex_piece(noindex),
        ranks_within(noindex_piece(noindex), 3, 4),
{
    if noindex {
        r.push(SeoIssue::Noindex);
    }
    proof {
        assert(r@ =~= old(r)@ + noindex_piece(noindex));
    }
}

fn push_title_issue(r: &mut Vec<SeoIssue>, title_length: usize)
    ensures
        final(r)@ == old(r)@ + title_piece(title_length as int),
        ranks_within(title_piece(title_length as int), 4, 7),
{
    if title_length == 0 {
        r.push(SeoIssue::MissingTitle);
    } else if title_length < 15 {
        r.push(SeoIssue::TitleTooShort);
    } else if title_length > 60 {
        r.push(SeoIssue::TitleTooLong);
    }
    proof {
        assert(r@ =~= old(r)@ + title_piece(title_length as int));
    }
}

fn push_meta_issue(r: &mut Vec<SeoIssue>, meta_length: usize)
    ensures
        final(r)@ == old(r)@ + meta_piece(meta_length as int),
        ranks_within(meta_piece(meta_length as int), 7, 10),
{
    if meta_length == 0 {
        r.push(SeoIssue::MissingMetaDescription);
    } else if meta_length < 70 {
        r.push(SeoIssue::MetaDescriptionTooShort);
    } else if meta_length > 160 {
        r.push(SeoIssue::MetaDescriptionTooLong);
    }
    proof {
        assert(r@ =~= old(r)@ + meta_piece(meta_length as int));
    }
}

fn push_h1_issue(r: &mut Vec<SeoIssue>, h1_count: usize)
    ensures
        final(r)@ == old(r)@ + h1_piece(h1_count as int),
        ranks_within(h1_piece(h1_count as int), 10, 12),
{
    if h1_count == 0 {
        r.push(SeoIssue::MissingH1);
    } else if h1_count > 1 {
        r.push(SeoIssue::MultipleH1);
    }
    proof {
        assert(r@ =~= old(r)@ + h1_piece(h1_count as int));
    }
}

fn push_canonical_issue(r: &mut Vec<SeoIssue>, canonical: &str)
    ensures
        final(r)@ == old(r)@ + canonical_piece(canonical@),
        ranks_within(canonical_piece(canonical@), 12, 13),
{
    let cv = str_chars(canonical);
    let t = trim_vec(&cv);
    if t.len() == 0 {
        r.push(SeoIssue::MissingCanonical);
    }
    proof {
        assert(r@ =~= old(r)@ + canonical_piece(canonical@));
    }
}

fn push_word_issue(r: &mut Vec<SeoIssue>, word_count: usize)
    ensures
        final(r)@ == old(r)@ + word_piece(word_count as int),
        ranks_within(word_piece(word_count as int), 13, 14),
{
    if word_count < 120 {
        r.push(SeoIssue::LowWordCount);
    }
    proof {
        assert(r@ =~= old(r)@ + word_piece(word_count as int));
    }
}

fn push_image_issue(r: &mut Vec<SeoIssue>, image_missing_alt_count: usize)
    ensures
        final(r)@ == old(r)@ + image_piece(image_missing_alt_count as int),
        ranks_within(image_piece(image_missing_alt_count as int), 14, 15),
{
    if image_missing_alt_count > 0 {
        r.push(SeoIssue::ImagesMissingAlt);
    }
    proof {
        assert(r@ =~= old(r)@ + image_piece(image_missing_alt_count as int));
    }
}

fn push_extlink_issue(r: &mut Vec<SeoIssue>, external_link_count: usize)
    ensures
        final(r)@ == old(r)@ + extlink_piece(external_link_count as int),
        ranks_within(extlink_piece(external_link_count as int), 15, 16),
{
    if external_link_count > 60 {
        r.push(SeoIssue::TooManyExternalLinks);
    }
    proof {
        assert(r@ =~= old(r)@ + extlink_piece(external_link_count as int));
    }
}

/// Collect the content-signal issues of an HTML success page.
fn collect_content_issues(
    noindex: bool,
    title_length: usize,
    meta_length: usize,
    h1_count: usize,
    canonical: &str,
    word_count: usize,
    image_missing_alt_count: usize,
    external_link_count: usize,
) -> (r: Vec<SeoIssue>)
    ensures
        r@ == content_issues_for(
            noindex,
            title_length as int,
            meta_length as int,
            h1_count as int,
            canonical@,
            word_count as int,
            image_missing_alt_count as int,
            external_link_count as int,
        ),
        ranks_within(r@, 3, 16),
{
    let mut r: Vec<SeoIssue> = Vec::new();
    push_noindex_issue(&mut r, noindex);
    proof {
        assert(r@ =~= noindex_piece(noindex));
    }
    let ghost s1 = r@;
    push_title_issue(&mut r, title_length);
    proof {
        lemma_ranks_concat(s1, title_piece(title_length as int), 3, 4, 7);
    }
    let ghost s2 = r@;
    push_meta_issue(&mut r, meta_length);
    proof {
        lemma_ranks_concat(s2, meta_piece(meta_length as int), 3, 7, 10);
    }
    let ghost s3 = r@;
    push_h1_issue(&mut r, h1_count);
    proof {
        lemma_ranks_concat(s3, h1_piece(h1_count as int), 3, 10, 12);
    }
    let ghost s4 = r@;
    push_canonical_issue(&mut r, canonical);
    proof {
        lemma_ranks_concat(s4, canonical_piece(canonical@), 3, 12, 13);
    }
    let ghost s5 = r@;
    push_word_issue(&mut r, word_count);
    proof {
        lemma_ranks_concat(s5, word_piece(word_count as int), 3, 13, 14);
    }
    let ghost s6 = r@;
    push_image_issue(&mut r, image_missing_alt_count);
    proof {
        lemma_ranks_concat(s6, image_piece(image_missing_alt_count as int), 3, 14, 15);
    }
    let ghost s7 = r@;
    push_extlink_issue(&mut r, external_link_count);
    proof {
        lemma_ranks_concat(s7, extlink_piece(external_link_count as int), 3, 15, 16);
    }
    r
}

/// Collect the issue list for one page row; never contains a duplicate.
#[verifier::rlimit(100)]
pub fn collect_row_issues(
    status: u16,
    retrieval_status: &str,
    is_html: bool,
    noindex: bool,
    title_length: usize,
    meta_length: usize,
    h1_count: usize,
    canonical: &str,
    word_count: usize,
    image_missing_alt_count: usize,
    external_link_count: usize,
) -> (r: Vec<SeoIssue>)
    ensures
        r@ == issues_for_row(
            status,
            retrieval_status@,
            is_html,
            noindex,
            title_length as int,
            meta_length as int,
            h1_count as int,
            canonical@,
            word_count as int,
            image_missing_alt_count as int,
            external_link_count as int,
        ),
        r@.no_duplicates(),
{
    let mut r: Vec<SeoIssue> = Vec::new();
    let retrieved = {
        let rs = str_chars(retrieval_status);
        vec_eq_str(&rs, "retrieved")
    };
    if !retrieved {
        r.push(SeoIssue::NotRetrieved);
        proof {
            assert(r@ =~= seq![SeoIssue::NotRetrieved]);
            assert(ranks_within(r@, 0, 1));
            lemma_ranks_no_duplicates(r@, 0, 1);
        }
        return r;
    }
    if 400 <= status && status <= 499 {
        r.push(SeoIssue::Http4xx);
    }
    if 500 <= status && status <= 599 {
        r.push(SeoIssue::Http5xx);
    }
    let ghost p_http = r@;
    proof {
        assert(ranks_within(r@, 0, 3));
    }
    if !is_html || !(200 <= status && status <= 299) {
        proof {
            lemma_ranks_no_duplicates(r@, 0, 3);
            assert(r@ =~= issues_for_row(
                status,
                retrieval_status@,
                is_html,
                noindex,
                title_length as int,
                meta_length as int,
                h1_count as int,
                canonical@,
                word_count as int,
                image_missing_alt_count as int,
                external_link_count as int,
            ));
        }
        return r;
    }
    let mut content = collect_content_issues(
        noindex,
        title_length,
        meta_length,
        h1_count,
        canonical,
        word_count,
        image_missing_alt_count,
        external_link_count,
    );
    let ghost p_content = content@;
    r.append(&mut content);
    proof {
        assert(r@ == p_http + p_content);
        assert(ranks_within(r@, 0, 16)) by {
            assert(forall|i: int|
                0 <= i < p_http.len() ==> 0 <= issue_rank(#[trigger] r@[i]) < 3);
            assert(forall|i: int|
                p_http.len() <= i < r@.len() ==> 3 <= issue_rank(#[trigger] r@[i]) < 16 && r@[i]
                    == p_content[i - p_http.len()]);
        }
        lemma_ranks_no_duplicates(r@, 0, 16);
        assert(r@ =~= issues_for_row(
            status,
            retrieval_status@,
            is_html,
            noindex,
            title_length as int,
            meta_length as int,
            h1_count as int,
            canonical@,
            word_count as int,
            image_missing_alt_count as int,
            external_link_count as int,
        ));
    }
    r
}

} // verus!
