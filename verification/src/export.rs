//! The exported dataset: the flat record written to CSV and JSON, the
//! conversions between it and the in-memory row, and the round trip back.

use vstd::prelude::*;

use crate::issues::{
    bucket_of, compute_seo_score, issue_of_label, label_of, score_of, SeoIssue,
};
use crate::strutil::{
    chars_string, join_with, lemma_split_of_join, lower_seq, lower_vec, split_seq, split_vec,
    str_chars, trim_seq, trim_vec, vec_ends_with, vec_eq_str,
};
use crate::types::{CrawlRow, DataFormat};
use crate::urlnorm::string_views;

verus! {

/// The flat record of one dataset row.
#[derive(Debug)]
pub struct ExportRecord {
    pub url: String,
    pub status: u16,
    pub mime: String,
    pub retrieval_status: String,
    pub indexability: String,
    pub title: String,
    pub title_length: usize,
    pub meta: String,
    pub meta_length: usize,
    pub h1: String,
    pub canonical: String,
    pub word_count: usize,
    pub size: usize,
    pub response_time_ms: u128,
    pub last_modified: String,
    pub redirect_url: String,
    pub redirect_type: String,
    pub link_count: usize,
    pub internal_link_count: usize,
    pub external_link_count: usize,
    pub h1_count: usize,
    pub h2_count: usize,
    pub image_count: usize,
    pub image_missing_alt_count: usize,
    pub structured_data_count: usize,
    pub seo_score: u8,
    pub issue_count: usize,
    pub issues: String,
    pub outgoing_links: Vec<String>,
    pub crawl_timestamp: String,
    pub crawl_quality_bucket: String,
}

/// The labels of a list of issues.
pub open spec fn labels_of(issues: Seq<SeoIssue>) -> Seq<Seq<char>> {
    issues.map_values(|i: SeoIssue| label_of(i))
}

/// The pipe-joined label field of a list of issues.
pub open spec fn joined_labels(issues: Seq<SeoIssue>) -> Seq<char> {
    join_with(labels_of(issues), '|')
}

/// Join the issue labels with pipes for the dataset.
pub fn issues_to_csv(issues: &Vec<SeoIssue>) -> (r: String)
    ensures
        r@ == joined_labels(issues@),
{
    let mut parts: Vec<Vec<char>> = Vec::new();
    let mut i: usize = 0;
    proof {
        assert(parts@.map_values(|p: Vec<char>| p@) =~= labels_of(issues@.subrange(0, 0)));
    }
    while i < issues.len()
        invariant
            i <= issues@.len(),
            parts@.map_values(|p: Vec<char>| p@) == labels_of(issues@.subrange(0, i as int)),
        decreases issues@.len() - i,
    {
        let ghost prev = parts@.map_values(|p: Vec<char>| p@);
        let l = str_chars(issues[i].label());
        parts.push(l);
        proof {
            assert(parts@.map_values(|p: Vec<char>| p@) =~= prev.push(
                label_of(issues@[i as int]),
            ));
            assert(labels_of(issues@.subrange(0, i + 1)) =~= prev.push(
                label_of(issues@[i as int]),
            ));
        }
        i = i + 1;
    }
    proof {
        assert(issues@.subrange(0, issues@.len() as int) =~= issues@);
    }
    let joined = crate::strutil::join_vec(&parts, '|');
    chars_string(&joined)
}

/// The issues recovered from a pipe-joined label field: each recognised
/// segment, in order.
pub open spec fn parsed_issue_list(parts: Seq<Seq<char>>) -> Seq<SeoIssue>
    decreases parts.len(),
{
    if parts.len() == 0 {
        Seq::empty()
    } else {
        parsed_issue_list(parts.drop_last()) + (match issue_of_label(parts.last()) {
            Some(i) => seq![i],
            None => Seq::<SeoIssue>::empty(),
        })
    }
}

/// The issues denoted by a whole label field.
pub open spec fn issues_of_field(field: Seq<char>) -> Seq<SeoIssue> {
    parsed_issue_list(split_seq(field, '|'))
}

/// Parse the pipe-joined label field back into issues.
pub fn issues_from_csv(field: &str) -> (r: Vec<SeoIssue>)
    ensures
        r@ == issues_of_field(field@),
{
    let fv = str_chars(field);
    let parts = split_vec(&fv, '|');
    let ghost pv = parts@.map_values(|p: Vec<char>| p@);
    let mut out: Vec<SeoIssue> = Vec::new();
    let mut i: usize = 0;
    proof {
        assert(pv.subrange(0, 0) =~= Seq::<Seq<char>>::empty());
        assert(parsed_issue_list(pv.subrange(0, 0)) =~= Seq::<SeoIssue>::empty());
        assert(out@ =~= Seq::<SeoIssue>::empty());
    }
    while i < parts.len()
        invariant
            i <= parts@.len(),
            pv == parts@.map_values(|p: Vec<char>| p@),
            pv == split_seq(field@, '|'),
            out@ == parsed_issue_list(pv.subrange(0, i as int)),
        decreases parts@.len() - i,
    {
        let ghost pre = pv.subrange(0, i as int);
        let ghost cur = pv.subrange(0, i + 1);
        proof {
            assert(cur.drop_last() =~= pre);
            assert(cur.last() == pv[i as int]);
        }
        let s = chars_string(&parts[i]);
        match SeoIssue::from_label(s.as_str()) {
            Some(issue) => {
                out.push(issue);
                proof {
                    assert(out@ =~= parsed_issue_list(cur));
                }
            },
            None => {
                proof {
                    assert(out@ =~= parsed_issue_list(cur));
                }
            },
        }
        i = i + 1;
    }
    proof {
        assert(pv.subrange(0, pv.len() as int) =~= pv);
    }
    out
}

/// No issue label contains the pipe separator.
proof fn lemma_labels_pipe_free(issues: Seq<SeoIssue>)
    ensures
        forall|i: int|
            0 <= i < labels_of(issues).len() ==> !(#[trigger] labels_of(issues)[i]).contains('|'),
{
    reveal_strlit("not_retrieved");
    reveal_strlit("status_4xx");
    reveal_strlit("status_5xx");
    reveal_strlit("noindex");
    reveal_strlit("missing_title");
    reveal_strlit("title_too_short");
    reveal_strlit("title_too_long");
    reveal_strlit("missing_meta_description");
    reveal_strlit("meta_description_too_short");
    reveal_strlit("meta_description_too_long");
    reveal_strlit("missing_h1");
    reveal_strlit("multiple_h1");
    reveal_strlit("missing_canonical");
    reveal_strlit("low_word_count");
    reveal_strlit("images_missing_alt");
    reveal_strlit("too_many_external_links");
    assert forall|i: int|
        0 <= i < labels_of(issues).len() implies !(#[trigger] labels_of(issues)[i]).contains(
        '|',
    ) by {
        let l = labels_of(issues)[i];
        assert(l == label_of(issues[i]));
        if l.contains('|') {
            let k = choose|k: int| 0 <= k < l.len() && l[k] == '|';
            match issues[i] {
                SeoIssue::NotRetrieved => assert(l[k] != '|'),
                SeoIssue::Http4xx => assert(l[k] != '|'),
                SeoIssue::Http5xx => assert(l[k] != '|'),
                SeoIssue::Noindex => assert(l[k] != '|'),
                SeoIssue::MissingTitle => assert(l[k] != '|'),
                SeoIssue::TitleTooShort => assert(l[k] != '|'),
                SeoIssue::TitleTooLong => assert(l[k] != '|'),
                SeoIssue::MissingMetaDescription => assert(l[k] != '|'),
                SeoIssue::MetaDescriptionTooShort => assert(l[k] != '|'),
                SeoIssue::MetaDescriptionTooLong => assert(l[k] != '|'),
                SeoIssue::MissingH1 => assert(l[k] != '|'),
                SeoIssue::MultipleH1 => assert(l[k] != '|'),
                SeoIssue::MissingCanonical => assert(l[k] != '|'),
                SeoIssue::LowWordCount => assert(l[k] != '|'),
                SeoIssue::ImagesMissingAlt => assert(l[k] != '|'),
                SeoIssue::TooManyExternalLinks => assert(l[k] != '|'),
            }
        }
    }
}

/// Writing issues as labels and reading them back yields the same
/// issues: the label field round-trips.
pub proof fn lemma_issue_field_round_trip(issues: Seq<SeoIssue>)
    requires
        issues.len() >= 1,
    ensures
        issues_of_field(joined_labels(issues)) == issues,
{
    lemma_labels_pipe_free(issues);
    lemma_split_of_join(labels_of(issues), '|');
    assert(split_seq(joined_labels(issues), '|') == labels_of(issues));
    lemma_parsed_of_labels(issues);
}

proof fn lemma_parsed_of_labels(issues: Seq<SeoIssue>)
    ensures
        parsed_issue_list(labels_of(issues)) == issues,
    decreases issues.len(),
{
    if issues.len() == 0 {
        assert(parsed_issue_list(labels_of(issues)) =~= issues);
    } else {
        let l = labels_of(issues);
        assert(l.drop_last() =~= labels_of(issues.drop_last()));
        lemma_parsed_of_labels(issues.drop_last());
        crate::issues::lemma_label_round_trip(issues.last());
        assert(l.last() == label_of(issues.last()));
        assert(parsed_issue_list(l) =~= issues.drop_last().push(issues.last()));
        assert(issues.drop_last().push(issues.last()) =~= issues);
    }
}

/// An empty label field parses to no issues.
pub proof fn lemma_empty_issue_field()
    ensures
        issues_of_field(Seq::<char>::empty()) == Seq::<SeoIssue>::empty(),
{
    reveal_strlit("not_retrieved");
    reveal_strlit("status_4xx");
    reveal_strlit("status_5xx");
    reveal_strlit("noindex");
    reveal_strlit("missing_title");
    reveal_strlit("title_too_short");
    reveal_strlit("title_too_long");
    reveal_strlit("missing_meta_description");
    reveal_strlit("meta_description_too_short");
    reveal_strlit("meta_description_too_long");
    reveal_strlit("missing_h1");
    reveal_strlit("multiple_h1");
    reveal_strlit("missing_canonical");
    reveal_strlit("low_word_count");
    reveal_strlit("images_missing_alt");
    reveal_strlit("too_many_external_links");
    let e = Seq::<char>::empty();
    assert(split_seq(e, '|') =~= seq![e]);
    assert(crate::strutil::trim_start_rec(e) == e);
    assert(crate::strutil::trim_end_rec(e) == e);
    assert(trim_seq(e) == e);
    assert(issue_of_label(e) is None);
    assert(seq![e].drop_last() =~= Seq::<Seq<char>>::empty());
    assert(parsed_issue_list(Seq::<Seq<char>>::empty()) == Seq::<SeoIssue>::empty());
    assert(parsed_issue_list(seq![e]) =~= parsed_issue_list(seq![e].drop_last())
        + Seq::<SeoIssue>::empty());
    assert(parsed_issue_list(seq![e]) =~= Seq::<SeoIssue>::empty());
}

} // verus!

verus! {

/// Flatten a row and its outgoing links into the dataset record.
#[verifier::rlimit(100)]
pub fn row_to_export_record(row: &CrawlRow, outgoing_links: &Vec<String>) -> (r: ExportRecord)
    ensures
        r.url == row.url,
        r.status == row.status,
        r.mime == row.mime,
        r.retrieval_status == row.retrieval_status,
        r.indexability == row.indexability,
        r.title == row.title,
        r.title_length == row.title_length,
        r.meta == row.meta,
        r.meta_length == row.meta_length,
        r.h1 == row.h1,
        r.canonical == row.canonical,
        r.word_count == row.word_count,
        r.size == row.size,
        r.response_time_ms == row.response_time,
        r.last_modified == row.last_modified,
        r.redirect_url == row.redirect_url,
        r.redirect_type == row.redirect_type,
        r.link_count == row.link_count,
        r.internal_link_count == row.internal_link_count,
        r.external_link_count == row.external_link_count,
        r.h1_count == row.h1_count,
        r.h2_count == row.h2_count,
        r.image_count == row.image_count,
        r.image_missing_alt_count == row.image_missing_alt_count,
        r.structured_data_count == row.structured_data_count,
        r.seo_score == row.seo_score,
        r.issue_count == row.issues@.len(),
        r.issues@ == joined_labels(row.issues@),
        string_views(r.outgoing_links@) == string_views(outgoing_links@),
        r.crawl_timestamp == row.crawl_timestamp,
        r.crawl_quality_bucket@ == bucket_of(row.seo_score),
{
    let mut links: Vec<String> = Vec::new();
    let mut i: usize = 0;
    proof {
        assert(string_views(links@) =~= string_views(outgoing_links@).subrange(0, 0));
    }
    while i < outgoing_links.len()
        invariant
            i <= outgoing_links@.len(),
            string_views(links@) == string_views(outgoing_links@).subrange(0, i as int),
        decreases outgoing_links@.len() - i,
    {
        let ghost prev = links@;
        let l = outgoing_links[i].clone();
        links.push(l);
        proof {
            assert(l@ == outgoing_links@[i as int]@);
            assert(string_views(links@) =~= string_views(prev).push(l@));
            assert(string_views(outgoing_links@)[i as int] == outgoing_links@[i as int]@);
            assert(string_views(links@) =~= string_views(outgoing_links@).subrange(0, i + 1));
        }
        i = i + 1;
    }
    proof {
        assert(string_views(outgoing_links@).subrange(
            0,
            string_views(outgoing_links@).len() as int,
        ) =~= string_views(outgoing_links@));
    }
    let issues_field = issues_to_csv(&row.issues);
    let bucket = crate::issues::crawl_quality_bucket(row.seo_score);
    ExportRecord {
        url: row.url.clone(),
        status: row.status,
        mime: row.mime.clone(),
        retrieval_status: row.retrieval_status.clone(),
        indexability: row.indexability.clone(),
        title: row.title.clone(),
        title_length: row.title_length,
        meta: row.meta.clone(),
        meta_length: row.meta_length,
        h1: row.h1.clone(),
        canonical: row.canonical.clone(),
        word_count: row.word_count,
        size: row.size,
        response_time_ms: row.response_time,
        last_modified: row.last_modified.clone(),
        redirect_url: row.redirect_url.clone(),
        redirect_type: row.redirect_type.clone(),
        link_count: row.link_count,
        internal_link_count: row.internal_link_count,
        external_link_count: row.external_link_count,
        h1_count: row.h1_count,
        h2_count: row.h2_count,
        image_count: row.image_count,
        image_missing_alt_count: row.image_missing_alt_count,
        structured_data_count: row.structured_data_count,
        seo_score: row.seo_score,
        issue_count: row.issues.len(),
        issues: issues_field,
        outgoing_links: links,
        crawl_timestamp: row.crawl_timestamp.clone(),
        crawl_quality_bucket: String::from_str(bucket),
    }
}

/// The issues a loaded record carries: the parsed label field, with the
/// not-retrieved marker restored when the field was empty on a row that
/// was never retrieved.
pub open spec fn loaded_issues_of(record_issues: Seq<char>, retrieval_status: Seq<char>) -> Seq<
    SeoIssue,
> {
    let parsed = issues_of_field(record_issues);
    if parsed.len() == 0 && retrieval_status == "not_retrieved"@ {
        seq![SeoIssue::NotRetrieved]
    } else {
        parsed
    }
}

/// The score a loaded record carries: recomputed when the stored score is
/// 0 while issues are present, kept otherwise.
pub open spec fn loaded_score_of(stored: u8, issues: Seq<SeoIssue>) -> int {
    if stored == 0 && issues.len() > 0 {
        score_of(issues)
    } else {
        stored as int
    }
}

/// Rebuild a row and its outgoing links from a loaded dataset record.
#[verifier::rlimit(100)]
pub fn export_record_to_row(record: ExportRecord) -> (r: (CrawlRow, Vec<String>))
    ensures
        r.0.url == record.url,
        r.0.status == record.status,
        r.0.mime == record.mime,
        r.0.retrieval_status == record.retrieval_status,
        r.0.indexability == record.indexability,
        r.0.title == record.title,
        r.0.title_length == record.title_length,
        r.0.meta == record.meta,
        r.0.meta_length == record.meta_length,
        r.0.h1 == record.h1,
        r.0.canonical == record.canonical,
        r.0.word_count == record.word_count,
        r.0.size == record.size,
        r.0.response_time == record.response_time_ms,
        r.0.last_modified == record.last_modified,
        r.0.redirect_url == record.redirect_url,
        r.0.redirect_type == record.redirect_type,
        r.0.link_count == record.link_count,
        r.0.internal_link_count == record.internal_link_count,
        r.0.external_link_count == record.external_link_count,
        r.0.h1_count == record.h1_count,
        r.0.h2_count == record.h2_count,
        r.0.image_count == record.image_count,
        r.0.image_missing_alt_count == record.image_missing_alt_count,
        r.0.structured_data_count == record.structured_data_count,
        r.0.issues@ == loaded_issues_of(record.issues@, record.retrieval_status@),
        r.0.seo_score == loaded_score_of(record.seo_score, r.0.issues@),
        r.0.crawl_timestamp == record.crawl_timestamp,
        r.1 == record.outgoing_links,
{
    let mut issues = issues_from_csv(record.issues.as_str());
    if issues.len() == 0 {
        let rs = str_chars(record.retrieval_status.as_str());
        if vec_eq_str(&rs, "not_retrieved") {
            issues.push(SeoIssue::NotRetrieved);
            proof {
                assert(issues@ =~= seq![SeoIssue::NotRetrieved]);
            }
        }
    }
    proof {
        assert(issues@ == loaded_issues_of(record.issues@, record.retrieval_status@));
    }
    let seo_score = if record.seo_score == 0 && issues.len() > 0 {
        compute_seo_score(&issues)
    } else {
        record.seo_score
    };
    let row = CrawlRow {
        url: record.url,
        status: record.status,
        mime: record.mime,
        retrieval_status: record.retrieval_status,
        indexability: record.indexability,
        title: record.title,
        title_length: record.title_length,
        meta: record.meta,
        meta_length: record.meta_length,
        h1: record.h1,
        canonical: record.canonical,
        word_count: record.word_count,
        size: record.size,
        response_time: record.response_time_ms,
        last_modified: record.last_modified,
        redirect_url: record.redirect_url,
        redirect_type: record.redirect_type,
        link_count: record.link_count,
        internal_link_count: record.internal_link_count,
        external_link_count: record.external_link_count,
        h1_count: record.h1_count,
        h2_count: record.h2_count,
        image_count: record.image_count,
        image_missing_alt_count: record.image_missing_alt_count,
        structured_data_count: record.structured_data_count,
        seo_score,
        issues,
        crawl_timestamp: record.crawl_timestamp,
    };
    (row, record.outgoing_links)
}

/// The format suggested by a path's extension, with a fallback.
pub open spec fn format_of_path(path: Seq<char>, fallback: DataFormat) -> DataFormat {
    let low = lower_seq(path);
    if crate::strutil::ends_with_seq(low, ".json"@) {
        DataFormat::Json
    } else if crate::strutil::ends_with_seq(low, ".csv"@) {
        DataFormat::Csv
    } else {
        fallback
    }
}

/// Detect the dataset format from the output path's extension.
pub fn detect_data_format(path: &str, fallback: DataFormat) -> (r: DataFormat)
    ensures
        r == format_of_path(path@, fallback),
{
    let pv = str_chars(path);
    let low = lower_vec(&pv);
    let json_ext = str_chars(".json");
    let csv_ext = str_chars(".csv");
    if vec_ends_with(&low, &json_ext) {
        DataFormat::Json
    } else if vec_ends_with(&low, &csv_ext) {
        DataFormat::Csv
    } else {
        fallback
    }
}

/// Is this character kept verbatim in a generated file name?
pub open spec fn is_filename_char(c: char) -> bool {
    ('a' <= c && c <= 'z') || ('A' <= c && c <= 'Z') || ('0' <= c && c <= '9') || c == '-'
}

/// A host name reduced to safe file-name characters.
pub open spec fn filename_safe(s: Seq<char>) -> Seq<char> {
    s.map_values(
        |c: char|
            if is_filename_char(c) {
                c
            } else {
                '_'
            },
    )
}

/// The default output path: the sanitized host (or `crawl`), the given
/// timestamp, and the format's extension.
pub open spec fn default_path_of(url: Seq<char>, ts: Seq<char>, format: DataFormat) -> Seq<char> {
    let host = match crate::urlnorm::url_host_of(url) {
        Some(h) => h,
        None => "crawl"@,
    };
    filename_safe(host) + "_"@ + ts + (if format is Csv {
        ".csv"@
    } else {
        ".json"@
    })
}

/// Build the default output path for a crawl of this URL. The timestamp
/// part comes from the clock, so only the shape around it is promised.
pub fn default_output_path(url: &str, format: DataFormat) -> (r: String)
    ensures
        exists|ts: Seq<char>| r@ == default_path_of(url@, ts, format),
{
    let host = match crate::urlnorm::url_host(url) {
        Some(h) => h,
        None => String::from_str("crawl"),
    };
    let hv = str_chars(host.as_str());
    let mut safe: Vec<char> = Vec::new();
    let mut i: usize = 0;
    while i < hv.len()
        invariant
            i <= hv@.len(),
            safe@ == filename_safe(hv@.subrange(0, i as int)),
        decreases hv@.len() - i,
    {
        let c = hv[i];
        let keep = ('a' <= c && c <= 'z') || ('A' <= c && c <= 'Z') || ('0' <= c && c <= '9')
            || c == '-';
        if keep {
            safe.push(c);
        } else {
            safe.push('_');
        }
        i = i + 1;
        proof {
            assert(safe@ =~= filename_safe(hv@.subrange(0, i as int)));
        }
    }
    proof {
        assert(hv@.subrange(0, hv@.len() as int) =~= hv@);
    }
    let mut out = safe;
    let mut us = str_chars("_");
    out.append(&mut us);
    let ts = crate::clock::now_compact();
    let ghost ts_view = ts@;
    let mut tv = str_chars(ts.as_str());
    out.append(&mut tv);
    let mut ext = match format {
        DataFormat::Csv => str_chars(".csv"),
        DataFormat::Json => str_chars(".json"),
    };
    out.append(&mut ext);
    let r = chars_string(&out);
    proof {
        assert(r@ == default_path_of(url@, ts_view, format));
    }
    r
}

} // verus!

verus! {

/// What the csv crate's `Writer::write_record` emits for one field list,
/// including the record terminator.
pub uninterp spec fn csv_line_of(fields: Seq<Seq<char>>) -> Seq<char>;

/// What the csv crate's reader (without header handling) parses a text
/// into: every record's fields, in order; `None` when the text is
/// malformed.
pub uninterp spec fn csv_rows_of(text: Seq<char>) -> Option<Seq<Seq<Seq<char>>>>;

/// Relies on csv's `Writer::write_record`: one encoded CSV record, a
/// function of the fields alone.
#[verifier::external_body]
pub fn csv_encode_record(fields: &Vec<String>) -> (r: String)
    ensures
        r@ == csv_line_of(string_views(fields@)),
{
    let mut w = csv::Writer::from_writer(Vec::new());
    let _ = w.write_record(fields.iter());
    let _ = w.flush();
    match w.into_inner() {
        Ok(bytes) => String::from_utf8_lossy(&bytes).into_owned(),
        Err(_) => String::new(),
    }
}

/// Relies on csv's `Reader::records` with header handling off: every
/// record of a CSV text, a function of the text alone.
#[verifier::external_body]
pub fn csv_parse_text(text: &str) -> (r: Option<Vec<Vec<String>>>)
    ensures
        r is Some <==> csv_rows_of(text@) is Some,
        r matches Some(rows) ==> csv_rows_of(text@) == Some(
            rows@.map_values(|rec: Vec<String>| string_views(rec@)),
        ),
{
    let mut rdr = csv::ReaderBuilder::new().has_headers(false).from_reader(text.as_bytes());
    let mut out: Vec<Vec<String>> = Vec::new();
    for rec in rdr.records() {
        match rec {
            Ok(r) => out.push(r.iter().map(|f| f.to_string()).collect()),
            Err(_) => return None,
        }
    }
    Some(out)
}

/// The fixed CSV column names, in order.
pub open spec fn csv_header_views() -> Seq<Seq<char>> {
    seq![
        "url"@,
        "status"@,
        "mime"@,
        "retrieval_status"@,
        "indexability"@,
        "title"@,
        "title_length"@,
        "meta"@,
        "meta_length"@,
        "h1"@,
        "canonical"@,
        "word_count"@,
        "size"@,
        "response_time_ms"@,
        "last_modified"@,
        "redirect_url"@,
        "redirect_type"@,
        "link_count"@,
        "internal_link_count"@,
        "external_link_count"@,
        "h1_count"@,
        "h2_count"@,
        "image_count"@,
        "image_missing_alt_count"@,
        "structured_data_count"@,
        "seo_score"@,
        "issue_count"@,
        "issues"@,
        "outgoing_links"@,
        "crawl_timestamp"@,
        "crawl_quality_bucket"@,
    ]
}

/// The header row written at the top of every CSV dataset.
pub fn csv_headers() -> (r: Vec<String>)
    ensures
        string_views(r@) == csv_header_views(),
{
    let mut out: Vec<String> = Vec::new();
    out.push(String::from_str("url"));
    out.push(String::from_str("status"));
    out.push(String::from_str("mime"));
    out.push(String::from_str("retrieval_status"));
    out.push(String::from_str("indexability"));
    out.push(String::from_str("title"));
    out.push(String::from_str("title_length"));
    out.push(String::from_str("meta"));
    out.push(String::from_str("meta_length"));
    out.push(String::from_str("h1"));
    out.push(String::from_str("canonical"));
    out.push(String::from_str("word_count"));
    out.push(String::from_str("size"));
    out.push(String::from_str("response_time_ms"));
    out.push(String::from_str("last_modified"));
    out.push(String::from_str("redirect_url"));
    out.push(String::from_str("redirect_type"));
    out.push(String::from_str("link_count"));
    out.push(String::from_str("internal_link_count"));
    out.push(String::from_str("external_link_count"));
    out.push(String::from_str("h1_count"));
    out.push(String::from_str("h2_count"));
    out.push(String::from_str("image_count"));
    out.push(String::from_str("image_missing_alt_count"));
    out.push(String::from_str("structured_data_count"));
    out.push(String::from_str("seo_score"));
    out.push(String::from_str("issue_count"));
    out.push(String::from_str("issues"));
    out.push(String::from_str("outgoing_links"));
    out.push(String::from_str("crawl_timestamp"));
    out.push(String::from_str("crawl_quality_bucket"));
    proof {
        assert(string_views(out@) =~= csv_header_views());
    }
    out
}

/// The field views of a record as they stand in its CSV row, in column
/// order.
pub open spec fn record_field_views(r: ExportRecord) -> Seq<Seq<char>> {
    seq![
        r.url@,
        crate::strutil::dec_str(r.status as nat),
        r.mime@,
        r.retrieval_status@,
        r.indexability@,
        r.title@,
        crate::strutil::dec_str(r.title_length as nat),
        r.meta@,
        crate::strutil::dec_str(r.meta_length as nat),
        r.h1@,
        r.canonical@,
        crate::strutil::dec_str(r.word_count as nat),
        crate::strutil::dec_str(r.size as nat),
        crate::strutil::dec_str(r.response_time_ms as nat),
        r.last_modified@,
        r.redirect_url@,
        r.redirect_type@,
        crate::strutil::dec_str(r.link_count as nat),
        crate::strutil::dec_str(r.internal_link_count as nat),
        crate::strutil::dec_str(r.external_link_count as nat),
        crate::strutil::dec_str(r.h1_count as nat),
        crate::strutil::dec_str(r.h2_count as nat),
        crate::strutil::dec_str(r.image_count as nat),
        crate::strutil::dec_str(r.image_missing_alt_count as nat),
        crate::strutil::dec_str(r.structured_data_count as nat),
        crate::strutil::dec_str(r.seo_score as nat),
        crate::strutil::dec_str(r.issue_count as nat),
        r.issues@,
        join_with(string_views(r.outgoing_links@), '|'),
        r.crawl_timestamp@,
        r.crawl_quality_bucket@,
    ]
}

/// Lay a record out as its 31 CSV fields.
#[verifier::rlimit(100)]
pub fn export_record_fields(rec: &ExportRecord) -> (r: Vec<String>)
    ensures
        string_views(r@) == record_field_views(*rec),
{
    let mut out: Vec<String> = Vec::new();
    out.push(rec.url.clone());
    out.push(chars_string(&crate::strutil::fmt_u16(rec.status)));
    out.push(rec.mime.clone());
    out.push(rec.retrieval_status.clone());
    out.push(rec.indexability.clone());
    out.push(rec.title.clone());
    out.push(chars_string(&crate::strutil::fmt_usize(rec.title_length)));
    out.push(rec.meta.clone());
    out.push(chars_string(&crate::strutil::fmt_usize(rec.meta_length)));
    out.push(rec.h1.clone());
    out.push(rec.canonical.clone());
    out.push(chars_string(&crate::strutil::fmt_usize(rec.word_count)));
    out.push(chars_string(&crate::strutil::fmt_usize(rec.size)));
    out.push(chars_string(&crate::strutil::fmt_u128(rec.response_time_ms)));
    out.push(rec.last_modified.clone());
    out.push(rec.redirect_url.clone());
    out.push(rec.redirect_type.clone());
    out.push(chars_string(&crate::strutil::fmt_usize(rec.link_count)));
    out.push(chars_string(&crate::strutil::fmt_usize(rec.internal_link_count)));
    out.push(chars_string(&crate::strutil::fmt_usize(rec.external_link_count)));
    out.push(chars_string(&crate::strutil::fmt_usize(rec.h1_count)));
    out.push(chars_string(&crate::strutil::fmt_usize(rec.h2_count)));
    out.push(chars_string(&crate::strutil::fmt_usize(rec.image_count)));
    out.push(chars_string(&crate::strutil::fmt_usize(rec.image_missing_alt_count)));
    out.push(chars_string(&crate::strutil::fmt_usize(rec.structured_data_count)));
    out.push(chars_string(&crate::strutil::fmt_u8(rec.seo_score)));
    out.push(chars_string(&crate::strutil::fmt_usize(rec.issue_count)));
    out.push(rec.issues.clone());
    let mut link_parts: Vec<Vec<char>> = Vec::new();
    let mut i: usize = 0;
    proof {
        assert(link_parts@.map_values(|p: Vec<char>| p@) =~= string_views(
            rec.outgoing_links@,
        ).subrange(0, 0));
    }
    while i < rec.outgoing_links.len()
        invariant
            i <= rec.outgoing_links@.len(),
            link_parts@.map_values(|p: Vec<char>| p@) == string_views(
                rec.outgoing_links@,
            ).subrange(0, i as int),
        decreases rec.outgoing_links@.len() - i,
    {
        let ghost prev = link_parts@.map_values(|p: Vec<char>| p@);
        let lv = str_chars(rec.outgoing_links[i].as_str());
        link_parts.push(lv);
        proof {
            assert(link_parts@.map_values(|p: Vec<char>| p@) =~= prev.push(
                rec.outgoing_links@[i as int]@,
            ));
            assert(string_views(rec.outgoing_links@)[i as int] == rec.outgoing_links@[i as int]@);
            assert(link_parts@.map_values(|p: Vec<char>| p@) =~= string_views(
                rec.outgoing_links@,
            ).subrange(0, i + 1));
        }
        i = i + 1;
    }
    proof {
        assert(string_views(rec.outgoing_links@).subrange(
            0,
            string_views(rec.outgoing_links@).len() as int,
        ) =~= string_views(rec.outgoing_links@));
    }
    let joined = crate::strutil::join_vec(&link_parts, '|');
    out.push(chars_string(&joined));
    out.push(rec.crawl_timestamp.clone());
    out.push(rec.crawl_quality_bucket.clone());
    proof {
        assert(string_views(out@) =~= record_field_views(*rec));
    }
    out
}

} // verus!

verus! {

/// The last column whose trimmed, lower-cased name matches.
pub open spec fn col_idx_last(header: Seq<Seq<char>>, name: Seq<char>) -> Option<int>
    decreases header.len(),
{
    if header.len() == 0 {
        None
    } else if lower_seq(trim_seq(header.last())) == name {
        Some(header.len() - 1)
    } else {
        col_idx_last(header.drop_last(), name)
    }
}

/// The field under a column name, when the column exists and the record
/// is long enough.
pub open spec fn get1(header: Seq<Seq<char>>, rec: Seq<Seq<char>>, name: Seq<char>) -> Option<
    Seq<char>,
> {
    match col_idx_last(header, name) {
        Some(i) => if 0 <= i < rec.len() {
            Some(rec[i])
        } else {
            None
        },
        None => None,
    }
}

/// The field under the first of two column names that yields a value,
/// empty otherwise.
pub open spec fn get2(
    header: Seq<Seq<char>>,
    rec: Seq<Seq<char>>,
    a: Seq<char>,
    b: Seq<char>,
) -> Seq<char> {
    match get1(header, rec, a) {
        Some(v) => v,
        None => match get1(header, rec, b) {
            Some(v) => v,
            None => Seq::empty(),
        },
    }
}

/// A decimal field's value, or the default when it does not parse or
/// overflows the given maximum.
pub open spec fn num_or(s: Seq<char>, max: int, d: int) -> int {
    if s.len() > 0 && crate::strutil::all_digits(s) && crate::strutil::dec_val(s) <= max {
        crate::strutil::dec_val(s)
    } else {
        d
    }
}

/// Look one column up in a record, matching the last header of that name.
fn get_col(header: &Vec<String>, rec: &Vec<String>, name: &str) -> (r: Option<String>)
    ensures
        r is Some <==> get1(string_views(header@), string_views(rec@), name@) is Some,
        r matches Some(v) ==> get1(string_views(header@), string_views(rec@), name@) == Some(v@),
{
    let ghost hv = string_views(header@);
    let ghost rv = string_views(rec@);
    let nv = str_chars(name);
    let mut i: usize = header.len();
    proof {
        assert(hv.subrange(0, hv.len() as int) =~= hv);
    }
    while i > 0
        invariant
            i <= header@.len(),
            hv == string_views(header@),
            rv == string_views(rec@),
            nv@ == name@,
            col_idx_last(hv, name@) == col_idx_last(hv.subrange(0, i as int), name@),
        decreases i,
    {
        i = i - 1;
        let ghost cur = hv.subrange(0, i + 1);
        proof {
            assert(cur.drop_last() =~= hv.subrange(0, i as int));
            assert(cur.last() == hv[i as int]);
            assert(hv[i as int] == header@[i as int]@);
        }
        let h = str_chars(header[i].as_str());
        let t = trim_vec(&h);
        let low = lower_vec(&t);
        if crate::strutil::vec_eq(&low, &nv) {
            proof {
                assert(col_idx_last(cur, name@) == Some(i as int));
            }
            if i < rec.len() {
                let v = rec[i].clone();
                proof {
                    assert(rv[i as int] == rec@[i as int]@);
                }
                return Some(v);
            } else {
                return None;
            }
        }
        proof {
            assert(col_idx_last(cur, name@) == col_idx_last(hv.subrange(0, i as int), name@));
        }
    }
    proof {
        assert(hv.subrange(0, 0) =~= Seq::<Seq<char>>::empty());
        assert(col_idx_last(hv, name@) is None);
    }
    None
}

/// Look a field up under a primary and a fallback column name; empty when
/// neither yields a value.
fn get_field(header: &Vec<String>, rec: &Vec<String>, a: &str, b: &str) -> (r: String)
    ensures
        r@ == get2(string_views(header@), string_views(rec@), a@, b@),
{
    match get_col(header, rec, a) {
        Some(v) => v,
        None => match get_col(header, rec, b) {
            Some(v) => v,
            None => String::new(),
        },
    }
}

/// Parse a decimal field into a usize, with a default.
fn usize_field(v: &String, d: usize) -> (r: usize)
    ensures
        r == num_or(v@, usize::MAX as int, d as int),
{
    let cv = str_chars(v.as_str());
    match crate::strutil::parse_usize(&cv) {
        Some(x) => x,
        None => d,
    }
}

/// Parse a decimal field into a u16, with a default.
fn u16_field(v: &String, d: u16) -> (r: u16)
    ensures
        r == num_or(v@, u16::MAX as int, d as int),
{
    let cv = str_chars(v.as_str());
    match crate::strutil::parse_u16(&cv) {
        Some(x) => x,
        None => d,
    }
}

/// Parse a decimal field into a u8, with a default.
fn u8_field(v: &String, d: u8) -> (r: u8)
    ensures
        r == num_or(v@, u8::MAX as int, d as int),
{
    let cv = str_chars(v.as_str());
    match crate::strutil::parse_u8(&cv) {
        Some(x) => x,
        None => d,
    }
}

/// Parse a decimal field into a u128, with a default.
fn u128_field(v: &String, d: u128) -> (r: u128)
    ensures
        r == num_or(v@, u128::MAX as int, d as int),
{
    let cv = str_chars(v.as_str());
    match crate::strutil::parse_u128(&cv) {
        Some(x) => x,
        None => d,
    }
}

/// The link list stored in a pipe-joined field: each part trimmed,
/// empties dropped.
pub open spec fn split_links_of(parts: Seq<Seq<char>>) -> Seq<Seq<char>>
    decreases parts.len(),
{
    if parts.len() == 0 {
        Seq::empty()
    } else {
        split_links_of(parts.drop_last()) + (if trim_seq(parts.last()).len() > 0 {
            seq![trim_seq(parts.last())]
        } else {
            Seq::<Seq<char>>::empty()
        })
    }
}

/// Split a pipe-joined link field back into links.
pub fn split_link_field(field: &str) -> (r: Vec<String>)
    ensures
        string_views(r@) == split_links_of(split_seq(field@, '|')),
{
    let fv = str_chars(field);
    let parts = split_vec(&fv, '|');
    let ghost pv = parts@.map_values(|p: Vec<char>| p@);
    let mut out: Vec<String> = Vec::new();
    let mut i: usize = 0;
    proof {
        assert(pv.subrange(0, 0) =~= Seq::<Seq<char>>::empty());
        assert(split_links_of(pv.subrange(0, 0)) =~= Seq::<Seq<char>>::empty());
        assert(string_views(out@) =~= Seq::<Seq<char>>::empty());
    }
    while i < parts.len()
        invariant
            i <= parts@.len(),
            pv == parts@.map_values(|p: Vec<char>| p@),
            pv == split_seq(field@, '|'),
            string_views(out@) == split_links_of(pv.subrange(0, i as int)),
        decreases parts@.len() - i,
    {
        let ghost pre = pv.subrange(0, i as int);
        let ghost cur = pv.subrange(0, i + 1);
        proof {
            assert(cur.drop_last() =~= pre);
            assert(cur.last() == pv[i as int]);
        }
        let t = trim_vec(&parts[i]);
        let ghost prev = string_views(out@);
        if t.len() > 0 {
            out.push(chars_string(&t));
            proof {
                assert(string_views(out@) =~= prev.push(t@));
            }
        }
        proof {
            assert(string_views(out@) =~= split_links_of(cur));
        }
        i = i + 1;
    }
    proof {
        assert(pv.subrange(0, pv.len() as int) =~= pv);
    }
    out
}

} // verus!

verus! {

/// Does a flat record hold exactly the values of one CSV record under
/// this header? Numeric fields fall back to their documented defaults,
/// the retrieval status is inferred from the status when absent, and the
/// lengths default to the actual character counts.
pub open spec fn csv_export_matches(
    er: ExportRecord,
    header: Seq<Seq<char>>,
    rec: Seq<Seq<char>>,
) -> bool {
    let title = get2(header, rec, "title"@, "title"@);
    let meta = get2(header, rec, "meta"@, "meta"@);
    let status = num_or(get2(header, rec, "status"@, "status"@), u16::MAX as int, 0);
    let retrieval = get2(header, rec, "retrieval_status"@, "retrieval_status"@);
    &&& er.url@ == get2(header, rec, "url"@, "url"@)
    &&& er.status == status
    &&& er.mime@ == get2(header, rec, "mime"@, "mime"@)
    &&& er.retrieval_status@ == (if retrieval.len() == 0 {
        if status == 0 {
            "not_retrieved"@
        } else {
            "retrieved"@
        }
    } else {
        retrieval
    })
    &&& er.indexability@ == get2(header, rec, "indexability"@, "indexability"@)
    &&& er.title@ == title
    &&& er.title_length == num_or(
        get2(header, rec, "title_length"@, "title_length"@),
        usize::MAX as int,
        title.len() as int,
    )
    &&& er.meta@ == meta
    &&& er.meta_length == num_or(
        get2(header, rec, "meta_length"@, "meta_length"@),
        usize::MAX as int,
        meta.len() as int,
    )
    &&& er.h1@ == get2(header, rec, "h1"@, "h1"@)
    &&& er.canonical@ == get2(header, rec, "canonical"@, "canonical"@)
    &&& er.word_count == num_or(
        get2(header, rec, "word_count"@, "word count"@),
        usize::MAX as int,
        0,
    )
    &&& er.size == num_or(get2(header, rec, "size"@, "size"@), usize::MAX as int, 0)
    &&& er.response_time_ms == num_or(
        get2(header, rec, "response_time_ms"@, "response_time"@),
        u128::MAX as int,
        0,
    )
    &&& er.last_modified@ == get2(header, rec, "last_modified"@, "last_modified"@)
    &&& er.redirect_url@ == get2(header, rec, "redirect_url"@, "redirect url"@)
    &&& er.redirect_type@ == get2(header, rec, "redirect_type"@, "redirect type"@)
    &&& er.link_count == num_or(
        get2(header, rec, "link_count"@, "link count"@),
        usize::MAX as int,
        0,
    )
    &&& er.internal_link_count == num_or(
        get2(header, rec, "internal_link_count"@, "internal_link_count"@),
        usize::MAX as int,
        0,
    )
    &&& er.external_link_count == num_or(
        get2(header, rec, "external_link_count"@, "external_link_count"@),
        usize::MAX as int,
        0,
    )
    &&& er.h1_count == num_or(get2(header, rec, "h1_count"@, "h1_count"@), usize::MAX as int, 0)
    &&& er.h2_count == num_or(get2(header, rec, "h2_count"@, "h2_count"@), usize::MAX as int, 0)
    &&& er.image_count == num_or(
        get2(header, rec, "image_count"@, "image_count"@),
        usize::MAX as int,
        0,
    )
    &&& er.image_missing_alt_count == num_or(
        get2(header, rec, "image_missing_alt_count"@, "image_missing_alt_count"@),
        usize::MAX as int,
        0,
    )
    &&& er.structured_data_count == num_or(
        get2(header, rec, "structured_data_count"@, "structured_data_count"@),
        usize::MAX as int,
        0,
    )
    &&& er.seo_score == num_or(get2(header, rec, "seo_score"@, "seo_score"@), u8::MAX as int, 0)
    &&& er.issue_count == num_or(
        get2(header, rec, "issue_count"@, "issue_count"@),
        usize::MAX as int,
        0,
    )
    &&& er.issues@ == get2(header, rec, "issues"@, "issues"@)
    &&& string_views(er.outgoing_links@) == split_links_of(
        split_seq(get2(header, rec, "outgoing_links"@, "outgoing_links"@), '|'),
    )
    &&& er.crawl_timestamp@ == get2(header, rec, "crawl_timestamp"@, "crawl timestamp"@)
    &&& er.crawl_quality_bucket@ == get2(header, rec, "crawl_quality_bucket"@,
        "crawl_quality_bucket"@)
}

/// Assemble the flat record of one CSV data record; `None` when the URL
/// field is blank and the record is skipped.
#[verifier::rlimit(100)]
pub fn csv_record_to_export(header: &Vec<String>, rec: &Vec<String>) -> (r: Option<ExportRecord>)
    ensures
        r is Some <==> trim_seq(
            get2(string_views(header@), string_views(rec@), "url"@, "url"@),
        ).len() > 0,
        r matches Some(er) ==> csv_export_matches(er, string_views(header@), string_views(rec@)),
{
    let url = get_field(header, rec, "url", "url");
    {
        let uv = str_chars(url.as_str());
        let ut = trim_vec(&uv);
        if ut.len() == 0 {
            return None;
        }
    }
    let status_raw = get_field(header, rec, "status", "status");
    let status = u16_field(&status_raw, 0);
    let retrieval_raw = get_field(header, rec, "retrieval_status", "retrieval_status");
    let retrieval_status = if retrieval_raw.as_str().unicode_len() == 0 {
        if status == 0 {
            String::from_str("not_retrieved")
        } else {
            String::from_str("retrieved")
        }
    } else {
        retrieval_raw
    };
    let title = get_field(header, rec, "title", "title");
    let title_len_raw = get_field(header, rec, "title_length", "title_length");
    let title_length = usize_field(&title_len_raw, title.as_str().unicode_len());
    let meta = get_field(header, rec, "meta", "meta");
    let meta_len_raw = get_field(header, rec, "meta_length", "meta_length");
    let meta_length = usize_field(&meta_len_raw, meta.as_str().unicode_len());
    let word_raw = get_field(header, rec, "word_count", "word count");
    let size_raw = get_field(header, rec, "size", "size");
    let rt_raw = get_field(header, rec, "response_time_ms", "response_time");
    let lc_raw = get_field(header, rec, "link_count", "link count");
    let ilc_raw = get_field(header, rec, "internal_link_count", "internal_link_count");
    let elc_raw = get_field(header, rec, "external_link_count", "external_link_count");
    let h1c_raw = get_field(header, rec, "h1_count", "h1_count");
    let h2c_raw = get_field(header, rec, "h2_count", "h2_count");
    let ic_raw = get_field(header, rec, "image_count", "image_count");
    let ima_raw = get_field(header, rec, "image_missing_alt_count", "image_missing_alt_count");
    let sdc_raw = get_field(header, rec, "structured_data_count", "structured_data_count");
    let score_raw = get_field(header, rec, "seo_score", "seo_score");
    let icount_raw = get_field(header, rec, "issue_count", "issue_count");
    let links_raw = get_field(header, rec, "outgoing_links", "outgoing_links");
    let outgoing_links = split_link_field(links_raw.as_str());
    Some(
        ExportRecord {
            url,
            status,
            mime: get_field(header, rec, "mime", "mime"),
            retrieval_status,
            indexability: get_field(header, rec, "indexability", "indexability"),
            title,
            title_length,
            meta,
            meta_length,
            h1: get_field(header, rec, "h1", "h1"),
            canonical: get_field(header, rec, "canonical", "canonical"),
            word_count: usize_field(&word_raw, 0),
            size: usize_field(&size_raw, 0),
            response_time_ms: u128_field(&rt_raw, 0),
            last_modified: get_field(header, rec, "last_modified", "last_modified"),
            redirect_url: get_field(header, rec, "redirect_url", "redirect url"),
            redirect_type: get_field(header, rec, "redirect_type", "redirect type"),
            link_count: usize_field(&lc_raw, 0),
            internal_link_count: usize_field(&ilc_raw, 0),
            external_link_count: usize_field(&elc_raw, 0),
            h1_count: usize_field(&h1c_raw, 0),
            h2_count: usize_field(&h2c_raw, 0),
            image_count: usize_field(&ic_raw, 0),
            image_missing_alt_count: usize_field(&ima_raw, 0),
            structured_data_count: usize_field(&sdc_raw, 0),
            seo_score: u8_field(&score_raw, 0),
            issue_count: usize_field(&icount_raw, 0),
            issues: get_field(header, rec, "issues", "issues"),
            outgoing_links,
            crawl_timestamp: get_field(header, rec, "crawl_timestamp", "crawl timestamp"),
            crawl_quality_bucket: get_field(
                header,
                rec,
                "crawl_quality_bucket",
                "crawl_quality_bucket",
            ),
        },
    )
}

/// Does a loaded row-and-links pair hold exactly what one CSV record
/// says, issues and score recovered as the round-trip law demands?
pub open spec fn row_matches_csv(
    row: CrawlRow,
    links: Vec<String>,
    header: Seq<Seq<char>>,
    rec: Seq<Seq<char>>,
) -> bool {
    exists|er: ExportRecord|
        {
            &&& #[trigger] csv_export_matches(er, header, rec)
            &&& row.url == er.url
            &&& row.status == er.status
            &&& row.mime == er.mime
            &&& row.retrieval_status == er.retrieval_status
            &&& row.indexability == er.indexability
            &&& row.title == er.title
            &&& row.title_length == er.title_length
            &&& row.meta == er.meta
            &&& row.meta_length == er.meta_length
            &&& row.h1 == er.h1
            &&& row.canonical == er.canonical
            &&& row.word_count == er.word_count
            &&& row.size == er.size
            &&& row.response_time == er.response_time_ms
            &&& row.last_modified == er.last_modified
            &&& row.redirect_url == er.redirect_url
            &&& row.redirect_type == er.redirect_type
            &&& row.link_count == er.link_count
            &&& row.internal_link_count == er.internal_link_count
            &&& row.external_link_count == er.external_link_count
            &&& row.h1_count == er.h1_count
            &&& row.h2_count == er.h2_count
            &&& row.image_count == er.image_count
            &&& row.image_missing_alt_count == er.image_missing_alt_count
            &&& row.structured_data_count == er.structured_data_count
            &&& row.issues@ == loaded_issues_of(er.issues@, er.retrieval_status@)
            &&& row.seo_score == loaded_score_of(er.seo_score, row.issues@)
            &&& row.crawl_timestamp == er.crawl_timestamp
            &&& links == er.outgoing_links
        }
}

/// The data records kept from a CSV body: those whose URL field is not
/// blank.
pub open spec fn kept_csv_records(header: Seq<Seq<char>>, records: Seq<Seq<Seq<char>>>) -> Seq<
    Seq<Seq<char>>,
>
    decreases records.len(),
{
    if records.len() == 0 {
        Seq::empty()
    } else {
        kept_csv_records(header, records.drop_last()) + (if trim_seq(
            get2(header, records.last(), "url"@, "url"@),
        ).len() > 0 {
            seq![records.last()]
        } else {
            Seq::<Seq<Seq<char>>>::empty()
        })
    }
}

/// Load the rows of a CSV dataset text: the first record is the header,
/// each later record with a non-blank URL becomes one row. `None` when
/// the text is not well-formed CSV.
pub fn load_rows_from_csv_text(text: &str) -> (r: Option<Vec<(CrawlRow, Vec<String>)>>)
    ensures
        r is Some <==> csv_rows_of(text@) is Some,
        r matches Some(out) ==> ({
            let all = csv_rows_of(text@)->0;
            if all.len() == 0 {
                out@.len() == 0
            } else {
                let header = all.first();
                let kept = kept_csv_records(header, all.drop_first());
                &&& out@.len() == kept.len()
                &&& forall|k: int|
                    0 <= k < out@.len() ==> row_matches_csv(
                        (#[trigger] out@[k]).0,
                        out@[k].1,
                        header,
                        kept[k],
                    )
            }
        }),
{
    let rows = match csv_parse_text(text) {
        None => {
            return None;
        },
        Some(rows) => rows,
    };
    let ghost all = csv_rows_of(text@)->0;
    proof {
        assert(all == rows@.map_values(|rec: Vec<String>| string_views(rec@)));
    }
    if rows.len() == 0 {
        let out: Vec<(CrawlRow, Vec<String>)> = Vec::new();
        return Some(out);
    }
    let header = &rows[0];
    let ghost hv = string_views(header@);
    proof {
        assert(all.first() == hv);
    }
    let mut out: Vec<(CrawlRow, Vec<String>)> = Vec::new();
    let mut i: usize = 1;
    proof {
        assert(all.drop_first().subrange(0, 0) =~= Seq::<Seq<Seq<char>>>::empty());
        assert(kept_csv_records(hv, all.drop_first().subrange(0, 0)) =~= Seq::<
            Seq<Seq<char>>,
        >::empty());
    }
    while i < rows.len()
        invariant
            1 <= i <= rows@.len(),
            rows@.len() >= 1,
            all == rows@.map_values(|rec: Vec<String>| string_views(rec@)),
            hv == string_views(rows@[0]@),
            out@.len() == kept_csv_records(hv, all.drop_first().subrange(0, i - 1)).len(),
            forall|k: int|
                0 <= k < out@.len() ==> row_matches_csv(
                    (#[trigger] out@[k]).0,
                    out@[k].1,
                    hv,
                    kept_csv_records(hv, all.drop_first().subrange(0, i - 1))[k],
                ),
        decreases rows@.len() - i,
    {
        let ghost tail = all.drop_first();
        let ghost pre = tail.subrange(0, i - 1);
        let ghost cur = tail.subrange(0, i as int);
        proof {
            assert(cur.drop_last() =~= pre);
            assert(cur.last() == all[i as int]);
            assert(all[i as int] == string_views(rows@[i as int]@));
        }
        let ghost kept_pre = kept_csv_records(hv, pre);
        match csv_record_to_export(&rows[0], &rows[i]) {
            Some(er) => {
                let ghost er_g = er;
                let (row, links) = export_record_to_row(er);
                proof {
                    assert(csv_export_matches(er_g, hv, string_views(rows@[i as int]@)));
                }
                out.push((row, links));
                proof {
                    assert(row_matches_csv(row, links, hv, string_views(rows@[i as int]@)));
                    assert(kept_csv_records(hv, cur) =~= kept_pre.push(
                        string_views(rows@[i as int]@),
                    ));
                    assert(forall|k: int|
                        0 <= k < out@.len() - 1 ==> row_matches_csv(
                            (#[trigger] out@[k]).0,
                            out@[k].1,
                            hv,
                            kept_csv_records(hv, cur)[k],
                        ));
                    assert(row_matches_csv(
                        out@[out@.len() - 1].0,
                        out@[out@.len() - 1].1,
                        hv,
                        kept_csv_records(hv, cur)[out@.len() - 1],
                    ));
                }
            },
            None => {
                proof {
                    assert(kept_csv_records(hv, cur) =~= kept_pre);
                }
            },
        }
        i = i + 1;
    }
    proof {
        assert(all.drop_first().subrange(0, all.drop_first().len() as int) =~= all.drop_first());
        assert(rows@.len() - 1 == all.drop_first().len());
    }
    Some(out)
}

} // verus!

verus! {

/// A hexadecimal digit character, lower case.
pub open spec fn hex_digit(d: int) -> char {
    if d == 0 {
        '0'
    } else if d == 1 {
        '1'
    } else if d == 2 {
        '2'
    } else if d == 3 {
        '3'
    } else if d == 4 {
        '4'
    } else if d == 5 {
        '5'
    } else if d == 6 {
        '6'
    } else if d == 7 {
        '7'
    } else if d == 8 {
        '8'
    } else if d == 9 {
        '9'
    } else if d == 10 {
        'a'
    } else if d == 11 {
        'b'
    } else if d == 12 {
        'c'
    } else if d == 13 {
        'd'
    } else if d == 14 {
        'e'
    } else {
        'f'
    }
}

/// How one character appears inside a JSON string literal.
pub open spec fn json_escaped_char(c: char) -> Seq<char> {
    if c == '"' {
        seq!['\\', '"']
    } else if c == '\\' {
        seq!['\\', '\\']
    } else if c == '\u{8}' {
        seq!['\\', 'b']
    } else if c == '\u{c}' {
        seq!['\\', 'f']
    } else if c == '\n' {
        seq!['\\', 'n']
    } else if c == '\r' {
        seq!['\\', 'r']
    } else if c == '\t' {
        seq!['\\', 't']
    } else if (c as u32) < 32 {
        "\\u00"@ + seq![hex_digit(((c as u32) / 16) as int), hex_digit(((c as u32) % 16) as int)]
    } else {
        seq![c]
    }
}

/// A whole string escaped for JSON.
pub open spec fn json_escaped(s: Seq<char>) -> Seq<char>
    decreases s.len(),
{
    if s.len() == 0 {
        Seq::empty()
    } else {
        json_escaped(s.drop_last()) + json_escaped_char(s.last())
    }
}

/// A JSON string literal: the escaped text in double quotes.
pub open spec fn json_string_of(s: Seq<char>) -> Seq<char> {
    seq!['"'] + json_escaped(s) + seq!['"']
}

fn exec_hex_digit(d: u32) -> (r: char)
    requires
        d < 16,
    ensures
        r == hex_digit(d as int),
{
    if d == 0 {
        '0'
    } else if d == 1 {
        '1'
    } else if d == 2 {
        '2'
    } else if d == 3 {
        '3'
    } else if d == 4 {
        '4'
    } else if d == 5 {
        '5'
    } else if d == 6 {
        '6'
    } else if d == 7 {
        '7'
    } else if d == 8 {
        '8'
    } else if d == 9 {
        '9'
    } else if d == 10 {
        'a'
    } else if d == 11 {
        'b'
    } else if d == 12 {
        'c'
    } else if d == 13 {
        'd'
    } else if d == 14 {
        'e'
    } else {
        'f'
    }
}

/// Append a JSON string literal for `s` to the output.
fn push_json_string(out: &mut Vec<char>, s: &str)
    ensures
        final(out)@ == old(out)@ + json_string_of(s@),
{
    let sv = str_chars(s);
    out.push('"');
    let ghost base = out@;
    let mut i: usize = 0;
    proof {
        assert(json_escaped(sv@.subrange(0, 0)) =~= Seq::<char>::empty());
        assert(out@ =~= base + json_escaped(sv@.subrange(0, 0)));
    }
    while i < sv.len()
        invariant
            i <= sv@.len(),
            sv@ == s@,
            out@ == base + json_escaped(sv@.subrange(0, i as int)),
        decreases sv@.len() - i,
    {
        let ghost pre = sv@.subrange(0, i as int);
        let ghost cur = sv@.subrange(0, i + 1);
        proof {
            assert(cur.drop_last() =~= pre);
            assert(cur.last() == sv@[i as int]);
        }
        let c = sv[i];
        if c == '"' {
            out.push('\\');
            out.push('"');
        } else if c == '\\' {
            out.push('\\');
            out.push('\\');
        } else if c == '\u{8}' {
            out.push('\\');
            out.push('b');
        } else if c == '\u{c}' {
            out.push('\\');
            out.push('f');
        } else if c == '\n' {
            out.push('\\');
            out.push('n');
        } else if c == '\r' {
            out.push('\\');
            out.push('r');
        } else if c == '\t' {
            out.push('\\');
            out.push('t');
        } else if (c as u32) < 32 {
            out.push('\\');
            out.push('u');
            out.push('0');
            out.push('0');
            out.push(exec_hex_digit((c as u32) / 16));
            out.push(exec_hex_digit((c as u32) % 16));
            proof {
                reveal_strlit("\\u00");
                assert(json_escaped_char(c) =~= seq!['\\', 'u', '0', '0', hex_digit(
                    ((c as u32) / 16) as int,
                ), hex_digit(((c as u32) % 16) as int)]);
            }
        } else {
            out.push(c);
        }
        proof {
            assert(out@ =~= base + json_escaped(pre) + json_escaped_char(c));
            assert(json_escaped(cur) =~= json_escaped(pre) + json_escaped_char(c));
            assert(out@ =~= base + json_escaped(cur));
        }
        i = i + 1;
    }
    proof {
        assert(sv@.subrange(0, sv@.len() as int) =~= sv@);
    }
    out.push('"');
    proof {
        assert(out@ =~= old(out)@ + json_string_of(s@));
    }
}

/// The JSON array of a string list.
pub open spec fn json_string_array_of(links: Seq<Seq<char>>) -> Seq<char> {
    seq!['['] + join_with(links.map_values(|l: Seq<char>| json_string_of(l)), ',') + seq![']']
}

/// Append a JSON array of string literals to the output.
fn push_json_string_array(out: &mut Vec<char>, links: &Vec<String>)
    ensures
        final(out)@ == old(out)@ + json_string_array_of(string_views(links@)),
{
    let mut parts: Vec<Vec<char>> = Vec::new();
    let mut i: usize = 0;
    proof {
        assert(parts@.map_values(|p: Vec<char>| p@) =~= string_views(links@).subrange(
            0,
            0,
        ).map_values(|l: Seq<char>| json_string_of(l)));
    }
    while i < links.len()
        invariant
            i <= links@.len(),
            parts@.map_values(|p: Vec<char>| p@) == string_views(links@).subrange(
                0,
                i as int,
            ).map_values(|l: Seq<char>| json_string_of(l)),
        decreases links@.len() - i,
    {
        let ghost prev = parts@.map_values(|p: Vec<char>| p@);
        let mut piece: Vec<char> = Vec::new();
        push_json_string(&mut piece, links[i].as_str());
        proof {
            assert(piece@ =~= json_string_of(links@[i as int]@));
        }
        parts.push(piece);
        proof {
            assert(parts@.map_values(|p: Vec<char>| p@) =~= prev.push(
                json_string_of(links@[i as int]@),
            ));
            assert(string_views(links@).subrange(0, i + 1).map_values(
                |l: Seq<char>| json_string_of(l),
            ) =~= prev.push(json_string_of(links@[i as int]@)));
        }
        i = i + 1;
    }
    proof {
        assert(string_views(links@).subrange(0, string_views(links@).len() as int) =~= string_views(
            links@,
        ));
    }
    let joined = crate::strutil::join_vec(&parts, ',');
    out.push('[');
    let mut j: usize = 0;
    while j < joined.len()
        invariant
            j <= joined@.len(),
            out@ == old(out)@ + seq!['['] + joined@.subrange(0, j as int),
        decreases joined@.len() - j,
    {
        out.push(joined[j]);
        j = j + 1;
        proof {
            assert(out@ =~= old(out)@ + seq!['['] + joined@.subrange(0, j as int));
        }
    }
    proof {
        assert(joined@.subrange(0, joined@.len() as int) =~= joined@);
    }
    out.push(']');
    proof {
        assert(out@ =~= old(out)@ + json_string_array_of(string_views(links@)));
    }
}

} // verus!

verus! {

/// The compact JSON object of one dataset record, fields in fixed order.
pub open spec fn record_json_of(er: ExportRecord) -> Seq<char> {
    "{\"url\":"@ + json_string_of(er.url@) + ",\"status\":"@ + crate::strutil::dec_str(
        er.status as nat,
    ) + ",\"mime\":"@ + json_string_of(er.mime@) + ",\"retrieval_status\":"@ + json_string_of(
        er.retrieval_status@,
    ) + ",\"indexability\":"@ + json_string_of(er.indexability@) + ",\"title\":"@ + json_string_of(
        er.title@,
    ) + ",\"title_length\":"@ + crate::strutil::dec_str(er.title_length as nat) + ",\"meta\":"@
        + json_string_of(er.meta@) + ",\"meta_length\":"@ + crate::strutil::dec_str(
        er.meta_length as nat,
    ) + ",\"h1\":"@ + json_string_of(er.h1@) + ",\"canonical\":"@ + json_string_of(er.canonical@)
        + ",\"word_count\":"@ + crate::strutil::dec_str(er.word_count as nat) + ",\"size\":"@
        + crate::strutil::dec_str(er.size as nat) + ",\"response_time_ms\":"@
        + crate::strutil::dec_str(er.response_time_ms as nat) + ",\"last_modified\":"@
        + json_string_of(er.last_modified@) + ",\"redirect_url\":"@ + json_string_of(
        er.redirect_url@,
    ) + ",\"redirect_type\":"@ + json_string_of(er.redirect_type@) + ",\"link_count\":"@
        + crate::strutil::dec_str(er.link_count as nat) + ",\"internal_link_count\":"@
        + crate::strutil::dec_str(er.internal_link_count as nat) + ",\"external_link_count\":"@
        + crate::strutil::dec_str(er.external_link_count as nat) + ",\"h1_count\":"@
        + crate::strutil::dec_str(er.h1_count as nat) + ",\"h2_count\":"@ + crate::strutil::dec_str(
        er.h2_count as nat,
    ) + ",\"image_count\":"@ + crate::strutil::dec_str(er.image_count as nat)
        + ",\"image_missing_alt_count\":"@ + crate::strutil::dec_str(
        er.image_missing_alt_count as nat,
    ) + ",\"structured_data_count\":"@ + crate::strutil::dec_str(er.structured_data_count as nat)
        + ",\"seo_score\":"@ + crate::strutil::dec_str(er.seo_score as nat) + ",\"issue_count\":"@
        + crate::strutil::dec_str(er.issue_count as nat) + ",\"issues\":"@ + json_string_of(
        er.issues@,
    ) + ",\"outgoing_links\":"@ + json_string_array_of(string_views(er.outgoing_links@))
        + ",\"crawl_timestamp\":"@ + json_string_of(er.crawl_timestamp@)
        + ",\"crawl_quality_bucket\":"@ + json_string_of(er.crawl_quality_bucket@) + "}"@
}

fn push_lit(out: &mut Vec<char>, lit: &str)
    ensures
        final(out)@ == old(out)@ + lit@,
{
    let lv = str_chars(lit);
    let mut i: usize = 0;
    while i < lv.len()
        invariant
            i <= lv@.len(),
            lv@ == lit@,
            out@ == old(out)@ + lv@.subrange(0, i as int),
        decreases lv@.len() - i,
    {
        out.push(lv[i]);
        i = i + 1;
        proof {
            assert(out@ =~= old(out)@ + lv@.subrange(0, i as int));
        }
    }
    proof {
        assert(lv@.subrange(0, lv@.len() as int) =~= lv@);
    }
}

fn push_num(out: &mut Vec<char>, n: u128)
    ensures
        final(out)@ == old(out)@ + crate::strutil::dec_str(n as nat),
{
    let mut d = crate::strutil::fmt_u128(n);
    out.append(&mut d);
}

/// Encode one dataset record as its compact JSON object.
#[verifier::rlimit(100)]
pub fn export_record_to_json_text(er: &ExportRecord) -> (r: String)
    ensures
        r@ == record_json_of(*er),
{
    let mut out: Vec<char> = Vec::new();
    push_lit(&mut out, "{\"url\":");
    push_json_string(&mut out, er.url.as_str());
    push_lit(&mut out, ",\"status\":");
    push_num(&mut out, er.status as u128);
    push_lit(&mut out, ",\"mime\":");
    push_json_string(&mut out, er.mime.as_str());
    push_lit(&mut out, ",\"retrieval_status\":");
    push_json_string(&mut out, er.retrieval_status.as_str());
    push_lit(&mut out, ",\"indexability\":");
    push_json_string(&mut out, er.indexability.as_str());
    push_lit(&mut out, ",\"title\":");
    push_json_string(&mut out, er.title.as_str());
    push_lit(&mut out, ",\"title_length\":");
    push_num(&mut out, er.title_length as u128);
    push_lit(&mut out, ",\"meta\":");
    push_json_string(&mut out, er.meta.as_str());
    push_lit(&mut out, ",\"meta_length\":");
    push_num(&mut out, er.meta_length as u128);
    push_lit(&mut out, ",\"h1\":");
    push_json_string(&mut out, er.h1.as_str());
    push_lit(&mut out, ",\"canonical\":");
    push_json_string(&mut out, er.canonical.as_str());
    push_lit(&mut out, ",\"word_count\":");
    push_num(&mut out, er.word_count as u128);
    push_lit(&mut out, ",\"size\":");
    push_num(&mut out, er.size as u128);
    push_lit(&mut out, ",\"response_time_ms\":");
    push_num(&mut out, er.response_time_ms);
    push_lit(&mut out, ",\"last_modified\":");
    push_json_string(&mut out, er.last_modified.as_str());
    push_lit(&mut out, ",\"redirect_url\":");
    push_json_string(&mut out, er.redirect_url.as_str());
    push_lit(&mut out, ",\"redirect_type\":");
    push_json_string(&mut out, er.redirect_type.as_str());
    push_lit(&mut out, ",\"link_count\":");
    push_num(&mut out, er.link_count as u128);
    push_lit(&mut out, ",\"internal_link_count\":");
    push_num(&mut out, er.internal_link_count as u128);
    push_lit(&mut out, ",\"external_link_count\":");
    push_num(&mut out, er.external_link_count as u128);
    push_lit(&mut out, ",\"h1_count\":");
    push_num(&mut out, er.h1_count as u128);
    push_lit(&mut out, ",\"h2_count\":");
    push_num(&mut out, er.h2_count as u128);
    push_lit(&mut out, ",\"image_count\":");
    push_num(&mut out, er.image_count as u128);
    push_lit(&mut out, ",\"image_missing_alt_count\":");
    push_num(&mut out, er.image_missing_alt_count as u128);
    push_lit(&mut out, ",\"structured_data_count\":");
    push_num(&mut out, er.structured_data_count as u128);
    push_lit(&mut out, ",\"seo_score\":");
    push_num(&mut out, er.seo_score as u128);
    push_lit(&mut out, ",\"issue_count\":");
    push_num(&mut out, er.issue_count as u128);
    push_lit(&mut out, ",\"issues\":");
    push_json_string(&mut out, er.issues.as_str());
    push_lit(&mut out, ",\"outgoing_links\":");
    push_json_string_array(&mut out, &er.outgoing_links);
    push_lit(&mut out, ",\"crawl_timestamp\":");
    push_json_string(&mut out, er.crawl_timestamp.as_str());
    push_lit(&mut out, ",\"crawl_quality_bucket\":");
    push_json_string(&mut out, er.crawl_quality_bucket.as_str());
    push_lit(&mut out, "}");
    proof {
        assert(out@ =~= record_json_of(*er));
    }
    chars_string(&out)
}

} // verus!

verus! {

/// Look up one string field of a record at a JSON pointer prefix.
fn jfield_str(text: &str, prefix: &Vec<char>, tail: &str) -> (r: Option<String>)
    ensures
        r is Some <==> crate::jsonio::json_str_at(text@, prefix@ + tail@) is Some,
        r matches Some(v) ==> crate::jsonio::json_str_at(text@, prefix@ + tail@) == Some(v@),
{
    let mut p: Vec<char> = Vec::new();
    let mut i: usize = 0;
    while i < prefix.len()
        invariant
            i <= prefix@.len(),
            p@ == prefix@.subrange(0, i as int),
        decreases prefix@.len() - i,
    {
        p.push(prefix[i]);
        i = i + 1;
        proof {
            assert(p@ =~= prefix@.subrange(0, i as int));
        }
    }
    proof {
        assert(prefix@.subrange(0, prefix@.len() as int) =~= prefix@);
    }
    let mut tv = str_chars(tail);
    p.append(&mut tv);
    let ps = chars_string(&p);
    crate::jsonio::json_string_at(text, ps.as_str())
}

/// Look up one unsigned field of a record at a JSON pointer prefix.
fn jfield_uint(text: &str, prefix: &Vec<char>, tail: &str) -> (r: Option<u64>)
    ensures
        r == crate::jsonio::json_uint_at(text@, prefix@ + tail@),
{
    let mut p: Vec<char> = Vec::new();
    let mut i: usize = 0;
    while i < prefix.len()
        invariant
            i <= prefix@.len(),
            p@ == prefix@.subrange(0, i as int),
        decreases prefix@.len() - i,
    {
        p.push(prefix[i]);
        i = i + 1;
        proof {
            assert(p@ =~= prefix@.subrange(0, i as int));
        }
    }
    proof {
        assert(prefix@.subrange(0, prefix@.len() as int) =~= prefix@);
    }
    let mut tv = str_chars(tail);
    p.append(&mut tv);
    let ps = chars_string(&p);
    crate::jsonio::json_uint_value_at(text, ps.as_str())
}

/// Does the JSON at this pointer prefix hold a complete record? Every
/// field must be present with its type, and every number must fit its
/// column.
pub open spec fn json_record_ok(text: Seq<char>, prefix: Seq<char>) -> bool {
    &&& crate::jsonio::json_str_at(text, prefix + "/url"@) is Some
    &&& match crate::jsonio::json_uint_at(text, prefix + "/status"@) {
        Some(v) => v <= u16::MAX,
        None => false,
    }
    &&& crate::jsonio::json_str_at(text, prefix + "/mime"@) is Some
    &&& crate::jsonio::json_str_at(text, prefix + "/retrieval_status"@) is Some
    &&& crate::jsonio::json_str_at(text, prefix + "/indexability"@) is Some
    &&& crate::jsonio::json_str_at(text, prefix + "/title"@) is Some
    &&& match crate::jsonio::json_uint_at(text, prefix + "/title_length"@) {
        Some(v) => v <= usize::MAX as u64,
        None => false,
    }
    &&& crate::jsonio::json_str_at(text, prefix + "/meta"@) is Some
    &&& match crate::jsonio::json_uint_at(text, prefix + "/meta_length"@) {
        Some(v) => v <= usize::MAX as u64,
        None => false,
    }
    &&& crate::jsonio::json_str_at(text, prefix + "/h1"@) is Some
    &&& crate::jsonio::json_str_at(text, prefix + "/canonical"@) is Some
    &&& match crate::jsonio::json_uint_at(text, prefix + "/word_count"@) {
        Some(v) => v <= usize::MAX as u64,
        None => false,
    }
    &&& match crate::jsonio::json_uint_at(text, prefix + "/size"@) {
        Some(v) => v <= usize::MAX as u64,
        None => false,
    }
    &&& crate::jsonio::json_uint_at(text, prefix + "/response_time_ms"@) is Some
    &&& crate::jsonio::json_str_at(text, prefix + "/last_modified"@) is Some
    &&& crate::jsonio::json_str_at(text, prefix + "/redirect_url"@) is Some
    &&& crate::jsonio::json_str_at(text, prefix + "/redirect_type"@) is Some
    &&& match crate::jsonio::json_uint_at(text, prefix + "/link_count"@) {
        Some(v) => v <= usize::MAX as u64,
        None => false,
    }
    &&& match crate::jsonio::json_uint_at(text, prefix + "/internal_link_count"@) {
        Some(v) => v <= usize::MAX as u64,
        None => false,
    }
    &&& match crate::jsonio::json_uint_at(text, prefix + "/external_link_count"@) {
        Some(v) => v <= usize::MAX as u64,
        None => false,
    }
    &&& match crate::jsonio::json_uint_at(text, prefix + "/h1_count"@) {
        Some(v) => v <= usize::MAX as u64,
        None => false,
    }
    &&& match crate::jsonio::json_uint_at(text, prefix + "/h2_count"@) {
        Some(v) => v <= usize::MAX as u64,
        None => false,
    }
    &&& match crate::jsonio::json_uint_at(text, prefix + "/image_count"@) {
        Some(v) => v <= usize::MAX as u64,
        None => false,
    }
    &&& match crate::jsonio::json_uint_at(text, prefix + "/image_missing_alt_count"@) {
        Some(v) => v <= usize::MAX as u64,
        None => false,
    }
    &&& match crate::jsonio::json_uint_at(text, prefix + "/structured_data_count"@) {
        Some(v) => v <= usize::MAX as u64,
        None => false,
    }
    &&& match crate::jsonio::json_uint_at(text, prefix + "/seo_score"@) {
        Some(v) => v <= u8::MAX,
        None => false,
    }
    &&& match crate::jsonio::json_uint_at(text, prefix + "/issue_count"@) {
        Some(v) => v <= usize::MAX as u64,
        None => false,
    }
    &&& crate::jsonio::json_str_at(text, prefix + "/issues"@) is Some
    &&& crate::jsonio::json_strs_at(text, prefix + "/outgoing_links"@) is Some
    &&& crate::jsonio::json_str_at(text, prefix + "/crawl_timestamp"@) is Some
    &&& crate::jsonio::json_str_at(text, prefix + "/crawl_quality_bucket"@) is Some
}

/// Does a flat record hold exactly the JSON fields at this prefix?
pub open spec fn json_export_matches(er: ExportRecord, text: Seq<char>, prefix: Seq<char>) -> bool {
    &&& Some(er.url@) == crate::jsonio::json_str_at(text, prefix + "/url"@)
    &&& Some(er.status as u64) == crate::jsonio::json_uint_at(text, prefix + "/status"@)
    &&& Some(er.mime@) == crate::jsonio::json_str_at(text, prefix + "/mime"@)
    &&& Some(er.retrieval_status@) == crate::jsonio::json_str_at(
        text,
        prefix + "/retrieval_status"@,
    )
    &&& Some(er.indexability@) == crate::jsonio::json_str_at(text, prefix + "/indexability"@)
    &&& Some(er.title@) == crate::jsonio::json_str_at(text, prefix + "/title"@)
    &&& Some(er.title_length as u64) == crate::jsonio::json_uint_at(
        text,
        prefix + "/title_length"@,
    )
    &&& Some(er.meta@) == crate::jsonio::json_str_at(text, prefix + "/meta"@)
    &&& Some(er.meta_length as u64) == crate::jsonio::json_uint_at(text, prefix + "/meta_length"@)
    &&& Some(er.h1@) == crate::jsonio::json_str_at(text, prefix + "/h1"@)
    &&& Some(er.canonical@) == crate::jsonio::json_str_at(text, prefix + "/canonical"@)
    &&& Some(er.word_count as u64) == crate::jsonio::json_uint_at(text, prefix + "/word_count"@)
    &&& Some(er.size as u64) == crate::jsonio::json_uint_at(text, prefix + "/size"@)
    &&& Some(er.response_time_ms as u64) == crate::jsonio::json_uint_at(
        text,
        prefix + "/response_time_ms"@,
    )
    &&& Some(er.last_modified@) == crate::jsonio::json_str_at(text, prefix + "/last_modified"@)
    &&& Some(er.redirect_url@) == crate::jsonio::json_str_at(text, prefix + "/redirect_url"@)
    &&& Some(er.redirect_type@) == crate::jsonio::json_str_at(text, prefix + "/redirect_type"@)
    &&& Some(er.link_count as u64) == crate::jsonio::json_uint_at(text, prefix + "/link_count"@)
    &&& Some(er.internal_link_count as u64) == crate::jsonio::json_uint_at(
        text,
        prefix + "/internal_link_count"@,
    )
    &&& Some(er.external_link_count as u64) == crate::jsonio::json_uint_at(
        text,
        prefix + "/external_link_count"@,
    )
    &&& Some(er.h1_count as u64) == crate::jsonio::json_uint_at(text, prefix + "/h1_count"@)
    &&& Some(er.h2_count as u64) == crate::jsonio::json_uint_at(text, prefix + "/h2_count"@)
    &&& Some(er.image_count as u64) == crate::jsonio::json_uint_at(text, prefix + "/image_count"@)
    &&& Some(er.image_missing_alt_count as u64) == crate::jsonio::json_uint_at(
        text,
        prefix + "/image_missing_alt_count"@,
    )
    &&& Some(er.structured_data_count as u64) == crate::jsonio::json_uint_at(
        text,
        prefix + "/structured_data_count"@,
    )
    &&& Some(er.seo_score as u64) == crate::jsonio::json_uint_at(text, prefix + "/seo_score"@)
    &&& Some(er.issue_count as u64) == crate::jsonio::json_uint_at(text, prefix + "/issue_count"@)
    &&& Some(er.issues@) == crate::jsonio::json_str_at(text, prefix + "/issues"@)
    &&& Some(string_views(er.outgoing_links@)) == crate::jsonio::json_strs_at(
        text,
        prefix + "/outgoing_links"@,
    )
    &&& Some(er.crawl_timestamp@) == crate::jsonio::json_str_at(text, prefix + "/crawl_timestamp"@)
    &&& Some(er.crawl_quality_bucket@) == crate::jsonio::json_str_at(
        text,
        prefix + "/crawl_quality_bucket"@,
    )
}

/// Read the record at a JSON pointer prefix; `None` when any field is
/// missing, has the wrong type, or overflows its column.
#[verifier::rlimit(100)]
pub fn export_record_from_json(text: &str, prefix: &Vec<char>) -> (r: Option<ExportRecord>)
    ensures
        r is Some <==> json_record_ok(text@, prefix@),
        r matches Some(er) ==> json_export_matches(er, text@, prefix@),
{
    let url = match jfield_str(text, prefix, "/url") {
        Some(v) => v,
        None => {
            return None;
        },
    };
    let status_u = match jfield_uint(text, prefix, "/status") {
        Some(v) => v,
        None => {
            return None;
        },
    };
    if status_u > 65535 {
        return None;
    }
    let mime = match jfield_str(text, prefix, "/mime") {
        Some(v) => v,
        None => {
            return None;
        },
    };
    let retrieval_status = match jfield_str(text, prefix, "/retrieval_status") {
        Some(v) => v,
        None => {
            return None;
        },
    };
    let indexability = match jfield_str(text, prefix, "/indexability") {
        Some(v) => v,
        None => {
            return None;
        },
    };
    let title = match jfield_str(text, prefix, "/title") {
        Some(v) => v,
        None => {
            return None;
        },
    };
    let title_length_u = match jfield_uint(text, prefix, "/title_length") {
        Some(v) => v,
        None => {
            return None;
        },
    };
    if title_length_u > usize::MAX as u64 {
        return None;
    }
    let meta = match jfield_str(text, prefix, "/meta") {
        Some(v) => v,
        None => {
            return None;
        },
    };
    let meta_length_u = match jfield_uint(text, prefix, "/meta_length") {
        Some(v) => v,
        None => {
            return None;
        },
    };
    if meta_length_u > usize::MAX as u64 {
        return None;
    }
    let h1 = match jfield_str(text, prefix, "/h1") {
        Some(v) => v,
        None => {
            return None;
        },
    };
    let canonical = match jfield_str(text, prefix, "/canonical") {
        Some(v) => v,
        None => {
            return None;
        },
    };
    let word_count_u = match jfield_uint(text, prefix, "/word_count") {
        Some(v) => v,
        None => {
            return None;
        },
    };
    if word_count_u > usize::MAX as u64 {
        return None;
    }
    let size_u = match jfield_uint(text, prefix, "/size") {
        Some(v) => v,
        None => {
            return None;
        },
    };
    if size_u > usize::MAX as u64 {
        return None;
    }
    let response_time_u = match jfield_uint(text, prefix, "/response_time_ms") {
        Some(v) => v,
        None => {
            return None;
        },
    };
    let last_modified = match jfield_str(text, prefix, "/last_modified") {
        Some(v) => v,
        None => {
            return None;
        },
    };
    let redirect_url = match jfield_str(text, prefix, "/redirect_url") {
        Some(v) => v,
        None => {
            return None;
        },
    };
    let redirect_type = match jfield_str(text, prefix, "/redirect_type") {
        Some(v) => v,
        None => {
            return None;
        },
    };
    let link_count_u = match jfield_uint(text, prefix, "/link_count") {
        Some(v) => v,
        None => {
            return None;
        },
    };
    if link_count_u > usize::MAX as u64 {
        return None;
    }
    let ilc_u = match jfield_uint(text, prefix, "/internal_link_count") {
        Some(v) => v,
        None => {
            return None;
        },
    };
    if ilc_u > usize::MAX as u64 {
        return None;
    }
    let elc_u = match jfield_uint(text, prefix, "/external_link_count") {
        Some(v) => v,
        None => {
            return None;
        },
    };
    if elc_u > usize::MAX as u64 {
        return None;
    }
    let h1c_u = match jfield_uint(text, prefix, "/h1_count") {
        Some(v) => v,
        None => {
            return None;
        },
    };
    if h1c_u > usize::MAX as u64 {
        return None;
    }
    let h2c_u = match jfield_uint(text, prefix, "/h2_count") {
        Some(v) => v,
        None => {
            return None;
        },
    };
    if h2c_u > usize::MAX as u64 {
        return None;
    }
    let ic_u = match jfield_uint(text, prefix, "/image_count") {
        Some(v) => v,
        None => {
            return None;
        },
    };
    if ic_u > usize::MAX as u64 {
        return None;
    }
    let ima_u = match jfield_uint(text, prefix, "/image_missing_alt_count") {
        Some(v) => v,
        None => {
            return None;
        },
    };
    if ima_u > usize::MAX as u64 {
        return None;
    }
    let sdc_u = match jfield_uint(text, prefix, "/structured_data_count") {
        Some(v) => v,
        None => {
            return None;
        },
    };
    if sdc_u > usize::MAX as u64 {
        return None;
    }
    let score_u = match jfield_uint(text, prefix, "/seo_score") {
        Some(v) => v,
        None => {
            return None;
        },
    };
    if score_u > 255 {
        return None;
    }
    let icount_u = match jfield_uint(text, prefix, "/issue_count") {
        Some(v) => v,
        None => {
            return None;
        },
    };
    if icount_u > usize::MAX as u64 {
        return None;
    }
    let issues = match jfield_str(text, prefix, "/issues") {
        Some(v) => v,
        None => {
            return None;
        },
    };
    let outgoing_links = {
        let mut p: Vec<char> = Vec::new();
        let mut i: usize = 0;
        while i < prefix.len()
            invariant
                i <= prefix@.len(),
                p@ == prefix@.subrange(0, i as int),
            decreases prefix@.len() - i,
        {
            p.push(prefix[i]);
            i = i + 1;
            proof {
                assert(p@ =~= prefix@.subrange(0, i as int));
            }
        }
        proof {
            assert(prefix@.subrange(0, prefix@.len() as int) =~= prefix@);
        }
        let mut tv = str_chars("/outgoing_links");
        p.append(&mut tv);
        let ps = chars_string(&p);
        match crate::jsonio::json_strings_at(text, ps.as_str()) {
            Some(v) => v,
            None => {
                return None;
            },
        }
    };
    let crawl_timestamp = match jfield_str(text, prefix, "/crawl_timestamp") {
        Some(v) => v,
        None => {
            return None;
        },
    };
    let crawl_quality_bucket = match jfield_str(text, prefix, "/crawl_quality_bucket") {
        Some(v) => v,
        None => {
            return None;
        },
    };
    Some(
        ExportRecord {
            url,
            status: status_u as u16,
            mime,
            retrieval_status,
            indexability,
            title,
            title_length: title_length_u as usize,
            meta,
            meta_length: meta_length_u as usize,
            h1,
            canonical,
            word_count: word_count_u as usize,
            size: size_u as usize,
            response_time_ms: response_time_u as u128,
            last_modified,
            redirect_url,
            redirect_type,
            link_count: link_count_u as usize,
            internal_link_count: ilc_u as usize,
            external_link_count: elc_u as usize,
            h1_count: h1c_u as usize,
            h2_count: h2c_u as usize,
            image_count: ic_u as usize,
            image_missing_alt_count: ima_u as usize,
            structured_data_count: sdc_u as usize,
            seo_score: score_u as u8,
            issue_count: icount_u as usize,
            issues,
            outgoing_links,
            crawl_timestamp,
            crawl_quality_bucket,
        },
    )
}

} // verus!

verus! {

/// Does a loaded row-and-links pair hold exactly what the JSON record at
/// this prefix says, issues and score recovered as the round-trip law
/// demands?
pub open spec fn row_matches_json(
    row: CrawlRow,
    links: Vec<String>,
    text: Seq<char>,
    prefix: Seq<char>,
) -> bool {
    exists|er: ExportRecord|
        {
            &&& #[trigger] json_export_matches(er, text, prefix)
            &&& row.url == er.url
            &&& row.status == er.status
            &&& row.mime == er.mime
            &&& row.retrieval_status == er.retrieval_status
            &&& row.indexability == er.indexability
            &&& row.title == er.title
            &&& row.title_length == er.title_length
            &&& row.meta == er.meta
            &&& row.meta_length == er.meta_length
            &&& row.h1 == er.h1
            &&& row.canonical == er.canonical
            &&& row.word_count == er.word_count
            &&& row.size == er.size
            &&& row.response_time == er.response_time_ms
            &&& row.last_modified == er.last_modified
            &&& row.redirect_url == er.redirect_url
            &&& row.redirect_type == er.redirect_type
            &&& row.link_count == er.link_count
            &&& row.internal_link_count == er.internal_link_count
            &&& row.external_link_count == er.external_link_count
            &&& row.h1_count == er.h1_count
            &&& row.h2_count == er.h2_count
            &&& row.image_count == er.image_count
            &&& row.image_missing_alt_count == er.image_missing_alt_count
            &&& row.structured_data_count == er.structured_data_count
            &&& row.issues@ == loaded_issues_of(er.issues@, er.retrieval_status@)
            &&& row.seo_score == loaded_score_of(er.seo_score, row.issues@)
            &&& row.crawl_timestamp == er.crawl_timestamp
            &&& links == er.outgoing_links
        }
}

/// The non-blank lines of a JSON-lines input, trimmed.
pub open spec fn kept_json_lines(lines: Seq<Seq<char>>) -> Seq<Seq<char>>
    decreases lines.len(),
{
    if lines.len() == 0 {
        Seq::empty()
    } else {
        kept_json_lines(lines.drop_last()) + (if trim_seq(lines.last()).len() > 0 {
            seq![trim_seq(lines.last())]
        } else {
            Seq::<Seq<char>>::empty()
        })
    }
}

/// Is a JSON dataset text fully loadable? Blank input is; a JSON array
/// needs every element to be a complete record; anything else is read
/// line by line and every non-blank line must be a complete record.
pub open spec fn json_load_ok(text: Seq<char>) -> bool {
    if trim_seq(text).len() == 0 {
        true
    } else {
        match crate::jsonio::json_arr_len_at(text, Seq::<char>::empty()) {
            Some(n) => forall|i: int|
                0 <= i < n ==> #[trigger] json_record_ok(
                    text,
                    "/"@ + crate::strutil::dec_str(i as nat),
                ),
            None => {
                let kept = kept_json_lines(split_seq(text, '\n'));
                forall|i: int|
                    0 <= i < kept.len() ==> json_record_ok(#[trigger] kept[i], Seq::<char>::empty())
            },
        }
    }
}

/// Load the rows of a JSON dataset text, whether a JSON array or JSON
/// lines. `None` when any record is incomplete.
#[verifier::rlimit(100)]
pub fn load_rows_from_json_text(text: &str) -> (r: Option<Vec<(CrawlRow, Vec<String>)>>)
    ensures
        r is Some <==> json_load_ok(text@),
        r matches Some(out) ==> ({
            if trim_seq(text@).len() == 0 {
                out@.len() == 0
            } else {
                match crate::jsonio::json_arr_len_at(text@, Seq::<char>::empty()) {
                    Some(n) => out@.len() == n && forall|k: int|
                        0 <= k < out@.len() ==> row_matches_json(
                            (#[trigger] out@[k]).0,
                            out@[k].1,
                            text@,
                            "/"@ + crate::strutil::dec_str(k as nat),
                        ),
                    None => {
                        let kept = kept_json_lines(split_seq(text@, '\n'));
                        out@.len() == kept.len() && forall|k: int|
                            0 <= k < out@.len() ==> row_matches_json(
                                (#[trigger] out@[k]).0,
                                out@[k].1,
                                kept[k],
                                Seq::<char>::empty(),
                            )
                    },
                }
            }
        }),
{
    let tv = str_chars(text);
    let tt = trim_vec(&tv);
    if tt.len() == 0 {
        let out: Vec<(CrawlRow, Vec<String>)> = Vec::new();
        return Some(out);
    }
    proof {
        reveal_strlit("");
        assert(""@ =~= Seq::<char>::empty());
    }
    match crate::jsonio::json_array_len_at(text, "") {
        Some(n) => {
            let mut out: Vec<(CrawlRow, Vec<String>)> = Vec::new();
            let mut i: usize = 0;
            while i < n
                invariant
                    i <= n,
                    crate::jsonio::json_arr_len_at(text@, Seq::<char>::empty()) == Some(n),
                    trim_seq(text@).len() > 0,
                    out@.len() == i,
                    forall|k: int|
                        0 <= k < i ==> #[trigger] json_record_ok(
                            text@,
                            "/"@ + crate::strutil::dec_str(k as nat),
                        ),
                    forall|k: int|
                        0 <= k < i ==> row_matches_json(
                            (#[trigger] out@[k]).0,
                            out@[k].1,
                            text@,
                            "/"@ + crate::strutil::dec_str(k as nat),
                        ),
                decreases n - i,
            {
                let mut prefix: Vec<char> = Vec::new();
                prefix.push('/');
                let mut digits = crate::strutil::fmt_usize(i);
                prefix.append(&mut digits);
                proof {
                    assert(prefix@ =~= "/"@ + crate::strutil::dec_str(i as nat)) by {
                        reveal_strlit("/");
                    }
                }
                match export_record_from_json(text, &prefix) {
                    Some(er) => {
                        let ghost er_g = er;
                        let (row, links) = export_record_to_row(er);
                        out.push((row, links));
                        proof {
                            assert(row_matches_json(
                                out@[out@.len() - 1].0,
                                out@[out@.len() - 1].1,
                                text@,
                                "/"@ + crate::strutil::dec_str((i as nat)),
                            ));
                        }
                    },
                    None => {
                        proof {
                            if json_load_ok(text@) {
                                let ii: int = i as int;
                                assert(0 <= ii < n);
                                assert(json_record_ok(
                                    text@,
                                    "/"@ + crate::strutil::dec_str(ii as nat),
                                ));
                                assert(false);
                            }
                        }
                        return None;
                    },
                }
                i = i + 1;
            }
            Some(out)
        },
        None => {
            let lines = split_vec(&tv, '\n');
            let ghost lv = lines@.map_values(|p: Vec<char>| p@);
            let mut out: Vec<(CrawlRow, Vec<String>)> = Vec::new();
            let mut i: usize = 0;
            proof {
                assert(lv.subrange(0, 0) =~= Seq::<Seq<char>>::empty());
                assert(kept_json_lines(lv.subrange(0, 0)) =~= Seq::<Seq<char>>::empty());
            }
            while i < lines.len()
                invariant
                    i <= lines@.len(),
                    lv == lines@.map_values(|p: Vec<char>| p@),
                    lv == split_seq(text@, '\n'),
                    tv@ == text@,
                    trim_seq(text@).len() > 0,
                    crate::jsonio::json_arr_len_at(text@, Seq::<char>::empty()) is None,
                    out@.len() == kept_json_lines(lv.subrange(0, i as int)).len(),
                    forall|k: int|
                        0 <= k < kept_json_lines(lv.subrange(0, i as int)).len()
                            ==> json_record_ok(
                            #[trigger] kept_json_lines(lv.subrange(0, i as int))[k],
                            Seq::<char>::empty(),
                        ),
                    forall|k: int|
                        0 <= k < out@.len() ==> row_matches_json(
                            (#[trigger] out@[k]).0,
                            out@[k].1,
                            kept_json_lines(lv.subrange(0, i as int))[k],
                            Seq::<char>::empty(),
                        ),
                decreases lines@.len() - i,
            {
                let ghost pre = lv.subrange(0, i as int);
                let ghost cur = lv.subrange(0, i + 1);
                proof {
                    assert(cur.drop_last() =~= pre);
                    assert(cur.last() == lv[i as int]);
                }
                let lt = trim_vec(&lines[i]);
                if lt.len() > 0 {
                    let line = chars_string(&lt);
                    let empty_prefix: Vec<char> = Vec::new();
                    proof {
                        assert(empty_prefix@ =~= Seq::<char>::empty());
                        assert(kept_json_lines(cur) =~= kept_json_lines(pre).push(lt@));
                    }
                    match export_record_from_json(line.as_str(), &empty_prefix) {
                        Some(er) => {
                            let (row, links) = export_record_to_row(er);
                            out.push((row, links));
                            proof {
                                assert(row_matches_json(
                                    out@[out@.len() - 1].0,
                                    out@[out@.len() - 1].1,
                                    lt@,
                                    Seq::<char>::empty(),
                                ));
                            }
                        },
                        None => {
                            proof {
                                assert(!json_record_ok(lt@, Seq::<char>::empty()));
                                lemma_kept_lines_prefix(lv, i as int);
                                if json_load_ok(text@) {
                                    let pos = kept_json_lines(pre).len() as int;
                                    assert(json_record_ok(
                                        kept_json_lines(lv)[pos],
                                        Seq::<char>::empty(),
                                    ));
                                    assert(false);
                                }
                            }
                            return None;
                        },
                    }
                } else {
                    proof {
                        assert(kept_json_lines(cur) =~= kept_json_lines(pre));
                    }
                }
                i = i + 1;
            }
            proof {
                assert(lv.subrange(0, lv.len() as int) =~= lv);
            }
            Some(out)
        },
    }
}

/// A kept line in a prefix stays at the same position in the whole list.
proof fn lemma_kept_lines_prefix(lines: Seq<Seq<char>>, i: int)
    requires
        0 <= i < lines.len(),
        trim_seq(lines[i]).len() > 0,
    ensures
        kept_json_lines(lines).len() > kept_json_lines(lines.subrange(0, i)).len(),
        kept_json_lines(lines)[kept_json_lines(lines.subrange(0, i)).len() as int] == trim_seq(
            lines[i],
        ),
    decreases lines.len(),
{
    if i == lines.len() - 1 {
        assert(lines.subrange(0, i) =~= lines.drop_last());
        assert(kept_json_lines(lines) =~= kept_json_lines(lines.drop_last()).push(
            trim_seq(lines.last()),
        ));
    } else {
        lemma_kept_lines_prefix(lines.drop_last(), i);
        assert(lines.drop_last().subrange(0, i) =~= lines.subrange(0, i));
        assert(lines.drop_last()[i] == lines[i]);
        let kp = kept_json_lines(lines.drop_last());
        let kq = kept_json_lines(lines);
        if trim_seq(lines.last()).len() > 0 {
            assert(kq =~= kp.push(trim_seq(lines.last())));
        } else {
            assert(kq =~= kp);
        }
    }
}

} // verus!

verus! {

/// The JSON-array framing of the streaming sink: what to write before,
/// between, and after the records. The close is written once; a second
/// finalize is a no-op.
pub struct JsonArrayFraming {
    /// No record has been written yet.
    pub first: bool,
    /// The closing bracket has been written.
    pub closed: bool,
}

impl JsonArrayFraming {
    /// Start a fresh array; the sink writes `opening_text` on open.
    pub fn new() -> (r: JsonArrayFraming)
        ensures
            r.first,
            !r.closed,
    {
        JsonArrayFraming { first: true, closed: false }
    }

    /// What the sink writes when the file opens.
    pub fn opening_text(&self) -> (r: &'static str)
        ensures
            r@ == "[\n"@,
    {
        "[\n"
    }

    /// What to write before the next record: a separator for every
    /// record after the first.
    pub fn separator(&mut self) -> (r: &'static str)
        requires
            !old(self).closed,
        ensures
            !final(self).first,
            final(self).closed == old(self).closed,
            old(self).first ==> r@ == ""@,
            !old(self).first ==> r@ == ",\n"@,
    {
        if self.first {
            self.first = false;
            ""
        } else {
            ",\n"
        }
    }

    /// What to write to close the array: the bracket once, with a
    /// leading newline when any record was written; nothing on a second
    /// close.
    pub fn closing(&mut self) -> (r: &'static str)
        ensures
            final(self).closed,
            final(self).first == old(self).first,
            old(self).closed ==> r@ == ""@,
            !old(self).closed && old(self).first ==> r@ == "]\n"@,
            !old(self).closed && !old(self).first ==> r@ == "\n]\n"@,
    {
        if self.closed {
            ""
        } else {
            self.closed = true;
            if self.first {
                "]\n"
            } else {
                "\n]\n"
            }
        }
    }
}

} // verus!
