//! The data model: page records, crawl events, control commands, and the
//! small mode enums of the dashboard.

use vstd::prelude::*;

use crate::issues::{score_of, SeoIssue};

verus! {

/// The canonical per-URL observation.
#[derive(Debug, Clone)]
pub struct CrawlRow {
    pub url: String,
    pub status: u16,
    pub mime: String,
    pub retrieval_status: String,
    pub indexability: String,
    pub title: String,
    pub title_length: usize,
    pub meta: String,
    pub meta_length: usize,
    pub h1: String,
    pub canonical: String,
    pub word_count: usize,
    pub size: usize,
    pub response_time: u128,
    pub last_modified: String,
    pub redirect_url: String,
    pub redirect_type: String,
    pub link_count: usize,
    pub internal_link_count: usize,
    pub external_link_count: usize,
    pub h1_count: usize,
    pub h2_count: usize,
    pub image_count: usize,
    pub image_missing_alt_count: usize,
    pub structured_data_count: usize,
    pub seo_score: u8,
    pub issues: Vec<SeoIssue>,
    pub crawl_timestamp: String,
}

/// What every constructed row guarantees: the issue list never repeats an
/// entry, the score is derived from the issues, and a row that was never
/// retrieved carries exactly the one issue saying so.
pub open spec fn row_wf(row: CrawlRow) -> bool {
    &&& row.issues@.no_duplicates()
    &&& row.seo_score == score_of(row.issues@)
    &&& row.retrieval_status@ != "retrieved"@ ==> row.issues@ == seq![SeoIssue::NotRetrieved]
}

/// A well-formed record's issue list never repeats an entry, and its
/// score is exactly 100 minus the issue penalties, floored at zero.
pub proof fn lemma_record_issue_discipline(row: CrawlRow)
    requires
        row_wf(row),
    ensures
        row.issues@.no_duplicates(),
        row.seo_score == score_of(row.issues@),
        row.seo_score == (if crate::issues::total_penalty(row.issues@) >= 100 {
            0int
        } else {
            100 - crate::issues::total_penalty(row.issues@)
        }),
{
}

/// The redirect class of a status code.
pub open spec fn redirect_class_of(status: u16) -> Seq<char> {
    if status == 301 || status == 308 {
        "Permanent"@
    } else if status == 302 || status == 303 || status == 307 {
        "Temporary"@
    } else if 300 <= status <= 399 {
        "Redirect"@
    } else {
        ""@
    }
}

/// Classify a 3xx status; empty for anything that is not a redirect.
pub fn redirect_class(status: u16) -> (r: &'static str)
    ensures
        r@ == redirect_class_of(status),
{
    if status == 301 || status == 308 {
        "Permanent"
    } else if status == 302 || status == 303 || status == 307 {
        "Temporary"
    } else if 300 <= status && status <= 399 {
        "Redirect"
    } else {
        ""
    }
}

/// Events emitted by the crawl side toward the consumer.
#[derive(Debug)]
pub enum CrawlEvent {
    Page { row: CrawlRow, discovered_links: Vec<String> },
    Unretrieved { url: String, reason: String },
    Stats { discovered: usize },
    Finished,
    Status(String),
    Error(String),
}

/// Commands accepted by the crawl controller.
#[derive(Debug)]
pub enum CrawlControl {
    SetFetchConcurrency(usize),
    RetryUrls { scope: RetryScope, urls: Vec<String> },
    Shutdown,
}

#[derive(Debug, Clone, Copy, PartialEq, Eq, Structural)]
pub enum RetryScope {
    SingleEntry,
    FailedOnly,
    Complete,
}

pub open spec fn retry_scope_label_of(scope: RetryScope) -> Seq<char> {
    match scope {
        RetryScope::SingleEntry => "single_entry"@,
        RetryScope::FailedOnly => "failed_only"@,
        RetryScope::Complete => "complete"@,
    }
}

impl RetryScope {
    pub fn label(self) -> (r: &'static str)
        ensures
            r@ == retry_scope_label_of(self),
    {
        match self {
            RetryScope::SingleEntry => "single_entry",
            RetryScope::FailedOnly => "failed_only",
            RetryScope::Complete => "complete",
        }
    }
}

#[derive(Debug, Copy, Clone, PartialEq, Eq, Structural)]
pub enum BrowserArg {
    Chrome,
    Firefox,
    Edge,
    Safari,
}

#[derive(Debug, Copy, Clone, PartialEq, Eq, Structural)]
pub enum FileFormatArg {
    Csv,
    Json,
}

#[derive(Debug, Copy, Clone, PartialEq, Eq, Structural)]
pub enum DataFormat {
    Csv,
    Json,
}

impl From<FileFormatArg> for DataFormat {
    fn from(value: FileFormatArg) -> (r: Self) {
        match value {
            FileFormatArg::Csv => DataFormat::Csv,
            FileFormatArg::Json => DataFormat::Json,
        }
    }
}

impl vstd::std_specs::convert::FromSpecImpl<FileFormatArg> for DataFormat {
    open spec fn obeys_from_spec() -> bool {
        true
    }

    open spec fn from_spec(value: FileFormatArg) -> DataFormat {
        match value {
            FileFormatArg::Csv => DataFormat::Csv,
            FileFormatArg::Json => DataFormat::Json,
        }
    }
}

#[derive(Debug, Clone, Copy, PartialEq, Eq, Structural)]
pub enum ActivePanel {
    Pages,
    Issues,
}

impl ActivePanel {
    pub fn as_index(self) -> (r: usize)
        ensures
            r == 0 <==> self is Pages,
            r == 1 <==> self is Issues,
    {
        match self {
            ActivePanel::Pages => 0,
            ActivePanel::Issues => 1,
        }
    }

    pub fn title(self) -> (r: &'static str)
        ensures
            self is Pages ==> r@ == "Pages"@,
            self is Issues ==> r@ == "Issues"@,
    {
        match self {
            ActivePanel::Pages => "Pages",
            ActivePanel::Issues => "Issues",
        }
    }
}

#[derive(Debug, Clone, Copy, PartialEq, Eq, Structural)]
pub enum PageSortMode {
    Latest,
    Status,
    LowestSeoScore,
    HighestResponseTime,
}

pub open spec fn page_sort_cycle_of(mode: PageSortMode) -> PageSortMode {
    match mode {
        PageSortMode::Latest => PageSortMode::Status,
        PageSortMode::Status => PageSortMode::LowestSeoScore,
        PageSortMode::LowestSeoScore => PageSortMode::HighestResponseTime,
        PageSortMode::HighestResponseTime => PageSortMode::Latest,
    }
}

impl PageSortMode {
    /// Step to the next sort mode in the fixed rotation.
    pub fn cycle(self) -> (r: Self)
        ensures
            r == page_sort_cycle_of(self),
    {
        match self {
            PageSortMode::Latest => PageSortMode::Status,
            PageSortMode::Status => PageSortMode::LowestSeoScore,
            PageSortMode::LowestSeoScore => PageSortMode::HighestResponseTime,
            PageSortMode::HighestResponseTime => PageSortMode::Latest,
        }
    }

    pub fn title(self) -> (r: &'static str)
        ensures
            self is Latest ==> r@ == "latest"@,
            self is Status ==> r@ == "status"@,
            self is LowestSeoScore ==> r@ == "seo_score"@,
            self is HighestResponseTime ==> r@ == "response_time"@,
    {
        match self {
            PageSortMode::Latest => "latest",
            PageSortMode::Status => "status",
            PageSortMode::LowestSeoScore => "seo_score",
            PageSortMode::HighestResponseTime => "response_time",
        }
    }
}

#[derive(Debug, Clone, Copy, PartialEq, Eq, Structural)]
pub enum SortDirection {
    Asc,
    Desc,
}

impl SortDirection {
    /// Flip the direction.
    pub fn toggle(self) -> (r: Self)
        ensures
            r != self,
            self is Asc <==> r is Desc,
    {
        match self {
            SortDirection::Asc => SortDirection::Desc,
            SortDirection::Desc => SortDirection::Asc,
        }
    }

    pub fn label(self) -> (r: &'static str)
        ensures
            self is Asc ==> r@ == "asc"@,
            self is Desc ==> r@ == "desc"@,
    {
        match self {
            SortDirection::Asc => "asc",
            SortDirection::Desc => "desc",
        }
    }
}

#[derive(Debug, Clone, Copy, PartialEq, Eq, Structural)]
pub enum PagesPane {
    Table,
    Details,
}

impl PagesPane {
    /// Step to the other pane.
    pub fn cycle(self) -> (r: Self)
        ensures
            r != self,
    {
        match self {
            PagesPane::Table => PagesPane::Details,
            PagesPane::Details => PagesPane::Table,
        }
    }

    /// The rotation has length two, so stepping back is stepping forward.
    pub fn reverse_cycle(self) -> (r: Self)
        ensures
            r != self,
    {
        self.cycle()
    }

    pub fn label(self) -> (r: &'static str)
        ensures
            self is Table ==> r@ == "table"@,
            self is Details ==> r@ == "details"@,
    {
        match self {
            PagesPane::Table => "table",
            PagesPane::Details => "details",
        }
    }
}

#[derive(Debug, Clone, Copy, PartialEq, Eq, Structural)]
pub enum IssuesPane {
    Distribution,
    Urls,
}

impl IssuesPane {
    /// Step to the other pane.
    pub fn cycle(self) -> (r: Self)
        ensures
            r != self,
    {
        match self {
            IssuesPane::Distribution => IssuesPane::Urls,
            IssuesPane::Urls => IssuesPane::Distribution,
        }
    }

    /// The rotation has length two, so stepping back is stepping forward.
    pub fn reverse_cycle(self) -> (r: Self)
        ensures
            r != self,
    {
        self.cycle()
    }

    pub fn label(self) -> (r: &'static str)
        ensures
            self is Distribution ==> r@ == "distribution"@,
            self is Urls ==> r@ == "urls"@,
    {
        match self {
            IssuesPane::Distribution => "distribution",
            IssuesPane::Urls => "urls",
        }
    }
}

} // verus!
