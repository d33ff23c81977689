use vstd::prelude::*;

verus! {

/// One extracted listing entry `(index, title, link)`.
///
/// The first component is the record's ordering key: the page index for
/// structured listing pages, or a globally unique rank for embedded-data
/// pages. Records from one page share the order in which the extractor
/// emitted them.
pub type PageRecord = (usize, String, String);

/// Why one page contributed no records. Each variant carries the index of
/// the page it originated from and a human-readable message.
#[derive(Debug)]
pub enum FetchError {
    /// The request or the read of its response failed.
    NetworkError { page: usize, message: String },
    /// The extractor signalled input it could not recover from.
    ParseError { page: usize, message: String },
    /// The strategy needed an extractor but none was supplied.
    MissingDependency { page: usize, message: String },
}

/// The outcome of fetching and extracting exactly one page: either all of
/// the page's records, or one error for the page as a whole. Never partial.
pub type FetchResult = Result<Vec<PageRecord>, FetchError>;

impl FetchError {
    /// The index of the page this error originated from.
    pub fn page(&self) -> (p: usize)
        ensures
            p == self.spec_page(),
    {
        match self {
            FetchError::NetworkError { page, .. } => *page,
            FetchError::ParseError { page, .. } => *page,
            FetchError::MissingDependency { page, .. } => *page,
        }
    }

    /// The human-readable message carried by this error.
    pub fn message(&self) -> (m: &String)
        ensures
            m@ == self.spec_message(),
    {
        match self {
            FetchError::NetworkError { message, .. } => message,
            FetchError::ParseError { message, .. } => message,
            FetchError::MissingDependency { message, .. } => message,
        }
    }

    /// The page index, as the contracts speak of it.
    pub open spec fn spec_page(&self) -> usize {
        match self {
            FetchError::NetworkError { page, .. } => *page,
            FetchError::ParseError { page, .. } => *page,
            FetchError::MissingDependency { page, .. } => *page,
        }
    }

    /// The message, as the contracts speak of it.
    pub open spec fn spec_message(&self) -> Seq<char> {
        match self {
            FetchError::NetworkError { message, .. } => message@,
            FetchError::ParseError { message, .. } => message@,
            FetchError::MissingDependency { message, .. } => message@,
        }
    }
}

/// A half-open range of page indices together with the page size the fetch
/// strategies use to compute absolute offsets.
pub struct PageRange {
    /// First page index, inclusive.
    pub start_page: usize,
    /// Last page index, exclusive.
    pub end_page: usize,
    /// Number of items per page.
    pub page_size: usize,
}

impl PageRange {
    /// A range is well formed when it is not inverted.
    pub open spec fn wf(self) -> bool {
        self.start_page <= self.end_page
    }

    /// How many pages the range spans.
    pub open spec fn spec_len(self) -> int {
        self.end_page - self.start_page
    }
}

/// The page indices a well-formed range covers, in ascending order: one
/// independent unit of fetch work is launched per entry.
pub fn pages_in_range(range: &PageRange) -> (pages: Vec<usize>)
    requires
        range.wf(),
    ensures
        pages@.len() == range.spec_len(),
        forall|i: int| 0 <= i < pages@.len() ==> pages@[i] == range.start_page + i,
{
    let mut pages: Vec<usize> = Vec::new();
    let mut p: usize = range.start_page;
    while p < range.end_page
        invariant
            range.start_page <= p <= range.end_page,
            pages@.len() == p - range.start_page,
            forall|i: int| 0 <= i < pages@.len() ==> pages@[i] == range.start_page + i,
        decreases range.end_page - p,
    {
        pages.push(p);
        p = p + 1;
    }
    pages
}

} // verus!
