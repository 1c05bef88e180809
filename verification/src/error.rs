//! What can go wrong while the report is put together.

use vstd::prelude::*;

verus! {

/// The version-control query interface did not answer as expected.
#[derive(Debug, Clone, Copy, PartialEq, Eq)]
pub enum RepositoryError {
    /// The command could not be run or ended with a non-zero status.
    CommandFailed,
    /// The output holds bytes that are not UTF-8 where text was expected.
    NotUtf8,
    /// A branch record has `found` fields in place of two.
    FieldCount { found: usize },
}

/// The review tool did not answer as expected.
#[derive(Debug, Clone, Copy, PartialEq, Eq)]
pub enum ReviewToolError {
    /// The command could not be run or ended with a non-zero status.
    CommandFailed,
    /// The listing holds bytes that are not UTF-8.
    NotUtf8,
}

/// A line of the review listing is no row.
#[derive(Debug, Clone, PartialEq, Eq)]
pub struct TableParseError {
    /// The line as it stands in the listing.
    pub line: String,
}

/// Why a report could not be completed.
#[derive(Debug, Clone, PartialEq, Eq)]
pub enum Error {
    /// The version-control system did not answer as expected.
    Repository(RepositoryError),
    /// The review tool did not answer as expected.
    ReviewTool(ReviewToolError),
    /// The review listing is not in the expected format.
    TableParse(TableParseError),
}

/// What an [`Error`] holds, as text.
pub enum ErrorView {
    Repository(RepositoryError),
    ReviewTool(ReviewToolError),
    TableParse(Seq<char>),
}

impl View for Error {
    type V = ErrorView;

    open spec fn view(&self) -> ErrorView {
        match self {
            Error::Repository(e) => ErrorView::Repository(*e),
            Error::ReviewTool(e) => ErrorView::ReviewTool(*e),
            Error::TableParse(e) => ErrorView::TableParse(e.line@),
        }
    }
}

} // verus!
