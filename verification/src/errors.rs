//! The error taxonomy of the pipeline.

use vstd::prelude::*;

verus! {

/// A page could not be retrieved: neither the direct request nor the
/// unblocking service produced a usable document. Carries the last
/// diagnostic reason.
#[derive(Debug)]
pub enum FetchError {
    FetchFailed(String),
    /// The interstitial never cleared within the polling budget.
    TimeoutWaitingForContent,
}

/// A required table shape was absent from the document.
#[derive(Debug, PartialEq, Eq, Structural)]
pub enum ExtractError {
    NoSuitableTable,
    /// The scorebox (and with it both team names) was entirely absent.
    MissingScorebox,
    /// Fewer than two squad links were found in the scorebox.
    TeamLinksNotFound,
}

/// A prediction was requested on insufficient data.
#[derive(Debug, PartialEq, Eq, Structural)]
pub enum AnalysisError {
    /// One of the teams has no qualifying finished match at all.
    InsufficientHistory,
}

} // verus!
