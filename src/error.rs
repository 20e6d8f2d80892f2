//! Failures of a reconciliation pass.
use vstd::prelude::*;

verus! {

/// Why the detail of one deal could not be turned into a record.
#[derive(Debug, Clone)]
pub enum DataFault {
    /// The service answered with a status other than success.
    Status(String),
    /// The answer held no property.
    Empty,
    /// Neither the sale nor the booking time was given.
    NoDate,
    /// The unit number is not an integer.
    UnitNumber(String),
    /// The request itself failed.
    Transport(String),
}

#[derive(Debug, Clone)]
pub enum Error {
    /// The listing of remote deals failed; the pass is abandoned.
    RemoteFetchFailed(String),
    /// The enrichment token could not be obtained.
    EnrichmentAuthFailed(String),
    /// The detail of one deal could not be fetched or read.
    EnrichmentDataFailed { deal_id: u64, fault: DataFault },
    /// A store write for one deal failed.
    PersistenceFailed { deal_id: u64, detail: String },
}

} // verus!
