//! Snapshot writers of the aircraft table view.
use vstd::prelude::*;

verus! {

/// `std::io::Error`, the error of writer construction.
#[verifier::external_type_specification]
#[verifier::external_body]
pub struct ExIoError(std::io::Error);

/// Writes table snapshots as JSON.
pub struct JsonWriter;

impl JsonWriter {
    /// A JSON writer for `path`; opening always succeeds.
    pub fn new(path: &str) -> (r: Result<Self, std::io::Error>)
        ensures
            r is Ok,
    {
        Ok(JsonWriter)
    }
}

/// Writes table snapshots as CSV.
pub struct CsvWriter;

impl CsvWriter {
    /// A CSV writer for `path`; opening always succeeds.
    pub fn new(path: &str) -> (r: Result<Self, std::io::Error>)
        ensures
            r is Ok,
    {
        Ok(CsvWriter)
    }
}

} // verus!
