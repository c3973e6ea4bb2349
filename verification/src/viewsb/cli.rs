//! Options of the aircraft table view.
use vstd::prelude::*;

verus! {

/// Column the aircraft table is sorted by.
#[derive(Debug, Clone, Copy, PartialEq, Eq, Structural)]
pub enum SortColumn {
    Dist,
    Alt,
    Gs,
    Seen,
    Icao,
    Flight,
    Registration,
    Type,
}

} // verus!
