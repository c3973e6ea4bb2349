//! Trace points of the globe history.
use vstd::prelude::*;

verus! {

/// Index of the first globe tile.
pub const GLOBE_MIN_INDEX: i32 = 1000;

/// One point of an aircraft's trace.
#[derive(Debug, Clone, Copy)]
pub struct StatePoint {
    pub timestamp: i64,
    pub lat: i32,
    pub lon: i32,
    pub baro_alt: i16,
    pub gs: u16,
    pub track: u16,
    pub flags: u16,
}

} // verus!
