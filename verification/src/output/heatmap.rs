//! Heatmap entries.
use vstd::prelude::*;

verus! {

/// One heatmap entry: an aircraft at a position.
#[derive(Debug, Clone, Copy)]
pub struct HeatEntry {
    pub hex: i32,
    pub lat: i32,
    pub lon: i32,
    pub alt: i16,
    pub gs: i16,
}

} // verus!
