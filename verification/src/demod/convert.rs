//! Sample formats of SDR input.
use vstd::prelude::*;

verus! {

/// Layout of one I/Q sample pair in an input stream.
#[derive(Debug, Clone, Copy, PartialEq, Eq, Structural)]
pub enum InputFormat {
    /// Two little-endian signed 16-bit values.
    SC16Q11,
    /// As `SC16Q11`, after a 12-byte header.
    SC16Q11M,
    /// Two little-endian 32-bit floats.
    F32,
    /// Two unsigned bytes centred on 128.
    U8,
}

/// Bytes taken by one I/Q pair of a format.
pub open spec fn iq_pair_size(format: InputFormat) -> nat {
    match format {
        InputFormat::U8 => 2,
        InputFormat::SC16Q11 => 4,
        InputFormat::SC16Q11M => 4,
        InputFormat::F32 => 8,
    }
}

/// Bytes taken by one I/Q pair of a format (see `iq_pair_size`).
pub fn bytes_per_iq_pair(format: InputFormat) -> (n: usize)
    ensures
        n == iq_pair_size(format),
{
    match format {
        InputFormat::U8 => 2,
        InputFormat::SC16Q11 => 4,
        InputFormat::SC16Q11M => 4,
        InputFormat::F32 => 8,
    }
}

} // verus!
