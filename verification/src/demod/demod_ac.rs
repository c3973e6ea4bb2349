//! Mode A/C reply demodulation.
use crate::modes::mode_ac::{detect_mode_a, mode_a_reply, mode_a_to_mode_c, mode_c_altitude};
use vstd::prelude::*;

verus! {

/// Demodulate a Mode A/C reply from magnitude samples: the code found by `detect_mode_a`,
/// with the SPI bit always clear, or `None` when no reply is found.
pub fn demodulate_ac(mag: &[u16]) -> (r: Option<(u32, bool)>)
    ensures
        r == (match mode_a_reply(mag@) {
            Some(code) => Some((code, false)),
            None => None,
        }),
{
    match detect_mode_a(mag) {
        Some(code) => Some((code, false)),
        None => None,
    }
}

/// Convert a Mode A code to a Mode C altitude in feet (see `mode_c_altitude`).
pub fn modeac_to_altitude(code: u32) -> (alt: i32)
    ensures
        alt == mode_c_altitude(code),
{
    mode_a_to_mode_c(code)
}

} // verus!
