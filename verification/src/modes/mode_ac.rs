//! Mode A/C replies and Gillham altitude codes.
use vstd::prelude::*;

verus! {

/// The first `n` code bits of a Mode A/C reply: bit `i` is set when sample `4 + i` exceeds
/// 32768.
pub open spec fn mode_a_bits(samples: Seq<u16>, n: nat) -> u32
    decreases n,
{
    if n == 0 {
        0
    } else {
        mode_a_bits(samples, (n - 1) as nat) | (if samples[4 + n - 1] > 32768 {
            (1u32 << ((n - 1) as u32)) as u32
        } else {
            0u32
        })
    }
}

/// The Mode A code of a reply, when there is one: at least 20 samples with pulses of at least
/// 32768 at positions 0 and 3.
pub open spec fn mode_a_reply(samples: Seq<u16>) -> Option<u32> {
    if samples.len() < 20 || samples[0] < 32768 || samples[3] < 32768 {
        None
    } else {
        Some(mode_a_bits(samples, 13))
    }
}

/// Detect a Mode A/C reply in magnitude samples and return its 13-bit code.
pub fn detect_mode_a(samples: &[u16]) -> (code: Option<u32>)
    ensures
        code == mode_a_reply(samples@),
{
    if samples.len() < 20 || samples[0] < 32768 || samples[3] < 32768 {
        return None;
    }
    let mut code: u32 = 0;
    let mut i: usize = 0;
    while i < 13
        invariant
            i <= 13,
            samples@.len() >= 20,
            code == mode_a_bits(samples@, i as nat),
        decreases 13 - i,
    {
        if samples[4 + i] > 32768 {
            code = code | (1u32 << (i as u32));
        } else {
            assert(code == code | 0u32) by (bit_vector);
        }
        i = i + 1;
    }
    Some(code)
}

/// Altitude (feet) of a Mode A/C code read as C1/C2/C4 hundreds and A1/A2/A4 five-hundreds:
/// -9999 when all three bits of either group are set, otherwise
/// `(5 * A + C - 10) * 100`.
pub open spec fn mode_c_altitude(mode_a: u32) -> i32 {
    let c1 = (mode_a & 0x0001) != 0;
    let a1 = (mode_a & 0x0010) != 0;
    let c2 = (mode_a & 0x0100) != 0;
    let a2 = (mode_a & 0x1000) != 0;
    let c4 = (mode_a & 0x0002) != 0;
    let a4 = (mode_a & 0x0020) != 0;
    if (c1 && c2 && c4) || (a1 && a2 && a4) {
        -9999i32
    } else {
        let five = (if a4 { 4int } else { 0 }) + (if a2 { 2int } else { 0 }) + (if a1 { 1int } else { 0 });
        let one = (if c4 { 4int } else { 0 }) + (if c2 { 2int } else { 0 }) + (if c1 { 1int } else { 0 });
        ((five * 5 + one - 10) * 100) as i32
    }
}

/// Convert a Mode A code to a Mode C altitude in feet (see `mode_c_altitude`).
pub fn mode_a_to_mode_c(mode_a: u32) -> (alt: i32)
    ensures
        alt == mode_c_altitude(mode_a),
{
    let c1 = (mode_a & 0x0001) != 0;
    let a1 = (mode_a & 0x0010) != 0;
    let c2 = (mode_a & 0x0100) != 0;
    let a2 = (mode_a & 0x1000) != 0;
    let c4 = (mode_a & 0x0002) != 0;
    let a4 = (mode_a & 0x0020) != 0;
    if (c1 && c2 && c4) || (a1 && a2 && a4) {
        return -9999;
    }
    let five_hundreds: i32 = (if a4 { 4 } else { 0 }) + (if a2 { 2 } else { 0 }) + (if a1 { 1 } else { 0 });
    let one_hundreds: i32 = (if c4 { 4 } else { 0 }) + (if c2 { 2 } else { 0 }) + (if c1 { 1 } else { 0 });
    (five_hundreds * 5 + one_hundreds - 10) * 100
}

/// 1 when `code` has the pulse `mask`, else 0.
pub open spec fn pulse(code: u32, mask: u32) -> int {
    if code & mask != 0 {
        1
    } else {
        0
    }
}

/// A Mode C code is read from its six pulses: it is rejected (-9999) exactly when C1, C2
/// and C4 are all set or A1, A2 and A4 are all set; otherwise the altitude is A4 2000 ft,
/// A2 1000 ft, A1 500 ft, C4 400 ft, C2 200 ft and C1 100 ft added up, less 1000 ft.
pub proof fn lemma_mode_c_pulse_weights(code: u32)
    ensures
        (pulse(code, 0x0001) == 1 && pulse(code, 0x0100) == 1 && pulse(code, 0x0002) == 1)
            || (pulse(code, 0x0010) == 1 && pulse(code, 0x1000) == 1 && pulse(code, 0x0020) == 1)
            ==> mode_c_altitude(code) == -9999,
        !((pulse(code, 0x0001) == 1 && pulse(code, 0x0100) == 1 && pulse(code, 0x0002) == 1)
            || (pulse(code, 0x0010) == 1 && pulse(code, 0x1000) == 1 && pulse(code, 0x0020) == 1))
            ==> mode_c_altitude(code) == 2000 * pulse(code, 0x0020) + 1000 * pulse(code, 0x1000) + 500
            * pulse(code, 0x0010) + 400 * pulse(code, 0x0002) + 200 * pulse(code, 0x0100) + 100 * pulse(
            code,
            0x0001,
        ) - 1000,
{
}

/// Two accepted codes that differ in the A2 pulse alone are 1000 ft apart.
pub proof fn lemma_a2_pulse_adds_1000(c1: u32, c2: u32)
    requires
        pulse(c1, 0x1000) == 0,
        pulse(c2, 0x1000) == 1,
        pulse(c1, 0x0001) == pulse(c2, 0x0001),
        pulse(c1, 0x0002) == pulse(c2, 0x0002),
        pulse(c1, 0x0100) == pulse(c2, 0x0100),
        pulse(c1, 0x0010) == pulse(c2, 0x0010),
        pulse(c1, 0x0020) == pulse(c2, 0x0020),
        mode_c_altitude(c2) != -9999,
    ensures
        mode_c_altitude(c2) == mode_c_altitude(c1) + 1000,
{
    lemma_mode_c_pulse_weights(c1);
    lemma_mode_c_pulse_weights(c2);
}

} // verus!
