//! Mode S demodulator for 2.4 MHz magnitude samples (5 samples per 2 bits, 5 phases).
use crate::crc::{byte_len, checksum, modes_checksum, CrcFixEngine, ErrorInfo};
use crate::demod::icao_filter::{icao_filter_test, IcaoFilter};
use vstd::prelude::*;

verus! {

/// Samples spanned by a long (112-bit) message, preamble included.
pub const MODES_LONG_MSG_SAMPLES: usize = 269;

/// Bytes in a long message.
pub const MODES_LONG_MSG_BYTES: usize = 14;

/// Bytes in a short message.
pub const MODES_SHORT_MSG_BYTES: usize = 7;

/// Downlink formats of 56-bit messages: 0, 4, 5, 11.
pub const VALID_DF_SHORT: u32 = 0x831;

/// Downlink formats of 112-bit messages: 16, 17, 18, 20, 21.
pub const VALID_DF_LONG: u32 = 0x370000;

/// Demodulator statistics for one magnitude buffer.
#[derive(Clone, Copy, Debug)]
pub struct MagBufStats {
    pub loud_events: u32,
    pub noise_low_samples: u32,
    pub noise_high_samples: u32,
}

impl Default for MagBufStats {
    fn default() -> (s: Self)
        ensures
            s.loud_events == 0 && s.noise_low_samples == 0 && s.noise_high_samples == 0,
    {
        MagBufStats { loud_events: 0, noise_low_samples: 0, noise_high_samples: 0 }
    }
}

/// Demodulator settings.
#[derive(Clone, Copy, Debug)]
pub struct DemodConfig {
    pub preamble_threshold: u32,
    pub fix_df: bool,
    pub auto_gain: bool,
}

impl Default for DemodConfig {
    fn default() -> (c: Self)
        ensures
            c.preamble_threshold == 58 && !c.fix_df && !c.auto_gain,
    {
        DemodConfig { preamble_threshold: 58, fix_df: false, auto_gain: false }
    }
}

impl DemodConfig {
    /// The default settings: preamble threshold 58, no DF fixing, no automatic gain.
    pub fn new() -> (c: Self)
        ensures
            c.preamble_threshold == 58 && !c.fix_df && !c.auto_gain,
    {
        DemodConfig::default()
    }
}

// ---------------------------------------------------------------------------
// Bit slicing
// ---------------------------------------------------------------------------

/// Correlation of the sample window `m0..m3` for slicer function `f`.
pub open spec fn phase_value(f: int, m0: int, m1: int, m2: int, m3: int) -> int {
    if f == 0 {
        18 * m0 - 15 * m1 - 3 * m2
    } else if f == 1 {
        14 * m0 - 5 * m1 - 9 * m2
    } else if f == 2 {
        16 * m0 + 5 * m1 - 20 * m2
    } else if f == 3 {
        7 * m0 + 11 * m1 - 18 * m2
    } else {
        4 * m0 + 15 * m1 - 20 * m2 + m3
    }
}

/// The five slicers weigh the samples of a bit window as readsb's 2.4 MHz demodulator does,
/// and a bit is read as 1 when its value is positive. So energy only in the first sample of
/// a window reads as a 1 bit in every phase, and energy only in the third as a 0 bit.
pub proof fn lemma_slicer_weights(m0: int, m1: int, m2: int, m3: int, v: int)
    requires
        v > 0,
    ensures
        phase_value(0, m0, m1, m2, m3) == 18 * m0 - 15 * m1 - 3 * m2,
        phase_value(1, m0, m1, m2, m3) == 14 * m0 - 5 * m1 - 9 * m2,
        phase_value(2, m0, m1, m2, m3) == 16 * m0 + 5 * m1 - 20 * m2,
        phase_value(3, m0, m1, m2, m3) == 7 * m0 + 11 * m1 - 18 * m2,
        phase_value(4, m0, m1, m2, m3) == 4 * m0 + 15 * m1 - 20 * m2 + m3,
        forall|f: int| 0 <= f < 5 ==> #[trigger] phase_value(f, v, 0, 0, 0) > 0,
        forall|f: int| 0 <= f < 5 ==> #[trigger] phase_value(f, 0, 0, v, 0) < 0,
{
}

/// Sample offset of bit `bit` of a byte that starts in phase `pidx`.
pub open spec fn slice_offset(pidx: int, bit: int) -> int {
    if pidx == 0 {
        if bit == 0 { 0 } else if bit == 1 { 2 } else if bit == 2 { 4 } else if bit == 3 { 7 }
        else if bit == 4 { 9 } else if bit == 5 { 12 } else if bit == 6 { 14 } else { 16 }
    } else if pidx == 1 {
        if bit == 0 { 0 } else if bit == 1 { 2 } else if bit == 2 { 5 } else if bit == 3 { 7 }
        else if bit == 4 { 9 } else if bit == 5 { 12 } else if bit == 6 { 14 } else { 17 }
    } else if pidx == 2 {
        if bit == 0 { 0 } else if bit == 1 { 2 } else if bit == 2 { 5 } else if bit == 3 { 7 }
        else if bit == 4 { 10 } else if bit == 5 { 12 } else if bit == 6 { 14 } else { 17 }
    } else if pidx == 3 {
        if bit == 0 { 0 } else if bit == 1 { 3 } else if bit == 2 { 5 } else if bit == 3 { 7 }
        else if bit == 4 { 10 } else if bit == 5 { 12 } else if bit == 6 { 15 } else { 17 }
    } else {
        if bit == 0 { 0 } else if bit == 1 { 3 } else if bit == 2 { 5 } else if bit == 3 { 8 }
        else if bit == 4 { 10 } else if bit == 5 { 12 } else if bit == 6 { 15 } else { 17 }
    }
}

/// Slicer function used for bit `bit` of a byte that starts in phase `pidx`.
pub open spec fn slice_func(pidx: int, bit: int) -> int {
    (pidx + 2 * bit) % 5
}

/// Samples a byte advances by, starting in phase `pidx`.
pub open spec fn slice_advance(pidx: int) -> int {
    if pidx == 4 {
        20
    } else {
        19
    }
}

/// Phase of the next byte.
pub open spec fn next_phase(pidx: int) -> int {
    (pidx + 1) % 5
}

/// Value of bit `bit` (MSB first) of the byte sliced at sample `p` in phase `pidx`.
pub open spec fn slice_bit(mag: Seq<u16>, p: int, pidx: int, bit: int) -> bool {
    let f = slice_func(pidx, bit);
    let q = p + slice_offset(pidx, bit);
    phase_value(
        f,
        mag[q] as int,
        mag[q + 1] as int,
        mag[q + 2] as int,
        if f == 4 {
            mag[q + 3] as int
        } else {
            0
        },
    ) > 0
}

/// A bit whose window holds energy only in its first sample is read as 1, and one whose
/// window holds energy only in its third sample is read as 0, whatever the phase.
pub proof fn lemma_pulse_position_decides_bit(mag: Seq<u16>, p: int, pidx: int, bit: int)
    requires
        0 <= pidx < 5,
        0 <= bit < 8,
        0 <= p,
        p + slice_offset(pidx, bit) + 4 <= mag.len(),
        mag[p + slice_offset(pidx, bit) + 1] == 0,
        mag[p + slice_offset(pidx, bit) + 3] == 0,
    ensures
        mag[p + slice_offset(pidx, bit) + 2] == 0 && mag[p + slice_offset(pidx, bit)] > 0
            ==> slice_bit(mag, p, pidx, bit),
        mag[p + slice_offset(pidx, bit)] == 0 && mag[p + slice_offset(pidx, bit) + 2] > 0
            ==> !slice_bit(mag, p, pidx, bit),
{
    let q = p + slice_offset(pidx, bit);
    lemma_slicer_weights(mag[q] as int, 0, mag[q + 2] as int, 0, 1);
    assert(0 <= slice_func(pidx, bit) < 5);
}

/// The first `n` bits of the byte sliced at `p` in phase `pidx`, placed from bit 7 down.
pub open spec fn sliced_bits(mag: Seq<u16>, p: int, pidx: int, n: nat) -> u8
    decreases n,
{
    if n == 0 {
        0
    } else {
        sliced_bits(mag, p, pidx, (n - 1) as nat) | (if slice_bit(mag, p, pidx, n - 1) {
            (1u8 << ((7 - (n - 1)) as u8)) as u8
        } else {
            0u8
        })
    }
}

/// The byte sliced at sample `p` in phase `pidx`.
pub open spec fn sliced_byte(mag: Seq<u16>, p: int, pidx: int) -> u8 {
    sliced_bits(mag, p, pidx, 8)
}

/// Slicer 0 on the first three samples of `m`.
pub fn slice_phase0(m: &[u16]) -> (r: i32)
    requires
        m@.len() >= 3,
    ensures
        r == phase_value(0, m@[0] as int, m@[1] as int, m@[2] as int, 0),
{
    18 * m[0] as i32 - 15 * m[1] as i32 - 3 * m[2] as i32
}

/// Slicer 1 on the first three samples of `m`.
pub fn slice_phase1(m: &[u16]) -> (r: i32)
    requires
        m@.len() >= 3,
    ensures
        r == phase_value(1, m@[0] as int, m@[1] as int, m@[2] as int, 0),
{
    14 * m[0] as i32 - 5 * m[1] as i32 - 9 * m[2] as i32
}

/// Slicer 2 on the first three samples of `m`.
pub fn slice_phase2(m: &[u16]) -> (r: i32)
    requires
        m@.len() >= 3,
    ensures
        r == phase_value(2, m@[0] as int, m@[1] as int, m@[2] as int, 0),
{
    16 * m[0] as i32 + 5 * m[1] as i32 - 20 * m[2] as i32
}

/// Slicer 3 on the first three samples of `m`.
pub fn slice_phase3(m: &[u16]) -> (r: i32)
    requires
        m@.len() >= 3,
    ensures
        r == phase_value(3, m@[0] as int, m@[1] as int, m@[2] as int, 0),
{
    7 * m[0] as i32 + 11 * m[1] as i32 - 18 * m[2] as i32
}

/// Slicer 4 on the first four samples of `m`.
pub fn slice_phase4(m: &[u16]) -> (r: i32)
    requires
        m@.len() >= 4,
    ensures
        r == phase_value(4, m@[0] as int, m@[1] as int, m@[2] as int, m@[3] as int),
{
    4 * m[0] as i32 + 15 * m[1] as i32 - 20 * m[2] as i32 + m[3] as i32
}

/// Slicer `f` on the samples starting at `q`.
fn slice_at(mag: &[u16], f: usize, q: usize) -> (r: i32)
    requires
        f < 5,
        q + 3 <= mag@.len(),
        f == 4 ==> q + 4 <= mag@.len(),
    ensures
        r == phase_value(
            f as int,
            mag@[q as int] as int,
            mag@[q + 1] as int,
            mag@[q + 2] as int,
            if f == 4 {
                mag@[q + 3] as int
            } else {
                0
            },
        ),
{
    let m0 = mag[q] as i32;
    let m1 = mag[q + 1] as i32;
    let m2 = mag[q + 2] as i32;
    if f == 0 {
        18 * m0 - 15 * m1 - 3 * m2
    } else if f == 1 {
        14 * m0 - 5 * m1 - 9 * m2
    } else if f == 2 {
        16 * m0 + 5 * m1 - 20 * m2
    } else if f == 3 {
        7 * m0 + 11 * m1 - 18 * m2
    } else {
        4 * m0 + 15 * m1 - 20 * m2 + mag[q + 3] as i32
    }
}

fn exec_slice_offset(pidx: usize, bit: usize) -> (r: usize)
    requires
        pidx < 5,
        bit < 8,
    ensures
        r == slice_offset(pidx as int, bit as int),
        r <= 17,
{
    if pidx == 0 {
        if bit == 0 { 0 } else if bit == 1 { 2 } else if bit == 2 { 4 } else if bit == 3 { 7 }
        else if bit == 4 { 9 } else if bit == 5 { 12 } else if bit == 6 { 14 } else { 16 }
    } else if pidx == 1 {
        if bit == 0 { 0 } else if bit == 1 { 2 } else if bit == 2 { 5 } else if bit == 3 { 7 }
        else if bit == 4 { 9 } else if bit == 5 { 12 } else if bit == 6 { 14 } else { 17 }
    } else if pidx == 2 {
        if bit == 0 { 0 } else if bit == 1 { 2 } else if bit == 2 { 5 } else if bit == 3 { 7 }
        else if bit == 4 { 10 } else if bit == 5 { 12 } else if bit == 6 { 14 } else { 17 }
    } else if pidx == 3 {
        if bit == 0 { 0 } else if bit == 1 { 3 } else if bit == 2 { 5 } else if bit == 3 { 7 }
        else if bit == 4 { 10 } else if bit == 5 { 12 } else if bit == 6 { 15 } else { 17 }
    } else {
        if bit == 0 { 0 } else if bit == 1 { 3 } else if bit == 2 { 5 } else if bit == 3 { 8 }
        else if bit == 4 { 10 } else if bit == 5 { 12 } else if bit == 6 { 15 } else { 17 }
    }
}

/// Slice one byte at `*pos` in phase `*phase`, then advance position and phase.
pub fn slice_byte(mag: &[u16], pos: &mut usize, phase: &mut usize) -> (byte: u8)
    requires
        *old(phase) < 5,
        *old(pos) + 20 <= mag@.len(),
    ensures
        byte == sliced_byte(mag@, *old(pos) as int, *old(phase) as int),
        *final(pos) == *old(pos) + slice_advance(*old(phase) as int),
        *final(phase) == next_phase(*old(phase) as int),
{
    let p = *pos;
    let pidx = *phase;
    let _len = mag.len();
    let mut byte: u8 = 0;
    let mut bit: usize = 0;
    while bit < 8
        invariant
            pidx < 5,
            p + 20 <= mag@.len(),
            mag@.len() == mag.len(),
            bit <= 8,
            byte == sliced_bits(mag@, p as int, pidx as int, bit as nat),
        decreases 8 - bit,
    {
        let func_idx = (pidx + 2 * bit) % 5;
        let off = exec_slice_offset(pidx, bit);
        proof {
            // every slicer window stays inside the 20 samples the caller guarantees
            assert(off + 3 <= 20);
            assert(func_idx == 4 ==> off + 4 <= 20) by {
                if func_idx == 4 {
                    assert(off <= 16);
                }
            }
        }
        let result = slice_at(mag, func_idx, p + off);
        if result > 0 {
            byte = byte | (1u8 << ((7 - bit) as u8));
        } else {
            assert(byte == byte | 0u8) by (bit_vector);
        }
        bit = bit + 1;
    }
    *pos = p + if pidx == 4 {
        20
    } else {
        19
    };
    *phase = (pidx + 1) % 5;
    byte
}

// ---------------------------------------------------------------------------
// Message scoring
// ---------------------------------------------------------------------------

/// Downlink formats carried in 56-bit messages.
pub open spec fn df_short(df: int) -> bool {
    df == 0 || df == 4 || df == 5 || df == 11
}

/// Downlink formats carried in 112-bit messages.
pub open spec fn df_long(df: int) -> bool {
    df == 16 || df == 17 || df == 18 || df == 20 || df == 21
}

/// Whether a downlink format fits a message of `msgbits` bits.
pub open spec fn df_fits(df: int, msgbits: nat) -> bool {
    if msgbits == 56 {
        df_short(df)
    } else {
        df_long(df)
    }
}

/// Downlink formats whose parity field is overlaid with the address.
pub open spec fn df_address_parity(df: int) -> bool {
    df == 0 || df == 4 || df == 5 || df == 16 || df == 20 || df == 21
}

/// Bytes of a message for downlink format `df` (0 if the format is not decoded).
pub open spec fn message_len_for_df(df: int) -> int {
    if df_long(df) {
        14
    } else if df_short(df) {
        7
    } else {
        0
    }
}

/// The 24-bit address field in bytes 1-3.
pub open spec fn msg_icao(msg: Seq<u8>) -> u32 {
    ((msg[1] as u32) << 16u32) | ((msg[2] as u32) << 8u32) | (msg[3] as u32)
}

/// Downlink format of a message (top five bits of byte 0).
pub open spec fn msg_df(msg: Seq<u8>) -> int {
    (msg[0] >> 3u8) as int
}

/// The correction table used for a message of `msgbits` bits.
pub open spec fn table_for(msgbits: nat, t112: Map<u32, ErrorInfo>, t56: Map<u32, ErrorInfo>) -> Map<
    u32,
    ErrorInfo,
> {
    if msgbits == 112 {
        t112
    } else {
        t56
    }
}

/// Whether scoring reads the address field (bytes 1-3).
pub open spec fn score_reads_address(
    msg: Seq<u8>,
    msgbits: nat,
    t112: Map<u32, ErrorInfo>,
    t56: Map<u32, ErrorInfo>,
) -> bool {
    let df = msg_df(msg);
    let syn = checksum(msg, msgbits);
    df_fits(df, msgbits) && (!df_address_parity(df) || syn == 0 || table_for(
        msgbits,
        t112,
        t56,
    ).contains_key(syn))
}

/// What `score_modes_message` may read without going out of bounds.
pub open spec fn score_input_ok(
    msg: Seq<u8>,
    msgbits: nat,
    t112: Map<u32, ErrorInfo>,
    t56: Map<u32, ErrorInfo>,
) -> bool {
    &&& msg.len() >= 1
    &&& df_fits(msg_df(msg), msgbits) ==> (byte_len(msgbits) >= 3 ==> byte_len(msgbits)
        <= msg.len())
    &&& score_reads_address(msg, msgbits, t112, t56) ==> msg.len() >= 4
}

/// Confidence score of a candidate message: higher for intact parity, known addresses and
/// fewer corrected bits; negative for a message that cannot be a Mode S reply.
pub open spec fn message_score(
    msg: Seq<u8>,
    msgbits: nat,
    t112: Map<u32, ErrorInfo>,
    t56: Map<u32, ErrorInfo>,
    known: Set<u32>,
) -> i32 {
    let df = msg_df(msg);
    if !df_fits(df, msgbits) {
        -2i32
    } else {
        let syn = checksum(msg, msgbits);
        let t = table_for(msgbits, t112, t56);
        let icao = msg_icao(msg);
        let is_known = known.contains(icao);
        if df_address_parity(df) {
            if syn == 0 {
                if is_known {
                    1000
                } else {
                    700
                }
            } else if t.contains_key(syn) {
                if t[syn].errors == 1 {
                    if is_known {
                        700
                    } else {
                        500
                    }
                } else {
                    100
                }
            } else {
                100
            }
        } else if df == 11 {
            if syn == 0 {
                let iid = msg[0] & 7u8;
                if iid == 0 && is_known {
                    1600
                } else if iid == 0 {
                    750
                } else if is_known {
                    700
                } else {
                    500
                }
            } else if t.contains_key(syn) && t[syn].errors <= 1 {
                if is_known {
                    800
                } else {
                    400
                }
            } else {
                100
            }
        } else if df == 17 || df == 18 {
            if syn == 0 {
                if is_known {
                    1800
                } else {
                    1400
                }
            } else if t.contains_key(syn) {
                if t[syn].errors == 1 {
                    if is_known {
                        900
                    } else {
                        700
                    }
                } else if t[syn].errors == 2 {
                    if is_known {
                        450
                    } else {
                        350
                    }
                } else {
                    100
                }
            } else {
                100
            }
        } else if df == 19 || df == 24 {
            if syn == 0 {
                1000
            } else {
                100
            }
        } else {
            -2i32
        }
    }
}

proof fn lemma_df_masks(df: u32)
    requires
        df < 32,
    ensures
        ((VALID_DF_SHORT & (1u32 << df)) != 0) == df_short(df as int),
        ((VALID_DF_LONG & (1u32 << df)) != 0) == df_long(df as int),
{
    assert(((0x831u32 & (1u32 << df)) != 0) == (df == 0 || df == 4 || df == 5 || df == 11))
        by (bit_vector)
        requires
            df < 32,
    ;
    assert(((0x370000u32 & (1u32 << df)) != 0) == (df == 16 || df == 17 || df == 18 || df == 20
        || df == 21)) by (bit_vector)
        requires
            df < 32,
    ;
}

/// Message length in bytes implied by the downlink format (0 for formats not decoded).
pub fn modes_message_len_by_type(df: u32) -> (n: usize)
    requires
        df < 32,
    ensures
        n == message_len_for_df(df as int),
{
    proof {
        lemma_df_masks(df);
    }
    if (VALID_DF_LONG & (1u32 << df)) != 0 {
        MODES_LONG_MSG_BYTES
    } else if (VALID_DF_SHORT & (1u32 << df)) != 0 {
        MODES_SHORT_MSG_BYTES
    } else {
        0
    }
}

fn address_field(msg: &[u8]) -> (icao: u32)
    requires
        msg@.len() >= 4,
    ensures
        icao == msg_icao(msg@),
{
    ((msg[1] as u32) << 16) | ((msg[2] as u32) << 8) | (msg[3] as u32)
}

/// Score a candidate message of `msgbits` bits (see `message_score`). The 112-bit table is
/// used for 112-bit messages and the 56-bit table otherwise; `filter` holds the addresses
/// already seen.
pub fn score_modes_message(
    msg: &[u8],
    msgbits: usize,
    engine_112: &CrcFixEngine,
    engine_56: &CrcFixEngine,
    filter: &IcaoFilter,
) -> (score: i32)
    requires
        score_input_ok(msg@, msgbits as nat, engine_112@, engine_56@),
        filter.wf(),
    ensures
        score == message_score(msg@, msgbits as nat, engine_112@, engine_56@, filter@),
{
    let b0 = msg[0];
    let df = (b0 >> 3) as u32;
    proof {
        assert(b0 >> 3u8 < 32) by (bit_vector);
        lemma_df_masks(df);
    }
    if msgbits == 56 {
        if (VALID_DF_SHORT & (1u32 << df)) == 0 {
            return -2;
        }
    } else {
        if (VALID_DF_LONG & (1u32 << df)) == 0 {
            return -2;
        }
    }
    let syndrome = modes_checksum(msg, msgbits);
    let engine = if msgbits == 112 {
        engine_112
    } else {
        engine_56
    };
    let is_ap_df = df == 0 || df == 4 || df == 5 || df == 16 || df == 20 || df == 21;
    if is_ap_df {
        if syndrome == 0 {
            let icao = address_field(msg);
            if icao_filter_test(filter, icao) {
                return 1000;
            }
            return 700;
        }
        match engine.diagnose(syndrome) {
            Some(info) => {
                let icao = address_field(msg);
                let known = icao_filter_test(filter, icao);
                if info.errors == 1 {
                    return if known {
                        700
                    } else {
                        500
                    };
                } else {
                    return 100;
                }
            },
            None => {},
        }
        return 100;
    }
    if df == 11 {
        let icao = address_field(msg);
        if syndrome == 0 {
            let iid = msg[0] & 0x07;
            if iid == 0 && icao_filter_test(filter, icao) {
                return 1600;
            }
            if iid == 0 {
                return 750;
            }
            let known = icao_filter_test(filter, icao);
            return if known {
                700
            } else {
                500
            };
        }
        match engine.diagnose(syndrome) {
            Some(info) => {
                if info.errors <= 1 && icao_filter_test(filter, icao) {
                    return 800;
                }
                if info.errors <= 1 {
                    return 400;
                }
            },
            None => {},
        }
        return 100;
    }
    if df == 17 || df == 18 {
        let icao = address_field(msg);
        let known = icao_filter_test(filter, icao);
        if syndrome == 0 {
            return if known {
                1800
            } else {
                1400
            };
        }
        match engine.diagnose(syndrome) {
            Some(info) => {
                if info.errors == 1 {
                    return if known {
                        900
                    } else {
                        700
                    };
                } else if info.errors == 2 {
                    return if known {
                        450
                    } else {
                        350
                    };
                } else {
                    return 100;
                }
            },
            None => {},
        }
        return 100;
    }
    if df == 19 || df == 24 {
        if syndrome == 0 {
            return 1000;
        }
        return 100;
    }
    -2
}

/// The preamble shape test: at least 16 samples, `mag[1] > mag[7]`, and `mag[12]` above both
/// `mag[14]` and `mag[15]`. The threshold is not consulted.
pub fn check_preamble(mag: &[u16], _threshold: u32) -> (ok: bool)
    ensures
        ok == (mag@.len() >= 16 && mag@[1] > mag@[7] && mag@[12] > mag@[14] && mag@[12] > mag@[15]),
{
    mag.len() >= 16 && mag[1] > mag[7] && mag[12] > mag[14] && mag[12] > mag[15]
}


// ---------------------------------------------------------------------------
// Candidate messages at one preamble position
// ---------------------------------------------------------------------------

/// Phase after `k` bytes starting in phase `phase`.
pub open spec fn phase_after(phase: int, k: nat) -> int {
    (phase + k) % 5
}

/// Sample position after `k` bytes starting at `pos` in phase `phase`.
pub open spec fn pos_after(pos: int, phase: int, k: nat) -> int
    decreases k,
{
    if k == 0 {
        pos
    } else {
        pos_after(pos, phase, (k - 1) as nat) + slice_advance(phase_after(phase, (k - 1) as nat))
    }
}

/// The first `n` bytes sliced from `pos` in phase `phase`; `None` once a byte would need
/// samples past the end of the buffer (each byte needs 20 samples).
pub open spec fn slice_run(mag: Seq<u16>, pos: int, phase: int, n: nat) -> Option<Seq<u8>>
    decreases n,
{
    if n == 0 {
        Some(Seq::<u8>::empty())
    } else {
        match slice_run(mag, pos, phase, (n - 1) as nat) {
            None => None,
            Some(s) => {
                let p = pos_after(pos, phase, (n - 1) as nat);
                if p + 20 > mag.len() {
                    None
                } else {
                    Some(s.push(sliced_byte(mag, p, phase_after(phase, (n - 1) as nat))))
                }
            },
        }
    }
}

/// The candidate message for `try_phase` at preamble position `pa`, with its score, when it
/// fits the buffer, has a decodable downlink format and scores at least 0.
pub open spec fn phase_candidate(
    mag: Seq<u16>,
    pa: int,
    try_phase: int,
    t112: Map<u32, ErrorInfo>,
    t56: Map<u32, ErrorInfo>,
    known: Set<u32>,
) -> Option<(i32, Seq<u8>)> {
    let start = pa + 19 + try_phase / 5;
    let ph = try_phase % 5;
    match slice_run(mag, start, ph, 1) {
        None => None,
        Some(first) => {
            let n = message_len_for_df(msg_df(first));
            if n == 0 {
                None
            } else {
                match slice_run(mag, start, ph, n as nat) {
                    None => None,
                    Some(m) => {
                        let sc = message_score(m, (n * 8) as nat, t112, t56, known);
                        if sc >= 0 {
                            Some((sc, m))
                        } else {
                            None
                        }
                    },
                }
            }
        },
    }
}

pub proof fn lemma_slice_run_len(mag: Seq<u16>, pos: int, phase: int, n: nat)
    ensures
        slice_run(mag, pos, phase, n) matches Some(s) ==> s.len() == n,
    decreases n,
{
    if n > 0 {
        lemma_slice_run_len(mag, pos, phase, (n - 1) as nat);
    }
}

proof fn lemma_slice_run_prefix(mag: Seq<u16>, pos: int, phase: int, k: nat, n: nat)
    requires
        k <= n,
    ensures
        slice_run(mag, pos, phase, k) is None ==> slice_run(mag, pos, phase, n) is None,
        slice_run(mag, pos, phase, n) matches Some(s) ==> (slice_run(mag, pos, phase, k) matches Some(
            t,
        ) && t == s.subrange(0, k as int)),
    decreases n,
{
    lemma_slice_run_len(mag, pos, phase, n);
    lemma_slice_run_len(mag, pos, phase, k);
    if k < n {
        lemma_slice_run_prefix(mag, pos, phase, k, (n - 1) as nat);
        lemma_slice_run_len(mag, pos, phase, (n - 1) as nat);
        if let Some(s) = slice_run(mag, pos, phase, n) {
            let s1 = slice_run(mag, pos, phase, (n - 1) as nat).unwrap();
            assert(s.subrange(0, k as int) =~= s1.subrange(0, k as int));
        }
    } else {
        if let Some(s) = slice_run(mag, pos, phase, n) {
            assert(s.subrange(0, k as int) =~= s);
        }
    }
}

pub proof fn lemma_phase_candidate_len(
    mag: Seq<u16>,
    pa: int,
    try_phase: int,
    t112: Map<u32, ErrorInfo>,
    t56: Map<u32, ErrorInfo>,
    known: Set<u32>,
)
    ensures
        phase_candidate(mag, pa, try_phase, t112, t56, known) matches Some(c) ==> (c.1.len() == 7
            || c.1.len() == 14),
{
    let start = pa + 19 + try_phase / 5;
    let ph = try_phase % 5;
    if let Some(first) = slice_run(mag, start, ph, 1) {
        let n = message_len_for_df(msg_df(first));
        if n != 0 {
            lemma_slice_run_len(mag, start, ph, n as nat);
        }
    }
}

proof fn lemma_candidate_none(
    mag: Seq<u16>,
    pa: int,
    try_phase: int,
    t112: Map<u32, ErrorInfo>,
    t56: Map<u32, ErrorInfo>,
    known: Set<u32>,
    first: u8,
    n: nat,
)
    requires
        slice_run(mag, pa + 19 + try_phase / 5, try_phase % 5, 1) == Some(seq![first]),
        message_len_for_df(msg_df(seq![first])) == n,
        slice_run(mag, pa + 19 + try_phase / 5, try_phase % 5, n) is None,
    ensures
        phase_candidate(mag, pa, try_phase, t112, t56, known) is None,
{
}

/// Demodulate and score the message for one phase guess at preamble position `pa`.
/// Returns the score and the message bytes when the message fits the buffer, has a decodable
/// downlink format and scores at least 0.
#[verifier::rlimit(40)]
pub fn score_phase(
    try_phase: usize,
    mag: &[u16],
    pa: usize,
    engine_112: &CrcFixEngine,
    engine_56: &CrcFixEngine,
    filter: &IcaoFilter,
) -> (r: Option<(i32, Vec<u8>)>)
    requires
        pa + 19 + try_phase / 5 <= usize::MAX,
        filter.wf(),
    ensures
        candidate_view(r) == phase_candidate(
            mag@,
            pa as int,
            try_phase as int,
            engine_112@,
            engine_56@,
            filter@,
        ),
{
    let ghost t112 = engine_112@;
    let ghost t56 = engine_56@;
    let start = pa + 19 + try_phase / 5;
    let ghost ph: int = (try_phase % 5) as int;
    let len = mag.len();
    if len < 20 || start > len - 20 {
        return None;
    }
    let mut pos = start;
    let mut phase = try_phase % 5;
    let first = slice_byte(mag, &mut pos, &mut phase);
    let mut msg: Vec<u8> = Vec::new();
    msg.push(first);
    assert(slice_run(mag@, start as int, ph, 1) == Some(seq![first])) by {
        assert(slice_run(mag@, start as int, ph, 0) == Some(Seq::<u8>::empty()));
        assert(Seq::<u8>::empty().push(first) =~= seq![first]);
    }
    let b0 = first;
    let df = (b0 >> 3) as u32;
    proof {
        assert(b0 >> 3u8 < 32) by (bit_vector);
        assert(msg_df(seq![first]) == df);
    }
    let nbytes = modes_message_len_by_type(df);
    if nbytes == 0 {
        return None;
    }
    let mut i: usize = 1;
    while i < nbytes
        invariant
            1 <= i <= nbytes,
            nbytes == 7 || nbytes == 14,
            len == mag@.len(),
            phase < 5,
            phase == phase_after(ph, i as nat),
            pos == pos_after(start as int, ph, i as nat),
            slice_run(mag@, start as int, ph, i as nat) == Some(msg@),
            slice_run(mag@, start as int, ph, 1) == Some(seq![first]),
            message_len_for_df(msg_df(seq![first])) == nbytes,
            start == pa + 19 + try_phase / 5,
            ph == try_phase % 5,
            pos <= len,
        decreases nbytes - i,
    {
        if len < 20 || pos > len - 20 {
            proof {
                assert(slice_run(mag@, start as int, ph, (i + 1) as nat) is None);
                lemma_slice_run_prefix(mag@, start as int, ph, (i + 1) as nat, nbytes as nat);
                assert(slice_run(mag@, start as int, ph, nbytes as nat) is None);
                lemma_candidate_none(mag@, pa as int, try_phase as int, engine_112@, engine_56@, filter@, first, nbytes as nat);
            }
            return None;
        }
        let ghost old_pos = pos;
        let ghost old_phase = phase;
        let b = slice_byte(mag, &mut pos, &mut phase);
        msg.push(b);
        proof {
            assert(phase == phase_after(ph, (i + 1) as nat));
        }
        i = i + 1;
    }
    proof {
        lemma_slice_run_len(mag@, start as int, ph, nbytes as nat);
    }
    let score = score_modes_message(msg.as_slice(), nbytes * 8, engine_112, engine_56, filter);
    if score >= 0 {
        Some((score, msg))
    } else {
        None
    }
}


/// A scored candidate with its bytes as a sequence.
pub open spec fn candidate_view(c: Option<(i32, Vec<u8>)>) -> Option<(i32, Seq<u8>)> {
    match c {
        Some(x) => Some((x.0, x.1@)),
        None => None,
    }
}

/// Optional message bytes as a sequence.
pub open spec fn bytes_view(o: Option<Vec<u8>>) -> Option<Seq<u8>> {
    match o {
        Some(v) => Some(v@),
        None => None,
    }
}

/// Demodulated frames (bytes and signal sum) as sequences.
pub open spec fn frames_view(v: Seq<(Vec<u8>, u32)>) -> Seq<(Seq<u8>, u32)> {
    v.map_values(|e: (Vec<u8>, u32)| (e.0@, e.1))
}

// ---------------------------------------------------------------------------
// Scanning a magnitude buffer
// ---------------------------------------------------------------------------

/// Last preamble position (exclusive) examined in a buffer of `mag_len` samples.
pub open spec fn scan_stop(mag_len: int) -> int {
    if mag_len > 285 {
        mag_len - 285
    } else {
        0
    }
}

/// The quick preamble shape test at position `p`.
pub open spec fn precheck(mag: Seq<u16>, mag_len: int, p: int) -> bool {
    p + 15 < mag_len && mag[p + 1] > mag[p + 7] && mag[p + 12] > mag[p + 14] && mag[p + 12]
        > mag[p + 15]
}

/// The first of `count` positions from `pa` that passes the quick test, or `pa + count`.
pub open spec fn precheck_scan(mag: Seq<u16>, mag_len: int, pa: int, count: nat) -> (int, bool)
    decreases count,
{
    if count == 0 {
        (pa, false)
    } else if precheck(mag, mag_len, pa) {
        (pa, true)
    } else {
        precheck_scan(mag, mag_len, pa + 1, (count - 1) as nat)
    }
}

/// Sum of the five noise samples of a preamble.
pub open spec fn noise_sum(mag: Seq<u16>, pa: int) -> int {
    mag[pa + 5] as int + mag[pa + 8] as int + mag[pa + 16] as int + mag[pa + 17] as int
        + mag[pa + 18] as int
}

/// Reference level from five noise samples of the preamble, scaled by the threshold (x/32).
pub open spec fn noise_ref(mag: Seq<u16>, pa: int, thr: u32) -> u32 {
    ((noise_sum(mag, pa) * thr) as u32) >> 5u32
}

/// Preamble energy assuming phases 3-4: peaks at 1, 3, 9, 11-12.
pub open spec fn preamble_34(mag: Seq<u16>, pa: int) -> u32 {
    let d23 = mag[pa + 2] as int - mag[pa + 3] as int;
    let s14 = mag[pa + 1] as int + mag[pa + 4] as int;
    let d1011 = mag[pa + 10] as int - mag[pa + 11] as int;
    (s14 - d23 + mag[pa + 9] as int + mag[pa + 12] as int - d1011) as u32
}

/// Preamble energy assuming phases 5-6: peaks at 1, 3-4, 9-10, 12.
pub open spec fn preamble_56(mag: Seq<u16>, pa: int) -> u32 {
    let d23 = mag[pa + 2] as int - mag[pa + 3] as int;
    let s14 = mag[pa + 1] as int + mag[pa + 4] as int;
    let d1011 = mag[pa + 10] as int - mag[pa + 11] as int;
    (s14 - d23 + mag[pa + 9] as int + mag[pa + 12] as int + d1011) as u32
}

/// Preamble energy assuming phase 7: peaks at 1-2, 4, 10, 12.
pub open spec fn preamble_7(mag: Seq<u16>, pa: int) -> u32 {
    let d23 = mag[pa + 2] as int - mag[pa + 3] as int;
    let s14 = mag[pa + 1] as int + mag[pa + 4] as int;
    let d1011 = mag[pa + 10] as int - mag[pa + 11] as int;
    (s14 + 2 * d23 + d1011 + mag[pa + 12] as int) as u32
}

/// Keep the better of the best-so-far and a candidate (a candidate must score strictly more).
pub open spec fn pick(best: (i32, Option<Seq<u8>>), cand: Option<(i32, Seq<u8>)>) -> (
    i32,
    Option<Seq<u8>>,
) {
    match cand {
        Some(c) => if c.0 > best.0 {
            (c.0, Some(c.1))
        } else {
            best
        },
        None => best,
    }
}

/// The best-scoring message at preamble position `pa` over the phase guesses whose preamble
/// energy reaches the noise reference (phases 4-5, then 6-7, then 8).
pub open spec fn best_candidate(
    mag: Seq<u16>,
    pa: int,
    thr: u32,
    t112: Map<u32, ErrorInfo>,
    t56: Map<u32, ErrorInfo>,
    known: Set<u32>,
) -> Option<Seq<u8>> {
    let r = noise_ref(mag, pa, thr);
    let b0: (i32, Option<Seq<u8>>) = (-42i32, None);
    let b1 = if preamble_34(mag, pa) >= r {
        pick(
            pick(b0, phase_candidate(mag, pa, 4, t112, t56, known)),
            phase_candidate(mag, pa, 5, t112, t56, known),
        )
    } else {
        b0
    };
    let b2 = if preamble_56(mag, pa) >= r {
        pick(
            pick(b1, phase_candidate(mag, pa, 6, t112, t56, known)),
            phase_candidate(mag, pa, 7, t112, t56, known),
        )
    } else {
        b1
    };
    let b3 = if preamble_7(mag, pa) >= r {
        pick(b2, phase_candidate(mag, pa, 8, t112, t56, known))
    } else {
        b2
    };
    b3.1
}

/// Sum of the four preamble pulse samples (the signal level is a quarter of it).
pub open spec fn frame_signal(mag: Seq<u16>, pa: int) -> u32 {
    (mag[pa] as int + mag[pa + 2] as int + mag[pa + 7] as int + mag[pa + 9] as int) as u32
}

/// Distance still to scan from `pa`.
pub open spec fn scan_measure(mag_len: int, pa: int) -> nat {
    if pa < scan_stop(mag_len) {
        (scan_stop(mag_len) - pa) as nat
    } else {
        0
    }
}

pub proof fn lemma_precheck_scan_range(mag: Seq<u16>, mag_len: int, pa: int, count: nat)
    ensures
        pa <= precheck_scan(mag, mag_len, pa, count).0 <= pa + count,
        !precheck_scan(mag, mag_len, pa, count).1 ==> precheck_scan(mag, mag_len, pa, count).0
            == pa + count,
        precheck_scan(mag, mag_len, pa, count).1 ==> precheck_scan(mag, mag_len, pa, count).0 < pa
            + count,
    decreases count,
{
    if count > 0 && !precheck(mag, mag_len, pa) {
        lemma_precheck_scan_range(mag, mag_len, pa + 1, (count - 1) as nat);
    }
}

pub proof fn lemma_best_candidate_len(
    mag: Seq<u16>,
    pa: int,
    thr: u32,
    t112: Map<u32, ErrorInfo>,
    t56: Map<u32, ErrorInfo>,
    known: Set<u32>,
)
    ensures
        best_candidate(mag, pa, thr, t112, t56, known) matches Some(m) ==> (m.len() == 7
            || m.len() == 14),
{
    lemma_phase_candidate_len(mag, pa, 4, t112, t56, known);
    lemma_phase_candidate_len(mag, pa, 5, t112, t56, known);
    lemma_phase_candidate_len(mag, pa, 6, t112, t56, known);
    lemma_phase_candidate_len(mag, pa, 7, t112, t56, known);
    lemma_phase_candidate_len(mag, pa, 8, t112, t56, known);
}

/// The frames found scanning from position `pa`: at each position the quick preamble test
/// is tried on up to 10 positions; where one passes, the best candidate message (if any) is
/// taken with its signal sum and the scan skips two samples per message byte, otherwise it
/// moves on by one sample.
#[verifier::opaque]
pub open spec fn demod_scan(
    mag: Seq<u16>,
    mag_len: int,
    thr: u32,
    t112: Map<u32, ErrorInfo>,
    t56: Map<u32, ErrorInfo>,
    known: Set<u32>,
    pa: int,
) -> Seq<(Seq<u8>, u32)>
    decreases scan_measure(mag_len, pa),
{
    let stop = scan_stop(mag_len);
    if pa < stop && pa + 18 < mag_len {
        let pre_max: nat = if stop - pa < 10 {
            (stop - pa) as nat
        } else {
            10
        };
        let (p, found) = precheck_scan(mag, mag_len, pa, pre_max);
        proof {
            lemma_precheck_scan_range(mag, mag_len, pa, pre_max);
        }
        if p >= stop || !found {
            demod_scan(
                mag,
                mag_len,
                thr,
                t112,
                t56,
                known,
                if !found {
                    p + 1
                } else {
                    p
                },
            )
        } else if p + 18 >= mag_len {
            demod_scan(mag, mag_len, thr, t112, t56, known, p + 1)
        } else {
            match best_candidate(mag, p, thr, t112, t56, known) {
                Some(m) => {
                    proof {
                        lemma_best_candidate_len(mag, p, thr, t112, t56, known);
                    }
                    seq![(m, frame_signal(mag, p))] + demod_scan(
                        mag,
                        mag_len,
                        thr,
                        t112,
                        t56,
                        known,
                        p + 2 * m.len(),
                    )
                },
                None => demod_scan(mag, mag_len, thr, t112, t56, known, p + 1),
            }
        }
    } else {
        Seq::empty()
    }
}

/// Scanning from position `pa` computes every reference level within 32 bits: at each
/// position where the scan weighs candidates (see `demod_scan`), the noise sum times the
/// threshold is at most `u32::MAX`.
#[verifier::opaque]
pub open spec fn scan_fits(
    mag: Seq<u16>,
    mag_len: int,
    thr: u32,
    t112: Map<u32, ErrorInfo>,
    t56: Map<u32, ErrorInfo>,
    known: Set<u32>,
    pa: int,
) -> bool
    decreases scan_measure(mag_len, pa),
{
    let stop = scan_stop(mag_len);
    if pa < stop && pa + 18 < mag_len {
        let pre_max: nat = if stop - pa < 10 {
            (stop - pa) as nat
        } else {
            10
        };
        let (p, found) = precheck_scan(mag, mag_len, pa, pre_max);
        proof {
            lemma_precheck_scan_range(mag, mag_len, pa, pre_max);
        }
        if p >= stop || !found {
            scan_fits(
                mag,
                mag_len,
                thr,
                t112,
                t56,
                known,
                if !found {
                    p + 1
                } else {
                    p
                },
            )
        } else if p + 18 >= mag_len {
            scan_fits(mag, mag_len, thr, t112, t56, known, p + 1)
        } else {
            &&& noise_sum(mag, p) * thr <= u32::MAX
            &&& match best_candidate(mag, p, thr, t112, t56, known) {
                Some(m) => {
                    proof {
                        lemma_best_candidate_len(mag, p, thr, t112, t56, known);
                    }
                    scan_fits(mag, mag_len, thr, t112, t56, known, p + 2 * m.len())
                },
                None => scan_fits(mag, mag_len, thr, t112, t56, known, p + 1),
            }
        }
    } else {
        true
    }
}

/// The step `scan_fits` takes from `pa` (a position where scanning continues).
pub proof fn lemma_fits_step(
    mag: Seq<u16>,
    mag_len: int,
    thr: u32,
    t112: Map<u32, ErrorInfo>,
    t56: Map<u32, ErrorInfo>,
    known: Set<u32>,
    pa: int,
)
    requires
        pa < scan_stop(mag_len),
        pa + 18 < mag_len,
    ensures
        ({
            let stop = scan_stop(mag_len);
            let pre_max: nat = if stop - pa < 10 {
                (stop - pa) as nat
            } else {
                10
            };
            let (p, found) = precheck_scan(mag, mag_len, pa, pre_max);
            scan_fits(mag, mag_len, thr, t112, t56, known, pa) == if p >= stop || !found {
                scan_fits(
                    mag,
                    mag_len,
                    thr,
                    t112,
                    t56,
                    known,
                    if !found {
                        p + 1
                    } else {
                        p
                    },
                )
            } else if p + 18 >= mag_len {
                scan_fits(mag, mag_len, thr, t112, t56, known, p + 1)
            } else {
                &&& noise_sum(mag, p) * thr <= u32::MAX
                &&& match best_candidate(mag, p, thr, t112, t56, known) {
                    Some(m) => scan_fits(mag, mag_len, thr, t112, t56, known, p + 2 * m.len()),
                    None => scan_fits(mag, mag_len, thr, t112, t56, known, p + 1),
                }
            }
        }),
{
    reveal(scan_fits);
}

/// Where scanning stops, no more reference levels are computed.
pub proof fn lemma_fits_end(
    mag: Seq<u16>,
    mag_len: int,
    thr: u32,
    t112: Map<u32, ErrorInfo>,
    t56: Map<u32, ErrorInfo>,
    known: Set<u32>,
    pa: int,
)
    requires
        !(pa < scan_stop(mag_len) && pa + 18 < mag_len),
    ensures
        scan_fits(mag, mag_len, thr, t112, t56, known, pa),
{
    reveal(scan_fits);
}

/// The step the scan takes from `pa` (a position where scanning continues).
pub proof fn lemma_scan_step(
    mag: Seq<u16>,
    mag_len: int,
    thr: u32,
    t112: Map<u32, ErrorInfo>,
    t56: Map<u32, ErrorInfo>,
    known: Set<u32>,
    pa: int,
)
    requires
        pa < scan_stop(mag_len),
        pa + 18 < mag_len,
    ensures
        ({
            let stop = scan_stop(mag_len);
            let pre_max: nat = if stop - pa < 10 {
                (stop - pa) as nat
            } else {
                10
            };
            let (p, found) = precheck_scan(mag, mag_len, pa, pre_max);
            demod_scan(mag, mag_len, thr, t112, t56, known, pa) == if p >= stop || !found {
                demod_scan(
                    mag,
                    mag_len,
                    thr,
                    t112,
                    t56,
                    known,
                    if !found {
                        p + 1
                    } else {
                        p
                    },
                )
            } else if p + 18 >= mag_len {
                demod_scan(mag, mag_len, thr, t112, t56, known, p + 1)
            } else {
                match best_candidate(mag, p, thr, t112, t56, known) {
                    Some(m) => seq![(m, frame_signal(mag, p))] + demod_scan(
                        mag,
                        mag_len,
                        thr,
                        t112,
                        t56,
                        known,
                        p + 2 * m.len(),
                    ),
                    None => demod_scan(mag, mag_len, thr, t112, t56, known, p + 1),
                }
            }
        }),
{
    reveal(demod_scan);
}

/// Where scanning stops, nothing more is found.
pub proof fn lemma_scan_end(
    mag: Seq<u16>,
    mag_len: int,
    thr: u32,
    t112: Map<u32, ErrorInfo>,
    t56: Map<u32, ErrorInfo>,
    known: Set<u32>,
    pa: int,
)
    requires
        !(pa < scan_stop(mag_len) && pa + 18 < mag_len),
    ensures
        demod_scan(mag, mag_len, thr, t112, t56, known, pa) == Seq::<(Seq<u8>, u32)>::empty(),
{
    reveal(demod_scan);
}

/// The best message at a preamble position (see `best_candidate`).
fn best_frame_at(
    mag: &[u16],
    pa: usize,
    preamble_threshold: u32,
    engine_112: &CrcFixEngine,
    engine_56: &CrcFixEngine,
    filter: &IcaoFilter,
) -> (best: Option<Vec<u8>>)
    requires
        pa + 18 < mag@.len(),
        pa + 21 <= usize::MAX,
        noise_sum(mag@, pa as int) * preamble_threshold <= u32::MAX,
        filter.wf(),
    ensures
        bytes_view(best) == best_candidate(
            mag@,
            pa as int,
            preamble_threshold,
            engine_112@,
            engine_56@,
            filter@,
        ),
{
    let base_noise: u32 = mag[pa + 5] as u32 + mag[pa + 8] as u32 + mag[pa + 16] as u32
        + mag[pa + 17] as u32 + mag[pa + 18] as u32;
    let ref_level = (base_noise * preamble_threshold) >> 5;
    let mut best_score: i32 = -42;
    let mut best_msg: Option<Vec<u8>> = None;
    let diff_2_3 = mag[pa + 2] as i32 - mag[pa + 3] as i32;
    let sum_1_4 = mag[pa + 1] as i32 + mag[pa + 4] as i32;
    let diff_10_11 = mag[pa + 10] as i32 - mag[pa + 11] as i32;
    let common3456 = sum_1_4 - diff_2_3 + mag[pa + 9] as i32 + mag[pa + 12] as i32;
    let pa_mag_34 = (common3456 - diff_10_11) as u32;
    if pa_mag_34 >= ref_level {
        consider(&mut best_score, &mut best_msg, score_phase(4, mag, pa, engine_112, engine_56, filter));
        consider(&mut best_score, &mut best_msg, score_phase(5, mag, pa, engine_112, engine_56, filter));
    }
    let pa_mag_56 = (common3456 + diff_10_11) as u32;
    if pa_mag_56 >= ref_level {
        consider(&mut best_score, &mut best_msg, score_phase(6, mag, pa, engine_112, engine_56, filter));
        consider(&mut best_score, &mut best_msg, score_phase(7, mag, pa, engine_112, engine_56, filter));
    }
    let pa_mag_7 = (sum_1_4 + 2 * diff_2_3 + diff_10_11 + mag[pa + 12] as i32) as u32;
    if pa_mag_7 >= ref_level {
        consider(&mut best_score, &mut best_msg, score_phase(8, mag, pa, engine_112, engine_56, filter));
    }
    best_msg
}

fn consider(best_score: &mut i32, best_msg: &mut Option<Vec<u8>>, cand: Option<(i32, Vec<u8>)>)
    ensures
        (*final(best_score), bytes_view(*final(best_msg))) == pick(
            (*old(best_score), bytes_view(*old(best_msg))),
            candidate_view(cand),
        ),
{
    match cand {
        Some((score, msg)) => {
            if score > *best_score {
                *best_score = score;
                *best_msg = Some(msg);
            }
        },
        None => {},
    }
}

/// Scan a magnitude buffer for Mode S frames. Returns each frame's bytes with the sum of its
/// four preamble pulse samples (the signal level is a quarter of it), in buffer order.
pub fn demodulate2400(
    mag: &[u16],
    mag_len: usize,
    preamble_threshold: u32,
    engine_112: &CrcFixEngine,
    engine_56: &CrcFixEngine,
    filter: &IcaoFilter,
) -> (messages: Vec<(Vec<u8>, u32)>)
    requires
        mag_len <= mag@.len(),
        scan_fits(mag@, mag_len as int, preamble_threshold, engine_112@, engine_56@, filter@, 0),
        filter.wf(),
    ensures
        frames_view(messages@) == demod_scan(
            mag@,
            mag_len as int,
            preamble_threshold,
            engine_112@,
            engine_56@,
            filter@,
            0,
        ),
{
    match demodulate2400_checked(mag, mag_len, preamble_threshold, engine_112, engine_56, filter) {
        Some(messages) => messages,
        None => Vec::new(),
    }
}

/// `demodulate2400` for any threshold: `None` exactly when some reference level the scan
/// computes would not fit 32 bits (see `scan_fits`), the frames otherwise.
pub fn demodulate2400_checked(
    mag: &[u16],
    mag_len: usize,
    preamble_threshold: u32,
    engine_112: &CrcFixEngine,
    engine_56: &CrcFixEngine,
    filter: &IcaoFilter,
) -> (r: Option<Vec<(Vec<u8>, u32)>>)
    requires
        mag_len <= mag@.len(),
        filter.wf(),
    ensures
        r is Some <==> scan_fits(
            mag@,
            mag_len as int,
            preamble_threshold,
            engine_112@,
            engine_56@,
            filter@,
            0,
        ),
        r matches Some(messages) ==> frames_view(messages@) == demod_scan(
            mag@,
            mag_len as int,
            preamble_threshold,
            engine_112@,
            engine_56@,
            filter@,
            0,
        ),
{
    let ghost t112 = engine_112@;
    let ghost t56 = engine_56@;
    let ghost known = filter@;
    let ghost whole = demod_scan(mag@, mag_len as int, preamble_threshold, t112, t56, known, 0);
    let ghost fits = scan_fits(mag@, mag_len as int, preamble_threshold, t112, t56, known, 0);
    let mut messages: Vec<(Vec<u8>, u32)> = Vec::new();
    let mut pa: usize = 0;
    let stop: usize = if mag_len > MODES_LONG_MSG_SAMPLES + 16 {
        mag_len - (MODES_LONG_MSG_SAMPLES + 16)
    } else {
        0
    };
    assert(frames_view(messages@) =~= Seq::<(Seq<u8>, u32)>::empty());
    while pa < stop && pa + 18 < mag_len
        invariant
            mag_len <= mag@.len(),
            filter.wf(),
            fits == scan_fits(mag@, mag_len as int, preamble_threshold, t112, t56, known, 0),
            fits == scan_fits(mag@, mag_len as int, preamble_threshold, t112, t56, known, pa as int),
            t112 == engine_112@,
            t56 == engine_56@,
            known == filter@,
            stop == scan_stop(mag_len as int),
            pa <= mag_len,
            whole == demod_scan(mag@, mag_len as int, preamble_threshold, t112, t56, known, 0),
            frames_view(messages@) + demod_scan(
                mag@,
                mag_len as int,
                preamble_threshold,
                t112,
                t56,
                known,
                pa as int,
            ) == whole,
        decreases mag_len - pa,
    {
        let ghost pa0 = pa;
        let ghost rest0 = demod_scan(
            mag@,
            mag_len as int,
            preamble_threshold,
            t112,
            t56,
            known,
            pa0 as int,
        );
        let mut pre_found = false;
        let pre_max: usize = if stop - pa < 10 {
            stop - pa
        } else {
            10
        };
        let mut k: usize = 0;
        while k < pre_max && !pre_found
            invariant
                pa == pa0 + k,
                k <= pre_max,
                pa0 + pre_max <= stop,
                stop <= mag_len,
                pre_max > 0 ==> stop + 285 == mag_len,
                mag_len <= mag@.len(),
                precheck_scan(mag@, mag_len as int, pa0 as int, pre_max as nat) == (if pre_found {
                    (pa as int, true)
                } else {
                    precheck_scan(mag@, mag_len as int, pa as int, (pre_max - k) as nat)
                }),
                pre_found ==> k < pre_max,
            decreases 2 * (pre_max - k) + (if pre_found {
                0int
            } else {
                1int
            }),
        {
            if pa + 15 < mag_len && mag[pa + 1] > mag[pa + 7] && mag[pa + 12] > mag[pa + 14]
                && mag[pa + 12] > mag[pa + 15] {
                pre_found = true;
            } else {
                pa = pa + 1;
                k = k + 1;
            }
        }
        proof {
            lemma_precheck_scan_range(mag@, mag_len as int, pa0 as int, pre_max as nat);
            lemma_scan_step(mag@, mag_len as int, preamble_threshold, t112, t56, known, pa0 as int);
            lemma_fits_step(mag@, mag_len as int, preamble_threshold, t112, t56, known, pa0 as int);
        }
        if pa >= stop || !pre_found {
            if !pre_found {
                pa = pa + 1;
            }
            continue;
        }
        if pa >= stop || pa + 18 >= mag_len {
            pa = pa + 1;
            continue;
        }
        let base_noise: u32 = mag[pa + 5] as u32 + mag[pa + 8] as u32 + mag[pa + 16] as u32
            + mag[pa + 17] as u32 + mag[pa + 18] as u32;
        if base_noise.checked_mul(preamble_threshold).is_none() {
            return None;
        }
        let best_msg = best_frame_at(mag, pa, preamble_threshold, engine_112, engine_56, filter);
        match best_msg {
            Some(msg) => {
                let signal: u32 = mag[pa] as u32 + mag[pa + 2] as u32 + mag[pa + 7] as u32
                    + mag[pa + 9] as u32;
                proof {
                    lemma_best_candidate_len(mag@, pa as int, preamble_threshold, t112, t56, known);
                }
                let advance = msg.len() * 2;
                let ghost entry = (msg@, signal);
                let ghost before = messages@;
                messages.push((msg, signal));
                assert(frames_view(messages@) =~= frames_view(before).push(entry));
                pa = pa + advance;
            },
            None => {
                pa = pa + 1;
            },
        }
    }
    proof {
        lemma_scan_end(mag@, mag_len as int, preamble_threshold, t112, t56, known, pa as int);
        lemma_fits_end(mag@, mag_len as int, preamble_threshold, t112, t56, known, pa as int);
    }
    assert(frames_view(messages@) =~= whole);
    Some(messages)
}

} // verus!
