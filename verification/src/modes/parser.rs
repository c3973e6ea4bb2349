//! Mode S message parsing: parity check and correction, then the fields of each downlink
//! format.
use crate::crc::{
    apply_fix, lemma_checksum_zeros, byte_len, checksum, correction_table, double_syndrome, flip_bit, lemma_checksum_flip,
    lemma_checksum_prefix, lemma_fix_corrects, modes_checksum, single_syndrome, zeros,
    CrcFixEngine, ErrorInfo,
};
use crate::syndromes::{lemma_single_error_located, lemma_syndrome_position};
use crate::modes::comm_b::{
    be_value, comm_b_format, commb_callsign_bytes, commb_callsign_codes, decode_comm_b,
    decode_ident_codes, ident_codes, lemma_ident_codes_ascii, lemma_trim_spaces_sub,
    trim_space_bytes, trim_spaces,
};
use crate::modes::mode_ac::{mode_a_to_mode_c, mode_c_altitude};
use crate::types::{
    byte_array, empty_message, lemma_byte_array, AirGround, AltitudeUnit, CommBFormat, CprType,
    Emergency, ModesMessage, Motion, INVALID_ALTITUDE,
};
use vstd::prelude::*;

verus! {

// ---------------------------------------------------------------------------
// Field encodings
// ---------------------------------------------------------------------------

/// The Mode A code (hex digits ABCD, as 0xABCD with 3 bits a digit) of a 13-bit identity
/// field, whose bits are C1 A1 C2 A2 C4 A4 X B1 D1 B2 D2 B4 D4 from the top.
pub open spec fn id13_squawk(id13: u32) -> u32 {
    (if id13 & 0x1000 != 0 { 0x0010u32 } else { 0u32 }) | (if id13 & 0x0800 != 0 {
        0x1000u32
    } else {
        0u32
    }) | (if id13 & 0x0400 != 0 { 0x0020u32 } else { 0u32 }) | (if id13 & 0x0200 != 0 {
        0x2000u32
    } else {
        0u32
    }) | (if id13 & 0x0100 != 0 { 0x0040u32 } else { 0u32 }) | (if id13 & 0x0080 != 0 {
        0x4000u32
    } else {
        0u32
    }) | (if id13 & 0x0020 != 0 { 0x0100u32 } else { 0u32 }) | (if id13 & 0x0010 != 0 {
        0x0001u32
    } else {
        0u32
    }) | (if id13 & 0x0008 != 0 { 0x0200u32 } else { 0u32 }) | (if id13 & 0x0004 != 0 {
        0x0002u32
    } else {
        0u32
    }) | (if id13 & 0x0002 != 0 { 0x0400u32 } else { 0u32 }) | (if id13 & 0x0001 != 0 {
        0x0004u32
    } else {
        0u32
    })
}

/// Reorder a 13-bit identity field into a Mode A code (see `id13_squawk`).
pub fn decode_id13(id13: u32) -> (hex: u32)
    ensures
        hex == id13_squawk(id13),
{
    (if id13 & 0x1000 != 0 { 0x0010u32 } else { 0u32 }) | (if id13 & 0x0800 != 0 {
        0x1000u32
    } else {
        0u32
    }) | (if id13 & 0x0400 != 0 { 0x0020u32 } else { 0u32 }) | (if id13 & 0x0200 != 0 {
        0x2000u32
    } else {
        0u32
    }) | (if id13 & 0x0100 != 0 { 0x0040u32 } else { 0u32 }) | (if id13 & 0x0080 != 0 {
        0x4000u32
    } else {
        0u32
    }) | (if id13 & 0x0020 != 0 { 0x0100u32 } else { 0u32 }) | (if id13 & 0x0010 != 0 {
        0x0001u32
    } else {
        0u32
    }) | (if id13 & 0x0008 != 0 { 0x0200u32 } else { 0u32 }) | (if id13 & 0x0004 != 0 {
        0x0002u32
    } else {
        0u32
    }) | (if id13 & 0x0002 != 0 { 0x0400u32 } else { 0u32 }) | (if id13 & 0x0001 != 0 {
        0x0004u32
    } else {
        0u32
    })
}

/// The 25-foot step count of a 13-bit altitude field with the Q bit set: the eleven bits
/// left when the M bit (0x0040) and the Q bit (0x0010) are taken out, in order.
pub open spec fn q_bit_steps(ac: u32) -> u32 {
    ((ac & 0x1F80u32) >> 2u32) | ((ac & 0x0020u32) >> 1u32) | (ac & 0x000Fu32)
}

/// Altitude in feet of a 13-bit altitude code: invalid with the M (metre) bit set; with the
/// Q bit set `25 * n - 1000` for the step count `n` (25-foot encoding); otherwise the
/// Gillham (Mode C) code read through the identity bit order.
pub open spec fn ac13_altitude(ac: u32) -> i32 {
    if ac & 0x0040 != 0 {
        INVALID_ALTITUDE
    } else if ac & 0x0010 != 0 {
        (25 * q_bit_steps(ac) - 1000) as i32
    } else {
        mode_c_altitude(id13_squawk(ac))
    }
}

/// Decode a 13-bit altitude code to feet (see `ac13_altitude`).
pub fn decode_altitude(ac: u32) -> (alt: i32)
    ensures
        alt == ac13_altitude(ac),
{
    if ac & 0x0040 != 0 {
        return INVALID_ALTITUDE;
    }
    if ac & 0x0010 != 0 {
        let n = ((ac & 0x1F80) >> 2) | ((ac & 0x0020) >> 1) | (ac & 0x000F);
        assert(n < 2048) by (bit_vector)
            requires
                n == ((ac & 0x1F80u32) >> 2u32) | ((ac & 0x0020u32) >> 1u32) | (ac & 0x000Fu32),
        ;
        (n as i32) * 25 - 1000
    } else {
        let gillham = decode_id13(ac);
        let alt_100ft = mode_a_to_mode_c(gillham);
        if alt_100ft == INVALID_ALTITUDE {
            return INVALID_ALTITUDE;
        }
        alt_100ft
    }
}

/// The 13-bit altitude or identity field of a surveillance reply (bits 20-32).
pub open spec fn field13(msg: Seq<u8>) -> u32 {
    (((msg[2] as u32) & 0x1Fu32) << 8u32) | (msg[3] as u32)
}

/// The 13-bit field of a 14-byte message (see `field13`).
fn field13_of(msg: &[u8; 14]) -> (v: u32)
    ensures
        v == field13(msg@),
{
    ((msg[2] as u32 & 0x1F) << 8) | (msg[3] as u32)
}

/// `m` with its barometric altitude set from a nonzero 13-bit altitude code.
fn set_ac13_altitude(m: ModesMessage, ac: u32) -> (r: ModesMessage)
    ensures
        r == with_ac13_altitude(m, ac),
{
    if ac != 0 {
        let alt = decode_altitude(ac);
        ModesMessage {
            baro_alt: alt,
            baro_alt_valid: alt != INVALID_ALTITUDE,
            baro_alt_unit: AltitudeUnit::Feet,
            ..m
        }
    } else {
        m
    }
}

/// `m` with its barometric altitude set from a nonzero 13-bit altitude code.
pub open spec fn with_ac13_altitude(m: ModesMessage, ac: u32) -> ModesMessage {
    if ac != 0 {
        ModesMessage {
            baro_alt: ac13_altitude(ac),
            baro_alt_valid: ac13_altitude(ac) != INVALID_ALTITUDE,
            baro_alt_unit: AltitudeUnit::Feet,
            ..m
        }
    } else {
        m
    }
}

// ---------------------------------------------------------------------------
// Surveillance, identity and Mode A/C replies
// ---------------------------------------------------------------------------

/// The 24 bits that follow the first 36 bits of a message (bits 36-59).
pub open spec fn trailing_address(msg: Seq<u8>) -> u32 {
    (((msg[4] as u32) & 0x0Fu32) << 20u32) | ((msg[5] as u32) << 12u32) | ((msg[6] as u32)
        << 4u32) | (((msg[7] as u32) & 0xF0u32) >> 4u32)
}

fn trailing_address_of(msg: &[u8; 14]) -> (v: u32)
    ensures
        v == trailing_address(msg@),
{
    ((msg[4] as u32 & 0x0F) << 20) | ((msg[5] as u32) << 12) | ((msg[6] as u32) << 4) | ((
    msg[7] as u32 & 0xF0) >> 4)
}

/// DF0/4/16: the altitude code, and for DF4 and DF16 an address read from bits 36-59.
#[verifier::opaque]
pub open spec fn surveillance_fields(m: ModesMessage) -> ModesMessage {
    let m1 = with_ac13_altitude(m, field13(m.msg@));
    if m.msgtype == 4 || m.msgtype == 16 {
        ModesMessage {
            addr: trailing_address(m.msg@),
            ..m1
        }
    } else {
        m1
    }
}

fn decode_df0_4_16(m: ModesMessage) -> (r: ModesMessage)
    ensures
        r == surveillance_fields(m),
{
    reveal(surveillance_fields);
    let m1 = set_ac13_altitude(m, field13_of(&m.msg));
    if m.msgtype == 4 || m.msgtype == 16 {
        ModesMessage { addr: trailing_address_of(&m.msg), ..m1 }
    } else {
        m1
    }
}

/// DF5/21: the identity (squawk).
#[verifier::opaque]
pub open spec fn identity_fields(m: ModesMessage) -> ModesMessage {
    ModesMessage { squawk_hex: id13_squawk(field13(m.msg@)), squawk_valid: true, ..m }
}

fn decode_df5_21(m: ModesMessage) -> (r: ModesMessage)
    ensures
        r == identity_fields(m),
{
    reveal(identity_fields);
    let id = field13_of(&m.msg);
    ModesMessage { squawk_hex: decode_id13(id), squawk_valid: true, ..m }
}

/// A Mode A/C reply: the code without its SPI bits as squawk, and a non-ICAO address made
/// from its low seven bits.
pub open spec fn mode_ac_fields(m: ModesMessage, modea: u32) -> ModesMessage {
    ModesMessage {
        squawk_hex: modea & 0x7777u32,
        squawk_valid: true,
        addr: (modea & 0x7Fu32) | 0x0100_0000u32,
        crc_ok: true,
        ..m
    }
}

fn decode_mode_ac(m: ModesMessage, modea: u32) -> (r: ModesMessage)
    ensures
        r == mode_ac_fields(m, modea),
{
    ModesMessage {
        squawk_hex: modea & 0x7777,
        squawk_valid: true,
        addr: (modea & 0x0000_007F) | 0x0100_0000,
        crc_ok: true,
        ..m
    }
}

/// Bytes 4-10 of a message: the ME, MB or MV field.
fn data_field_of(msg: &[u8; 14]) -> (f: [u8; 7])
    ensures
        f == byte_array::<7>(msg@.subrange(4, 11)),
{
    let f = [msg[4], msg[5], msg[6], msg[7], msg[8], msg[9], msg[10]];
    proof {
        assert(f@ =~= msg@.subrange(4, 11));
        lemma_byte_array(f);
    }
    f
}

/// DF31: the MV field (bytes 4-10).
#[verifier::opaque]
pub open spec fn df31_fields(m: ModesMessage) -> ModesMessage {
    ModesMessage { mv: byte_array::<7>(m.msg@.subrange(4, 11)), ..m }
}

fn decode_df31(m: ModesMessage) -> (r: ModesMessage)
    ensures
        r == df31_fields(m),
{
    reveal(df31_fields);
    ModesMessage { mv: data_field_of(&m.msg), ..m }
}

/// `a` with its first bytes replaced by `p` (at most 16 of them).
pub open spec fn overwrite_prefix(a: [u8; 16], p: Seq<u8>) -> [u8; 16] {
    let n = if p.len() < 16 {
        p.len() as int
    } else {
        16
    };
    byte_array::<16>(p.subrange(0, n) + a@.subrange(n, 16))
}

/// `a` with the first (at most 16) bytes of `p` copied to its start.
fn with_callsign(a: [u8; 16], p: &Vec<u8>) -> (r: [u8; 16])
    ensures
        r == overwrite_prefix(a, p@),
{
    let mut a = a;
    let ghost a0 = a;
    let n: usize = if p.len() < 16 {
        p.len()
    } else {
        16
    };
    let mut i: usize = 0;
    while i < n
        invariant
            i <= n <= 16,
            n as int == (if p@.len() < 16 {
                p@.len() as int
            } else {
                16
            }),
            forall|j: int| 0 <= j < i ==> a@[j] == p@[j],
            forall|j: int| n <= j < 16 ==> a@[j] == a0@[j],
        decreases n - i,
    {
        a[i] = p[i];
        i = i + 1;
    }
    proof {
        assert(a@ =~= p@.subrange(0, n as int) + a0@.subrange(n as int, 16));
        lemma_byte_array(a);
    }
    a
}

/// DF20: altitude, the MB field, its Comm-B format, and for an identification reply the
/// callsign.
#[verifier::opaque]
pub open spec fn df20_fields(m: ModesMessage) -> ModesMessage {
    let m1 = with_ac13_altitude(m, field13(m.msg@));
    let mb = byte_array::<7>(m.msg@.subrange(4, 11));
    let f = comm_b_format(mb@);
    let m2 = ModesMessage { mb, commb_format: f, ..m1 };
    if f == CommBFormat::AircraftIdent {
        ModesMessage {
            callsign: overwrite_prefix(m2.callsign, commb_callsign_codes(mb@)),
            callsign_valid: true,
            ..m2
        }
    } else {
        m2
    }
}

fn decode_df20(m: ModesMessage) -> (r: ModesMessage)
    ensures
        r == df20_fields(m),
{
    reveal(df20_fields);
    let m1 = set_ac13_altitude(m, field13_of(&m.msg));
    let mb = data_field_of(&m.msg);
    let f = decode_comm_b(&mb);
    let m2 = ModesMessage { mb, commb_format: f, ..m1 };
    if f == CommBFormat::AircraftIdent {
        let cs = commb_callsign_bytes(&mb);
        ModesMessage {
            callsign: with_callsign(m2.callsign, &cs),
            callsign_valid: true,
            ..m2
        }
    } else {
        m2
    }
}

// ---------------------------------------------------------------------------
// Extended squitter (DF17/18)
// ---------------------------------------------------------------------------

/// A 17-bit CPR latitude spread over three bytes: two low bits of `a`, all of `b`, the top
/// seven bits of `c`.
pub open spec fn cpr_lat_bits(a: u8, b: u8, c: u8) -> u32 {
    (((a as u32) & 0x03u32) << 15u32) | ((b as u32) << 7u32) | (((c as u32) & 0xFEu32) >> 1u32)
}

/// A 17-bit CPR longitude: the low bit of `c`, then all of `d` and `e`.
pub open spec fn cpr_lon_bits(c: u8, d: u8, e: u8) -> u32 {
    (((c as u32) & 0x01u32) << 16u32) | ((d as u32) << 8u32) | (e as u32)
}

fn cpr_lat_of(a: u8, b: u8, c: u8) -> (v: u32)
    ensures
        v == cpr_lat_bits(a, b, c),
{
    ((a as u32 & 0x03) << 15) | ((b as u32) << 7) | ((c as u32 & 0xFE) >> 1)
}

fn cpr_lon_of(c: u8, d: u8, e: u8) -> (v: u32)
    ensures
        v == cpr_lon_bits(c, d, e),
{
    ((c as u32 & 0x01) << 16) | ((d as u32) << 8) | (e as u32)
}

/// Whether any bit of `mask` is set in `b`.
fn has_bits(b: u8, mask: u8) -> (r: bool)
    ensures
        r == (b & mask != 0),
{
    b & mask != 0
}

/// The surface movement code: the top six bits of a byte.
fn movement_code_of(b: u8) -> (v: u32)
    ensures
        v == (b >> 2u8) as u32,
{
    (b >> 2) as u32
}

/// The 9-bit vertical rate field (ME bits 38-46): the low three bits of `b4`, then the top
/// six bits of `b5`.
pub open spec fn vertical_rate_field(b4: u8, b5: u8) -> u32 {
    (((b4 as u32) & 0x07u32) << 6u32) | ((b5 as u32) >> 2u32)
}

fn vertical_rate_field_of(b4: u8, b5: u8) -> (v: u32)
    ensures
        v == vertical_rate_field(b4, b5),
        v < 512,
{
    let v = ((b4 as u32 & 0x07) << 6) | ((b5 as u32) >> 2);
    assert(v < 512) by (bit_vector)
        requires
            v == (((b4 as u32) & 0x07u32) << 6u32) | ((b5 as u32) >> 2u32),
    ;
    v
}

/// The 7-bit geometric-barometric difference field (ME bits 50-56): the low seven bits of
/// `b6`.
pub open spec fn altitude_delta_field(b6: u8) -> u32 {
    (b6 as u32) & 0x7Fu32
}

fn altitude_delta_field_of(b6: u8) -> (v: u32)
    ensures
        v == altitude_delta_field(b6),
        v < 128,
{
    let v = (b6 as u32) & 0x7F;
    assert(v < 128) by (bit_vector)
        requires
            v == (b6 as u32) & 0x7Fu32,
    ;
    v
}

/// The 3-bit velocity accuracy category (bits 10-12 of ME).
pub open spec fn nac_v_field(b1: u8) -> u32 {
    ((b1 as u32) >> 3u32) & 0x07u32
}

fn nac_v_field_of(b1: u8) -> (v: u32)
    ensures
        v == nac_v_field(b1),
{
    (b1 as u32 >> 3) & 0x07
}

/// `m` with a CPR position of type `t`.
pub open spec fn with_cpr(m: ModesMessage, t: CprType, lat: u32, lon: u32, odd: bool) -> ModesMessage {
    ModesMessage {
        cpr_type: t,
        cpr_lat: lat,
        cpr_lon: lon,
        cpr_odd: odd,
        cpr_valid: true,
        cpr_decoded: true,
        ..m
    }
}

fn set_cpr(m: ModesMessage, t: CprType, lat: u32, lon: u32, odd: bool) -> (r: ModesMessage)
    ensures
        r == with_cpr(m, t, lat, lon, odd),
{
    ModesMessage {
        cpr_type: t,
        cpr_lat: lat,
        cpr_lon: lon,
        cpr_odd: odd,
        cpr_valid: true,
        cpr_decoded: true,
        ..m
    }
}

/// `m` with the ground speed of a surface movement code, when the code is 1-124.
pub open spec fn with_movement(m: ModesMessage, code: u32) -> ModesMessage {
    if 0 < code < 125 {
        ModesMessage { motion: Motion::SurfaceMovement { code }, gs_valid: true, ..m }
    } else {
        m
    }
}

fn set_movement(m: ModesMessage, code: u32) -> (r: ModesMessage)
    ensures
        r == with_movement(m, code),
{
    if code > 0 && code < 125 {
        ModesMessage { motion: Motion::SurfaceMovement { code }, gs_valid: true, ..m }
    } else {
        m
    }
}

/// `m` on the ground (`ground`) or airborne.
pub open spec fn with_ground_state(m: ModesMessage, ground: bool) -> ModesMessage {
    ModesMessage {
        airground: if ground {
            AirGround::Ground
        } else {
            AirGround::Airborne
        },
        ..m
    }
}

fn set_ground_state(m: ModesMessage, ground: bool) -> (r: ModesMessage)
    ensures
        r == with_ground_state(m, ground),
{
    ModesMessage {
        airground: if ground {
            AirGround::Ground
        } else {
            AirGround::Airborne
        },
        ..m
    }
}

/// Surface position (type codes 5-8): CPR coordinates and format bit, the movement code
/// (top six bits of the last byte) as ground speed when it is 1-124, and the air/ground
/// state from the low bit of the last byte.
#[verifier::opaque]
pub open spec fn surface_position(m: ModesMessage) -> ModesMessage {
    let me = m.me@;
    let m1 = with_cpr(
        m,
        CprType::Surface,
        cpr_lat_bits(me[1], me[2], me[3]),
        cpr_lon_bits(me[3], me[4], me[5]),
        me[0] & 0x04u8 != 0,
    );
    with_ground_state(with_movement(m1, (me[6] >> 2u8) as u32), me[6] & 0x01u8 != 0)
}

fn decode_surface_position(m: ModesMessage) -> (r: ModesMessage)
    ensures
        r == surface_position(m),
{
    reveal(surface_position);
    let me = m.me;
    let lat = cpr_lat_of(me[1], me[2], me[3]);
    let lon = cpr_lon_of(me[3], me[4], me[5]);
    let odd = has_bits(me[0], 0x04);
    let m1 = set_cpr(m, CprType::Surface, lat, lon, odd);
    let code = movement_code_of(me[6]);
    let ground = has_bits(me[6], 0x01);
    set_ground_state(set_movement(m1, code), ground)
}

/// The 12-bit altitude field of an airborne position (bits 9-20 of ME).
pub open spec fn ac12_field(me: Seq<u8>) -> u16 {
    (((me[1] as u16) << 4u16) | ((me[2] as u16) >> 4u16)) as u16
}

/// Altitude of a 12-bit field with the Q bit set: 25-foot steps from -1000 feet, the Q bit
/// (bit 4) left out.
pub open spec fn q_altitude(ac12: u16) -> i32 {
    ((((ac12 & 0x0FE0u16) >> 1u16) | (ac12 & 0x000Fu16)) * 25 - 1000) as i32
}

/// A 12-bit altitude field widened to the 13-bit layout: a zero M bit inserted at bit 6.
pub open spec fn ac12_to_ac13(ac12: u16) -> u32 {
    (((ac12 as u32) & 0x0FC0u32) << 1u32) | ((ac12 as u32) & 0x003Fu32)
}

/// `m` with an altitude: geometric for type codes 20-22, barometric otherwise.
pub open spec fn with_position_altitude(m: ModesMessage, alt: i32) -> ModesMessage {
    if 20 <= m.metype <= 22 {
        ModesMessage {
            geom_alt: alt,
            geom_alt_valid: true,
            geom_alt_unit: AltitudeUnit::Feet,
            ..m
        }
    } else {
        ModesMessage { baro_alt: alt, baro_alt_valid: true, baro_alt_unit: AltitudeUnit::Feet, ..m }
    }
}

/// Airborne position (type codes 9-18): CPR coordinates and format bit, and a nonzero
/// altitude field (25-foot with the Q bit, Gillham without; an undecodable Gillham code
/// sets nothing).
#[verifier::opaque]
pub open spec fn airborne_position(m: ModesMessage) -> ModesMessage {
    let me = m.me@;
    let m1 = ModesMessage {
        cpr_type: CprType::Airborne,
        cpr_lat: cpr_lat_bits(me[2], me[3], me[4]),
        cpr_lon: cpr_lon_bits(me[4], me[5], me[6]),
        cpr_odd: me[2] & 0x04u8 != 0,
        cpr_valid: true,
        cpr_decoded: true,
        ..m
    };
    let ac12 = ac12_field(me);
    if ac12 == 0 {
        m1
    } else if ac12 & 0x0010u16 != 0 {
        with_position_altitude(m1, q_altitude(ac12))
    } else {
        let alt = mode_c_altitude(id13_squawk(ac12_to_ac13(ac12)));
        if alt != INVALID_ALTITUDE {
            with_position_altitude(m1, alt)
        } else {
            m1
        }
    }
}

fn set_position_altitude(m: ModesMessage, alt: i32) -> (r: ModesMessage)
    ensures
        r == with_position_altitude(m, alt),
{
    if m.metype >= 20 && m.metype <= 22 {
        ModesMessage {
            geom_alt: alt,
            geom_alt_valid: true,
            geom_alt_unit: AltitudeUnit::Feet,
            ..m
        }
    } else {
        ModesMessage { baro_alt: alt, baro_alt_valid: true, baro_alt_unit: AltitudeUnit::Feet, ..m }
    }
}

fn decode_airborne_position(m: ModesMessage) -> (r: ModesMessage)
    ensures
        r == airborne_position(m),
{
    reveal(airborne_position);
    let me = m.me;
    let m1 = ModesMessage {
        cpr_type: CprType::Airborne,
        cpr_lat: cpr_lat_of(me[2], me[3], me[4]),
        cpr_lon: cpr_lon_of(me[4], me[5], me[6]),
        cpr_odd: (me[2] & 0x04) != 0,
        cpr_valid: true,
        cpr_decoded: true,
        ..m
    };
    let alt_raw: u16 = ((me[1] as u16) << 4) | ((me[2] as u16) >> 4);
    if alt_raw == 0 {
        return m1;
    }
    if alt_raw & 0x0010 != 0 {
        let steps: u16 = ((alt_raw & 0x0FE0) >> 1) | (alt_raw & 0x000F);
        assert(steps <= 0x7FF) by (bit_vector)
            requires
                steps == ((alt_raw & 0x0FE0u16) >> 1u16) | (alt_raw & 0x000Fu16),
        ;
        let n = steps as i32;
        set_position_altitude(m1, n * 25 - 1000)
    } else {
        let ac13 = ((alt_raw as u32 & 0x0FC0) << 1) | (alt_raw as u32 & 0x003F);
        let gillham = decode_id13(ac13);
        let alt = mode_a_to_mode_c(gillham);
        if alt != INVALID_ALTITUDE {
            set_position_altitude(m1, alt)
        } else {
            m1
        }
    }
}

/// `m` with the vertical rate of a nonzero 9-bit rate field: 64 ft/min a step above 1,
/// negative when `down`.
#[verifier::opaque]
pub open spec fn with_vertical_rate(m: ModesMessage, raw: u32, down: bool) -> ModesMessage {
    if raw > 0 {
        let vr = (raw - 1) * 64;
        ModesMessage {
            geom_rate: (if down {
                -vr
            } else {
                vr
            }) as i32,
            geom_rate_valid: true,
            ..m
        }
    } else {
        m
    }
}

fn set_vertical_rate(m: ModesMessage, raw: u32, down: bool) -> (r: ModesMessage)
    requires
        raw < 512,
    ensures
        r == with_vertical_rate(m, raw, down),
{
    reveal(with_vertical_rate);
    if raw > 0 {
        let vr = (raw - 1) as i32 * 64;
        ModesMessage {
            geom_rate: if down {
                -vr
            } else {
                vr
            },
            geom_rate_valid: true,
            ..m
        }
    } else {
        m
    }
}

/// `m` with the geometric-barometric altitude difference of a nonzero 7-bit field: 25 feet
/// a step above 1, negative when `below`.
#[verifier::opaque]
pub open spec fn with_altitude_delta(m: ModesMessage, raw: u32, below: bool) -> ModesMessage {
    if raw > 0 {
        let delta = (raw - 1) * 25;
        ModesMessage {
            geom_delta: (if below {
                -delta
            } else {
                delta
            }) as i32,
            ..m
        }
    } else {
        m
    }
}

fn set_altitude_delta(m: ModesMessage, raw: u32, below: bool) -> (r: ModesMessage)
    requires
        raw < 128,
    ensures
        r == with_altitude_delta(m, raw, below),
{
    reveal(with_altitude_delta);
    if raw > 0 {
        let delta = (raw - 1) as i32 * 25;
        ModesMessage {
            geom_delta: if below {
                -delta
            } else {
                delta
            },
            ..m
        }
    } else {
        m
    }
}

/// Vertical rate and geometric-barometric altitude difference of an airborne velocity
/// message, each when its field is nonzero: the rate's sign is ME bit 37 (0x08 of byte 4),
/// the difference's sign ME bit 49 (0x80 of byte 6).
#[verifier::opaque]
pub open spec fn vertical_fields(m: ModesMessage) -> ModesMessage {
    let me = m.me@;
    with_altitude_delta(
        with_vertical_rate(m, vertical_rate_field(me[4], me[5]), me[4] & 0x08u8 != 0),
        altitude_delta_field(me[6]),
        me[6] & 0x80u8 != 0,
    )
}

fn decode_vertical(m: ModesMessage) -> (r: ModesMessage)
    ensures
        r == vertical_fields(m),
{
    reveal(vertical_fields);
    let me = m.me;
    let vr_raw = vertical_rate_field_of(me[4], me[5]);
    let down = has_bits(me[4], 0x08);
    let delta_raw = altitude_delta_field_of(me[6]);
    let below = has_bits(me[6], 0x80);
    set_altitude_delta(set_vertical_rate(m, vr_raw, down), delta_raw, below)
}

/// A 10-bit field: the low two bits of `a`, then all of `b`.
pub open spec fn ten_bits_ab(a: u8, b: u8) -> u32 {
    (((a as u32) & 0x03u32) << 8u32) | (b as u32)
}

/// A 10-bit field: the low seven bits of `a`, then the top three bits of `b`.
pub open spec fn ten_bits_split(a: u8, b: u8) -> u32 {
    (((a as u32) & 0x7Fu32) << 3u32) | ((b as u32) >> 5u32)
}

fn ten_bits_ab_of(a: u8, b: u8) -> (v: u32)
    ensures
        v == ten_bits_ab(a, b),
        v < 1024,
{
    let v = ((a as u32 & 0x03) << 8) | (b as u32);
    assert(v < 1024) by (bit_vector)
        requires
            v == (((a as u32) & 0x03u32) << 8u32) | (b as u32),
    ;
    v
}

fn ten_bits_split_of(a: u8, b: u8) -> (v: u32)
    ensures
        v == ten_bits_split(a, b),
        v < 1024,
{
    let v = ((a as u32 & 0x7F) << 3) | ((b as u32) >> 5);
    assert(v < 1024) by (bit_vector)
        requires
            v == (((a as u32) & 0x7Fu32) << 3u32) | ((b as u32) >> 5u32),
    ;
    v
}

/// `m` with the velocity accuracy category.
#[verifier::opaque]
pub open spec fn with_nac_v(m: ModesMessage, nac_v: u32) -> ModesMessage {
    ModesMessage {
        accuracy: crate::types::MessageAccuracy { nac_v, nac_v_valid: true, ..m.accuracy },
        ..m
    }
}

fn set_nac_v(m: ModesMessage, nac_v: u32) -> (r: ModesMessage)
    ensures
        r == with_nac_v(m, nac_v),
{
    reveal(with_nac_v);
    ModesMessage {
        accuracy: crate::types::MessageAccuracy { nac_v, nac_v_valid: true, ..m.accuracy },
        ..m
    }
}

/// `m` with a ground vector when both 10-bit speed fields are nonzero: each speed is
/// `mult` knots a step above 1, with its sign bit.
#[verifier::opaque]
pub open spec fn with_ground_vector(
    m: ModesMessage,
    ew_raw: u32,
    ew_negative: bool,
    ns_raw: u32,
    ns_negative: bool,
    mult: u32,
) -> ModesMessage {
    if ew_raw > 0 && ns_raw > 0 {
        ModesMessage {
            motion: Motion::GroundVector {
                ew_negative,
                ew_speed: ((ew_raw - 1) * mult) as u32,
                ns_negative,
                ns_speed: ((ns_raw - 1) * mult) as u32,
            },
            gs_valid: true,
            track_valid: true,
            ..m
        }
    } else {
        m
    }
}

fn set_ground_vector(
    m: ModesMessage,
    ew_raw: u32,
    ew_negative: bool,
    ns_raw: u32,
    ns_negative: bool,
    mult: u32,
) -> (r: ModesMessage)
    requires
        ew_raw < 1024,
        ns_raw < 1024,
        mult <= 4,
    ensures
        r == with_ground_vector(m, ew_raw, ew_negative, ns_raw, ns_negative, mult),
{
    reveal(with_ground_vector);
    if ew_raw > 0 && ns_raw > 0 {
        assert((ew_raw - 1) * mult <= 4092 && (ns_raw - 1) * mult <= 4092) by (nonlinear_arith)
            requires
                0 < ew_raw < 1024,
                0 < ns_raw < 1024,
                mult <= 4,
        ;
        ModesMessage {
            motion: Motion::GroundVector {
                ew_negative,
                ew_speed: (ew_raw - 1) * mult,
                ns_negative,
                ns_speed: (ns_raw - 1) * mult,
            },
            gs_valid: true,
            track_valid: true,
            ..m
        }
    } else {
        m
    }
}

/// `m` with a heading (10 bits, 1/1024 of a turn) when its status bit is set.
#[verifier::opaque]
pub open spec fn with_heading(m: ModesMessage, present: bool, raw: u32) -> ModesMessage {
    if present {
        ModesMessage { motion: Motion::Heading { raw }, track_valid: true, ..m }
    } else {
        m
    }
}

fn set_heading(m: ModesMessage, present: bool, raw: u32) -> (r: ModesMessage)
    ensures
        r == with_heading(m, present, raw),
{
    reveal(with_heading);
    if present {
        ModesMessage { motion: Motion::Heading { raw }, track_valid: true, ..m }
    } else {
        m
    }
}

/// `m` with an airspeed when the 10-bit field is nonzero: `mult` knots a step above 1,
/// true airspeed when `tas`, indicated otherwise.
#[verifier::opaque]
pub open spec fn with_airspeed(m: ModesMessage, raw: u32, mult: u32, tas: bool) -> ModesMessage {
    if raw > 0 {
        let speed = ((raw - 1) * mult) as u32;
        if tas {
            ModesMessage { tas: speed, tas_valid: true, ..m }
        } else {
            ModesMessage { ias: speed, ias_valid: true, ..m }
        }
    } else {
        m
    }
}

fn set_airspeed(m: ModesMessage, raw: u32, mult: u32, tas: bool) -> (r: ModesMessage)
    requires
        raw < 1024,
        mult <= 4,
    ensures
        r == with_airspeed(m, raw, mult, tas),
{
    reveal(with_airspeed);
    if raw > 0 {
        assert((raw - 1) * mult <= 4092) by (nonlinear_arith)
            requires
                0 < raw < 1024,
                mult <= 4,
        ;
        let speed = (raw - 1) * mult;
        if tas {
            ModesMessage { tas: speed, tas_valid: true, ..m }
        } else {
            ModesMessage { ias: speed, ias_valid: true, ..m }
        }
    } else {
        m
    }
}

/// Airborne velocity (type code 19): the velocity accuracy category always; then by subtype
/// 1-2 the ground vector (both components nonzero; subtype 2 counts 4 knots a step), or by
/// subtype 3-4 the heading (when its status bit is set) and the true (type bit set) or
/// indicated airspeed (nonzero; subtype 4 counts 4 knots a step); for subtypes 1-4 the
/// vertical fields.  Other subtypes stop after the accuracy.
#[verifier::opaque]
pub open spec fn airborne_velocity(m: ModesMessage) -> ModesMessage {
    let me = m.me@;
    let m1 = with_nac_v(m, nac_v_field(me[1]));
    let mult: u32 = if m.mesub == 1 || m.mesub == 3 {
        1
    } else {
        4
    };
    if m.mesub == 1 || m.mesub == 2 {
        vertical_fields(
            with_ground_vector(
                m1,
                ten_bits_ab(me[1], me[2]),
                me[1] & 0x04u8 != 0,
                ten_bits_split(me[3], me[4]),
                me[3] & 0x80u8 != 0,
                mult,
            ),
        )
    } else if m.mesub == 3 || m.mesub == 4 {
        vertical_fields(
            with_airspeed(
                with_heading(m1, me[1] & 0x04u8 != 0, ten_bits_ab(me[1], me[2])),
                ten_bits_split(me[3], me[4]),
                mult,
                me[3] & 0x80u8 != 0,
            ),
        )
    } else {
        m1
    }
}

fn decode_airborne_velocity(m: ModesMessage) -> (r: ModesMessage)
    ensures
        r == airborne_velocity(m),
{
    reveal(airborne_velocity);
    let me = m.me;
    let m1 = set_nac_v(m, nac_v_field_of(me[1]));
    let mult: u32 = if m.mesub == 1 || m.mesub == 3 {
        1
    } else {
        4
    };
    let sign_a = has_bits(me[1], 0x04);
    let sign_b = has_bits(me[3], 0x80);
    let first = ten_bits_ab_of(me[1], me[2]);
    let second = ten_bits_split_of(me[3], me[4]);
    if m.mesub == 1 || m.mesub == 2 {
        decode_vertical(set_ground_vector(m1, first, sign_a, second, sign_b, mult))
    } else if m.mesub == 3 || m.mesub == 4 {
        decode_vertical(set_airspeed(set_heading(m1, sign_a, first), second, mult, sign_b))
    } else {
        m1
    }
}

/// Target state and status (type code 20): the selected altitude, the 11-bit field times
/// 16, when its status bit is set.
#[verifier::opaque]
pub open spec fn target_state(m: ModesMessage) -> ModesMessage {
    let me = m.me@;
    if me[1] & 0x80u8 != 0 {
        let alt = (((me[1] as u32) & 0x7Fu32) << 4u32) | (((me[2] as u32) & 0xF0u32) >> 4u32);
        ModesMessage {
            nav: crate::types::NavState {
                mcp_altitude: (alt * 16) as u32,
                mcp_altitude_valid: true,
                ..m.nav
            },
            ..m
        }
    } else {
        m
    }
}

fn decode_target_state(m: ModesMessage) -> (r: ModesMessage)
    ensures
        r == target_state(m),
{
    reveal(target_state);
    let b1 = m.me[1];
    let b2 = m.me[2];
    if (b1 & 0x80) != 0 {
        let alt = ((b1 as u32 & 0x7F) << 4) | ((b2 as u32 & 0xF0) >> 4);
        assert(alt < 2048) by (bit_vector)
            requires
                alt == (((b1 as u32) & 0x7Fu32) << 4u32) | (((b2 as u32) & 0xF0u32) >> 4u32),
        ;
        ModesMessage {
            nav: crate::types::NavState {
                mcp_altitude: alt * 16,
                mcp_altitude_valid: true,
                ..m.nav
            },
            ..m
        }
    } else {
        m
    }
}

/// The emergency state of a 3-bit emergency code: 1-6 name a state, other codes leave
/// `current` as it was.
pub open spec fn emergency_of(code: u8, current: Emergency) -> Emergency {
    if code == 1 {
        Emergency::General
    } else if code == 2 {
        Emergency::Lifeguard
    } else if code == 3 {
        Emergency::Minfuel
    } else if code == 4 {
        Emergency::Nordo
    } else if code == 5 {
        Emergency::Unlawful
    } else if code == 6 {
        Emergency::Downed
    } else {
        current
    }
}

fn decode_emergency(code: u8, current: Emergency) -> (e: Emergency)
    ensures
        e == emergency_of(code, current),
{
    match code {
        1 => Emergency::General,
        2 => Emergency::Lifeguard,
        3 => Emergency::Minfuel,
        4 => Emergency::Nordo,
        5 => Emergency::Unlawful,
        6 => Emergency::Downed,
        _ => current,
    }
}

/// `m` with the squawk of a nonzero 13-bit identity field.
pub open spec fn with_id13_squawk(m: ModesMessage, id13: u32) -> ModesMessage {
    if id13 != 0 {
        ModesMessage { squawk_hex: id13_squawk(id13), squawk_valid: true, ..m }
    } else {
        m
    }
}

fn set_id13_squawk(m: ModesMessage, id13: u32) -> (r: ModesMessage)
    ensures
        r == with_id13_squawk(m, id13),
{
    if id13 != 0 {
        ModesMessage { squawk_hex: decode_id13(id13), squawk_valid: true, ..m }
    } else {
        m
    }
}

/// Aircraft status (type codes 21, 28 and 31): type 28 subtype 7 carries a squawk in
/// bits 9-21; types 28 and 31 subtype 1 an emergency code (top three bits) and a squawk
/// (the 13 bits after it).  Zero squawk fields set nothing.
#[verifier::opaque]
pub open spec fn aircraft_status(m: ModesMessage) -> ModesMessage {
    let me = m.me@;
    let m1 = if m.metype == 28 && m.mesub == 7 {
        with_id13_squawk(m, ((me[1] as u32) << 5u32) | ((me[2] as u32) >> 3u32))
    } else {
        m
    };
    if (m.metype == 28 || m.metype == 31) && m.mesub == 1 {
        let m2 = ModesMessage { emergency: emergency_of(me[1] >> 5u8, m1.emergency), ..m1 };
        with_id13_squawk(m2, (((me[1] as u32) & 0x1Fu32) << 8u32) | (me[2] as u32))
    } else {
        m1
    }
}

fn decode_aircraft_status(m: ModesMessage) -> (r: ModesMessage)
    ensures
        r == aircraft_status(m),
{
    reveal(aircraft_status);
    let me = m.me;
    let m1 = if m.metype == 28 && m.mesub == 7 {
        set_id13_squawk(m, ((me[1] as u32) << 5) | ((me[2] as u32) >> 3))
    } else {
        m
    };
    if (m.metype == 28 || m.metype == 31) && m.mesub == 1 {
        let m2 = ModesMessage { emergency: decode_emergency(me[1] >> 5, m1.emergency), ..m1 };
        set_id13_squawk(m2, ((me[1] as u32 & 0x1F) << 8) | (me[2] as u32))
    } else {
        m1
    }
}

/// The callsign of an identification message: eight 6-bit characters read from ME bytes
/// 1-6, up to the first '@', with surrounding spaces removed.
pub open spec fn identification_callsign(me: Seq<u8>) -> Seq<u8> {
    trim_spaces(ident_codes(be_value(me.subrange(1, 7)), 42, 8))
}

/// Aircraft identification (type codes 1-4): a nonempty callsign.
#[verifier::opaque]
pub open spec fn identification(m: ModesMessage) -> ModesMessage {
    let cs = identification_callsign(m.me@);
    if cs.len() > 0 {
        ModesMessage { callsign: overwrite_prefix(m.callsign, cs), callsign_valid: true, ..m }
    } else {
        m
    }
}

fn identification_callsign_of(me: &[u8; 7]) -> (cs: Vec<u8>)
    ensures
        cs@ == identification_callsign(me@),
{
    let mut bits: u64 = 0;
    let mut i: usize = 1;
    while i < 7
        invariant
            1 <= i <= 7,
            bits == be_value(me@.subrange(1, i as int)),
        decreases 7 - i,
    {
        assert(me@.subrange(1, i + 1).drop_last() =~= me@.subrange(1, i as int));
        bits = (bits << 8) | (me[i] as u64);
        i = i + 1;
    }
    let raw = decode_ident_codes(bits, 8);
    trim_space_bytes(&raw)
}

fn decode_aircraft_identification(m: ModesMessage) -> (r: ModesMessage)
    ensures
        r == identification(m),
{
    reveal(identification);
    let cs = identification_callsign_of(&m.me);
    if cs.len() > 0 {
        ModesMessage { callsign: with_callsign(m.callsign, &cs), callsign_valid: true, ..m }
    } else {
        m
    }
}

/// `m` with the ME field taken from bytes 4-10 of the message, and its type code and
/// subtype.
pub open spec fn with_me(m: ModesMessage) -> ModesMessage {
    let me = byte_array::<7>(m.msg@.subrange(4, 11));
    ModesMessage {
        me,
        metype: ((me@[0] & 0xF8u8) >> 3u8) as u32,
        mesub: (me@[0] & 0x07u8) as u32,
        ..m
    }
}

fn set_me(m: ModesMessage) -> (r: ModesMessage)
    ensures
        r == with_me(m),
{
    let me = data_field_of(&m.msg);
    let b0 = me[0];
    ModesMessage { me, metype: ((b0 & 0xF8) >> 3) as u32, mesub: (b0 & 0x07) as u32, ..m }
}

/// Extended squitter (DF17/18): the ME field, then its fields by type code: 1-4
/// identification, 5-8 surface position, 9-18 airborne position, 19 velocity, 20 target
/// state, 21, 28 and 31 status; other type codes nothing more.
#[verifier::opaque]
pub open spec fn extended_squitter(m: ModesMessage) -> ModesMessage {
    let m1 = with_me(m);
    let t = m1.metype;
    if 1 <= t <= 4 {
        identification(m1)
    } else if 5 <= t <= 8 {
        surface_position(m1)
    } else if 9 <= t <= 18 {
        airborne_position(m1)
    } else if t == 19 {
        airborne_velocity(m1)
    } else if t == 20 {
        target_state(m1)
    } else if t == 21 || t == 28 || t == 31 {
        aircraft_status(m1)
    } else {
        m1
    }
}

fn decode_df17_18(m: ModesMessage) -> (r: ModesMessage)
    ensures
        r == extended_squitter(m),
{
    reveal(extended_squitter);
    let m1 = set_me(m);
    let t = m1.metype;
    if t >= 1 && t <= 4 {
        decode_aircraft_identification(m1)
    } else if t >= 5 && t <= 8 {
        decode_surface_position(m1)
    } else if t >= 9 && t <= 18 {
        decode_airborne_position(m1)
    } else if t == 19 {
        decode_airborne_velocity(m1)
    } else if t == 20 {
        decode_target_state(m1)
    } else if t == 21 || t == 28 || t == 31 {
        decode_aircraft_status(m1)
    } else {
        m1
    }
}

/// The fields of a message by downlink format: 0, 4, 16 surveillance; 5, 21 identity;
/// 17, 18 extended squitter; 20 Comm-B altitude reply; 31 the MV field; others (11, 19, 24
/// among them) nothing more.
pub open spec fn format_fields(m: ModesMessage) -> ModesMessage {
    let t = m.msgtype;
    if t == 0 || t == 4 || t == 16 {
        surveillance_fields(m)
    } else if t == 5 || t == 21 {
        identity_fields(m)
    } else if t == 17 || t == 18 {
        extended_squitter(m)
    } else if t == 20 {
        df20_fields(m)
    } else if t == 31 {
        df31_fields(m)
    } else {
        m
    }
}

fn decode_format_fields(m: ModesMessage) -> (r: ModesMessage)
    ensures
        r == format_fields(m),
{
    let t = m.msgtype;
    if t == 0 || t == 4 || t == 16 {
        decode_df0_4_16(m)
    } else if t == 5 || t == 21 {
        decode_df5_21(m)
    } else if t == 17 || t == 18 {
        decode_df17_18(m)
    } else if t == 20 {
        decode_df20(m)
    } else if t == 31 {
        decode_df31(m)
    } else {
        m
    }
}

/// The announced address of DF11/17/18 (bytes 1-3).
pub open spec fn announced_address(msg: Seq<u8>) -> u32 {
    ((msg[1] as u32) << 16u32) | ((msg[2] as u32) << 8u32) | (msg[3] as u32)
}

fn announced_address_of(msg: &[u8; 14]) -> (v: u32)
    ensures
        v == announced_address(msg@),
{
    ((msg[1] as u32) << 16) | ((msg[2] as u32) << 8) | (msg[3] as u32)
}

/// The air/ground state implied by a capability field of 4 (ground) or 5 (airborne); other
/// values leave `current` unchanged.
pub open spec fn airground_of_ca(ca: u32, current: AirGround) -> AirGround {
    if ca == 4 {
        AirGround::Ground
    } else if ca == 5 {
        AirGround::Airborne
    } else {
        current
    }
}

/// `m` with its control and capability fields and air/ground state set.
pub open spec fn with_first_byte_fields(m: ModesMessage, cf: u32, ca: u32, airground: AirGround) -> ModesMessage {
    ModesMessage { cf, ca, airground, ..m }
}

fn set_first_byte_fields(m: ModesMessage, cf: u32, ca: u32, airground: AirGround) -> (r:
    ModesMessage)
    ensures
        r == with_first_byte_fields(m, cf, ca, airground),
{
    ModesMessage { cf, ca, airground, ..m }
}

/// `m` with an announced address, which also becomes its address.
pub open spec fn with_announced_address(m: ModesMessage, aa: u32) -> ModesMessage {
    ModesMessage { aa, addr: aa, ..m }
}

fn set_announced_address(m: ModesMessage, aa: u32) -> (r: ModesMessage)
    ensures
        r == with_announced_address(m, aa),
{
    ModesMessage { aa, addr: aa, ..m }
}

fn control_field_of(b0: u8) -> (v: u32)
    ensures
        v == ((b0 & 0xE0u8) >> 5u8) as u32,
{
    ((b0 & 0xE0) >> 5) as u32
}

fn capability_field_of(b0: u8) -> (v: u32)
    ensures
        v == (b0 & 0x07u8) as u32,
{
    (b0 & 0x07) as u32
}

/// Fields common to all formats: CF (top three bits) and CA (low three bits) of the first
/// byte; the air/ground state from CA when not yet known; for DF11/17/18 the announced
/// address, which becomes the message's address.
#[verifier::opaque]
pub open spec fn common_fields(m: ModesMessage) -> ModesMessage {
    let b0 = m.msg@[0];
    let ca = (b0 & 0x07u8) as u32;
    let ag = if m.airground == AirGround::Invalid {
        airground_of_ca(ca, m.airground)
    } else {
        m.airground
    };
    let m1 = with_first_byte_fields(m, ((b0 & 0xE0u8) >> 5u8) as u32, ca, ag);
    if m.msgtype == 11 || m.msgtype == 17 || m.msgtype == 18 {
        with_announced_address(m1, announced_address(m.msg@))
    } else {
        m1
    }
}

fn extract_common_fields(m: ModesMessage) -> (r: ModesMessage)
    ensures
        r == common_fields(m),
{
    reveal(common_fields);
    let b0 = m.msg[0];
    let ca = capability_field_of(b0);
    let cf = control_field_of(b0);
    let airground = if m.airground == AirGround::Invalid {
        if ca == 4 {
            AirGround::Ground
        } else if ca == 5 {
            AirGround::Airborne
        } else {
            m.airground
        }
    } else {
        m.airground
    };
    let m1 = set_first_byte_fields(m, cf, ca, airground);
    if m.msgtype == 11 || m.msgtype == 17 || m.msgtype == 18 {
        set_announced_address(m1, announced_address_of(&m.msg))
    } else {
        m1
    }
}

/// The parity stage. Address/parity formats (DF0, 4, 5) take the syndrome as the sender's
/// address and count as checked. Otherwise a zero syndrome is good; a nonzero one with an
/// entry in the correction table gets the entry's bits flipped, the syndrome recomputed, the
/// message marked corrected, and is good when the new syndrome is zero; a nonzero one
/// without an entry is bad.
pub open spec fn parity_checked(m: ModesMessage, table: Map<u32, ErrorInfo>, bitlen: nat) -> ModesMessage {
    if m.msgtype == 0 || m.msgtype == 4 || m.msgtype == 5 {
        ModesMessage { addr: m.crc, crc_ok: true, ..m }
    } else if m.crc != 0 {
        if table.contains_key(m.crc) {
            let info = table[m.crc];
            let fixed = apply_fix(m.msg@, info.bits@);
            let c = checksum(fixed, bitlen);
            ModesMessage {
                msg: byte_array::<14>(fixed),
                corrected_bits: info.errors as i32,
                crc: c,
                corrected: true,
                crc_ok: c == 0,
                ..m
            }
        } else {
            ModesMessage { crc_ok: false, ..m }
        }
    } else {
        ModesMessage { crc_ok: true, ..m }
    }
}

fn check_parity(m: ModesMessage, engine: &CrcFixEngine, bitlen: usize) -> (r: ModesMessage)
    requires
        engine.bit_len() <= 112,
        bitlen == 56 || bitlen == 112,
    ensures
        r == parity_checked(m, engine@, bitlen as nat),
{
    if m.msgtype == 0 || m.msgtype == 4 || m.msgtype == 5 {
        ModesMessage { addr: m.crc, crc_ok: true, ..m }
    } else if m.crc != 0 {
        match engine.diagnose(m.crc) {
            Some(info) => {
                let mut fixed = m.msg;
                CrcFixEngine::fix(&mut fixed, info);
                let c = modes_checksum(&fixed, bitlen);
                proof {
                    lemma_byte_array(fixed);
                }
                assert(info.errors <= 2);
                ModesMessage {
                    msg: fixed,
                    corrected_bits: info.errors as i32,
                    crc: c,
                    corrected: true,
                    crc_ok: c == 0,
                    ..m
                }
            },
            None => ModesMessage { crc_ok: false, ..m },
        }
    } else {
        ModesMessage { crc_ok: true, ..m }
    }
}

/// The first `n` bytes of `msg` followed by zeros, 14 bytes in all.
pub open spec fn padded_frame(msg: Seq<u8>, n: nat) -> Seq<u8> {
    Seq::new(14, |i: int| if i < n { msg[i] } else { 0u8 })
}

fn pad_frame(msg: &[u8], n: usize) -> (frame: [u8; 14])
    requires
        n <= 14,
        n <= msg@.len(),
    ensures
        frame@ == padded_frame(msg@, n as nat),
{
    let mut frame = [0u8; 14];
    let mut i: usize = 0;
    while i < n
        invariant
            i <= n <= 14,
            n <= msg@.len(),
            forall|j: int| 0 <= j < i ==> frame@[j] == msg@[j],
            forall|j: int| i <= j < 14 ==> frame@[j] == 0u8,
        decreases n - i,
    {
        frame[i] = msg[i];
        i = i + 1;
    }
    assert(frame@ =~= padded_frame(msg@, n as nat));
    frame
}

/// The downlink format of a message: the top five bits of its first byte.
pub open spec fn downlink_format(b0: u8) -> i32 {
    ((b0 & 0xF8u8) >> 3u8) as i32
}

/// A 56- or 112-bit frame before parity checking: the bytes, the format, the length and the
/// syndrome.
pub open spec fn frame_message(frame: Seq<u8>, bitlen: nat) -> ModesMessage {
    ModesMessage {
        msg: byte_array::<14>(frame),
        verbatim: byte_array::<14>(frame),
        msgbits: bitlen as i32,
        msgtype: downlink_format(frame[0]),
        crc: checksum(frame, bitlen),
        ..empty_message()
    }
}

/// The message decoded from the first `bitlen / 8` bytes of `msg` (`bitlen` 56 or 112):
/// parity stage, common fields, then the fields of its format.
pub open spec fn decoded_message(msg: Seq<u8>, bitlen: nat, table: Map<u32, ErrorInfo>) -> ModesMessage {
    format_fields(
        common_fields(
            parity_checked(frame_message(padded_frame(msg, bitlen / 8), bitlen), table, bitlen),
        ),
    )
}

/// A Mode A/C reply given as two bytes: the code is the first byte and the high nibble of
/// the second.
pub open spec fn mode_ac_message(b0: u8, b1: u8) -> ModesMessage {
    let frame = Seq::new(14, |i: int| if i == 0 { b0 } else if i == 1 { b1 } else { 0u8 });
    let modea = ((b0 as u32) << 4u32) | ((b1 as u32) >> 4u32);
    mode_ac_fields(
        ModesMessage {
            msgbits: 16,
            msgtype: downlink_format(b0),
            msg: byte_array::<14>(frame),
            verbatim: byte_array::<14>(frame),
            ..empty_message()
        },
        modea,
    )
}

/// The outcome of parsing: the message, and whether its parity checked out and whether it
/// was corrected.
pub struct ParseResult {
    pub message: ModesMessage,
    pub crc_ok: bool,
    pub corrected: bool,
}

/// Parse a raw Mode S frame of `msgbits` bits (the first `msgbits / 8` bytes of `msg`).
///
/// A 16-bit frame is a Mode A/C reply (always good, never corrected); 56- and 112-bit frames
/// are decoded with parity checking and correction by `crc_engine`; other lengths give
/// `None`.
pub fn parse_modes_message(msg: &[u8], msgbits: usize, crc_engine: &CrcFixEngine) -> (r: Option<
    ParseResult,
>)
    requires
        msgbits == 16 ==> msg@.len() >= 2,
        msgbits == 56 || msgbits == 112 ==> msg@.len() >= msgbits / 8,
        msgbits == 56 || msgbits == 112 ==> crc_engine.bit_len() <= 112,
    ensures
        msgbits == 16 ==> r == Some(
            ParseResult { message: mode_ac_message(msg@[0], msg@[1]), crc_ok: true, corrected: false },
        ),
        msgbits == 56 || msgbits == 112 ==> (r matches Some(p) && p.message == decoded_message(
            msg@,
            msgbits as nat,
            crc_engine@,
        ) && p.crc_ok == p.message.crc_ok && p.corrected == p.message.corrected),
        msgbits != 16 && msgbits != 56 && msgbits != 112 ==> r is None,
{
    if msgbits == 16 {
        let frame = pad_frame(msg, 2);
        let modea = ((msg[0] as u32) << 4) | ((msg[1] as u32) >> 4);
        let b0 = msg[0];
        let base = ModesMessage {
            msgbits: 16,
            msgtype: ((b0 & 0xF8) >> 3) as i32,
            msg: frame,
            verbatim: frame,
            ..ModesMessage::default()
        };
        let mm = decode_mode_ac(base, modea);
        proof {
            assert(frame@ =~= Seq::new(
                14,
                |i: int|
                    if i == 0 {
                        msg@[0]
                    } else if i == 1 {
                        msg@[1]
                    } else {
                        0u8
                    },
            ));
            lemma_byte_array(frame);
        }
        return Some(ParseResult { message: mm, crc_ok: true, corrected: false });
    }
    if msgbits != 56 && msgbits != 112 {
        return None;
    }
    let nbytes = msgbits / 8;
    let padded = pad_frame(msg, nbytes);
    let b0 = padded[0];
    let crc = modes_checksum(&padded, msgbits);
    let base = ModesMessage {
        msg: padded,
        verbatim: padded,
        msgbits: msgbits as i32,
        msgtype: ((b0 & 0xF8) >> 3) as i32,
        crc,
        ..ModesMessage::default()
    };
    proof {
        lemma_byte_array(padded);
    }
    let checked = check_parity(base, crc_engine, msgbits);
    let common = extract_common_fields(checked);
    let mm = decode_format_fields(common);
    let crc_ok = mm.crc_ok;
    let corrected = mm.corrected;
    Some(ParseResult { message: mm, crc_ok, corrected })
}

// ---------------------------------------------------------------------------
// Laws of the parity stage
// ---------------------------------------------------------------------------

/// The parts of a message that decoding its fields leaves alone: the parity outcome, the
/// bytes and the format.
pub open spec fn same_frame(a: ModesMessage, b: ModesMessage) -> bool {
    &&& a.crc_ok == b.crc_ok
    &&& a.corrected == b.corrected
    &&& a.corrected_bits == b.corrected_bits
    &&& a.msg == b.msg
    &&& a.msgtype == b.msgtype
}

proof fn lemma_vertical_keeps_frame(m: ModesMessage)
    ensures
        same_frame(vertical_fields(m), m),
{
    reveal(vertical_fields);
    reveal(with_vertical_rate);
    reveal(with_altitude_delta);
}

proof fn lemma_setters_keep_frame(m: ModesMessage, a: u32, b: u32, c: u32, x: bool, y: bool)
    ensures
        same_frame(with_nac_v(m, a), m),
        same_frame(with_ground_vector(m, a, x, b, y, c), m),
        same_frame(with_heading(m, x, a), m),
        same_frame(with_airspeed(m, a, c, x), m),
{
    reveal(with_nac_v);
    reveal(with_ground_vector);
    reveal(with_heading);
    reveal(with_airspeed);
}

proof fn lemma_velocity_keeps_frame(m: ModesMessage)
    ensures
        same_frame(airborne_velocity(m), m),
{
    reveal(airborne_velocity);
    let me = m.me@;
    let m1 = with_nac_v(m, nac_v_field(me[1]));
    let mult: u32 = if m.mesub == 1 || m.mesub == 3 {
        1
    } else {
        4
    };
    let ew = ten_bits_ab(me[1], me[2]);
    let ns = ten_bits_split(me[3], me[4]);
    let sa = me[1] & 0x04u8 != 0;
    let sb = me[3] & 0x80u8 != 0;
    lemma_setters_keep_frame(m, nac_v_field(me[1]), 0, 0, false, false);
    lemma_setters_keep_frame(m1, ew, ns, mult, sa, sb);
    let g = with_ground_vector(m1, ew, sa, ns, sb, mult);
    let hd = with_heading(m1, sa, ew);
    lemma_setters_keep_frame(hd, ns, 0, mult, sb, false);
    let h = with_airspeed(hd, ns, mult, sb);
    lemma_vertical_keeps_frame(g);
    lemma_vertical_keeps_frame(h);
}

proof fn lemma_squitter_keeps_frame(m: ModesMessage)
    ensures
        same_frame(extended_squitter(m), m),
{
    reveal(extended_squitter);
    reveal(identification);
    reveal(surface_position);
    reveal(airborne_position);
    reveal(target_state);
    reveal(aircraft_status);
    lemma_velocity_keeps_frame(with_me(m));
}

/// Decoding the fields of a message never changes its parity outcome, its bytes or its
/// format.
proof fn lemma_fields_keep_frame(m: ModesMessage)
    ensures
        same_frame(common_fields(m), m),
        same_frame(format_fields(m), m),
{
    reveal(common_fields);
    reveal(surveillance_fields);
    reveal(identity_fields);
    reveal(df20_fields);
    reveal(df31_fields);
    lemma_squitter_keeps_frame(m);
}

/// Padding after inverting a bit inside the kept bytes is inverting it after padding.
proof fn lemma_pad_flip(msg: Seq<u8>, n: nat, pos: int)
    requires
        n <= 14,
        n <= msg.len(),
        0 <= pos < 8 * n,
    ensures
        padded_frame(flip_bit(msg, pos), n) == flip_bit(padded_frame(msg, n), pos),
{
    assert(0 <= pos / 8 < n) by (nonlinear_arith)
        requires
            0 <= pos < 8 * n,
    ;
    assert(padded_frame(flip_bit(msg, pos), n) =~= flip_bit(padded_frame(msg, n), pos));
}

/// A frame whose syndrome is zero, or has an entry in a correction table built for its
/// length, parses as good.
proof fn lemma_good_when_known(msg: Seq<u8>, bitlen: nat, t: Map<u32, ErrorInfo>)
    requires
        bitlen == 56 || bitlen == 112,
        msg.len() >= bitlen / 8,
        correction_table(t, bitlen),
        checksum(padded_frame(msg, bitlen / 8), bitlen) == 0 || t.contains_key(
            checksum(padded_frame(msg, bitlen / 8), bitlen),
        ),
    ensures
        decoded_message(msg, bitlen, t).crc_ok,
{
    let frame = padded_frame(msg, bitlen / 8);
    let base = frame_message(frame, bitlen);
    let checked = parity_checked(base, t, bitlen);
    lemma_fields_keep_frame(checked);
    lemma_fields_keep_frame(common_fields(checked));
    assert(byte_len(bitlen) == bitlen / 8);
    crate::types::lemma_byte_array_view::<14>(frame);
    if base.msgtype != 0 && base.msgtype != 4 && base.msgtype != 5 && base.crc != 0 {
        let info = t[base.crc];
        lemma_fix_corrects(frame, bitlen, info);
    }
}

/// An intact frame (zero syndrome over its `bitlen` bits) parses as good and uncorrected,
/// with its bytes kept.
pub proof fn lemma_intact_frame_good(msg: Seq<u8>, bitlen: nat, t: Map<u32, ErrorInfo>)
    requires
        bitlen == 56 || bitlen == 112,
        msg.len() >= bitlen / 8,
        checksum(msg, bitlen) == 0,
    ensures
        decoded_message(msg, bitlen, t).crc_ok,
        !decoded_message(msg, bitlen, t).corrected,
        decoded_message(msg, bitlen, t).msg@ == padded_frame(msg, bitlen / 8),
{
    let frame = padded_frame(msg, bitlen / 8);
    assert(byte_len(bitlen) == bitlen / 8);
    lemma_checksum_prefix(msg, frame, bitlen);
    let checked = parity_checked(frame_message(frame, bitlen), t, bitlen);
    lemma_fields_keep_frame(checked);
    lemma_fields_keep_frame(common_fields(checked));
    crate::types::lemma_byte_array_view::<14>(frame);
}

/// The syndrome of a frame sent intact and received with bit `pos` inverted is the
/// single-bit syndrome of `pos`.
proof fn lemma_one_flip_syndrome(sent: Seq<u8>, bitlen: nat, pos: int)
    requires
        bitlen == 56 || bitlen == 112,
        sent.len() >= bitlen / 8,
        checksum(sent, bitlen) == 0,
        0 <= pos < bitlen,
    ensures
        checksum(padded_frame(flip_bit(sent, pos), bitlen / 8), bitlen) == single_syndrome(
            pos,
            bitlen,
        ),
{
    let n = bitlen / 8;
    assert(byte_len(bitlen) == n);
    let p = padded_frame(sent, n);
    lemma_checksum_prefix(sent, p, bitlen);
    lemma_pad_flip(sent, n, pos);
    lemma_checksum_flip(p, pos, bitlen);
    let e = single_syndrome(pos, bitlen);
    assert(0u32 ^ e == e) by (bit_vector);
}

/// The type code and the selected-altitude field of an ME field, in plain arithmetic.
proof fn lemma_target_state_bits(b0: u8, b1: u8, b2: u8)
    by (bit_vector)
    ensures
        ((b0 & 0xF8u8) >> 3u8) as u32 == (b0 as u32) / 8,
        (((b1 as u32) & 0x7Fu32) << 4u32) | (((b2 as u32) & 0xF0u32) >> 4u32) == ((b1 as u32) % 128)
            * 16 + (b2 as u32) / 16,
        (b1 & 0x80u8 != 0) == (b1 >= 128),
{
}

/// A decoded extended squitter (DF17/18) of type code 20 whose selected-altitude status bit
/// (the top bit of its sixth byte) is set carries a valid selected altitude of 16 ft times
/// the 11-bit field that follows the status bit; with the status bit clear it carries none.
pub proof fn lemma_selected_altitude(msg: Seq<u8>, bitlen: nat, t: Map<u32, ErrorInfo>)
    requires
        bitlen == 56 || bitlen == 112,
        msg.len() >= bitlen / 8,
    ensures
        ({
            let d = decoded_message(msg, bitlen, t);
            (d.msgtype == 17 || d.msgtype == 18) && d.msg@[4] / 8 == 20 ==> {
                &&& d.msg@[5] >= 128 ==> d.nav.mcp_altitude_valid && d.nav.mcp_altitude == 16 * ((
                d.msg@[5] - 128) * 16 + d.msg@[6] / 16)
                &&& d.msg@[5] < 128 ==> !d.nav.mcp_altitude_valid
            }
        }),
{
    let frame = padded_frame(msg, bitlen / 8);
    let checked = parity_checked(frame_message(frame, bitlen), t, bitlen);
    let c = common_fields(checked);
    let d = decoded_message(msg, bitlen, t);
    lemma_fields_keep_frame(c);
    assert(d == format_fields(c));
    reveal(common_fields);
    reveal(extended_squitter);
    reveal(target_state);
    if (d.msgtype == 17 || d.msgtype == 18) && d.msg@[4] / 8 == 20 {
        let sub = c.msg@.subrange(4, 11);
        crate::types::lemma_byte_array_view::<7>(sub);
        let m1 = with_me(c);
        assert(m1.me@ == sub);
        lemma_target_state_bits(sub[0], sub[1], sub[2]);
        assert(m1.metype == 20);
        assert(c.nav == empty_message().nav);
    }
}

/// The downlink format does not depend on the low three bits of the first byte.
proof fn lemma_format_ignores_low_bits(x: u8, s: u8)
    by (bit_vector)
    requires
        s < 3,
    ensures
        downlink_format(x ^ (1u8 << s)) == downlink_format(x),
{
}

/// A frame sent intact and received with one bit inverted outside the downlink format
/// field parses as good, when the correction table was built for its length. Unless its
/// format takes the parity as the address (DF0, DF4, DF5), it is reported as corrected in
/// one bit, and the bytes it carries are those that were sent.
pub proof fn lemma_single_error_repaired(
    sent: Seq<u8>,
    bitlen: nat,
    t: Map<u32, ErrorInfo>,
    pos: int,
)
    requires
        bitlen == 56 || bitlen == 112,
        sent.len() >= bitlen / 8,
        checksum(sent, bitlen) == 0,
        correction_table(t, bitlen),
        5 <= pos < bitlen,
    ensures
        decoded_message(flip_bit(sent, pos), bitlen, t).crc_ok,
        downlink_format(sent[0]) != 0 && downlink_format(sent[0]) != 4 && downlink_format(sent[0])
            != 5 ==> {
            &&& decoded_message(flip_bit(sent, pos), bitlen, t).corrected
            &&& decoded_message(flip_bit(sent, pos), bitlen, t).corrected_bits == 1
            &&& decoded_message(flip_bit(sent, pos), bitlen, t).msg@ == padded_frame(sent, bitlen / 8)
        },
{
    lemma_one_flip_syndrome(sent, bitlen, pos);
    assert(t.contains_key(single_syndrome(pos, bitlen)));
    lemma_good_when_known(flip_bit(sent, pos), bitlen, t);
    let n = bitlen / 8;
    assert(byte_len(bitlen) == n);
    let p = padded_frame(sent, n);
    lemma_checksum_prefix(sent, p, bitlen);
    lemma_pad_flip(sent, n, pos);
    lemma_single_error_located(p, bitlen, t, pos);
    lemma_syndrome_position(pos, bitlen);
    let frame = flip_bit(p, pos);
    crate::types::lemma_byte_array_view::<14>(frame);
    crate::types::lemma_byte_array_view::<14>(p);
    if pos < 8 {
        lemma_format_ignores_low_bits(p[0], (7 - pos % 8) as u8);
    }
    assert(frame[0] == p[0] ^ (1u8 << ((7 - pos % 8) as u8)) || frame[0] == p[0]);
    assert(downlink_format(frame[0]) == downlink_format(sent[0]));
    let base = frame_message(frame, bitlen);
    let checked = parity_checked(base, t, bitlen);
    lemma_fields_keep_frame(checked);
    lemma_fields_keep_frame(common_fields(checked));
}

/// A frame sent intact and received with two bits inverted outside the downlink format
/// field parses as good, when the correction table was built for its length.
pub proof fn lemma_double_error_repaired(
    sent: Seq<u8>,
    bitlen: nat,
    t: Map<u32, ErrorInfo>,
    p1: int,
    p2: int,
)
    requires
        bitlen == 56 || bitlen == 112,
        sent.len() >= bitlen / 8,
        checksum(sent, bitlen) == 0,
        correction_table(t, bitlen),
        5 <= p1 < p2 < bitlen,
    ensures
        decoded_message(flip_bit(flip_bit(sent, p1), p2), bitlen, t).crc_ok,
{
    let n = bitlen / 8;
    assert(byte_len(bitlen) == n);
    let received = flip_bit(flip_bit(sent, p1), p2);
    let once = flip_bit(sent, p1);
    assert(0 <= p1 / 8 < n) by (nonlinear_arith)
        requires
            0 <= p1 < bitlen,
            n == bitlen / 8,
            bitlen == 56 || bitlen == 112,
    ;
    assert(once.len() == sent.len());
    lemma_pad_flip(once, n, p2);
    let p = padded_frame(once, n);
    lemma_one_flip_syndrome(sent, bitlen, p1);
    lemma_checksum_flip(p, p2, bitlen);
    let z = zeros(n);
    let s1 = single_syndrome(p1, bitlen);
    let s2 = single_syndrome(p2, bitlen);
    lemma_checksum_zeros(bitlen);
    lemma_checksum_flip(z, p1, bitlen);
    lemma_checksum_flip(flip_bit(z, p1), p2, bitlen);
    assert(double_syndrome(p1, p2, bitlen) == (0u32 ^ s1) ^ s2);
    assert((0u32 ^ s1) ^ s2 == s1 ^ s2) by (bit_vector);
    assert(t.contains_key(double_syndrome(p1, p2, bitlen)));
    lemma_good_when_known(received, bitlen, t);
}

} // verus!
