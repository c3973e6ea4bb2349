use readsb::crc::{modes_checksum, CrcFixEngine};
use readsb::modes::parser::{decode_altitude, decode_id13, parse_modes_message};
use readsb::types::{AirGround, AltitudeUnit, CommBFormat, CprType, Emergency, Motion, ModesMessage, INVALID_ALTITUDE};

fn hex(s: &str) -> Vec<u8> {
    (0..s.len()).step_by(2).map(|i| u8::from_str_radix(&s[i..i + 2], 16).unwrap()).collect()
}

#[test]
fn identification_message() {
    let engine = CrcFixEngine::new(112);
    let msg = hex("8D4840D6202CC371C32CE0576098");
    let r = parse_modes_message(&msg, 112, &engine).unwrap();
    assert!(r.crc_ok);
    assert!(!r.corrected);
    let m = r.message;
    assert_eq!(m.msgtype, 17);
    assert_eq!(m.msgbits, 112);
    assert_eq!(m.addr, 0x4840D6);
    assert_eq!(m.aa, 0x4840D6);
    assert_eq!(m.ca, 5);
    assert_eq!(m.metype, 4);
    assert_eq!(m.mesub, 0);
    assert!(m.callsign_valid);
    assert_eq!(&m.callsign[..8], b"KLM1023\0");
    assert_eq!(m.airground, AirGround::Airborne);
    assert_eq!(m.crc, 0);
}

#[test]
fn airborne_position_message() {
    let engine = CrcFixEngine::new(112);
    let msg = hex("8D40621D58C382D690C8AC2863A7");
    let r = parse_modes_message(&msg, 112, &engine).unwrap();
    assert!(r.crc_ok);
    let m = r.message;
    assert_eq!(m.addr, 0x40621D);
    assert_eq!(m.metype, 11);
    assert_eq!(m.cpr_type, CprType::Airborne);
    assert!(m.cpr_valid);
    assert!(!m.cpr_odd);
    assert_eq!(m.cpr_lat, 93000);
    assert_eq!(m.cpr_lon, 51372);
    assert!(m.baro_alt_valid);
    assert_eq!(m.baro_alt, 38000);
    assert_eq!(m.baro_alt_unit, AltitudeUnit::Feet);
}

#[test]
fn airborne_velocity_message() {
    let engine = CrcFixEngine::new(112);
    let msg = hex("8D485020994409940838175B284F");
    let r = parse_modes_message(&msg, 112, &engine).unwrap();
    let m = r.message;
    assert_eq!(m.metype, 19);
    assert_eq!(m.mesub, 1);
    assert!(m.gs_valid);
    assert!(m.track_valid);
    assert_eq!(
        m.motion,
        Motion::GroundVector { ew_negative: true, ew_speed: 8, ns_negative: true, ns_speed: 159 }
    );
    assert!(m.accuracy.nac_v_valid);
    assert_eq!(m.accuracy.nac_v, 0);
    assert!(m.geom_rate_valid);
    assert_eq!(m.geom_rate, -832);
    assert_eq!(m.geom_delta, 550);
}

#[test]
fn single_bit_error_is_corrected() {
    let engine = CrcFixEngine::new(112);
    let good = hex("8D4840D6202CC371C32CE0576098");
    let mut bad = good.clone();
    bad[6] ^= 0x10;
    assert_ne!(modes_checksum(&bad, 112), 0);
    let r = parse_modes_message(&bad, 112, &engine).unwrap();
    assert!(r.crc_ok);
    assert!(r.corrected);
    assert_eq!(r.message.corrected_bits, 1);
    assert_eq!(&r.message.msg[..], &good[..]);
    assert_eq!(&r.message.verbatim[..], &bad[..]);
    assert_eq!(r.message.crc, 0);
}

#[test]
fn every_single_bit_error_is_located_and_undone() {
    for (bitlen, text) in [(112usize, "8D4840D6202CC371C32CE0576098"), (56usize, "5D4840D6F8740F")] {
        let engine = CrcFixEngine::new(bitlen);
        let good = hex(text);
        assert_eq!(modes_checksum(&good, bitlen), 0);
        for pos in 5..bitlen {
            let mut bad = good.clone();
            bad[pos / 8] ^= 0x80 >> (pos % 8);
            let info = engine.diagnose(modes_checksum(&bad, bitlen)).unwrap();
            assert_eq!(info.errors, 1);
            assert_eq!(info.bits[0] as usize, pos);
            let mut fixed = bad.clone();
            CrcFixEngine::fix(&mut fixed, info);
            assert_eq!(fixed, good);
            let r = parse_modes_message(&bad, bitlen, &engine).unwrap();
            assert!(r.crc_ok);
            assert!(r.corrected);
            assert_eq!(r.message.corrected_bits, 1);
            assert_eq!(&r.message.msg[..bitlen / 8], &good[..]);
        }
    }
}

#[test]
fn double_bit_error_is_corrected() {
    let engine = CrcFixEngine::new(112);
    let good = hex("8D40621D58C382D690C8AC2863A7");
    let mut bad = good.clone();
    bad[2] ^= 0x01;
    bad[9] ^= 0x80;
    let r = parse_modes_message(&bad, 112, &engine).unwrap();
    assert!(r.crc_ok);
    assert!(r.corrected);
    assert_eq!(r.message.corrected_bits, 2);
    assert_eq!(&r.message.msg[..], &good[..]);
}

#[test]
fn mode_ac_reply() {
    let engine = CrcFixEngine::new(112);
    let r = parse_modes_message(&[0x12, 0x34], 16, &engine).unwrap();
    assert!(r.crc_ok);
    assert!(!r.corrected);
    let m = r.message;
    assert_eq!(m.msgbits, 16);
    assert_eq!(m.msgtype, 2);
    assert_eq!(m.squawk_hex, 0x123);
    assert!(m.squawk_valid);
    assert_eq!(m.addr, 0x0100_0023);
    assert_eq!(&m.msg[..3], &[0x12, 0x34, 0x00]);
}

#[test]
fn unsupported_length_gives_none() {
    let engine = CrcFixEngine::new(112);
    assert!(parse_modes_message(&[0u8; 14], 64, &engine).is_none());
    assert!(parse_modes_message(&[0u8; 14], 0, &engine).is_none());
}

#[test]
fn df4_surveillance_altitude() {
    let engine = CrcFixEngine::new(56);
    let msg = [0x20u8, 0x00, 0x17, 0x30, 0x12, 0x34, 0x56];
    let r = parse_modes_message(&msg, 56, &engine).unwrap();
    assert!(r.crc_ok);
    let m = r.message;
    assert_eq!(m.msgtype, 4);
    assert!(m.baro_alt_valid);
    assert_eq!(m.baro_alt, 36200);
    assert_eq!(m.addr, 0x234560);
}

#[test]
fn df5_identity() {
    let engine = CrcFixEngine::new(56);
    let msg = [0x28u8, 0x00, 0x17, 0x30, 0x00, 0x00, 0x00];
    let r = parse_modes_message(&msg, 56, &engine).unwrap();
    let m = r.message;
    assert_eq!(m.msgtype, 5);
    assert!(m.squawk_valid);
    assert_eq!(m.squawk_hex, 0x2171);
}

#[test]
fn corrupted_df11_without_table_entry_is_bad() {
    let engine = CrcFixEngine::new(56);
    let msg = [0x5Du8, 0x48, 0x40, 0xD6, 0x00, 0x00, 0x00];
    let r = parse_modes_message(&msg, 56, &engine).unwrap();
    assert_eq!(r.message.msgtype, 11);
    assert_eq!(r.message.addr, 0x4840D6);
    assert_eq!(r.crc_ok, r.message.crc_ok);
    if !r.corrected {
        assert!(!r.crc_ok);
    }
}

#[test]
fn id13_reorders_bits() {
    assert_eq!(decode_id13(0), 0);
    assert_eq!(decode_id13(0x1000), 0x0010);
    assert_eq!(decode_id13(0x0001), 0x0004);
    assert_eq!(decode_id13(0x1730), 0x2171);
}

#[test]
fn altitude_codes() {
    assert_eq!(decode_altitude(0x0040), INVALID_ALTITUDE);
    assert_eq!(decode_altitude(0x0010), -1000);
    assert_eq!(decode_altitude(0x1730), 36200);
}

#[test]
fn default_message_is_empty() {
    let m = ModesMessage::default();
    assert_eq!(m.baro_alt, INVALID_ALTITUDE);
    assert_eq!(m.geom_alt, INVALID_ALTITUDE);
    assert_eq!(m.emergency, Emergency::NoEmergency);
    assert_eq!(m.commb_format, CommBFormat::Unknown);
    assert_eq!(m.motion, Motion::Unknown);
    assert!(!m.crc_ok);
    assert_eq!(m.msg, [0u8; 14]);
    assert!(m.op_status.is_none());
}
