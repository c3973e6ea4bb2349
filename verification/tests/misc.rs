use readsb::compare::{classify_key, WindowCounts, WindowMatch};
use readsb::console::formatter::{describe_message_type, format_msg_header};
use readsb::cpr::cpr_mod_int;
use readsb::demod::convert::{bytes_per_iq_pair, InputFormat};
use readsb::demod::demod_ac::{demodulate_ac, modeac_to_altitude};
use readsb::net::protocols::uat::parse_frame;
use readsb::sdr::rtl_tcp::{dongle_magic_ok, rtltcp_command, RTLTCP_SET_FREQ};
use readsb::sdr::rtlsdr::MockSdrDevice;
use readsb::settings::{
    console_interval_from_setting, console_level_from_setting, input_format_for, parse_decimal_u64,
};
use readsb::console::state::ConsoleLevel;
use readsb::types::ModesMessage;
use readsb::viewsb::formatter::{format_header, format_separator};
use readsb::viewsb::output::{CsvWriter, JsonWriter};

#[test]
fn cpr_modulo_is_positive() {
    assert_eq!(cpr_mod_int(7, 5), 2);
    assert_eq!(cpr_mod_int(-7, 5), 3);
    assert_eq!(cpr_mod_int(-10, 5), 0);
    assert_eq!(cpr_mod_int(7, -5), 2);
    assert_eq!(cpr_mod_int(-7, -5), -7);
}

#[test]
fn classify_window_keys() {
    let a = vec![1u8, 2];
    let b = vec![1u8, 3];
    assert_eq!(classify_key(11, Some(&a), Some(&a)), WindowMatch::Matched);
    assert_eq!(classify_key(17, Some(&a), Some(&b)), WindowMatch::MatchedVarying);
    assert_eq!(classify_key(11, Some(&a), Some(&b)), WindowMatch::Differs);
    assert_eq!(classify_key(11, None, Some(&b)), WindowMatch::RightOnly);
    assert_eq!(classify_key(11, Some(&a), None), WindowMatch::LeftOnly);
    let mut c = WindowCounts::new();
    assert!(!c.any());
    c.record(WindowMatch::Differs);
    c.record(WindowMatch::Differs);
    c.record(WindowMatch::LeftOnly);
    assert_eq!(c.diff, 2);
    assert_eq!(c.left_only, 1);
    assert!(c.any());
}

#[test]
fn message_kinds_and_header() {
    let mut m = ModesMessage::default();
    m.msgtype = 17;
    m.metype = 19;
    m.addr = 0xA43EA2;
    assert_eq!(describe_message_type(&m), "vel");
    assert_eq!(format_msg_header(&m), "[A43EA2] DF17 vel");
    m.msgtype = 11;
    m.addr = 0x1;
    assert_eq!(format_msg_header(&m), "[000001] DF11 all-call");
    m.msgtype = 0;
    m.metype = 0;
    assert_eq!(describe_message_type(&m), "surv");
    m.msgtype = 99;
    assert_eq!(describe_message_type(&m), "unknown");
    m.msgtype = -3;
    m.addr = 0x1234567;
    assert_eq!(format_msg_header(&m), "[1234567] DF-3 unknown");
}

#[test]
fn iq_pair_sizes() {
    assert_eq!(bytes_per_iq_pair(InputFormat::U8), 2);
    assert_eq!(bytes_per_iq_pair(InputFormat::SC16Q11), 4);
    assert_eq!(bytes_per_iq_pair(InputFormat::SC16Q11M), 4);
    assert_eq!(bytes_per_iq_pair(InputFormat::F32), 8);
}

#[test]
fn mode_ac_helpers() {
    assert_eq!(demodulate_ac(&[0u16; 10]), None);
    assert_eq!(modeac_to_altitude(0x0011), -400);
}

#[test]
fn uat_frames() {
    assert!(parse_frame(&[1, 2, 3, 4]).is_none());
    assert_eq!(parse_frame(&[1, 2, 3, 4, 5]).unwrap().data, vec![1, 2, 3, 4, 5]);
}

#[test]
fn rtltcp_protocol() {
    let mut info = [0u8; 12];
    info[..4].copy_from_slice(b"RTL0");
    assert!(dongle_magic_ok(&info));
    info[3] = b'1';
    assert!(!dongle_magic_ok(&info));
    assert_eq!(rtltcp_command(RTLTCP_SET_FREQ, 1_090_000_000), [0x01, 0x40, 0xf8, 0x14, 0x80]);
}

#[test]
fn mock_device_plays_back() {
    let mut d = MockSdrDevice::new(vec![1, 2, 3, 4, 5]);
    let mut buf = [0u8; 3];
    assert_eq!(d.read_samples(&mut buf), 3);
    assert_eq!(buf, [1, 2, 3]);
    let mut buf = [9u8; 3];
    assert_eq!(d.read_samples(&mut buf), 2);
    assert_eq!(buf, [4, 5, 9]);
    assert_eq!(d.read_samples(&mut buf), 0);
    d.rewind();
    assert_eq!(d.read_samples(&mut buf), 3);
}

#[test]
fn settings_text() {
    assert_eq!(parse_decimal_u64("42"), Some(42));
    assert_eq!(parse_decimal_u64("+7"), Some(7));
    assert_eq!(parse_decimal_u64("+"), None);
    assert_eq!(parse_decimal_u64(""), None);
    assert_eq!(parse_decimal_u64("-1"), None);
    assert_eq!(parse_decimal_u64(" 1"), None);
    assert_eq!(parse_decimal_u64("18446744073709551615"), Some(u64::MAX));
    assert_eq!(parse_decimal_u64("18446744073709551616"), None);
    assert_eq!(console_interval_from_setting(Some("30")), 30);
    assert_eq!(console_interval_from_setting(Some("x")), 10);
    assert_eq!(console_interval_from_setting(None), 10);
    assert_eq!(console_level_from_setting(Some("high")), ConsoleLevel::High);
    assert_eq!(console_level_from_setting(Some("HIGH")), ConsoleLevel::Low);
    assert_eq!(console_level_from_setting(None), ConsoleLevel::Low);
    assert_eq!(input_format_for(Some("CF32"), false), InputFormat::F32);
    assert_eq!(input_format_for(None, true), InputFormat::SC16Q11);
    assert_eq!(input_format_for(Some("bogus"), false), InputFormat::U8);
}

#[test]
fn table_header_and_separator() {
    assert_eq!(
        format_header(false, false),
        "ICAO    Callsign Sqwk    ft    kt      Lat      Lon  Hdg Msgs Seen   RSSI"
    );
    assert_eq!(
        format_header(true, true),
        "ICAO    Callsign Sqwk     m  km/h      Lat      Lon  Hdg Msgs Seen   RSSI  Dist"
    );
    assert!(format_separator(true).ends_with("─────  ────"));
    assert_eq!(format_separator(false).chars().count(), 73);
    assert!(JsonWriter::new("x.json").is_ok());
    assert!(CsvWriter::new("x.csv").is_ok());
}
