use readsb::tracking::aircraft::AircraftState;
use readsb::types::{AddrType, DataSource, Emergency, ModesMessage, INVALID_ALTITUDE};

fn message() -> ModesMessage {
    let mut m = ModesMessage::default();
    m.source = DataSource::Adsb;
    m.addr = 0xA43EA2;
    m
}

#[test]
fn new_aircraft_knows_nothing_yet() {
    let a = AircraftState::new(0xA43EA2, AddrType::AdsbIcao, 5000);
    assert_eq!(a.addr, 0xA43EA2);
    assert_eq!(a.seen, 5000);
    assert_eq!(a.messages, 0);
    assert_eq!(a.baro_alt, INVALID_ALTITUDE);
    assert_eq!(a.geom_alt, INVALID_ALTITUDE);
    assert_eq!(a.callsign, [0u8; 16]);
    assert_eq!(a.adsb_version, -1);
    assert_eq!(a.baro_alt_valid.source, DataSource::Invalid);
}

#[test]
fn both_altitudes_give_their_difference() {
    let mut a = AircraftState::new(0xA43EA2, AddrType::AdsbIcao, 1000);
    let mut m = message();
    m.baro_alt_valid = true;
    m.baro_alt = 27675;
    m.geom_alt_valid = true;
    m.geom_alt = 28100;
    assert!(a.fits_message(&m, 2000));
    a.apply_message(&m, 2000);
    assert_eq!(a.baro_alt, 27675);
    assert_eq!(a.geom_alt, 28100);
    assert_eq!(a.geom_delta, 425);
    assert_eq!(a.baro_alt_valid.updated, 2000);
    assert_eq!(a.baro_alt_valid.source, DataSource::Adsb);
    assert_eq!(a.messages, 1);
}

#[test]
fn one_altitude_leaves_the_difference() {
    let mut a = AircraftState::new(1, AddrType::AdsbIcao, 0);
    let mut m = message();
    m.baro_alt_valid = true;
    m.baro_alt = 1000;
    a.apply_message(&m, 10);
    assert_eq!(a.baro_alt, 1000);
    assert_eq!(a.geom_alt, INVALID_ALTITUDE);
    assert_eq!(a.geom_delta, 0);
}

#[test]
fn empty_callsign_is_ignored() {
    let mut a = AircraftState::new(1, AddrType::AdsbIcao, 0);
    let mut m = message();
    m.callsign_valid = true;
    a.apply_message(&m, 10);
    assert_eq!(a.callsign, [0u8; 16]);
    assert_eq!(a.callsign_valid.source, DataSource::Invalid);

    let cs: &[u8] = b"ASA1390\0\0\0\0\0\0\0\0\0";
    m.callsign.copy_from_slice(cs);
    a.apply_message(&m, 20);
    assert_eq!(&a.callsign[..], cs);
    assert_eq!(a.callsign_valid.updated, 20);
    assert_eq!(a.messages, 2);
}

#[test]
fn lower_ranked_source_does_not_replace_validity() {
    let mut a = AircraftState::new(1, AddrType::AdsbIcao, 0);
    let mut m = message();
    m.squawk_valid = true;
    m.squawk_hex = 0x7700;
    a.apply_message(&m, 10);
    m.source = DataSource::ModeAc;
    m.squawk_hex = 0x1200;
    a.apply_message(&m, 20);
    assert_eq!(a.squawk, 0x1200);
    assert_eq!(a.squawk_valid.source, DataSource::Adsb);
    assert_eq!(a.squawk_valid.updated, 10);
}

#[test]
fn status_fields_and_cpr_halves() {
    let mut a = AircraftState::new(1, AddrType::AdsbIcao, 0);
    let mut m = message();
    m.emergency = Emergency::Minfuel;
    m.nav.mcp_altitude_valid = true;
    m.nav.mcp_altitude = 35000;
    m.accuracy.nac_p = 9;
    m.baro_rate_valid = true;
    m.baro_rate = -2240;
    m.cpr_valid = true;
    m.cpr_odd = false;
    m.cpr_lat = 93000;
    m.cpr_lon = 51372;
    a.apply_message(&m, 10);
    assert_eq!(a.emergency, Emergency::Minfuel);
    assert_eq!(a.nav_altitude_mcp, 35000);
    assert_eq!(a.pos_nic, 9);
    assert_eq!(a.pos_rc, 9);
    assert_eq!(a.baro_rate, -2240);
    assert_eq!((a.cpr_even_lat, a.cpr_even_lon), (93000, 51372));
    assert!(!a.cpr_pair_ready());

    m.emergency = Emergency::NoEmergency;
    m.cpr_odd = true;
    m.cpr_lat = 74158;
    m.cpr_lon = 50194;
    a.apply_message(&m, 20);
    assert_eq!(a.emergency, Emergency::Minfuel);
    assert_eq!((a.cpr_odd_lat, a.cpr_odd_lon), (74158, 50194));
    assert!(a.cpr_pair_ready());
}

#[test]
fn recorded_position_is_timestamped() {
    let mut a = AircraftState::new(1, AddrType::AdsbIcao, 0);
    a.record_position(DataSource::Adsb, 777);
    assert_eq!(a.seen_pos, 777);
    assert_eq!(a.position_valid.updated, 777);
    assert_eq!(a.position_valid.source, DataSource::Adsb);
}

#[test]
fn expiry_counts_from_first_sight() {
    let a = AircraftState::new(1, AddrType::AdsbIcao, 1000);
    assert!(!a.is_expired(300_999, 300_000));
    assert!(a.is_expired(301_000, 300_000));
}

#[test]
fn full_count_does_not_fit() {
    let mut a = AircraftState::new(1, AddrType::AdsbIcao, 0);
    a.messages = u32::MAX;
    assert!(!a.fits_message(&message(), 10));
}

#[test]
fn overflowing_difference_does_not_fit() {
    let mut a = AircraftState::new(1, AddrType::AdsbIcao, 0);
    let mut m = message();
    m.baro_alt_valid = true;
    m.baro_alt = i32::MIN;
    m.geom_alt_valid = true;
    m.geom_alt = 100;
    assert!(!a.fits_message(&m, 10));
    m.geom_alt = -100;
    assert!(a.fits_message(&m, 10));
    a.apply_message(&m, 10);
    assert_eq!(a.geom_delta, i32::MAX - 99);
}

#[test]
fn silent_message_only_counts() {
    let mut a = AircraftState::new(7, AddrType::AdsbIcao, 0);
    let mut m = message();
    m.squawk_valid = true;
    m.squawk_hex = 0x1234;
    a.apply_message(&m, 10);
    let before = a;
    let mut silent = message();
    silent.accuracy.nac_p = 4;
    a.apply_message(&silent, 20);
    assert_eq!(a.messages, before.messages + 1);
    assert_eq!(a.pos_nic, 4);
    assert_eq!(a.squawk, 0x1234);
    assert_eq!(a.squawk_valid.updated, before.squawk_valid.updated);
    assert_eq!(a.callsign, before.callsign);
    assert_eq!(a.geom_delta, before.geom_delta);
}
