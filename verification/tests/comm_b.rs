use readsb::modes::ais::pack_6bit_to_bytes;
use readsb::modes::comm_b::{commb_callsign, decode_comm_b};
use readsb::types::CommBFormat;

#[test]
fn commb_callsign_reads_all_eight_characters() {
    let mb = [0x20u8, 0x2C, 0xC3, 0x71, 0xC3, 0x2C, 0xE0];
    assert_eq!(decode_comm_b(&mb), CommBFormat::AircraftIdent);
    assert_eq!(commb_callsign(&mb), "KLM1023");
}

#[test]
fn commb_callsign_keeps_the_first_character() {
    let mb = [0x20u8, 0x06, 0x08, 0x20, 0x82, 0x08, 0x20];
    assert_eq!(commb_callsign(&mb), "A");
}

#[test]
fn commb_callsign_stops_at_the_first_at_sign() {
    let mb = [0x20u8, 0x04, 0x10, 0x00, 0x00, 0x00, 0x00];
    assert_eq!(commb_callsign(&mb), "AA");
}

#[test]
fn packing_concatenates_six_bit_values() {
    assert_eq!(pack_6bit_to_bytes(&[1, 2, 3, 4]), vec![0x04, 0x20, 0xC4]);
    assert_eq!(pack_6bit_to_bytes(&[63]), Vec::<u8>::new());
    assert_eq!(pack_6bit_to_bytes(&[63, 63]), vec![0xFF]);
}
