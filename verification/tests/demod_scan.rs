use readsb::crc::CrcFixEngine;
use readsb::demod::demod_2400::demodulate2400_checked;
use readsb::demod::icao_filter::IcaoFilter;

fn loud_preamble() -> Vec<u16> {
    let mut mag = vec![0u16; 400];
    mag[1] = 10;
    mag[12] = 10;
    for i in [5usize, 8, 16, 17, 18] {
        mag[i] = 1000;
    }
    mag
}

#[test]
fn demodulation_takes_high_thresholds_on_quiet_buffers() {
    let e112 = CrcFixEngine::new(112);
    let e56 = CrcFixEngine::new(56);
    let filter = IcaoFilter::new();
    let quiet = vec![0u16; 400];
    let r = demodulate2400_checked(&quiet, 400, 1_000_000, &e112, &e56, &filter);
    assert_eq!(r.map(|v| v.len()), Some(0));
}

#[test]
fn demodulation_refuses_an_overflowing_reference_level() {
    let e112 = CrcFixEngine::new(112);
    let e56 = CrcFixEngine::new(56);
    let filter = IcaoFilter::new();
    let mag = loud_preamble();
    assert!(demodulate2400_checked(&mag, 400, 1_000_000, &e112, &e56, &filter).is_none());
    assert!(demodulate2400_checked(&mag, 400, 58, &e112, &e56, &filter).is_some());
}
