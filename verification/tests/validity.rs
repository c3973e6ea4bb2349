use readsb::tracking::validity::{DataValidity, TRACK_EXPIRE, TRACK_EXPIRE_JAERO, TRACK_STALE};
use readsb::types::DataSource;

#[test]
fn new_is_invalid() {
    let v = DataValidity::new();
    assert_eq!(v.source, DataSource::Invalid);
    assert!(!v.is_valid(0, TRACK_EXPIRE));
    assert_eq!(v.age(5), 5);
}

#[test]
fn update_from_better_source_is_taken() {
    let mut v = DataValidity::new();
    v.update(DataSource::ModeS, 1000);
    assert_eq!(v.source, DataSource::ModeS);
    assert_eq!(v.last_source, DataSource::Invalid);
    v.update(DataSource::Adsb, 2000);
    assert_eq!(v.source, DataSource::Adsb);
    assert_eq!(v.last_source, DataSource::ModeS);
    assert_eq!(v.updated, 2000);
}

#[test]
fn update_from_worse_source_is_ignored() {
    let mut v = DataValidity::new();
    v.update(DataSource::Adsb, 1000);
    v.update(DataSource::Mlat, 5000);
    assert_eq!(v.source, DataSource::Adsb);
    assert_eq!(v.updated, 1000);
}

#[test]
fn validity_expires() {
    let mut v = DataValidity::new();
    v.update(DataSource::Adsb, 1000);
    assert!(v.is_valid(1000 + TRACK_EXPIRE - 1, TRACK_EXPIRE));
    assert!(!v.is_valid(1000 + TRACK_EXPIRE, TRACK_EXPIRE));
    let mut j = DataValidity::new();
    j.update(DataSource::Jaero, 0);
    assert!(j.is_valid(TRACK_EXPIRE_JAERO - 1, 10));
}

#[test]
fn stale_and_age_and_invalidate() {
    let mut v = DataValidity::new();
    v.update_stale(1_000_000);
    assert!(!v.stale);
    v.update(DataSource::Sbs, 100);
    v.update_stale(100 + TRACK_STALE - 1);
    assert!(!v.stale);
    v.update_stale(100 + TRACK_STALE);
    assert!(v.stale);
    assert_eq!(v.age(50), 0);
    assert_eq!(v.age(150), 50);
    v.invalidate();
    assert!(!v.is_valid(150, TRACK_EXPIRE));
    assert!(!v.stale);
}
