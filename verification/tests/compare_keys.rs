use readsb::compare::{
    build_key_map, compare_window, frame_key, key_addr, key_df, window_bounds, window_keys, windows_done, WindowMatch,
};
use readsb::net::protocols::beast::BeastFrame;

fn frame(payload: Vec<u8>) -> BeastFrame {
    BeastFrame { timestamp: 0, frame_type: 0x33, payload, rssi: 0 }
}

#[test]
fn key_holds_address_and_format() {
    let k = frame_key(&[0x8D, 0x48, 0x40, 0xD6, 0x20]);
    assert_eq!(k, 0x4840D6 << 8 | 17);
    assert_eq!(key_addr(k), 0x4840D6);
    assert_eq!(key_df(k), 17);
    assert_eq!(frame_key(&[0x5D]), 11);
    assert_eq!(frame_key(&[]), 0);
}

#[test]
fn key_map_keeps_last_payload_per_key() {
    let frames = vec![
        frame(vec![0x8D, 1, 2, 3, 0xAA]),
        frame(vec![0x5D, 1, 2, 3]),
        frame(vec![0x8D, 1, 2, 3, 0xBB]),
    ];
    let m = build_key_map(&frames);
    assert_eq!(m.len(), 2);
    assert_eq!(m[&(0x010203 << 8 | 17)], vec![0x8D, 1, 2, 3, 0xBB]);
    assert_eq!(m[&(0x010203 << 8 | 11)], vec![0x5D, 1, 2, 3]);
}

#[test]
fn windows_run_until_the_duration() {
    assert!(!windows_done(0, 0));
    assert!(!windows_done(10, 30));
    assert!(windows_done(30, 30));
    assert_eq!(window_bounds(0, 10, 25), (0, 10, 10));
    assert_eq!(window_bounds(20, 10, 25), (20, 25, 30));
    assert_eq!(window_bounds(20, 10, 0), (20, 0, 30));
}

#[test]
fn window_keys_are_the_sorted_union() {
    let left = vec![frame(vec![0x8D, 9, 9, 9, 1]), frame(vec![0x5D, 1, 2, 3]), frame(vec![0x8D, 9, 9, 9, 2])];
    let right = vec![frame(vec![0x5D, 1, 2, 3]), frame(vec![0x28, 0, 0, 1])];
    let ks = window_keys(&left, &right);
    assert_eq!(ks, vec![0x000001 << 8 | 5, 0x010203 << 8 | 11, 0x090909 << 8 | 17]);
    assert!(window_keys(&[], &[]).is_empty());
}

#[test]
fn window_comparison_classes_and_counts_every_key() {
    let left = vec![
        frame(vec![0x8D, 9, 9, 9, 1]),
        frame(vec![0x5D, 1, 2, 3]),
        frame(vec![0x20, 4, 4, 4, 7]),
        frame(vec![0x28, 7, 7, 7]),
    ];
    let right = vec![
        frame(vec![0x8D, 9, 9, 9, 2]),
        frame(vec![0x5D, 1, 2, 3]),
        frame(vec![0x20, 4, 4, 4, 8]),
        frame(vec![0x00, 6, 6, 6]),
    ];
    let d = compare_window(&left, &right);
    assert_eq!(
        d.keys,
        vec![0x010203 << 8 | 11, 0x040404 << 8 | 4, 0x060606 << 8, 0x070707 << 8 | 5, 0x090909 << 8 | 17]
    );
    assert_eq!(
        d.matches,
        vec![
            WindowMatch::Matched,
            WindowMatch::Differs,
            WindowMatch::RightOnly,
            WindowMatch::LeftOnly,
            WindowMatch::MatchedVarying,
        ]
    );
    assert_eq!(d.counts.matched, 1);
    assert_eq!(d.counts.matched_varies, 1);
    assert_eq!(d.counts.diff, 1);
    assert_eq!(d.counts.left_only, 1);
    assert_eq!(d.counts.right_only, 1);
    assert_eq!(d.left[&(0x090909 << 8 | 17)], vec![0x8D, 9, 9, 9, 1]);
    assert_eq!(d.right[&(0x090909 << 8 | 17)], vec![0x8D, 9, 9, 9, 2]);
}
