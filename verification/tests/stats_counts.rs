use readsb::console::stats::{df_distribution, MessageCounts};

#[test]
fn distribution_orders_by_count_then_format() {
    let dfs = [17u8, 11, 17, 0, 11, 17, 20, 0, 4];
    let r = df_distribution(&dfs);
    assert_eq!(r, vec![(17, 3), (0, 2), (11, 2), (4, 1), (20, 1)]);
}

#[test]
fn distribution_skips_formats_past_31() {
    let dfs = [32u8, 255, 5, 40, 5];
    assert_eq!(df_distribution(&dfs), vec![(5, 2)]);
}

#[test]
fn distribution_of_nothing_is_empty() {
    assert!(df_distribution(&[]).is_empty());
}

#[test]
fn counts_classify_each_message() {
    let mut c = MessageCounts::new();
    c.record(true, false, true, false);
    c.record(false, false, false, false);
    c.record(true, true, true, true);
    c.record_drop();
    assert_eq!(c.crc_total_count, 3);
    assert_eq!(c.crc_fail_count, 1);
    assert_eq!(c.bitfix_count, 1);
    assert_eq!(c.cpr_global_ok, 1);
    assert_eq!(c.cpr_local_ok, 1);
    assert_eq!(c.cpr_global_bad, 1);
    assert_eq!(c.drop_count, 1);
    assert!(c.has_room());
}

#[test]
fn failed_parity_is_not_a_bit_fix() {
    let mut c = MessageCounts::new();
    c.record(false, true, false, false);
    assert_eq!(c.crc_fail_count, 1);
    assert_eq!(c.bitfix_count, 0);
}

#[test]
fn full_counter_has_no_room() {
    let mut c = MessageCounts::new();
    c.cpr_global_bad = u32::MAX;
    assert!(!c.has_room());
}
