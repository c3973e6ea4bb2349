use readsb::progress::tick_line;

#[test]
fn test_tick_line_zero() {
    assert_eq!(tick_line(0), "0");
}

#[test]
fn test_tick_line_before_first_tick() {
    assert_eq!(tick_line(5), "0");
}

#[test]
fn test_tick_line_first_tick() {
    assert_eq!(tick_line(10), "0....10");
}

#[test]
fn test_tick_line_midpoint_between_ticks() {
    assert_eq!(tick_line(15), "0....10");
}

#[test]
fn test_tick_line_second_tick() {
    assert_eq!(tick_line(20), "0....10....20");
}

#[test]
fn test_tick_line_multiple_ticks() {
    assert_eq!(tick_line(35), "0....10....20....30");
}

#[test]
fn tick_line_hundreds() {
    assert_eq!(
        tick_line(109),
        "0....10....20....30....40....50....60....70....80....90....100"
    );
}

#[test]
fn tick_line_counts_full_tens_only() {
    assert_eq!(tick_line(9), "0");
    assert_eq!(tick_line(29), "0....10....20");
}
