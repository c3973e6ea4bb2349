use readsb::console::state::{cycle_level, cycle_level_u8, level_from_u8, level_to_u8, ConsoleLevel};

#[test]
fn test_cycle_level_forward() {
    assert_eq!(cycle_level(ConsoleLevel::Low, true), ConsoleLevel::Medium);
    assert_eq!(cycle_level(ConsoleLevel::Medium, true), ConsoleLevel::High);
    assert_eq!(cycle_level(ConsoleLevel::High, true), ConsoleLevel::Max);
    assert_eq!(cycle_level(ConsoleLevel::Max, true), ConsoleLevel::Low);
}

#[test]
fn test_cycle_level_backward() {
    assert_eq!(cycle_level(ConsoleLevel::Low, false), ConsoleLevel::Max);
    assert_eq!(cycle_level(ConsoleLevel::Max, false), ConsoleLevel::High);
    assert_eq!(cycle_level(ConsoleLevel::High, false), ConsoleLevel::Medium);
    assert_eq!(cycle_level(ConsoleLevel::Medium, false), ConsoleLevel::Low);
}

#[test]
fn cycle_forward_then_backward_returns() {
    for l in [ConsoleLevel::Low, ConsoleLevel::Medium, ConsoleLevel::High, ConsoleLevel::Max] {
        assert_eq!(cycle_level(cycle_level(l, true), false), l);
        assert_eq!(cycle_level(cycle_level(l, false), true), l);
    }
}

#[test]
fn four_steps_return() {
    let mut l = ConsoleLevel::High;
    for _ in 0..4 {
        l = cycle_level(l, true);
    }
    assert_eq!(l, ConsoleLevel::High);
}

#[test]
fn level_positions() {
    assert_eq!(level_to_u8(ConsoleLevel::Low), 0);
    assert_eq!(level_to_u8(ConsoleLevel::Max), 3);
    assert_eq!(level_from_u8(2), ConsoleLevel::High);
    assert_eq!(level_from_u8(200), ConsoleLevel::Max);
    for l in [ConsoleLevel::Low, ConsoleLevel::Medium, ConsoleLevel::High, ConsoleLevel::Max] {
        assert_eq!(level_from_u8(level_to_u8(l)), l);
        assert_eq!(level_to_u8(cycle_level(l, true)), cycle_level_u8(level_to_u8(l), true));
        assert_eq!(level_to_u8(cycle_level(l, false)), cycle_level_u8(level_to_u8(l), false));
    }
}

#[test]
fn cycle_u8_out_of_range_gives_zero() {
    assert_eq!(cycle_level_u8(7, true), 0);
    assert_eq!(cycle_level_u8(4, false), 0);
    assert_eq!(cycle_level_u8(3, true), 0);
    assert_eq!(cycle_level_u8(0, false), 3);
}
