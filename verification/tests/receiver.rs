use readsb::demod::demod_2400::MagBufStats;
use readsb::receiver::{carry_overlap, fill_window, gain_step, GainStep};

#[test]
fn long_read_replaces_the_tail() {
    let mut tail = vec![128u8; 4];
    let data = [1u8, 2, 3, 4, 5, 6, 7, 8];
    carry_overlap(&mut tail, &data, 6);
    assert_eq!(tail, vec![3, 4, 5, 6]);
}

#[test]
fn short_read_shifts_the_tail() {
    let mut tail = vec![10u8, 11, 12, 13];
    carry_overlap(&mut tail, &[20, 21, 99], 2);
    assert_eq!(tail, vec![12, 13, 20, 21]);
}

#[test]
fn empty_read_keeps_the_tail() {
    let mut tail = vec![10u8, 11, 12];
    carry_overlap(&mut tail, &[], 0);
    assert_eq!(tail, vec![10, 11, 12]);
}

#[test]
fn window_is_tail_then_data() {
    let mut window = vec![0u8; 8];
    fill_window(&mut window, &[7, 8], &[1, 2, 3, 4], 3);
    assert_eq!(window, vec![7, 8, 1, 2, 3, 0, 0, 0]);
}

#[test]
fn consecutive_windows_overlap() {
    let mut tail = vec![128u8; 3];
    let mut window = vec![0u8; 8];
    let first = [1u8, 2, 3, 4, 5];
    fill_window(&mut window, &tail, &first, 5);
    carry_overlap(&mut tail, &first, 5);
    let second = [6u8, 7, 8, 9, 10];
    fill_window(&mut window, &tail, &second, 5);
    assert_eq!(window, vec![3, 4, 5, 6, 7, 8, 9, 10]);
}

#[test]
fn gain_steps() {
    let loud = MagBufStats { loud_events: 31, noise_low_samples: 0, noise_high_samples: 3 };
    assert_eq!(gain_step(&loud, 100), GainStep::Lower);
    let balanced = MagBufStats { loud_events: 30, noise_low_samples: 50, noise_high_samples: 3 };
    assert_eq!(gain_step(&balanced, 100), GainStep::Keep);
    let quiet = MagBufStats { loud_events: 0, noise_low_samples: 51, noise_high_samples: 0 };
    assert_eq!(gain_step(&quiet, 100), GainStep::Raise);
    assert_eq!(gain_step(&MagBufStats::default(), 0), GainStep::Keep);
}
