//! Console verbosity levels.
use vstd::prelude::*;

verus! {

/// How much the console reports.
#[derive(Debug, Clone, Copy, PartialEq, Eq, Structural)]
pub enum ConsoleLevel {
    Low,
    Medium,
    High,
    Max,
}

/// Position of a level in the order Low, Medium, High, Max.
pub open spec fn level_index(l: ConsoleLevel) -> u8 {
    match l {
        ConsoleLevel::Low => 0,
        ConsoleLevel::Medium => 1,
        ConsoleLevel::High => 2,
        ConsoleLevel::Max => 3,
    }
}

/// The level at a position of the order (positions past 3 give Max).
pub open spec fn level_at(v: u8) -> ConsoleLevel {
    if v == 0 {
        ConsoleLevel::Low
    } else if v == 1 {
        ConsoleLevel::Medium
    } else if v == 2 {
        ConsoleLevel::High
    } else {
        ConsoleLevel::Max
    }
}

/// The next level forward (Low, Medium, High, Max, then Low again) or backward.
pub open spec fn next_level(current: ConsoleLevel, forward: bool) -> ConsoleLevel {
    if forward {
        level_at(((level_index(current) + 1) % 4) as u8)
    } else {
        level_at(((level_index(current) + 3) % 4) as u8)
    }
}

/// Step the console level forward (Low, Medium, High, Max, Low) or backward, wrapping.
pub fn cycle_level(current: ConsoleLevel, forward: bool) -> (next: ConsoleLevel)
    ensures
        next == next_level(current, forward),
{
    if forward {
        match current {
            ConsoleLevel::Low => ConsoleLevel::Medium,
            ConsoleLevel::Medium => ConsoleLevel::High,
            ConsoleLevel::High => ConsoleLevel::Max,
            ConsoleLevel::Max => ConsoleLevel::Low,
        }
    } else {
        match current {
            ConsoleLevel::Low => ConsoleLevel::Max,
            ConsoleLevel::Max => ConsoleLevel::High,
            ConsoleLevel::High => ConsoleLevel::Medium,
            ConsoleLevel::Medium => ConsoleLevel::Low,
        }
    }
}

/// The position of a level (Low 0 to Max 3).
pub fn level_to_u8(level: ConsoleLevel) -> (v: u8)
    ensures
        v == level_index(level),
{
    match level {
        ConsoleLevel::Low => 0,
        ConsoleLevel::Medium => 1,
        ConsoleLevel::High => 2,
        ConsoleLevel::Max => 3,
    }
}

/// The level at a position; anything above 2 is Max.
pub fn level_from_u8(v: u8) -> (level: ConsoleLevel)
    ensures
        level == level_at(v),
{
    match v {
        0 => ConsoleLevel::Low,
        1 => ConsoleLevel::Medium,
        2 => ConsoleLevel::High,
        _ => ConsoleLevel::Max,
    }
}

/// Step a level position (0-3) forward or backward, wrapping; positions past 3 give 0.
pub fn cycle_level_u8(current: u8, forward: bool) -> (next: u8)
    ensures
        current < 4 ==> next == (if forward {
            (current + 1) % 4
        } else {
            (current + 3) % 4
        }),
        current >= 4 ==> next == 0,
{
    match (current, forward) {
        (0, true) => 1,
        (1, true) => 2,
        (2, true) => 3,
        (3, true) => 0,
        (0, false) => 3,
        (3, false) => 2,
        (2, false) => 1,
        (1, false) => 0,
        _ => 0,
    }
}

/// Stepping forward then backward (or backward then forward) comes back to the start.
pub proof fn lemma_cycle_round_trip(l: ConsoleLevel, forward: bool)
    ensures
        next_level(next_level(l, forward), !forward) == l,
{
}

/// Four steps in the same direction come back to the start.
pub proof fn lemma_cycle_four_steps(l: ConsoleLevel, forward: bool)
    ensures
        next_level(next_level(next_level(next_level(l, forward), forward), forward), forward) == l,
{
}

/// A level survives the trip through its position.
pub proof fn lemma_level_position_round_trip(l: ConsoleLevel)
    ensures
        level_at(level_index(l)) == l,
{
}

/// Stepping a level position agrees with stepping the level.
pub proof fn lemma_cycle_positions_agree(l: ConsoleLevel, forward: bool)
    ensures
        level_index(next_level(l, forward)) == (if forward {
            (level_index(l) + 1) % 4
        } else {
            (level_index(l) + 3) % 4
        }),
{
}

} // verus!
