//! Reading settings given as text (environment values, command line options).
use crate::console::state::ConsoleLevel;
use crate::demod::convert::InputFormat;
use crate::text::{chars_of, same_text};
use vstd::prelude::*;

verus! {

/// Whether a character is an ASCII decimal digit.
pub open spec fn is_digit(c: char) -> bool {
    '0' <= c <= '9'
}

/// The value of decimal digits, most significant first.
pub open spec fn decimal_value(s: Seq<char>) -> nat
    decreases s.len(),
{
    if s.len() == 0 {
        0
    } else {
        decimal_value(s.drop_last()) * 10 + ((s.last() as u32) - 0x30) as nat
    }
}

/// The digits part of a number: the text after a leading `+` (when more follows it).
pub open spec fn digits_part(s: Seq<char>) -> Seq<char> {
    if s.len() > 1 && s[0] == '+' {
        s.drop_first()
    } else {
        s
    }
}

/// Every character is a digit.
pub open spec fn all_digits(d: Seq<char>) -> bool {
    forall|i: int| 0 <= i < d.len() ==> is_digit(#[trigger] d[i])
}

/// An unsigned decimal number as integer parsing reads it: an optional `+` followed by at
/// least one digit and nothing else, whose value fits in 64 bits.
pub open spec fn parsed_u64(s: Seq<char>) -> Option<u64> {
    let d = digits_part(s);
    if d.len() == 0 || !all_digits(d) {
        None
    } else if decimal_value(d) > u64::MAX {
        None
    } else {
        Some(decimal_value(d) as u64)
    }
}

proof fn lemma_decimal_value_grows(s: Seq<char>, c: char)
    requires
        is_digit(c),
    ensures
        decimal_value(s.push(c)) >= decimal_value(s),
        decimal_value(s.push(c)) == decimal_value(s) * 10 + ((c as u32) - 0x30),
{
    assert(s.push(c).drop_last() =~= s);
}

proof fn lemma_decimal_value_prefix(d: Seq<char>, i: int)
    requires
        0 <= i <= d.len(),
        all_digits(d),
    ensures
        decimal_value(d) >= decimal_value(d.subrange(0, i)),
    decreases d.len() - i,
{
    if i == d.len() {
        assert(d.subrange(0, i) =~= d);
    } else {
        lemma_decimal_value_prefix(d, i + 1);
        assert(d.subrange(0, i + 1) =~= d.subrange(0, i).push(d[i]));
        lemma_decimal_value_grows(d.subrange(0, i), d[i]);
    }
}

/// Parse an unsigned decimal number (see `parsed_u64`).
pub fn parse_decimal_u64(s: &str) -> (r: Option<u64>)
    ensures
        r == parsed_u64(s@),
{
    let v = chars_of(s);
    let start: usize = if v.len() > 1 && v[0] == '+' {
        1
    } else {
        0
    };
    let ghost d = digits_part(s@);
    assert(d =~= v@.subrange(start as int, v@.len() as int));
    if start == v.len() {
        return None;
    }
    let mut acc: u64 = 0;
    let mut i = start;
    while i < v.len()
        invariant
            start <= i <= v@.len(),
            v@ == s@,
            d == digits_part(s@),
            d == v@.subrange(start as int, v@.len() as int),
            forall|j: int| start <= j < i ==> is_digit(#[trigger] v@[j]),
            acc == decimal_value(v@.subrange(start as int, i as int)),
        decreases v@.len() - i,
    {
        let c = v[i];
        if !('0' <= c && c <= '9') {
            assert(0 <= i - start < d.len() && d[i - start] == c);
            assert(!is_digit(d[i - start]));
            assert(!all_digits(d));
            return None;
        }
        let digit = (c as u32 - 0x30) as u64;
        let ghost prefix = v@.subrange(start as int, i as int);
        assert(v@.subrange(start as int, i + 1) =~= prefix.push(c));
        proof {
            lemma_decimal_value_grows(prefix, c);
        }
        match acc.checked_mul(10) {
            Some(t) => match t.checked_add(digit) {
                Some(u) => {
                    acc = u;
                },
                None => {
                    proof {
                        if all_digits(d) {
                            lemma_decimal_value_prefix(d, i + 1 - start);
                            assert(d.subrange(0, i + 1 - start) =~= v@.subrange(start as int, i + 1));
                        }
                    }
                    return None;
                },
            },
            None => {
                proof {
                    if all_digits(d) {
                        lemma_decimal_value_prefix(d, i + 1 - start);
                        assert(d.subrange(0, i + 1 - start) =~= v@.subrange(start as int, i + 1));
                    }
                }
                return None;
            },
        }
        i = i + 1;
    }
    assert(all_digits(d)) by {
        assert forall|j: int| 0 <= j < d.len() implies is_digit(#[trigger] d[j]) by {
            assert(d[j] == v@[start + j]);
        }
    }
    assert(v@.subrange(start as int, v@.len() as int) == d);
    Some(acc)
}

/// The console level an environment value names: `low`, `medium`, `high` or `max`;
/// anything else (or no value) is low.
pub open spec fn level_named(value: Option<Seq<char>>) -> ConsoleLevel {
    match value {
        Some(v) => if v == "low"@ {
            ConsoleLevel::Low
        } else if v == "medium"@ {
            ConsoleLevel::Medium
        } else if v == "high"@ {
            ConsoleLevel::High
        } else if v == "max"@ {
            ConsoleLevel::Max
        } else {
            ConsoleLevel::Low
        },
        None => ConsoleLevel::Low,
    }
}

/// The text of an optional value.
pub open spec fn text_of(value: Option<&str>) -> Option<Seq<char>> {
    match value {
        Some(v) => Some(v@),
        None => None,
    }
}

/// The console level a setting names (see `level_named`).
pub fn console_level_from_setting(value: Option<&str>) -> (level: ConsoleLevel)
    ensures
        level == level_named(text_of(value)),
{
    match value {
        Some(v) => {
            if same_text(v, "low") {
                ConsoleLevel::Low
            } else if same_text(v, "medium") {
                ConsoleLevel::Medium
            } else if same_text(v, "high") {
                ConsoleLevel::High
            } else if same_text(v, "max") {
                ConsoleLevel::Max
            } else {
                ConsoleLevel::Low
            }
        },
        None => ConsoleLevel::Low,
    }
}

/// The console interval a setting gives: its number, or 10 when it is absent or not a
/// number.
pub fn console_interval_from_setting(value: Option<&str>) -> (secs: u64)
    ensures
        secs == (match text_of(value) {
            Some(v) => match parsed_u64(v) {
                Some(n) => n,
                None => 10,
            },
            None => 10,
        }),
{
    match value {
        Some(v) => match parse_decimal_u64(v) {
            Some(n) => n,
            None => 10,
        },
        None => 10,
    }
}

/// The sample format of an input format option: `CU8`, `SC16` or `CF32`; without one (or an
/// unknown one), 16-bit samples for a file and bytes for a device.
pub open spec fn format_named(value: Option<Seq<char>>, from_file: bool) -> InputFormat {
    match value {
        Some(v) if v == "CU8"@ => InputFormat::U8,
        Some(v) if v == "SC16"@ => InputFormat::SC16Q11,
        Some(v) if v == "CF32"@ => InputFormat::F32,
        _ => if from_file {
            InputFormat::SC16Q11
        } else {
            InputFormat::U8
        },
    }
}

/// The sample format of an input format option (see `format_named`).
pub fn input_format_for(value: Option<&str>, from_file: bool) -> (f: InputFormat)
    ensures
        f == format_named(text_of(value), from_file),
{
    match value {
        Some(v) => {
            if same_text(v, "CU8") {
                return InputFormat::U8;
            } else if same_text(v, "SC16") {
                return InputFormat::SC16Q11;
            } else if same_text(v, "CF32") {
                return InputFormat::F32;
            }
        },
        None => {},
    }
    if from_file {
        InputFormat::SC16Q11
    } else {
        InputFormat::U8
    }
}

} // verus!
