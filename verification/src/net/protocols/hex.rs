//! The AVR hex line protocol: `*` (or `@`), the frame bytes in hex, `;`.
use crate::text::{ascii_chars, chars_of, is_ascii_bytes, lemma_ascii_utf8};
use vstd::utf8::{decode_utf8, valid_utf8};
use vstd::prelude::*;

verus! {

// ---------------------------------------------------------------------------
// Output
// ---------------------------------------------------------------------------

/// The ASCII code of an upper-case hex digit (0-15).
pub open spec fn hex_digit(n: u8) -> u8 {
    if n < 10 {
        (0x30 + n) as u8
    } else {
        (0x41 + n - 10) as u8
    }
}

/// Two upper-case hex digits per byte.
pub open spec fn hex_text(data: Seq<u8>) -> Seq<u8>
    decreases data.len(),
{
    if data.len() == 0 {
        Seq::<u8>::empty()
    } else {
        hex_text(data.drop_last()) + seq![
            hex_digit(data.last() >> 4u8),
            hex_digit(data.last() & 0x0Fu8),
        ]
    }
}

/// An output line: `*`, the hex digits, `;` and a newline.
pub open spec fn hex_line(data: Seq<u8>) -> Seq<u8> {
    seq![0x2Au8] + hex_text(data) + seq![0x3Bu8, 0x0Au8]
}

fn hex_digit_of(n: u8) -> (c: u8)
    requires
        n < 16,
    ensures
        c == hex_digit(n),
{
    if n < 10 {
        0x30 + n
    } else {
        0x41 + n - 10
    }
}

/// Encode raw Mode S bytes as an AVR hex line: `*<HEX>;\n`.
pub fn encode_hex_output(data: &[u8]) -> (out: Vec<u8>)
    ensures
        out@ == hex_line(data@),
{
    let mut out: Vec<u8> = Vec::new();
    out.push(0x2A);
    let mut i: usize = 0;
    while i < data.len()
        invariant
            i <= data@.len(),
            out@ == seq![0x2Au8] + hex_text(data@.subrange(0, i as int)),
        decreases data@.len() - i,
    {
        let b = data[i];
        let hi = b >> 4;
        let lo = b & 0x0F;
        assert(hi < 16 && lo < 16) by (bit_vector)
            requires
                hi == b >> 4u8,
                lo == b & 0x0Fu8,
        ;
        out.push(hex_digit_of(hi));
        out.push(hex_digit_of(lo));
        assert(data@.subrange(0, i + 1).drop_last() =~= data@.subrange(0, i as int));
        assert(out@ =~= seq![0x2Au8] + hex_text(data@.subrange(0, i + 1)));
        i = i + 1;
    }
    out.push(0x3B);
    out.push(0x0A);
    assert(data@.subrange(0, data@.len() as int) =~= data@);
    assert(out@ =~= hex_line(data@));
    out
}

// ---------------------------------------------------------------------------
// Input
// ---------------------------------------------------------------------------

/// Unicode white space, as string trimming removes it: tab to carriage return, space,
/// next line, no-break space, Ogham space mark, the spaces U+2000 to U+200A, the line and
/// paragraph separators, narrow no-break space, medium mathematical space, ideographic space.
pub open spec fn is_white_space(c: char) -> bool {
    let u = c as u32;
    ||| 0x09 <= u <= 0x0D
    ||| u == 0x20
    ||| u == 0x85
    ||| u == 0xA0
    ||| u == 0x1680
    ||| 0x2000 <= u <= 0x200A
    ||| u == 0x2028
    ||| u == 0x2029
    ||| u == 0x202F
    ||| u == 0x205F
    ||| u == 0x3000
}

fn is_white_space_char(c: char) -> (b: bool)
    ensures
        b == is_white_space(c),
{
    let u = c as u32;
    (0x09 <= u && u <= 0x0D) || u == 0x20 || u == 0x85 || u == 0xA0 || u == 0x1680 || (0x2000
        <= u && u <= 0x200A) || u == 0x2028 || u == 0x2029 || u == 0x202F || u == 0x205F || u
        == 0x3000
}

/// Drop leading white space.
pub open spec fn trim_start_ws(s: Seq<char>) -> Seq<char>
    decreases s.len(),
{
    if s.len() > 0 && is_white_space(s[0]) {
        trim_start_ws(s.subrange(1, s.len() as int))
    } else {
        s
    }
}

/// Drop trailing white space.
pub open spec fn trim_end_ws(s: Seq<char>) -> Seq<char>
    decreases s.len(),
{
    if s.len() > 0 && is_white_space(s.last()) {
        trim_end_ws(s.drop_last())
    } else {
        s
    }
}

/// Drop leading and trailing white space.
pub open spec fn trim_ws(s: Seq<char>) -> Seq<char> {
    trim_end_ws(trim_start_ws(s))
}

/// Number of bytes of a character in UTF-8.
pub open spec fn utf8_len(c: char) -> nat {
    let u = c as u32;
    if u < 0x80 {
        1
    } else if u < 0x800 {
        2
    } else if u < 0x10000 {
        3
    } else {
        4
    }
}

/// Number of bytes of a string in UTF-8.
pub open spec fn utf8_size(s: Seq<char>) -> nat
    decreases s.len(),
{
    if s.len() == 0 {
        0
    } else {
        utf8_size(s.drop_last()) + utf8_len(s.last())
    }
}

/// The value of a hex digit (either case).
pub open spec fn hex_value(c: char) -> Option<u8> {
    let u = c as u32;
    if 0x30 <= u <= 0x39 {
        Some((u - 0x30) as u8)
    } else if 0x61 <= u <= 0x66 {
        Some((u - 0x61 + 10) as u8)
    } else if 0x41 <= u <= 0x46 {
        Some((u - 0x41 + 10) as u8)
    } else {
        None
    }
}

/// The byte a two-character hex field reads as, base-16 integer parsing style: two digits,
/// or a `+` sign and one digit.
pub open spec fn hex_field(a: char, b: char) -> Option<u8> {
    if a == '+' {
        hex_value(b)
    } else {
        match (hex_value(a), hex_value(b)) {
            (Some(x), Some(y)) => Some((x * 16 + y) as u8),
            _ => None,
        }
    }
}

/// The bytes of a run of hex fields, two bytes of text each, stopping with `None` at the
/// first field that does not read; a field made of one two-byte character does not read.
pub open spec fn hex_fields(h: Seq<char>) -> Option<Seq<u8>>
    decreases h.len(),
{
    if h.len() == 0 {
        Some(Seq::<u8>::empty())
    } else if h.len() >= 2 && (h[0] as u32) < 0x80 && (h[1] as u32) < 0x80 {
        match hex_field(h[0], h[1]) {
            Some(v) => match hex_fields(h.subrange(2, h.len() as int)) {
                Some(rest) => Some(seq![v] + rest),
                None => None,
            },
            None => None,
        }
    } else {
        None
    }
}

/// Whether reading the hex fields would cut a character in two: a field that would end
/// inside a multi-byte character, before any field that does not read.
pub open spec fn hex_fields_cut(h: Seq<char>) -> bool
    decreases h.len(),
{
    if h.len() == 0 {
        false
    } else if (h[0] as u32) < 0x80 {
        if h.len() >= 2 && (h[1] as u32) < 0x80 {
            hex_field(h[0], h[1]) is Some && hex_fields_cut(h.subrange(2, h.len() as int))
        } else {
            h.len() >= 2
        }
    } else {
        utf8_len(h[0]) != 2
    }
}

/// The hex text of a line: trimmed, after a leading `@` or `*` and before a trailing `;`,
/// when the line has that shape.
pub open spec fn hex_body(line: Seq<char>) -> Option<Seq<char>> {
    let t = trim_ws(line);
    if t.len() == 0 || (t[0] != '@' && t[0] != '*') {
        None
    } else {
        let u = t.subrange(1, t.len() as int);
        if u.len() == 0 || u.last() != ';' {
            None
        } else {
            Some(u.drop_last())
        }
    }
}

/// The bytes of an input line: `None` unless it has the shape of `hex_body`, an even number
/// of bytes of hex text, and fields that all read.
pub open spec fn parsed_hex_line(line: Seq<char>) -> Option<Seq<u8>> {
    match hex_body(line) {
        Some(h) => if utf8_size(h) % 2 != 0 {
            None
        } else {
            hex_fields(h)
        },
        None => None,
    }
}

/// Whether parsing a line would cut a character in two (and so cannot be done).
pub open spec fn hex_line_cuts_char(line: Seq<char>) -> bool {
    match hex_body(line) {
        Some(h) => utf8_size(h) % 2 == 0 && hex_fields_cut(h),
        None => false,
    }
}

fn utf8_len_of(c: char) -> (n: usize)
    ensures
        n == utf8_len(c),
{
    let u = c as u32;
    if u < 0x80 {
        1
    } else if u < 0x800 {
        2
    } else if u < 0x10000 {
        3
    } else {
        4
    }
}

fn hex_value_of(c: char) -> (v: Option<u8>)
    ensures
        v == hex_value(c),
{
    let u = c as u32;
    if 0x30 <= u && u <= 0x39 {
        Some((u - 0x30) as u8)
    } else if 0x61 <= u && u <= 0x66 {
        Some((u - 0x61 + 10) as u8)
    } else if 0x41 <= u && u <= 0x46 {
        Some((u - 0x41 + 10) as u8)
    } else {
        None
    }
}

fn hex_field_of(a: char, b: char) -> (v: Option<u8>)
    ensures
        v == hex_field(a, b),
{
    if a == '+' {
        hex_value_of(b)
    } else {
        match (hex_value_of(a), hex_value_of(b)) {
            (Some(x), Some(y)) => Some(x * 16 + y),
            _ => None,
        }
    }
}

/// The bounds `[start, end)` of the trimmed part of `v`.
fn trim_bounds(v: &Vec<char>) -> (r: (usize, usize))
    ensures
        r.0 <= r.1 <= v@.len(),
        v@.subrange(r.0 as int, r.1 as int) == trim_ws(v@),
{
    let n = v.len();
    let mut start: usize = 0;
    assert(v@.subrange(0, n as int) =~= v@);
    while start < n && is_white_space_char(v[start])
        invariant
            start <= n == v@.len(),
            trim_start_ws(v@) == trim_start_ws(v@.subrange(start as int, n as int)),
        decreases n - start,
    {
        assert(v@.subrange(start as int, n as int).subrange(1, (n - start) as int) =~= v@.subrange(
            start + 1,
            n as int,
        ));
        start = start + 1;
    }
    let ghost mid = v@.subrange(start as int, n as int);
    assert(trim_start_ws(mid) == mid);
    let mut end: usize = n;
    while end > start && is_white_space_char(v[end - 1])
        invariant
            start <= end <= n == v@.len(),
            mid == v@.subrange(start as int, n as int),
            trim_end_ws(mid) == trim_end_ws(v@.subrange(start as int, end as int)),
        decreases end,
    {
        assert(v@.subrange(start as int, end as int).drop_last() =~= v@.subrange(
            start as int,
            end - 1,
        ));
        end = end - 1;
    }
    (start, end)
}

/// The hex text of a line as character bounds in `v` (see `hex_body`).
fn hex_body_bounds(v: &Vec<char>) -> (r: Option<(usize, usize)>)
    ensures
        match r {
            Some((a, b)) => a <= b <= v@.len() && hex_body(v@) == Some(
                v@.subrange(a as int, b as int),
            ),
            None => hex_body(v@) is None,
        },
{
    let (start, end) = trim_bounds(v);
    let ghost t = v@.subrange(start as int, end as int);
    if start == end || (v[start] != '@' && v[start] != '*') {
        return None;
    }
    let ghost u = t.subrange(1, t.len() as int);
    assert(u =~= v@.subrange(start + 1, end as int));
    if start + 1 == end || v[end - 1] != ';' {
        return None;
    }
    assert(u.drop_last() =~= v@.subrange(start + 1, end - 1));
    Some((start + 1, end - 1))
}

/// Whether the UTF-8 size of `v[a..b]` is odd.
fn utf8_size_odd(v: &Vec<char>, a: usize, b: usize) -> (odd: bool)
    requires
        a <= b <= v@.len(),
    ensures
        odd == (utf8_size(v@.subrange(a as int, b as int)) % 2 != 0),
{
    let mut odd = false;
    let mut i = a;
    while i < b
        invariant
            a <= i <= b <= v@.len(),
            odd == (utf8_size(v@.subrange(a as int, i as int)) % 2 != 0),
        decreases b - i,
    {
        assert(v@.subrange(a as int, i + 1).drop_last() =~= v@.subrange(a as int, i as int));
        if utf8_len_of(v[i]) % 2 == 1 {
            odd = !odd;
        }
        i = i + 1;
    }
    odd
}

/// Whether parsing an input line would cut a character in two (see `hex_line_cuts_char`);
/// `parse_line` does not take such lines.
pub fn line_cuts_char(line: &str) -> (cuts: bool)
    ensures
        cuts == hex_line_cuts_char(line@),
{
    let v = chars_of(line);
    match hex_body_bounds(&v) {
        None => false,
        Some((a, b)) => {
            if utf8_size_odd(&v, a, b) {
                return false;
            }
            let ghost h = v@.subrange(a as int, b as int);
            let mut i = a;
            while i < b
                invariant
                    a <= i <= b <= v@.len(),
                    v@ == line@,
                    h == v@.subrange(a as int, b as int),
                    hex_body(v@) == Some(h),
                    utf8_size(h) % 2 == 0,
                    hex_fields_cut(h) == hex_fields_cut(v@.subrange(i as int, b as int)),
                decreases b - i,
            {
                let ghost rest = v@.subrange(i as int, b as int);
                assert(rest.len() == b - i && rest[0] == v@[i as int]);
                assert(i + 1 < b ==> rest[1] == v@[i + 1]);
                if (v[i] as u32) < 0x80 {
                    if i + 1 < b && (v[i + 1] as u32) < 0x80 {
                        if hex_field_of(v[i], v[i + 1]).is_none() {
                            assert((rest[0] as u32) < 0x80);
                            assert((rest[1] as u32) < 0x80);
                            assert(hex_field(rest[0], rest[1]) is None);
                            assert(!hex_fields_cut(rest));
                            return false;
                        }
                        assert(rest.subrange(2, rest.len() as int) =~= v@.subrange(
                            i + 2,
                            b as int,
                        ));
                        i = i + 2;
                    } else {
                        return i + 1 < b;
                    }
                } else {
                    return utf8_len_of(v[i]) != 2;
                }
            }
            false
        },
    }
}

/// Parse an AVR hex input line (`*` or `@`, hex digits, `;`, with surrounding white space)
/// into its bytes.
pub fn parse_line(line: &str) -> (r: Option<Vec<u8>>)
    requires
        !hex_line_cuts_char(line@),
    ensures
        match r {
            Some(bytes) => parsed_hex_line(line@) == Some(bytes@),
            None => parsed_hex_line(line@) is None,
        },
{
    let v = chars_of(line);
    let (a, b) = match hex_body_bounds(&v) {
        None => return None,
        Some(bounds) => bounds,
    };
    if utf8_size_odd(&v, a, b) {
        return None;
    }
    let ghost h = v@.subrange(a as int, b as int);
    let mut out: Vec<u8> = Vec::new();
    let mut i = a;
    while i < b
        invariant
            a <= i <= b <= v@.len(),
            v@ == line@,
            h == v@.subrange(a as int, b as int),
            hex_body(v@) == Some(h),
            utf8_size(h) % 2 == 0,
            !hex_line_cuts_char(line@),
            !hex_fields_cut(v@.subrange(i as int, b as int)),
            hex_fields(h) == (match hex_fields(v@.subrange(i as int, b as int)) {
                Some(rest) => Some(out@ + rest),
                None => None::<Seq<u8>>,
            }),
        decreases b - i,
    {
        let ghost rest = v@.subrange(i as int, b as int);
        assert(rest.len() == b - i && rest[0] == v@[i as int]);
        assert(i + 1 < b ==> rest[1] == v@[i + 1]);
        if (v[i] as u32) < 0x80 && i + 1 < b && (v[i + 1] as u32) < 0x80 {
            match hex_field_of(v[i], v[i + 1]) {
                Some(x) => {
                    assert(rest.subrange(2, rest.len() as int) =~= v@.subrange(i + 2, b as int));
                    assert(hex_field(rest[0], rest[1]) == Some(x));
                    let ghost before = out@;
                    out.push(x);
                    proof {
                        let tail = v@.subrange(i + 2, b as int);
                        match hex_fields(tail) {
                            Some(t) => {
                                assert(before + (seq![x] + t) =~= out@ + t);
                            },
                            None => {},
                        }
                    }
                    i = i + 2;
                },
                None => {
                    assert(hex_fields(rest) is None);
                    return None;
                },
            }
        } else {
            assert(hex_fields(rest) is None);
            return None;
        }
    }
    assert(v@.subrange(b as int, b as int) =~= Seq::<char>::empty());
    assert(out@ + Seq::<u8>::empty() =~= out@);
    Some(out)
}

// ---------------------------------------------------------------------------
// Reading back what was written
// ---------------------------------------------------------------------------

proof fn lemma_hex_text_front(data: Seq<u8>)
    requires
        data.len() > 0,
    ensures
        hex_text(data) == seq![hex_digit(data[0] >> 4u8), hex_digit(data[0] & 0x0Fu8)] + hex_text(
            data.subrange(1, data.len() as int),
        ),
    decreases data.len(),
{
    if data.len() == 1 {
        assert(data.drop_last() =~= Seq::<u8>::empty());
        assert(data.subrange(1, 1) =~= Seq::<u8>::empty());
    } else {
        let rest = data.subrange(1, data.len() as int);
        lemma_hex_text_front(data.drop_last());
        assert(data.drop_last().subrange(1, data.drop_last().len() as int) =~= rest.drop_last());
        assert(data.drop_last()[0] == data[0]);
        assert(rest.last() == data.last());
    }
}

proof fn lemma_hex_text_len(data: Seq<u8>)
    ensures
        hex_text(data).len() == 2 * data.len(),
    decreases data.len(),
{
    if data.len() > 0 {
        lemma_hex_text_len(data.drop_last());
    }
}

proof fn lemma_hex_text_ascii(data: Seq<u8>)
    ensures
        forall|i: int| 0 <= i < hex_text(data).len() ==> #[trigger] hex_text(data)[i] < 0x80,
    decreases data.len(),
{
    if data.len() > 0 {
        lemma_hex_text_ascii(data.drop_last());
        let b = data.last();
        assert((b >> 4u8) < 16 && (b & 0x0Fu8) < 16) by (bit_vector);
        let prev = hex_text(data.drop_last());
        let tail = seq![hex_digit(b >> 4u8), hex_digit(b & 0x0Fu8)];
        assert(hex_text(data) == prev + tail);
        assert forall|i: int| 0 <= i < hex_text(data).len() implies #[trigger] hex_text(data)[i]
            < 0x80 by {
            if i < prev.len() {
                assert(hex_text(data)[i] == prev[i]);
            } else {
                assert(hex_text(data)[i] == tail[i - prev.len()]);
            }
        }
    }
}

proof fn lemma_hex_digit_value(n: u8)
    requires
        n < 16,
    ensures
        hex_value(hex_digit(n) as char) == Some(n),
        (hex_digit(n) as u32) < 0x80,
        hex_digit(n) as char != '+',
{
}

proof fn lemma_hex_fields_of_text(data: Seq<u8>)
    ensures
        hex_fields(ascii_chars(hex_text(data))) == Some(data),
        !hex_fields_cut(ascii_chars(hex_text(data))),
        utf8_size(ascii_chars(hex_text(data))) == 2 * data.len(),
    decreases data.len(),
{
    let cs = ascii_chars(hex_text(data));
    lemma_hex_text_len(data);
    if data.len() == 0 {
        assert(cs =~= Seq::<char>::empty());
    } else {
        let b = data[0];
        let rest = data.subrange(1, data.len() as int);
        lemma_hex_text_front(data);
        lemma_hex_fields_of_text(rest);
        let hi = b >> 4u8;
        let lo = b & 0x0Fu8;
        assert(hi < 16 && lo < 16 && ((hi * 16 + lo) as u8) == b) by (bit_vector)
            requires
                hi == b >> 4u8,
                lo == b & 0x0Fu8,
        ;
        lemma_hex_digit_value(hi);
        lemma_hex_digit_value(lo);
        let rest_cs = ascii_chars(hex_text(rest));
        assert(cs.subrange(2, cs.len() as int) =~= rest_cs);
        assert(cs[0] == hex_digit(hi) as char);
        assert(cs[1] == hex_digit(lo) as char);
        assert(hex_field(cs[0], cs[1]) == Some(b));
        assert(seq![b] + rest =~= data);
        lemma_hex_text_ascii(data);
        assert forall|i: int| 0 <= i < cs.len() implies (#[trigger] cs[i] as u32) < 0x80 by {
            assert(cs[i] == hex_text(data)[i] as char);
        }
        lemma_utf8_size_split(cs);
    }
}

proof fn lemma_utf8_size_ascii(cs: Seq<char>)
    requires
        forall|i: int| 0 <= i < cs.len() ==> (#[trigger] cs[i] as u32) < 0x80,
    ensures
        utf8_size(cs) == cs.len(),
    decreases cs.len(),
{
    if cs.len() > 0 {
        lemma_utf8_size_ascii(cs.drop_last());
    }
}

proof fn lemma_utf8_size_split(cs: Seq<char>)
    requires
        cs.len() >= 2,
        forall|i: int| 0 <= i < cs.len() ==> (#[trigger] cs[i] as u32) < 0x80,
    ensures
        utf8_size(cs) == 2 + utf8_size(cs.subrange(2, cs.len() as int)),
{
    lemma_utf8_size_ascii(cs);
    lemma_utf8_size_ascii(cs.subrange(2, cs.len() as int));
}

/// A line written by `encode_hex_output` is valid UTF-8, and its text is read back by
/// `parse_line` as the same bytes, with no character cut.
pub proof fn lemma_hex_round_trip(data: Seq<u8>)
    ensures
        valid_utf8(hex_line(data)),
        decode_utf8(hex_line(data)) == ascii_chars(hex_line(data)),
        parsed_hex_line(decode_utf8(hex_line(data))) == Some(data),
        !hex_line_cuts_char(decode_utf8(hex_line(data))),
{
    lemma_hex_text_ascii(data);
    assert(is_ascii_bytes(hex_line(data))) by {
        let t = hex_text(data);
        assert forall|i: int| 0 <= i < hex_line(data).len() implies hex_line(data)[i] < 128 by {
            if 1 <= i < 1 + t.len() {
                assert(hex_line(data)[i] == t[i - 1]);
            }
        }
    }
    lemma_ascii_utf8(hex_line(data));
    let body = ascii_chars(hex_text(data));
    let line = ascii_chars(hex_line(data));
    lemma_hex_text_len(data);
    assert(line =~= seq!['*'] + body + seq![';', '\n']);
    assert(trim_start_ws(line) == line);
    let no_nl = line.drop_last();
    assert(no_nl =~= seq!['*'] + body + seq![';']);
    assert(trim_end_ws(no_nl) == no_nl);
    assert(trim_ws(line) == no_nl);
    assert(no_nl.subrange(1, no_nl.len() as int).drop_last() =~= body);
    lemma_hex_fields_of_text(data);
}

} // verus!
