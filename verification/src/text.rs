//! Text helpers: ASCII bytes as characters, and UTF-8 decoding.
use vstd::prelude::*;
use vstd::string::StringSliceAdditionalSpecFns;
use vstd::utf8::{decode_utf8, encode_utf8, valid_utf8};

verus! {

/// Every byte is ASCII.
pub open spec fn is_ascii_bytes(b: Seq<u8>) -> bool {
    forall|i: int| 0 <= i < b.len() ==> b[i] < 128
}

/// The characters of ASCII bytes.
pub open spec fn ascii_chars(b: Seq<u8>) -> Seq<char> {
    b.map_values(|x: u8| x as char)
}

/// `std::str::from_utf8`: the bytes as a string slice when they are valid UTF-8, `None`
/// otherwise. The slice's UTF-8 encoding is exactly the input bytes.
#[verifier::external_body]
pub(crate) fn str_from_utf8(bytes: &[u8]) -> (r: Option<&str>)
    ensures
        r.is_some() == valid_utf8(bytes@),
        r matches Some(s) ==> s.spec_bytes() == bytes@,
{
    std::str::from_utf8(bytes).ok()
}

broadcast use vstd::string::axiom_spec_iter;

/// The characters of a string slice.
pub fn chars_of(s: &str) -> (v: Vec<char>)
    ensures
        v@ == s@,
{
    let mut v: Vec<char> = Vec::new();
    for c in it: s.chars()
        invariant
            v@ == it.seq().subrange(0, it.index() as int),
            it.seq() == s@,
    {
        v.push(c);
    }
    v
}

/// Whether two strings hold the same characters.
pub fn same_text(a: &str, b: &str) -> (eq: bool)
    ensures
        eq == (a@ == b@),
{
    let x = chars_of(a);
    let y = chars_of(b);
    if x.len() != y.len() {
        return false;
    }
    let mut i: usize = 0;
    while i < x.len()
        invariant
            i <= x@.len() == y@.len(),
            x@ == a@,
            y@ == b@,
            forall|j: int| 0 <= j < i ==> x@[j] == y@[j],
        decreases x@.len() - i,
    {
        if x[i] != y[i] {
            assert(x@[i as int] != y@[i as int]);
            return false;
        }
        i = i + 1;
    }
    assert(x@ =~= y@);
    true
}

/// The text of valid UTF-8 bytes as characters, empty for invalid bytes.
pub open spec fn utf8_text(bytes: Seq<u8>) -> Seq<char> {
    if valid_utf8(bytes) {
        decode_utf8(bytes)
    } else {
        Seq::<char>::empty()
    }
}

/// Decode bytes as UTF-8 text; invalid bytes give the empty string.
pub(crate) fn utf8_or_empty(bytes: &[u8]) -> (s: &str)
    ensures
        s@ == utf8_text(bytes@),
{
    match str_from_utf8(bytes) {
        Some(s) => {
            proof {
                vstd::utf8::encode_utf8_decode_utf8(s@);
            }
            s
        },
        None => {
            proof {
                reveal_strlit("");
            }
            ""
        },
    }
}

/// ASCII bytes are valid UTF-8 whose characters are the bytes themselves.
pub proof fn lemma_ascii_utf8(bytes: Seq<u8>)
    requires
        is_ascii_bytes(bytes),
    ensures
        valid_utf8(bytes),
        decode_utf8(bytes) == ascii_chars(bytes),
{
    let cs = ascii_chars(bytes);
    assert(vstd::utf8::is_ascii_chars(cs)) by {
        assert forall|i: int| 0 <= i < cs.len() implies '\0' <= #[trigger] cs[i] <= '\u{7f}' by {
            assert(bytes[i] < 128);
        }
    }
    vstd::utf8::is_ascii_chars_encode_utf8(cs);
    assert(encode_utf8(cs) =~= bytes);
    vstd::utf8::encode_utf8_valid_utf8(cs);
    vstd::utf8::encode_utf8_decode_utf8(cs);
}

/// A `String` holding ASCII bytes as characters.
pub fn ascii_string(bytes: &[u8]) -> (s: String)
    requires
        is_ascii_bytes(bytes@),
    ensures
        s@ == ascii_chars(bytes@),
{
    proof {
        lemma_ascii_utf8(bytes@);
    }
    let s = utf8_or_empty(bytes);
    s.to_owned()
}

/// The character with an ASCII code.
pub fn ascii_char(b: u8) -> (c: char)
    requires
        b < 128,
    ensures
        c == b as char,
{
    b as char
}

// ---------------------------------------------------------------------------
// Numbers as text
// ---------------------------------------------------------------------------

/// The ASCII decimal digits of `n`, most significant first, without leading zeros.
pub open spec fn decimal_digits(n: nat) -> Seq<u8>
    decreases n,
{
    if n < 10 {
        seq![(0x30 + n) as u8]
    } else {
        decimal_digits(n / 10) + seq![(0x30 + n % 10) as u8]
    }
}

/// Decimal digits are ASCII.
pub proof fn lemma_digits_ascii(n: nat)
    ensures
        is_ascii_bytes(decimal_digits(n)),
    decreases n,
{
    if n >= 10 {
        lemma_digits_ascii(n / 10);
    }
}

/// Append the decimal digits of `n`.
pub fn push_decimal(out: &mut Vec<u8>, n: u64)
    ensures
        final(out)@ == old(out)@ + decimal_digits(n as nat),
    decreases n,
{
    if n >= 10 {
        push_decimal(out, n / 10);
    }
    out.push((0x30 + n % 10) as u8);
    assert(n < 10 ==> decimal_digits(n as nat) == seq![(0x30 + n) as u8]);
    assert(out@ =~= old(out)@ + decimal_digits(n as nat));
}

/// The ASCII code of an upper-case hex digit (0-15).
pub open spec fn upper_hex_digit(d: nat) -> u8 {
    if d < 10 {
        (0x30 + d) as u8
    } else {
        (0x41 + d - 10) as u8
    }
}

/// The upper-case hex digits of `n`, most significant first, without leading zeros.
pub open spec fn hex_digits(n: nat) -> Seq<u8>
    decreases n,
{
    if n < 16 {
        seq![upper_hex_digit(n)]
    } else {
        hex_digits(n / 16) + seq![upper_hex_digit(n % 16)]
    }
}

/// `s` left-padded with ASCII zeros to at least `width` bytes.
pub open spec fn zero_padded(s: Seq<u8>, width: nat) -> Seq<u8> {
    if s.len() < width {
        Seq::new((width - s.len()) as nat, |i: int| 0x30u8) + s
    } else {
        s
    }
}

/// Hex digits are ASCII.
pub proof fn lemma_hex_digits_ascii(n: nat)
    ensures
        is_ascii_bytes(hex_digits(n)),
        hex_digits(n).len() >= 1,
    decreases n,
{
    if n >= 16 {
        lemma_hex_digits_ascii(n / 16);
    }
}

/// Append the upper-case hex digits of `n`.
pub fn push_hex(out: &mut Vec<u8>, n: u32)
    ensures
        final(out)@ == old(out)@ + hex_digits(n as nat),
    decreases n,
{
    if n >= 16 {
        push_hex(out, n / 16);
    }
    let d = n % 16;
    let c: u8 = if d < 10 {
        (0x30 + d) as u8
    } else {
        (0x41 + d - 10) as u8
    };
    out.push(c);
    assert(out@ =~= old(out)@ + hex_digits(n as nat));
}

/// Append the upper-case hex digits of `n`, zero-padded to at least `width` digits.
pub fn push_hex_padded(out: &mut Vec<u8>, n: u32, width: usize)
    ensures
        final(out)@ == old(out)@ + zero_padded(hex_digits(n as nat), width as nat),
{
    let mut digits: Vec<u8> = Vec::new();
    push_hex(&mut digits, n);
    assert(digits@ =~= hex_digits(n as nat));
    let mut k: usize = digits.len();
    let ghost start = out@;
    while k < width
        invariant
            digits@ == hex_digits(n as nat),
            digits@.len() <= k <= (if width > digits@.len() {
                width as int
            } else {
                digits@.len() as int
            }),
            out@ == start + Seq::new((k - digits@.len()) as nat, |i: int| 0x30u8),
        decreases width - k,
    {
        out.push(0x30);
        assert(out@ =~= start + Seq::new((k + 1 - digits@.len()) as nat, |i: int| 0x30u8));
        k = k + 1;
    }
    let ghost mid = out@;
    let mut i: usize = 0;
    while i < digits.len()
        invariant
            i <= digits@.len(),
            out@ == mid + digits@.subrange(0, i as int),
        decreases digits@.len() - i,
    {
        out.push(digits[i]);
        assert(digits@.subrange(0, i + 1) =~= digits@.subrange(0, i as int).push(digits@[i as int]));
        i = i + 1;
    }
    assert(digits@.subrange(0, digits@.len() as int) =~= digits@);
    assert(out@ =~= start + zero_padded(hex_digits(n as nat), width as nat));
}

/// The decimal text of a signed integer: a minus sign before the digits of its magnitude
/// when negative.
pub open spec fn signed_decimal(n: int) -> Seq<u8> {
    if n < 0 {
        seq![0x2Du8] + decimal_digits((-n) as nat)
    } else {
        decimal_digits(n as nat)
    }
}

/// Append the decimal text of a signed integer (see `signed_decimal`).
pub fn push_signed_decimal(out: &mut Vec<u8>, n: i32)
    ensures
        final(out)@ == old(out)@ + signed_decimal(n as int),
{
    if n < 0 {
        out.push(0x2D);
        let m: u64 = (0i64 - n as i64) as u64;
        push_decimal(out, m);
    } else {
        push_decimal(out, n as u64);
    }
    assert(out@ =~= old(out)@ + signed_decimal(n as int));
}

} // verus!
