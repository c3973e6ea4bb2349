//! Comm-B replies: format inference and aircraft identification.
use crate::modes::ais::{ais_6bit_code, ais_code};
use crate::text::{ascii_chars, ascii_string, is_ascii_bytes};
use crate::types::CommBFormat;
use vstd::prelude::*;

verus! {

/// Bytes 1-6 of the MB field are all zero.
pub open spec fn mb_tail_empty(mb: Seq<u8>) -> bool {
    forall|i: int| 1 <= i < 7 ==> mb[i] == 0
}

/// The Comm-B format inferred from the BDS register in the first MB byte.
pub open spec fn comm_b_format(mb: Seq<u8>) -> CommBFormat {
    let bds = mb[0];
    if bds == 0x10 || bds == 0x20 {
        CommBFormat::AircraftIdent
    } else if bds == 0x30 {
        if mb_tail_empty(mb) {
            CommBFormat::EmptyResponse
        } else {
            CommBFormat::AcasRA
        }
    } else if bds == 0x40 {
        CommBFormat::VerticalIntent
    } else if bds == 0x50 {
        CommBFormat::TrackTurn
    } else if bds == 0x60 {
        CommBFormat::HeadingSpeed
    } else if bds == 0x17 {
        CommBFormat::DatalinkCaps
    } else if bds == 0x18 {
        CommBFormat::GicbCaps
    } else if bds == 0x80 {
        CommBFormat::MeteorologicalRoutine
    } else if mb_tail_empty(mb) {
        CommBFormat::EmptyResponse
    } else {
        CommBFormat::Unknown
    }
}

/// The register a reply carries names its format, whatever the other six bytes hold: 1,0 and
/// 2,0 aircraft identification, 4,0 selected vertical intention, 5,0 track and turn, 6,0
/// heading and speed, 1,7 data link capabilities, 1,8 GICB capabilities, 8,0 meteorological
/// routine report. For register 3,0 and any other register the six bytes decide: all zero is
/// an empty response, otherwise an ACAS resolution advisory (3,0) or unknown.
pub proof fn lemma_register_names_format(mb: Seq<u8>)
    requires
        mb.len() == 7,
    ensures
        mb[0] == 0x10u8 || mb[0] == 0x20u8 ==> comm_b_format(mb) == CommBFormat::AircraftIdent,
        mb[0] == 0x40u8 ==> comm_b_format(mb) == CommBFormat::VerticalIntent,
        mb[0] == 0x50u8 ==> comm_b_format(mb) == CommBFormat::TrackTurn,
        mb[0] == 0x60u8 ==> comm_b_format(mb) == CommBFormat::HeadingSpeed,
        mb[0] == 0x17u8 ==> comm_b_format(mb) == CommBFormat::DatalinkCaps,
        mb[0] == 0x18u8 ==> comm_b_format(mb) == CommBFormat::GicbCaps,
        mb[0] == 0x80u8 ==> comm_b_format(mb) == CommBFormat::MeteorologicalRoutine,
        mb[0] == 0x30u8 ==> comm_b_format(mb) == (if (forall|i: int| 1 <= i < 7 ==> mb[i] == 0u8) {
            CommBFormat::EmptyResponse
        } else {
            CommBFormat::AcasRA
        }),
        mb[0] != 0x10u8 && mb[0] != 0x20u8 && mb[0] != 0x30u8 && mb[0] != 0x40u8 && mb[0] != 0x50u8
            && mb[0] != 0x60u8 && mb[0] != 0x17u8 && mb[0] != 0x18u8 && mb[0] != 0x80u8
            ==> comm_b_format(mb) == (if (forall|i: int| 1 <= i < 7 ==> mb[i] == 0u8) {
            CommBFormat::EmptyResponse
        } else {
            CommBFormat::Unknown
        }),
{
}

fn tail_empty(mb: &[u8; 7]) -> (r: bool)
    ensures
        r == mb_tail_empty(mb@),
{
    let mut i: usize = 1;
    while i < 7
        invariant
            1 <= i <= 7,
            forall|k: int| 1 <= k < i ==> mb@[k] == 0,
        decreases 7 - i,
    {
        if mb[i] != 0 {
            return false;
        }
        i = i + 1;
    }
    true
}

/// Decode a Comm-B reply's format from its MB field (see `comm_b_format`).
pub fn decode_comm_b(mb: &[u8; 7]) -> (f: CommBFormat)
    ensures
        f == comm_b_format(mb@),
{
    let bds = mb[0];
    if bds == 0x10 || bds == 0x20 {
        CommBFormat::AircraftIdent
    } else if bds == 0x30 {
        if tail_empty(mb) {
            CommBFormat::EmptyResponse
        } else {
            CommBFormat::AcasRA
        }
    } else if bds == 0x40 {
        CommBFormat::VerticalIntent
    } else if bds == 0x50 {
        CommBFormat::TrackTurn
    } else if bds == 0x60 {
        CommBFormat::HeadingSpeed
    } else if bds == 0x17 {
        CommBFormat::DatalinkCaps
    } else if bds == 0x18 {
        CommBFormat::GicbCaps
    } else if bds == 0x80 {
        CommBFormat::MeteorologicalRoutine
    } else if tail_empty(mb) {
        CommBFormat::EmptyResponse
    } else {
        CommBFormat::Unknown
    }
}

/// Big-endian value of a byte sequence, keeping the low 64 bits.
pub open spec fn be_value(bytes: Seq<u8>) -> u64
    decreases bytes.len(),
{
    if bytes.len() == 0 {
        0
    } else {
        (((be_value(bytes.drop_last()) << 8u64) as u64) | (bytes.last() as u64)) as u64
    }
}

/// The 6-bit character `count` characters from the top, starting at bit `shift`.
pub open spec fn sextet(bits: u64, shift: int) -> u8 {
    ((bits >> (shift as u64)) & 0x3Fu64) as u8
}

/// ASCII codes of up to `count` identification characters read from bit `shift` downwards in
/// steps of six, stopping before the first '@' (character 0).
pub open spec fn ident_codes(bits: u64, shift: int, count: nat) -> Seq<u8>
    decreases count,
{
    if count == 0 {
        Seq::<u8>::empty()
    } else if sextet(bits, shift) == 0 {
        Seq::<u8>::empty()
    } else {
        seq![ais_code(sextet(bits, shift))] + ident_codes(bits, shift - 6, (count - 1) as nat)
    }
}

/// Drop leading spaces.
pub open spec fn trim_start_spaces(s: Seq<u8>) -> Seq<u8>
    decreases s.len(),
{
    if s.len() > 0 && s[0] == 32 {
        trim_start_spaces(s.drop_first())
    } else {
        s
    }
}

/// Drop trailing spaces.
pub open spec fn trim_end_spaces(s: Seq<u8>) -> Seq<u8>
    decreases s.len(),
{
    if s.len() > 0 && s.last() == 32 {
        trim_end_spaces(s.drop_last())
    } else {
        s
    }
}

/// Drop leading and trailing spaces (the only whitespace of the AIS character set).
pub open spec fn trim_spaces(s: Seq<u8>) -> Seq<u8> {
    trim_end_spaces(trim_start_spaces(s))
}

pub proof fn lemma_ident_codes_ascii(bits: u64, shift: int, count: nat)
    ensures
        is_ascii_bytes(ident_codes(bits, shift, count)),
        ident_codes(bits, shift, count).len() <= count,
    decreases count,
{
    if count > 0 && sextet(bits, shift) != 0 {
        lemma_ident_codes_ascii(bits, shift - 6, (count - 1) as nat);
    }
}

proof fn lemma_trim_start_sub(s: Seq<u8>)
    ensures
        exists|k: int| 0 <= k <= s.len() && trim_start_spaces(s) == s.subrange(k, s.len() as int),
    decreases s.len(),
{
    if s.len() > 0 && s[0] == 32 {
        lemma_trim_start_sub(s.drop_first());
        let k = choose|k: int|
            0 <= k <= s.drop_first().len() && trim_start_spaces(s.drop_first())
                == s.drop_first().subrange(k, s.drop_first().len() as int);
        assert(s.drop_first().subrange(k, s.drop_first().len() as int) =~= s.subrange(
            k + 1,
            s.len() as int,
        ));
    } else {
        assert(s.subrange(0, s.len() as int) =~= s);
    }
}

proof fn lemma_trim_end_sub(s: Seq<u8>)
    ensures
        exists|k: int| 0 <= k <= s.len() && trim_end_spaces(s) == s.subrange(0, k),
    decreases s.len(),
{
    if s.len() > 0 && s.last() == 32 {
        lemma_trim_end_sub(s.drop_last());
        let k = choose|k: int|
            0 <= k <= s.drop_last().len() && trim_end_spaces(s.drop_last())
                == s.drop_last().subrange(0, k);
        assert(s.drop_last().subrange(0, k) =~= s.subrange(0, k));
    } else {
        assert(s.subrange(0, s.len() as int) =~= s);
    }
}

/// Trimming keeps a contiguous part of the input: the characters stay ASCII and no more appear.
pub proof fn lemma_trim_spaces_sub(s: Seq<u8>)
    ensures
        trim_spaces(s).len() <= s.len(),
        is_ascii_bytes(s) ==> is_ascii_bytes(trim_spaces(s)),
{
    lemma_trim_start_sub(s);
    let t = trim_start_spaces(s);
    lemma_trim_end_sub(t);
}

/// `s` with leading and trailing spaces removed.
pub fn trim_space_bytes(s: &Vec<u8>) -> (t: Vec<u8>)
    ensures
        t@ == trim_spaces(s@),
{
    let n = s.len();
    let mut start: usize = 0;
    assert(s@.subrange(0, n as int) =~= s@);
    while start < n && s[start] == 32
        invariant
            start <= n,
            n == s@.len(),
            trim_start_spaces(s@) == trim_start_spaces(s@.subrange(start as int, n as int)),
        decreases n - start,
    {
        assert(s@.subrange(start as int, n as int).drop_first() =~= s@.subrange(
            start + 1,
            n as int,
        ));
        start = start + 1;
    }
    let mut end: usize = n;
    let ghost mid = s@.subrange(start as int, n as int);
    assert(trim_start_spaces(mid) == mid);
    while end > start && s[end - 1] == 32
        invariant
            start <= end <= n,
            n == s@.len(),
            mid == s@.subrange(start as int, n as int),
            trim_end_spaces(mid) == trim_end_spaces(s@.subrange(start as int, end as int)),
        decreases end,
    {
        assert(s@.subrange(start as int, end as int).drop_last() =~= s@.subrange(
            start as int,
            end - 1,
        ));
        end = end - 1;
    }
    let ghost kept = s@.subrange(start as int, end as int);
    assert(trim_end_spaces(kept) == kept);
    let mut t: Vec<u8> = Vec::new();
    let mut i = start;
    while i < end
        invariant
            start <= i <= end <= n,
            n == s@.len(),
            t@ == s@.subrange(start as int, i as int),
        decreases end - i,
    {
        t.push(s[i]);
        assert(s@.subrange(start as int, i + 1) =~= s@.subrange(start as int, i as int).push(s@[i as int]));
        i = i + 1;
    }
    t
}

/// ASCII codes of up to `count` identification characters (see `ident_codes`).
pub fn decode_ident_codes(bits: u64, count: usize) -> (codes: Vec<u8>)
    requires
        1 <= count <= 10,
    ensures
        codes@ == ident_codes(bits, 6 * (count - 1), count as nat),
{
    let mut codes: Vec<u8> = Vec::new();
    let mut j: usize = 0;
    let ghost top: int = 6 * (count - 1);
    while j < count
        invariant
            j <= count <= 10,
            top == 6 * (count - 1),
            codes@ + ident_codes(bits, top - 6 * j, (count - j) as nat) == ident_codes(bits, top, count as nat),
        decreases count - j,
    {
        let shift: u64 = (6 * (count - 1 - j)) as u64;
        let ch = ((bits >> shift) & 0x3F) as u8;
        assert(ch == sextet(bits, top - 6 * j));
        if ch == 0 {
            assert(codes@ + Seq::<u8>::empty() =~= codes@);
            return codes;
        }
        let ghost before = codes@;
        codes.push(ais_6bit_code(ch));
        assert(before + ident_codes(bits, top - 6 * j, (count - j) as nat) =~= codes@ + ident_codes(
            bits,
            top - 6 * (j + 1),
            (count - (j + 1)) as nat,
        ));
        j = j + 1;
    }
    assert(codes@ + Seq::<u8>::empty() =~= codes@);
    codes
}

/// The callsign carried in a Comm-B identification MB field: the first seven bytes (fewer if
/// shorter) read big-endian; the eight 6-bit characters after the BDS byte (from bit 42
/// down), up to the first '@'; leading and trailing spaces removed.
pub open spec fn commb_callsign_codes(mb: Seq<u8>) -> Seq<u8> {
    let n = if mb.len() < 7 {
        mb.len() as int
    } else {
        7
    };
    trim_spaces(ident_codes(be_value(mb.subrange(0, n)), 42, 8))
}

/// The callsign bytes of a Comm-B identification MB field (see `commb_callsign_codes`).
pub fn commb_callsign_bytes(mb: &[u8]) -> (codes: Vec<u8>)
    ensures
        codes@ == commb_callsign_codes(mb@),
        is_ascii_bytes(codes@),
        codes@.len() <= 8,
{
    let n: usize = if mb.len() < 7 {
        mb.len()
    } else {
        7
    };
    let mut bits: u64 = 0;
    let mut i: usize = 0;
    while i < n
        invariant
            i <= n <= 7,
            n <= mb@.len(),
            bits == be_value(mb@.subrange(0, i as int)),
        decreases n - i,
    {
        assert(mb@.subrange(0, i + 1).drop_last() =~= mb@.subrange(0, i as int));
        bits = (bits << 8) | (mb[i] as u64);
        i = i + 1;
    }
    let raw = decode_ident_codes(bits, 8);
    proof {
        lemma_ident_codes_ascii(bits, 42, 8);
        lemma_trim_spaces_sub(raw@);
    }
    trim_space_bytes(&raw)
}

/// Extract the callsign from a Comm-B aircraft identification MB field.
pub fn commb_callsign(mb: &[u8]) -> (cs: String)
    ensures
        cs@ == ascii_chars(commb_callsign_codes(mb@)),
{
    let codes = commb_callsign_bytes(mb);
    ascii_string(codes.as_slice())
}

} // verus!
