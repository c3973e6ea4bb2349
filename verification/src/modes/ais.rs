//! The 6-bit AIS character set used by Mode S identification messages.
use crate::text::ascii_char;
use vstd::prelude::*;

verus! {

/// ASCII code of a 6-bit AIS character: codes 0-31 map to '@'..'_' (0x40-0x5F), codes 32-63
/// to ' '..'?' (0x20-0x3F); anything larger maps to a space.
pub open spec fn ais_code(ch: u8) -> u8 {
    if ch < 32 {
        (ch + 64) as u8
    } else if ch < 64 {
        ch
    } else {
        32
    }
}

/// Convert a 6-bit AIS character to its ASCII character.
pub fn ais_6bit_to_ascii(ch: u8) -> (c: char)
    ensures
        c == ais_code(ch) as char,
{
    let code: u8 = if ch < 32 {
        ch + 64
    } else if ch < 64 {
        ch
    } else {
        32
    };
    ascii_char(code)
}

/// The ASCII code of a 6-bit AIS character (see `ais_code`).
pub fn ais_6bit_code(ch: u8) -> (code: u8)
    ensures
        code == ais_code(ch),
        code < 128,
{
    if ch < 32 {
        ch + 64
    } else if ch < 64 {
        ch
    } else {
        32
    }
}

/// State of the 6-bit packer after consuming `values`: (bit buffer, pending bit count, bytes).
/// Each value is shifted into a 32-bit buffer (higher bits fall off; bits of a value above the
/// low six are ORed in as they are) and a byte is emitted whenever eight bits are pending.
pub open spec fn pack_state(values: Seq<u8>) -> (u32, int, Seq<u8>)
    decreases values.len(),
{
    if values.len() == 0 {
        (0u32, 0, Seq::<u8>::empty())
    } else {
        let (buf, cnt, out) = pack_state(values.drop_last());
        let b = ((buf << 6u32) | (values.last() as u32)) as u32;
        let c = cnt + 6;
        if c >= 8 {
            (b, c - 8, out.push((b >> ((c - 8) as u32)) as u8))
        } else {
            (b, c, out)
        }
    }
}

proof fn lemma_pack_state_count(values: Seq<u8>)
    ensures
        0 <= pack_state(values).1 < 8,
        pack_state(values).1 % 2 == 0,
    decreases values.len(),
{
    if values.len() > 0 {
        lemma_pack_state_count(values.drop_last());
    }
}

/// Bit `i` (counted from the most significant) of the 6-bit values written one after the
/// other, most significant bit first.
pub open spec fn sextet_bit(values: Seq<u8>, i: int) -> bool {
    (values[i / 6] >> ((5 - i % 6) as u8)) & 1u8 == 1u8
}

/// The byte of eight bits, most significant first.
pub open spec fn byte_of(b7: bool, b6: bool, b5: bool, b4: bool, b3: bool, b2: bool, b1: bool, b0: bool) -> u8 {
    ((if b7 { 0x80u8 } else { 0u8 }) | (if b6 { 0x40u8 } else { 0u8 }) | (if b5 { 0x20u8 } else {
        0u8
    }) | (if b4 { 0x10u8 } else { 0u8 }) | (if b3 { 0x08u8 } else { 0u8 }) | (if b2 { 0x04u8 } else {
        0u8
    }) | (if b1 { 0x02u8 } else { 0u8 }) | (if b0 { 0x01u8 } else { 0u8 })) as u8
}

/// Byte `k` of the 6-bit values written one after the other: bits `8k` to `8k + 7`.
pub open spec fn packed_byte(values: Seq<u8>, k: int) -> u8 {
    byte_of(
        sextet_bit(values, 8 * k),
        sextet_bit(values, 8 * k + 1),
        sextet_bit(values, 8 * k + 2),
        sextet_bit(values, 8 * k + 3),
        sextet_bit(values, 8 * k + 4),
        sextet_bit(values, 8 * k + 5),
        sextet_bit(values, 8 * k + 6),
        sextet_bit(values, 8 * k + 7),
    )
}

/// The 6-bit values written one after the other, most significant bit first, cut into whole
/// bytes (bits left over at the end are dropped).
pub open spec fn packed_bytes(values: Seq<u8>) -> Seq<u8> {
    Seq::new(((6 * values.len()) / 8) as nat, |k: int| packed_byte(values, k))
}

/// Every value fits six bits.
pub open spec fn all_sextets(values: Seq<u8>) -> bool {
    forall|i: int| 0 <= i < values.len() ==> #[trigger] values[i] < 64
}

/// Bit `t` of a 32-bit word.
pub open spec fn bit32(x: u32, t: int) -> bool {
    (x >> (t as u32)) & 1u32 == 1u32
}

proof fn lemma_shift_in_bits(buf: u32, v: u8, t: u32)
    requires
        v < 64,
        t < 32,
    ensures
        ((((buf << 6u32) | (v as u32)) as u32 >> t) & 1u32 == 1u32) == (if t < 6 {
            (v >> (t as u8)) & 1u8 == 1u8
        } else {
            (buf >> ((t - 6) as u32)) & 1u32 == 1u32
        }),
{
    assert(((((buf << 6u32) | (v as u32)) as u32 >> t) & 1u32 == 1u32) == (if t < 6 {
        (v >> (t as u8)) & 1u8 == 1u8
    } else {
        (buf >> ((t - 6) as u32)) & 1u32 == 1u32
    })) by (bit_vector)
        requires
            v < 64,
            t < 32,
    ;
}

proof fn lemma_byte_bits(b: u32, s: u32)
    requires
        s <= 24,
    ensures
        (b >> s) as u8 == byte_of(
            (b >> (s + 7) as u32) & 1u32 == 1u32,
            (b >> (s + 6) as u32) & 1u32 == 1u32,
            (b >> (s + 5) as u32) & 1u32 == 1u32,
            (b >> (s + 4) as u32) & 1u32 == 1u32,
            (b >> (s + 3) as u32) & 1u32 == 1u32,
            (b >> (s + 2) as u32) & 1u32 == 1u32,
            (b >> (s + 1) as u32) & 1u32 == 1u32,
            (b >> s) & 1u32 == 1u32,
        ),
{
    assert((b >> s) as u8 == ((if (b >> (s + 7) as u32) & 1u32 == 1u32 { 0x80u8 } else { 0u8 }) | (
    if (b >> (s + 6) as u32) & 1u32 == 1u32 { 0x40u8 } else { 0u8 }) | (if (b >> (s + 5) as u32)
        & 1u32 == 1u32 { 0x20u8 } else { 0u8 }) | (if (b >> (s + 4) as u32) & 1u32 == 1u32 {
        0x10u8
    } else { 0u8 }) | (if (b >> (s + 3) as u32) & 1u32 == 1u32 { 0x08u8 } else { 0u8 }) | (if (b
        >> (s + 2) as u32) & 1u32 == 1u32 { 0x04u8 } else { 0u8 }) | (if (b >> (s + 1) as u32)
        & 1u32 == 1u32 { 0x02u8 } else { 0u8 }) | (if (b >> s) & 1u32 == 1u32 { 0x01u8 } else {
        0u8
    })) as u8) by (bit_vector)
        requires
            s <= 24,
    ;
}

proof fn lemma_pack_bits(values: Seq<u8>)
    requires
        all_sextets(values),
    ensures
        ({
            let (buf, cnt, out) = pack_state(values);
            &&& cnt == 6 * values.len() - 8 * out.len()
            &&& 0 <= cnt < 8
            &&& forall|t: int| 0 <= t < cnt ==> bit32(buf, t) == sextet_bit(values, 6 * values.len() - 1 - t)
            &&& forall|k: int| 0 <= k < out.len() ==> #[trigger] out[k] == packed_byte(values, k)
        }),
    decreases values.len(),
{
    lemma_pack_state_count(values);
    if values.len() > 0 {
        let prev = values.drop_last();
        let n = values.len() as int;
        let v = values.last();
        assert(all_sextets(prev)) by {
            assert forall|i: int| 0 <= i < prev.len() implies #[trigger] prev[i] < 64 by {
                assert(prev[i] == values[i]);
            }
        }
        assert(v < 64) by {
            assert(values[n - 1] < 64);
        }
        lemma_pack_bits(prev);
        let (buf, cnt, out) = pack_state(prev);
        let b = ((buf << 6u32) | (v as u32)) as u32;
        let c = cnt + 6;
        assert forall|i: int| 0 <= i < 6 * (n - 1) implies sextet_bit(prev, i) == sextet_bit(values, i) by {
            assert(i / 6 < n - 1);
            assert(prev[i / 6] == values[i / 6]);
        }
        assert forall|t: int| 0 <= t < c implies bit32(b, t) == sextet_bit(values, 6 * n - 1 - t) by {
            lemma_shift_in_bits(buf, v, t as u32);
            if t < 6 {
                let i = 6 * n - 1 - t;
                assert(i / 6 == n - 1);
                assert(i % 6 == 5 - t);
            } else {
                assert(bit32(buf, t - 6) == sextet_bit(prev, 6 * (n - 1) - 1 - (t - 6)));
            }
        }
        if c >= 8 {
            let s = (c - 8) as u32;
            let kk = out.len() as int;
            lemma_byte_bits(b, s);
            assert(8 * kk == 6 * n - c);
            assert(bit32(b, c - 1) == sextet_bit(values, 8 * kk));
            assert(bit32(b, c - 2) == sextet_bit(values, 8 * kk + 1));
            assert(bit32(b, c - 3) == sextet_bit(values, 8 * kk + 2));
            assert(bit32(b, c - 4) == sextet_bit(values, 8 * kk + 3));
            assert(bit32(b, c - 5) == sextet_bit(values, 8 * kk + 4));
            assert(bit32(b, c - 6) == sextet_bit(values, 8 * kk + 5));
            assert(bit32(b, c - 7) == sextet_bit(values, 8 * kk + 6));
            assert(bit32(b, c - 8) == sextet_bit(values, 8 * kk + 7));
            assert((b >> s) as u8 == packed_byte(values, kk));
            let out2 = out.push((b >> s) as u8);
            assert forall|k: int| 0 <= k < out2.len() implies #[trigger] out2[k] == packed_byte(values, k) by {
                if k < kk {
                    assert(out2[k] == out[k]);
                    assert(8 * k + 7 < 6 * (n - 1));
                }
            }
        } else {
            assert forall|k: int| 0 <= k < out.len() implies #[trigger] out[k] == packed_byte(values, k) by {
                assert(8 * k + 7 < 6 * (n - 1));
            }
        }
    }
}

/// For values that fit six bits, packing writes them one after the other, most significant
/// bit first, and cuts the bits into whole bytes.
pub proof fn lemma_pack_is_concatenation(values: Seq<u8>)
    requires
        all_sextets(values),
    ensures
        pack_state(values).2 == packed_bytes(values),
{
    lemma_pack_bits(values);
    let out = pack_state(values).2;
    assert(out.len() == (6 * values.len()) / 8);
    assert(out =~= packed_bytes(values));
}

/// Pack 6-bit values into bytes, most significant bit first (see `pack_state`).
pub fn pack_6bit_to_bytes(values: &[u8]) -> (bytes: Vec<u8>)
    ensures
        bytes@ == pack_state(values@).2,
{
    let mut bytes: Vec<u8> = Vec::new();
    let mut bit_buffer: u32 = 0;
    let mut bit_count: u32 = 0;
    let mut i: usize = 0;
    while i < values.len()
        invariant
            i <= values@.len(),
            pack_state(values@.take(i as int)) == (bit_buffer, bit_count as int, bytes@),
            bit_count < 8,
        decreases values@.len() - i,
    {
        let val = values[i];
        let ghost prev = values@.take(i as int);
        assert(values@.take(i + 1).drop_last() =~= prev);
        assert(values@.take(i + 1).last() == val);
        proof {
            lemma_pack_state_count(prev);
        }
        bit_buffer = (bit_buffer << 6) | (val as u32);
        bit_count = bit_count + 6;
        while bit_count >= 8
            invariant
                bit_count < 14,
                i < values@.len(),
                (bit_count >= 8 && pack_state(values@.take(i + 1)) == (
                    bit_buffer,
                    bit_count - 8,
                    bytes@.push((bit_buffer >> ((bit_count - 8) as u32)) as u8),
                )) || (bit_count < 8 && pack_state(values@.take(i + 1)) == (
                    bit_buffer,
                    bit_count as int,
                    bytes@,
                )),
            decreases bit_count,
        {
            bit_count = bit_count - 8;
            bytes.push((bit_buffer >> bit_count) as u8);
        }
        i = i + 1;
    }
    assert(values@.take(values@.len() as int) =~= values@);
    bytes
}

} // verus!
