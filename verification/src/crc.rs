//! Mode S 24-bit parity (CRC) and single/double bit error correction.
use std::collections::HashMap;
use vstd::prelude::*;

verus! {

broadcast use vstd::std_specs::hash::group_hash_axioms;

/// Generator polynomial of the Mode S 24-bit parity.
pub const CRC_POLYNOMIAL: u32 = 0xFFF409;

/// Largest number of bit errors the correction table covers.
pub const MODES_MAX_BITERRORS: usize = 2;

// ---------------------------------------------------------------------------
// Specification of the parity computation
// ---------------------------------------------------------------------------

/// Bit `i` of a message, numbered from the most significant bit of byte 0.
pub open spec fn msg_bit(msg: Seq<u8>, i: int) -> bool {
    (msg[i / 8] >> ((7 - i % 8) as u8)) & 1u8 == 1u8
}

/// One step of the bit-serial parity register: shift in one message bit.
pub open spec fn crc_step(crc: u32, bit: bool) -> u32 {
    if (crc & 0x800000u32) != (if bit { 0x800000u32 } else { 0u32 }) {
        ((crc << 1u32) ^ CRC_POLYNOMIAL) as u32
    } else {
        (crc << 1u32) as u32
    }
}

/// The parity register after shifting in the first `n` bits of `msg`.
pub open spec fn crc_register(msg: Seq<u8>, n: nat) -> u32
    decreases n,
{
    if n == 0 {
        0
    } else {
        crc_step(crc_register(msg, (n - 1) as nat), msg_bit(msg, n - 1))
    }
}

/// Number of bytes that hold `bitlen` bits.
pub open spec fn byte_len(bitlen: nat) -> nat {
    (bitlen + 7) / 8
}

/// The 24-bit parity field stored in the last three bytes of a message.
pub open spec fn parity_field(msg: Seq<u8>, nbytes: int) -> u32 {
    ((msg[nbytes - 3] as u32) << 16u32) | ((msg[nbytes - 2] as u32) << 8u32) | (msg[nbytes
        - 1] as u32)
}

/// The Mode S syndrome: the parity of the data bytes XOR the transmitted parity field.
/// It is 0 for an intact message (or, for address/parity formats, the sender's address).
pub open spec fn checksum(msg: Seq<u8>, bitlen: nat) -> u32 {
    let nbytes = byte_len(bitlen);
    if nbytes >= 3 {
        (crc_register(msg, ((nbytes - 3) * 8) as nat) ^ parity_field(msg, nbytes as int))
            & 0xFFFFFFu32
    } else {
        0
    }
}

/// `msg` with bit `pos` (MSB-first numbering) inverted.
pub open spec fn flip_bit(msg: Seq<u8>, pos: int) -> Seq<u8> {
    msg.update(pos / 8, msg[pos / 8] ^ (1u8 << ((7 - pos % 8) as u8)))
}

/// `n` zero bytes.
pub open spec fn zeros(n: nat) -> Seq<u8> {
    Seq::new(n, |i: int| 0u8)
}

/// Bytewise XOR of two sequences of the same length.
pub open spec fn seq_xor(a: Seq<u8>, b: Seq<u8>) -> Seq<u8> {
    Seq::new(a.len(), |i: int| a[i] ^ b[i])
}

// ---------------------------------------------------------------------------
// Lemmas: the parity is linear over XOR and reads only the message's own bytes
// ---------------------------------------------------------------------------

proof fn lemma_step_xor(c1: u32, c2: u32, b1: bool, b2: bool)
    ensures
        crc_step(c1 ^ c2, b1 != b2) == crc_step(c1, b1) ^ crc_step(c2, b2),
{
    assert(crc_step(c1 ^ c2, b1 != b2) == crc_step(c1, b1) ^ crc_step(c2, b2)) by (bit_vector);
}

proof fn lemma_bit_xor(x: u8, y: u8, s: u8)
    requires
        s < 8,
    ensures
        (((x ^ y) >> s) & 1u8 == 1u8) == (((x >> s) & 1u8 == 1u8) != ((y >> s) & 1u8 == 1u8)),
{
    assert((((x ^ y) >> s) & 1u8 == 1u8) == (((x >> s) & 1u8 == 1u8) != ((y >> s) & 1u8
        == 1u8))) by (bit_vector)
        requires
            s < 8,
    ;
}

proof fn lemma_crc_register_xor(a: Seq<u8>, b: Seq<u8>, n: nat)
    requires
        a.len() == b.len(),
        n <= 8 * a.len(),
    ensures
        crc_register(seq_xor(a, b), n) == crc_register(a, n) ^ crc_register(b, n),
    decreases n,
{
    if n > 0 {
        let m = (n - 1) as nat;
        lemma_crc_register_xor(a, b, m);
        let i = m as int;
        assert(0 <= i / 8 < a.len()) by (nonlinear_arith)
            requires
                0 <= i < 8 * a.len(),
        ;
        assert(0 <= 7 - i % 8 < 8);
        lemma_bit_xor(a[i / 8], b[i / 8], (7 - i % 8) as u8);
        assert(msg_bit(seq_xor(a, b), i) == (msg_bit(a, i) != msg_bit(b, i)));
        lemma_step_xor(crc_register(a, m), crc_register(b, m), msg_bit(a, i), msg_bit(b, i));
    } else {
        assert(0u32 ^ 0u32 == 0u32) by (bit_vector);
    }
}

proof fn lemma_crc_register_prefix(a: Seq<u8>, b: Seq<u8>, k: int, n: nat)
    requires
        0 <= k <= a.len(),
        k <= b.len(),
        n <= 8 * k,
        forall|j: int| 0 <= j < k ==> a[j] == b[j],
    ensures
        crc_register(a, n) == crc_register(b, n),
    decreases n,
{
    if n > 0 {
        let m = (n - 1) as nat;
        lemma_crc_register_prefix(a, b, k, m);
        let i = m as int;
        assert(0 <= i / 8 < k) by (nonlinear_arith)
            requires
                0 <= i < 8 * k,
        ;
    }
}

/// The syndrome reads only the first `byte_len(bitlen)` bytes of a message.
pub proof fn lemma_checksum_prefix(a: Seq<u8>, b: Seq<u8>, bitlen: nat)
    requires
        byte_len(bitlen) <= a.len(),
        byte_len(bitlen) <= b.len(),
        forall|j: int| 0 <= j < byte_len(bitlen) ==> a[j] == b[j],
    ensures
        checksum(a, bitlen) == checksum(b, bitlen),
{
    let nbytes = byte_len(bitlen);
    if nbytes >= 3 {
        lemma_crc_register_prefix(a, b, nbytes as int, ((nbytes - 3) * 8) as nat);
    }
}

proof fn lemma_parity_field_xor(a1: u8, a2: u8, a3: u8, b1: u8, b2: u8, b3: u8, c: u32, d: u32)
    ensures
        ((c ^ d) ^ ((((a1 ^ b1) as u32) << 16u32) | (((a2 ^ b2) as u32) << 8u32) | ((a3
            ^ b3) as u32))) & 0xFFFFFFu32 == ((c ^ (((a1 as u32) << 16u32) | ((a2 as u32)
            << 8u32) | (a3 as u32))) & 0xFFFFFFu32) ^ ((d ^ (((b1 as u32) << 16u32) | ((b2 as u32)
            << 8u32) | (b3 as u32))) & 0xFFFFFFu32),
{
    assert(((c ^ d) ^ ((((a1 ^ b1) as u32) << 16u32) | (((a2 ^ b2) as u32) << 8u32) | ((a3
        ^ b3) as u32))) & 0xFFFFFFu32 == ((c ^ (((a1 as u32) << 16u32) | ((a2 as u32) << 8u32)
        | (a3 as u32))) & 0xFFFFFFu32) ^ ((d ^ (((b1 as u32) << 16u32) | ((b2 as u32) << 8u32)
        | (b3 as u32))) & 0xFFFFFFu32)) by (bit_vector);
}

/// The syndrome is linear: the syndrome of `a XOR b` is the XOR of their syndromes.
pub proof fn lemma_checksum_xor(a: Seq<u8>, b: Seq<u8>, bitlen: nat)
    requires
        a.len() == b.len(),
        byte_len(bitlen) <= a.len(),
    ensures
        checksum(seq_xor(a, b), bitlen) == checksum(a, bitlen) ^ checksum(b, bitlen),
{
    let nbytes = byte_len(bitlen);
    if nbytes >= 3 {
        let n = ((nbytes - 3) * 8) as nat;
        lemma_crc_register_xor(a, b, n);
        let x = seq_xor(a, b);
        let k = nbytes as int;
        lemma_parity_field_xor(
            a[k - 3],
            a[k - 2],
            a[k - 1],
            b[k - 3],
            b[k - 2],
            b[k - 1],
            crc_register(a, n),
            crc_register(b, n),
        );
    } else {
        assert(0u32 ^ 0u32 == 0u32) by (bit_vector);
    }
}

proof fn lemma_flip_is_xor(msg: Seq<u8>, pos: int)
    requires
        0 <= pos < 8 * msg.len(),
    ensures
        flip_bit(msg, pos) == seq_xor(msg, flip_bit(zeros(msg.len()), pos)),
{
    assert(0 <= pos / 8 < msg.len()) by (nonlinear_arith)
        requires
            0 <= pos < 8 * msg.len(),
    ;
    let s = ((7 - pos % 8) as u8);
    let z = flip_bit(zeros(msg.len()), pos);
    assert forall|j: int| 0 <= j < msg.len() implies #[trigger] flip_bit(msg, pos)[j] == seq_xor(
        msg,
        z,
    )[j] by {
        let x = msg[j];
        if j == pos / 8 {
            assert(x ^ (0u8 ^ (1u8 << s)) == x ^ (1u8 << s)) by (bit_vector);
        } else {
            assert(x ^ 0u8 == x) by (bit_vector);
        }
    }
    assert(flip_bit(msg, pos) =~= seq_xor(msg, z));
}

/// Inverting one bit XORs the syndrome with the syndrome of that single-bit pattern.
pub proof fn lemma_checksum_flip(msg: Seq<u8>, pos: int, bitlen: nat)
    requires
        byte_len(bitlen) <= msg.len(),
        0 <= pos < 8 * byte_len(bitlen),
    ensures
        checksum(flip_bit(msg, pos), bitlen) == checksum(msg, bitlen) ^ checksum(
            flip_bit(zeros(byte_len(bitlen)), pos),
            bitlen,
        ),
{
    let n = byte_len(bitlen);
    lemma_flip_is_xor(msg, pos);
    lemma_checksum_xor(msg, flip_bit(zeros(msg.len()), pos), bitlen);
    assert(0 <= pos / 8 < n) by (nonlinear_arith)
        requires
            0 <= pos < 8 * n,
    ;
    lemma_checksum_prefix(flip_bit(zeros(msg.len()), pos), flip_bit(zeros(n), pos), bitlen);
}

// ---------------------------------------------------------------------------
// Executable parity
// ---------------------------------------------------------------------------

/// Compute the 24-bit syndrome of a Mode S message of `bitlen` bits.
///
/// The first `nbytes - 3` bytes go through the bit-serial parity register; the last three
/// bytes (the transmitted parity/address field) are XORed in. The result is 0 for an intact
/// message with an explicit parity field.
pub fn modes_checksum(msg: &[u8], bitlen: usize) -> (syndrome: u32)
    requires
        byte_len(bitlen as nat) >= 3 ==> byte_len(bitlen as nat) <= msg@.len(),
    ensures
        syndrome == checksum(msg@, bitlen as nat),
{
    let nbytes: usize = bitlen / 8 + if bitlen % 8 != 0 {
        1
    } else {
        0
    };
    assert(nbytes as nat == byte_len(bitlen as nat));
    let databytes: usize = if nbytes >= 3 {
        nbytes - 3
    } else {
        0
    };
    let mut crc: u32 = 0;
    let mut i: usize = 0;
    while i < databytes
        invariant
            nbytes as nat == byte_len(bitlen as nat),
            databytes == (if nbytes >= 3 {
                nbytes - 3
            } else {
                0
            }),
            databytes <= msg@.len(),
            i <= databytes,
            crc == crc_register(msg@, (8 * i) as nat),
        decreases databytes - i,
    {
        let byte = msg[i];
        let mut bitidx: u8 = 0;
        while bitidx < 8
            invariant
                i < databytes,
                databytes <= msg@.len(),
                byte == msg@[i as int],
                bitidx <= 8,
                crc == crc_register(msg@, (8 * i + bitidx) as nat),
            decreases 8 - bitidx,
        {
            let bitpos: u8 = 7 - bitidx;
            let bit = (byte >> bitpos) & 1;
            let ghost old_crc = crc;
            let ghost k: int = 8 * i + bitidx;
            assert(k / 8 == i && k % 8 == bitidx) by (nonlinear_arith)
                requires
                    k == 8 * i + bitidx,
                    0 <= bitidx < 8,
            ;
            assert(((crc & 0x800000u32) != ((bit as u32) << 23u32)) == ((crc & 0x800000u32) != (
            if (byte >> bitpos) & 1u8 == 1u8 {
                0x800000u32
            } else {
                0u32
            }))) by (bit_vector)
                requires
                    bit == (byte >> bitpos) & 1u8,
            ;
            if (crc & 0x800000) != ((bit as u32) << 23) {
                crc = (crc << 1) ^ CRC_POLYNOMIAL;
            } else {
                crc = crc << 1;
            }
            assert(crc == crc_step(old_crc, msg_bit(msg@, k)));
            bitidx = bitidx + 1;
        }
        i = i + 1;
    }
    if nbytes >= 3 {
        crc = crc ^ (((msg[nbytes - 3] as u32) << 16) | ((msg[nbytes - 2] as u32) << 8) | (
        msg[nbytes - 1] as u32));
    } else {
        assert(crc == 0);
    }
    let r = crc & 0x00FFFFFF;
    if nbytes < 3 {
        assert(0u32 & 0x00FFFFFFu32 == 0u32) by (bit_vector);
    }
    r
}


// ---------------------------------------------------------------------------
// Error correction table
// ---------------------------------------------------------------------------

/// One entry of the correction table: the bit positions whose inversion produces `syndrome`.
/// Unused positions hold -1.
#[derive(Clone, Copy, Debug)]
pub struct ErrorInfo {
    pub syndrome: u32,
    pub errors: usize,
    pub bits: [i8; MODES_MAX_BITERRORS],
}

/// `msg` with the bit positions of `bits` inverted, stopping at the first negative position.
pub open spec fn apply_fix(msg: Seq<u8>, bits: Seq<i8>) -> Seq<u8> {
    if bits[0] < 0 {
        msg
    } else if bits[1] < 0 {
        flip_bit(msg, bits[0] as int)
    } else {
        flip_bit(flip_bit(msg, bits[0] as int), bits[1] as int)
    }
}

/// Syndrome of an error in bit `pos` alone, for `bitlen`-bit messages.
pub open spec fn single_syndrome(pos: int, bitlen: nat) -> u32 {
    checksum(flip_bit(zeros(byte_len(bitlen)), pos), bitlen)
}

/// Syndrome of errors in bits `p1` and `p2`, for `bitlen`-bit messages.
pub open spec fn double_syndrome(p1: int, p2: int, bitlen: nat) -> u32 {
    checksum(flip_bit(flip_bit(zeros(byte_len(bitlen)), p1), p2), bitlen)
}

/// `(a1, a2)` comes before `(b1, b2)` in lexicographic order.
pub open spec fn pair_before(a1: int, a2: int, b1: int, b2: int) -> bool {
    a1 < b1 || (a1 == b1 && a2 < b2)
}

/// A well-formed table entry stored under `key` for `bitlen`-bit messages: one bit, or two
/// increasing bits, outside the 5-bit downlink format field, whose inversion has syndrome `key`.
pub open spec fn valid_entry(key: u32, info: ErrorInfo, bitlen: nat) -> bool {
    &&& info.syndrome == key
    &&& ((info.errors == 1 && 5 <= info.bits@[0] < bitlen && info.bits@[1] == -1) || (info.errors
        == 2 && 5 <= info.bits@[0] < info.bits@[1] < bitlen))
    &&& checksum(apply_fix(zeros(byte_len(bitlen)), info.bits@), bitlen) == key
}

/// The table of single and double bit errors that `CrcFixEngine::new` builds.
///
/// Every entry is valid; every single-bit and every double-bit syndrome has an entry; a
/// single-bit syndrome is always explained by a single bit (the highest such position), and a
/// double-bit entry is the lexicographically first pair with that syndrome.
pub open spec fn correction_table(t: Map<u32, ErrorInfo>, bitlen: nat) -> bool {
    &&& forall|k: u32| #[trigger] t.contains_key(k) ==> valid_entry(k, t[k], bitlen)
    &&& forall|b: int|
        5 <= b < bitlen ==> #[trigger] t.contains_key(single_syndrome(b, bitlen)) && t[single_syndrome(
            b,
            bitlen,
        )].errors == 1
    &&& forall|b1: int, b2: int|
        5 <= b1 < b2 < bitlen ==> #[trigger] t.contains_key(double_syndrome(b1, b2, bitlen))
    &&& forall|k: u32, b: int|
        #![trigger t.contains_key(k), single_syndrome(b, bitlen)]
        t.contains_key(k) && t[k].errors == 1 && t[k].bits@[0] < b < bitlen
            ==> single_syndrome(b, bitlen) != k
    &&& forall|k: u32, b: int|
        #![trigger t.contains_key(k), single_syndrome(b, bitlen)]
        t.contains_key(k) && t[k].errors == 2 && 5 <= b < bitlen ==> single_syndrome(b, bitlen)
            != k
    &&& forall|k: u32, c1: int, c2: int|
        #![trigger t.contains_key(k), double_syndrome(c1, c2, bitlen)]
        t.contains_key(k) && t[k].errors == 2 && 5 <= c1 < c2 < bitlen && pair_before(
            c1,
            c2,
            t[k].bits@[0] as int,
            t[k].bits@[1] as int,
        ) ==> double_syndrome(c1, c2, bitlen) != k
}

/// Correcting a message with a valid entry for its syndrome clears the syndrome.
pub proof fn lemma_fix_corrects(msg: Seq<u8>, bitlen: nat, info: ErrorInfo)
    requires
        byte_len(bitlen) <= msg.len(),
        valid_entry(checksum(msg, bitlen), info, bitlen),
    ensures
        checksum(apply_fix(msg, info.bits@), bitlen) == 0,
{
    let n = byte_len(bitlen);
    let s = checksum(msg, bitlen);
    let b0 = info.bits@[0] as int;
    assert(b0 < 8 * n) by (nonlinear_arith)
        requires
            b0 < bitlen,
            n == (bitlen + 7) / 8,
    ;
    let z = zeros(n);
    lemma_checksum_flip(msg, b0, bitlen);
    lemma_checksum_flip(z, b0, bitlen);
    lemma_checksum_zeros(bitlen);
    if info.errors == 1 {
        let e = single_syndrome(b0, bitlen);
        assert(s ^ e == 0u32) by (bit_vector)
            requires
                s == e,
        ;
        assert(e == 0u32 ^ e) by (bit_vector);
    } else {
        let b1 = info.bits@[1] as int;
        assert(b1 < 8 * n) by (nonlinear_arith)
            requires
                b1 < bitlen,
                n == (bitlen + 7) / 8,
        ;
        let m1 = flip_bit(msg, b0);
        let z1 = flip_bit(z, b0);
        lemma_checksum_flip(m1, b1, bitlen);
        lemma_checksum_flip(z1, b1, bitlen);
        let e0 = checksum(flip_bit(z, b0), bitlen);
        let e1 = checksum(flip_bit(z, b1), bitlen);
        assert(s == (0u32 ^ e0) ^ e1);
        assert(((s ^ e0) ^ e1) == 0u32) by (bit_vector)
            requires
                s == (0u32 ^ e0) ^ e1,
        ;
    }
}

/// An all-zero message has a zero syndrome.
pub proof fn lemma_checksum_zeros(bitlen: nat)
    ensures
        checksum(zeros(byte_len(bitlen)), bitlen) == 0,
{
    let n = byte_len(bitlen);
    let z = zeros(n);
    if n >= 3 {
        lemma_crc_register_zeros(z, ((n - 3) * 8) as nat);
        let a = z[n - 3];
        let b = z[n - 2];
        let c = z[n - 1];
        assert(a == 0u8 && b == 0u8 && c == 0u8);
        assert((((a as u32) << 16u32) | ((b as u32) << 8u32) | (c as u32)) == 0u32) by (bit_vector)
            requires
                a == 0u8 && b == 0u8 && c == 0u8,
        ;
        assert((0u32 ^ 0u32) & 0xFFFFFFu32 == 0u32) by (bit_vector);
    }
}

proof fn lemma_crc_register_zeros(z: Seq<u8>, n: nat)
    requires
        forall|j: int| 0 <= j < z.len() ==> z[j] == 0u8,
        n <= 8 * z.len(),
    ensures
        crc_register(z, n) == 0,
    decreases n,
{
    if n > 0 {
        let i = n - 1;
        lemma_crc_register_zeros(z, (n - 1) as nat);
        assert(0 <= i / 8 < z.len()) by (nonlinear_arith)
            requires
                0 <= i < 8 * z.len(),
        ;
        let s = (7 - i % 8) as u8;
        assert((0u8 >> s) & 1u8 != 1u8) by (bit_vector);
        assert(crc_step(0u32, false) == 0u32) by (bit_vector);
    }
}

/// Precomputed syndrome table for single and double bit errors (the downlink format bits
/// 0-4 are never corrected).
pub struct CrcFixEngine {
    table: HashMap<u32, ErrorInfo>,
    max_bitlen: usize,
}

impl View for CrcFixEngine {
    type V = Map<u32, ErrorInfo>;

    closed spec fn view(&self) -> Map<u32, ErrorInfo> {
        self.table@
    }
}

impl CrcFixEngine {
    /// Message length, in bits, that the table was built for.
    pub closed spec fn bit_len(&self) -> nat {
        self.max_bitlen as nat
    }

    #[verifier::type_invariant]
    closed spec fn inv(self) -> bool {
        &&& self.max_bitlen <= 128
        &&& correction_table(self.table@, self.max_bitlen as nat)
    }

    /// Build the table for `max_bitlen`-bit messages: every single-bit error (later
    /// positions replacing earlier ones with the same syndrome), then every double-bit error
    /// whose syndrome is not yet in the table.
    pub fn new(max_bitlen: usize) -> (engine: Self)
        requires
            max_bitlen <= 128,
        ensures
            engine.bit_len() == max_bitlen,
            correction_table(engine@, max_bitlen as nat),
    {
        let mut table: HashMap<u32, ErrorInfo> = HashMap::new();
        let nbytes: usize = max_bitlen / 8 + if max_bitlen % 8 != 0 {
            1
        } else {
            0
        };
        let ghost L = max_bitlen as nat;
        assert(nbytes as nat == byte_len(L));
        // single bit errors
        let mut bit_pos: usize = 5;
        while bit_pos < max_bitlen
            invariant
                max_bitlen <= 128,
                L == max_bitlen as nat,
                nbytes as nat == byte_len(L),
                5 <= bit_pos,
                bit_pos <= max_bitlen || max_bitlen < 5,
                forall|k: u32| #[trigger]
                    table@.contains_key(k) ==> valid_entry(k, table@[k], L) && table@[k].errors == 1
                        && table@[k].bits@[0] < bit_pos,
                forall|b: int|
                    5 <= b < bit_pos ==> #[trigger] table@.contains_key(single_syndrome(b, L))
                        && table@[single_syndrome(b, L)].errors == 1,
                forall|k: u32, b: int|
                    #![trigger table@.contains_key(k), single_syndrome(b, L)]
                    table@.contains_key(k) && table@[k].bits@[0] < b < bit_pos
                        ==> single_syndrome(b, L) != k,
            decreases max_bitlen - bit_pos,
        {
            let error_msg = single_error_pattern(nbytes, bit_pos, max_bitlen);
            let syndrome = modes_checksum(error_msg.as_slice(), max_bitlen);
            let info = ErrorInfo { syndrome, errors: 1, bits: [bit_pos as i8, -1] };
            assert(info.bits@[0] == bit_pos && info.bits@[1] == -1);
            assert(apply_fix(zeros(byte_len(L)), info.bits@) == flip_bit(
                zeros(byte_len(L)),
                bit_pos as int,
            ));
            assert(syndrome == single_syndrome(bit_pos as int, L));
            assert(valid_entry(syndrome, info, L));
            let ghost old_t = table@;
            table.insert(syndrome, info);
            assert(table@ == old_t.insert(syndrome, info));
            assert forall|b: int| 5 <= b < bit_pos + 1 implies #[trigger] table@.contains_key(
                single_syndrome(b, L),
            ) && table@[single_syndrome(b, L)].errors == 1 by {
                if b < bit_pos {
                    assert(old_t.contains_key(single_syndrome(b, L)));
                }
            }
            bit_pos = bit_pos + 1;
        }
        let ghost singles = table@;
        // double bit errors
        let mut bit1: usize = 5;
        while bit1 < max_bitlen
            invariant
                max_bitlen <= 128,
                L == max_bitlen as nat,
                nbytes as nat == byte_len(L),
                5 <= bit1,
                bit1 <= max_bitlen || max_bitlen < 5,
                correction_singles(singles, L),
                forall|k: u32| #[trigger]
                    table@.contains_key(k) ==> valid_entry(k, table@[k], L),
                forall|k: u32| #[trigger]
                    singles.contains_key(k) ==> table@.contains_key(k) && table@[k] == singles[k],
                forall|k: u32| #[trigger]
                    table@.contains_key(k) && !singles.contains_key(k) ==> table@[k].errors == 2
                        && table@[k].bits@[0] < bit1,
                forall|c1: int, c2: int|
                    5 <= c1 < c2 < max_bitlen && c1 < bit1 ==> #[trigger] table@.contains_key(
                        double_syndrome(c1, c2, L),
                    ),
                forall|k: u32, c1: int, c2: int|
                    #![trigger table@.contains_key(k), double_syndrome(c1, c2, L)]
                    table@.contains_key(k) && !singles.contains_key(k) && 5 <= c1 < c2 < L
                        && pair_before(c1, c2, table@[k].bits@[0] as int, table@[k].bits@[1] as int)
                        ==> double_syndrome(c1, c2, L) != k,
            decreases max_bitlen - bit1,
        {
            let mut bit2: usize = bit1 + 1;
            while bit2 < max_bitlen
                invariant
                    max_bitlen <= 128,
                    L == max_bitlen as nat,
                    nbytes as nat == byte_len(L),
                    5 <= bit1 < max_bitlen,
                    bit1 + 1 <= bit2 <= max_bitlen,
                    correction_singles(singles, L),
                    forall|k: u32| #[trigger]
                        table@.contains_key(k) ==> valid_entry(k, table@[k], L),
                    forall|k: u32| #[trigger]
                        singles.contains_key(k) ==> table@.contains_key(k) && table@[k]
                            == singles[k],
                    forall|k: u32| #[trigger]
                        table@.contains_key(k) && !singles.contains_key(k) ==> table@[k].errors == 2
                            && pair_before(
                            table@[k].bits@[0] as int,
                            table@[k].bits@[1] as int,
                            bit1 as int,
                            bit2 as int,
                        ),
                    forall|c1: int, c2: int|
                        5 <= c1 < c2 < max_bitlen && pair_before(c1, c2, bit1 as int, bit2 as int)
                            ==> #[trigger] table@.contains_key(double_syndrome(c1, c2, L)),
                    forall|k: u32, c1: int, c2: int|
                        #![trigger table@.contains_key(k), double_syndrome(c1, c2, L)]
                        table@.contains_key(k) && !singles.contains_key(k) && 5 <= c1 < c2 < L
                            && pair_before(
                            c1,
                            c2,
                            table@[k].bits@[0] as int,
                            table@[k].bits@[1] as int,
                        ) ==> double_syndrome(c1, c2, L) != k,
                decreases max_bitlen - bit2,
            {
                let error_msg = double_error_pattern(nbytes, bit1, bit2, max_bitlen);
                let syndrome = modes_checksum(error_msg.as_slice(), max_bitlen);
                assert(syndrome == double_syndrome(bit1 as int, bit2 as int, L));
                if !table.contains_key(&syndrome) {
                    let info = ErrorInfo { syndrome, errors: 2, bits: [bit1 as i8, bit2 as i8] };
                    assert(info.bits@[0] == bit1 && info.bits@[1] == bit2);
                    assert(valid_entry(syndrome, info, L));
                    let ghost old_t = table@;
                    table.insert(syndrome, info);
                    assert(table@ == old_t.insert(syndrome, info));
                    assert forall|k: u32, c1: int, c2: int|
                        #![trigger table@.contains_key(k), double_syndrome(c1, c2, L)]
                        table@.contains_key(k) && !singles.contains_key(k) && 5 <= c1 < c2 < L
                            && pair_before(
                            c1,
                            c2,
                            table@[k].bits@[0] as int,
                            table@[k].bits@[1] as int,
                        ) implies double_syndrome(c1, c2, L) != k by {
                        if k == syndrome {
                            assert(old_t.contains_key(double_syndrome(c1, c2, L)));
                        } else {
                            assert(old_t.contains_key(k));
                        }
                    }
                }
                bit2 = bit2 + 1;
            }
            bit1 = bit1 + 1;
        }
        proof {
            let t = table@;
            assert forall|b: int| 5 <= b < L implies #[trigger] t.contains_key(
                single_syndrome(b, L),
            ) && t[single_syndrome(b, L)].errors == 1 by {
                assert(singles.contains_key(single_syndrome(b, L)));
            }
            assert forall|k: u32, b: int|
                #![trigger t.contains_key(k), single_syndrome(b, L)]
                t.contains_key(k) && t[k].errors == 1 && t[k].bits@[0] < b < L implies single_syndrome(
                b,
                L,
            ) != k by {
                assert(singles.contains_key(k));
            }
            assert forall|k: u32, b: int|
                #![trigger t.contains_key(k), single_syndrome(b, L)]
                t.contains_key(k) && t[k].errors == 2 && 5 <= b < L implies single_syndrome(b, L)
                != k by {
                assert(singles.contains_key(single_syndrome(b, L)));
                if singles.contains_key(k) {
                    assert(t[k] == singles[k]);
                }
            }
            assert forall|k: u32, c1: int, c2: int|
                #![trigger t.contains_key(k), double_syndrome(c1, c2, L)]
                t.contains_key(k) && t[k].errors == 2 && 5 <= c1 < c2 < L && pair_before(
                    c1,
                    c2,
                    t[k].bits@[0] as int,
                    t[k].bits@[1] as int,
                ) implies double_syndrome(c1, c2, L) != k by {
                if singles.contains_key(k) {
                    assert(t[k] == singles[k]);
                }
            }
            assert(correction_table(t, L));
        }
        let engine = CrcFixEngine { table, max_bitlen };
        engine
    }

    /// Look up the error pattern for a syndrome.
    pub fn diagnose(&self, syndrome: u32) -> (r: Option<&ErrorInfo>)
        ensures
            match r {
                Some(info) => self@.contains_key(syndrome) && *info == self@[syndrome]
                    && valid_entry(syndrome, *info, self.bit_len()),
                None => !self@.contains_key(syndrome),
            },
    {
        proof {
            use_type_invariant(self);
        }
        self.table.get(&syndrome)
    }

    /// Invert the bits an entry names (stopping at the first unused position).
    pub fn fix(msg: &mut [u8], info: &ErrorInfo)
        requires
            info.bits@[0] >= 0 ==> (info.bits@[0] as int) / 8 < old(msg)@.len(),
            info.bits@[0] >= 0 && info.bits@[1] >= 0 ==> (info.bits@[1] as int) / 8 < old(
                msg,
            )@.len(),
        ensures
            final(msg)@ == apply_fix(old(msg)@, info.bits@),
    {
        let b0 = info.bits[0];
        if b0 < 0 {
            return;
        }
        flip_bit_in_place(msg, b0 as usize);
        let b1 = info.bits[1];
        if b1 < 0 {
            return;
        }
        flip_bit_in_place(msg, b1 as usize);
    }
}

/// The invariant of the single-bit stage, as it stands once that stage is complete.
pub open spec fn correction_singles(t: Map<u32, ErrorInfo>, bitlen: nat) -> bool {
    &&& forall|k: u32| #[trigger]
        t.contains_key(k) ==> valid_entry(k, t[k], bitlen) && t[k].errors == 1
    &&& forall|b: int|
        5 <= b < bitlen ==> #[trigger] t.contains_key(single_syndrome(b, bitlen)) && t[single_syndrome(
            b,
            bitlen,
        )].errors == 1
    &&& forall|k: u32, b: int|
        #![trigger t.contains_key(k), single_syndrome(b, bitlen)]
        t.contains_key(k) && t[k].bits@[0] < b < bitlen ==> single_syndrome(b, bitlen) != k
}

/// Invert bit `pos` (MSB-first numbering) of `msg`.
fn flip_bit_in_place(msg: &mut [u8], pos: usize)
    requires
        pos / 8 < old(msg)@.len(),
    ensures
        final(msg)@ == flip_bit(old(msg)@, pos as int),
{
    let byte_idx = pos / 8;
    let bit_idx: u8 = (7 - (pos % 8)) as u8;
    msg[byte_idx] ^= 1u8 << bit_idx;
}

/// `nbytes` zero bytes with bit `pos` set.
fn single_error_pattern(nbytes: usize, pos: usize, bitlen: usize) -> (v: Vec<u8>)
    requires
        nbytes as nat == byte_len(bitlen as nat),
        pos < bitlen,
    ensures
        v@ == flip_bit(zeros(nbytes as nat), pos as int),
        v@.len() == nbytes,
{
    let mut v = vec![0u8; nbytes];
    assert(v@ =~= zeros(nbytes as nat));
    assert(pos / 8 < nbytes) by (nonlinear_arith)
        requires
            pos < bitlen,
            nbytes == (bitlen + 7) / 8,
    ;
    flip_bit_in_place(v.as_mut_slice(), pos);
    v
}

/// `nbytes` zero bytes with bits `p1` and `p2` set.
fn double_error_pattern(nbytes: usize, p1: usize, p2: usize, bitlen: usize) -> (v: Vec<u8>)
    requires
        nbytes as nat == byte_len(bitlen as nat),
        p1 < bitlen,
        p2 < bitlen,
    ensures
        v@ == flip_bit(flip_bit(zeros(nbytes as nat), p1 as int), p2 as int),
        v@.len() == nbytes,
{
    let mut v = single_error_pattern(nbytes, p1, bitlen);
    assert(p2 / 8 < nbytes) by (nonlinear_arith)
        requires
            p2 < bitlen,
            nbytes == (bitlen + 7) / 8,
    ;
    flip_bit_in_place(v.as_mut_slice(), p2);
    v
}

} // verus!
