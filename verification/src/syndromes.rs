//! Where a single-bit syndrome points: after the downlink format field of a 56- or 112-bit
//! Mode S frame, different bit positions have different single-bit syndromes, so a single-bit
//! error there is located exactly.
use crate::crc::{
    apply_fix, byte_len, checksum, correction_table, crc_register, crc_step, flip_bit, lemma_checksum_flip,
    msg_bit, parity_field, single_syndrome, valid_entry, zeros, ErrorInfo,
};
use vstd::prelude::*;

verus! {

/// The parity register after a one bit followed by `k` zero bits (from a zero register).
pub open spec fn shifted_poly(k: nat) -> u32
    decreases k,
{
    if k == 0 {
        crc_step(0u32, true)
    } else {
        crc_step(shifted_poly((k - 1) as nat), false)
    }
}

/// Register steps and bit facts the position proofs compute with.
proof fn lemma_register_facts()
    by (bit_vector)
    ensures
        crc_step(0u32, false) == 0u32,
        forall|x: u32| #[trigger] (0u32 ^ x) == x,
        forall|x: u8, m: u8| #[trigger] ((x ^ m) ^ m) == x,
        forall|t: u8| t < 8 ==> #[trigger] ((0u8 >> t) & 1u8) != 1u8,
        forall|s: u8, t: u8| s < 8 && t < 8 ==> (#[trigger] (((0u8 ^ (1u8 << s)) >> t) & 1u8) == 1u8) == (s == t),
        forall|x: u32|
            #[trigger] ((x ^ ((((0u8 as u32) << 16u32) | ((0u8 as u32) << 8u32)) | (0u8 as u32))) & 0xFFFFFFu32)
                == x & 0xFFFFFFu32,
        crc_step(0u32, true) == 0xFFF409u32,
        crc_step(0xFFF409u32, false) == 0x1001C1Bu32,
        crc_step(0x1001C1Bu32, false) == 0x2003836u32,
        crc_step(0x2003836u32, false) == 0x400706Cu32,
        crc_step(0x400706Cu32, false) == 0x800E0D8u32,
        crc_step(0x800E0D8u32, false) == 0x1001C1B0u32,
        crc_step(0x1001C1B0u32, false) == 0x20038360u32,
        crc_step(0x20038360u32, false) == 0x400706C0u32,
        crc_step(0x400706C0u32, false) == 0x800E0D80u32,
        crc_step(0x800E0D80u32, false) == 0x1C1B00u32,
        crc_step(0x1C1B00u32, false) == 0x383600u32,
        crc_step(0x383600u32, false) == 0x706C00u32,
        crc_step(0x706C00u32, false) == 0xE0D800u32,
        crc_step(0xE0D800u32, false) == 0x13E4409u32,
        crc_step(0x13E4409u32, false) == 0x27C8812u32,
        crc_step(0x27C8812u32, false) == 0x4F91024u32,
        crc_step(0x4F91024u32, false) == 0x90DD441u32,
        crc_step(0x90DD441u32, false) == 0x121BA882u32,
        crc_step(0x121BA882u32, false) == 0x24375104u32,
        crc_step(0x24375104u32, false) == 0x486EA208u32,
        crc_step(0x486EA208u32, false) == 0x90DD4410u32,
        crc_step(0x90DD4410u32, false) == 0x21457C29u32,
        crc_step(0x21457C29u32, false) == 0x428AF852u32,
        crc_step(0x428AF852u32, false) == 0x85EA04ADu32,
        crc_step(0x85EA04ADu32, false) == 0xB2BFD53u32,
        crc_step(0xB2BFD53u32, false) == 0x1657FAA6u32,
        crc_step(0x1657FAA6u32, false) == 0x2CAFF54Cu32,
        crc_step(0x2CAFF54Cu32, false) == 0x59A01E91u32,
        crc_step(0x59A01E91u32, false) == 0xB3BFC92Bu32,
        crc_step(0xB3BFC92Bu32, false) == 0x6780665Fu32,
        crc_step(0x6780665Fu32, false) == 0xCFFF38B7u32,
        crc_step(0xCFFF38B7u32, false) == 0x9F018567u32,
        crc_step(0x9F018567u32, false) == 0x3E030ACEu32,
        crc_step(0x3E030ACEu32, false) == 0x7C06159Cu32,
        crc_step(0x7C06159Cu32, false) == 0xF80C2B38u32,
        crc_step(0xF80C2B38u32, false) == 0xF0185670u32,
        crc_step(0xF0185670u32, false) == 0xE030ACE0u32,
        crc_step(0xE030ACE0u32, false) == 0xC06159C0u32,
        crc_step(0xC06159C0u32, false) == 0x80C2B380u32,
        crc_step(0x80C2B380u32, false) == 0x17A9309u32,
        crc_step(0x17A9309u32, false) == 0x2F52612u32,
        crc_step(0x2F52612u32, false) == 0x515B82Du32,
        crc_step(0x515B82Du32, false) == 0xA2B705Au32,
        crc_step(0xA2B705Au32, false) == 0x1456E0B4u32,
        crc_step(0x1456E0B4u32, false) == 0x28ADC168u32,
        crc_step(0x28ADC168u32, false) == 0x51A476D9u32,
        crc_step(0x51A476D9u32, false) == 0xA3B719BBu32,
        crc_step(0xA3B719BBu32, false) == 0x4791C77Fu32,
        crc_step(0x4791C77Fu32, false) == 0x8FDC7AF7u32,
        crc_step(0x8FDC7AF7u32, false) == 0x1F4701E7u32,
        crc_step(0x1F4701E7u32, false) == 0x3E8E03CEu32,
        crc_step(0x3E8E03CEu32, false) == 0x7DE3F395u32,
        crc_step(0x7DE3F395u32, false) == 0xFB381323u32,
        crc_step(0xFB381323u32, false) == 0xF6702646u32,
        crc_step(0xF6702646u32, false) == 0xECE04C8Cu32,
        crc_step(0xECE04C8Cu32, false) == 0xD93F6D11u32,
        crc_step(0xD93F6D11u32, false) == 0xB27EDA22u32,
        crc_step(0xB27EDA22u32, false) == 0x64FDB444u32,
        crc_step(0x64FDB444u32, false) == 0xC9049C81u32,
        crc_step(0xC9049C81u32, false) == 0x92093902u32,
        crc_step(0x92093902u32, false) == 0x24127204u32,
        crc_step(0x24127204u32, false) == 0x4824E408u32,
        crc_step(0x4824E408u32, false) == 0x9049C810u32,
        crc_step(0x9049C810u32, false) == 0x20939020u32,
        crc_step(0x20939020u32, false) == 0x41D8D449u32,
        crc_step(0x41D8D449u32, false) == 0x834E5C9Bu32,
        crc_step(0x834E5C9Bu32, false) == 0x69CB936u32,
        crc_step(0x69CB936u32, false) == 0xDC68665u32,
        crc_step(0xDC68665u32, false) == 0x1B72F8C3u32,
        crc_step(0x1B72F8C3u32, false) == 0x36E5F186u32,
        crc_step(0x36E5F186u32, false) == 0x6D341705u32,
        crc_step(0x6D341705u32, false) == 0xDA682E0Au32,
        crc_step(0xDA682E0Au32, false) == 0xB4D05C14u32,
        crc_step(0xB4D05C14u32, false) == 0x695F4C21u32,
        crc_step(0x695F4C21u32, false) == 0xD2BE9842u32,
        crc_step(0xD2BE9842u32, false) == 0xA582C48Du32,
        crc_step(0xA582C48Du32, false) == 0x4BFA7D13u32,
        crc_step(0x4BFA7D13u32, false) == 0x970B0E2Fu32,
        crc_step(0x970B0E2Fu32, false) == 0x2E161C5Eu32,
        crc_step(0x2E161C5Eu32, false) == 0x5C2C38BCu32,
        crc_step(0x5C2C38BCu32, false) == 0xB8587178u32,
        crc_step(0xB8587178u32, false) == 0x70B0E2F0u32,
        crc_step(0x70B0E2F0u32, false) == 0xE19E31E9u32,
        0xFFF409u32 & 0xFFFFFFu32 == 0xFFF409u32,
        0x1001C1Bu32 & 0xFFFFFFu32 == 0x1C1Bu32,
        0x2003836u32 & 0xFFFFFFu32 == 0x3836u32,
        0x400706Cu32 & 0xFFFFFFu32 == 0x706Cu32,
        0x800E0D8u32 & 0xFFFFFFu32 == 0xE0D8u32,
        0x1001C1B0u32 & 0xFFFFFFu32 == 0x1C1B0u32,
        0x20038360u32 & 0xFFFFFFu32 == 0x38360u32,
        0x400706C0u32 & 0xFFFFFFu32 == 0x706C0u32,
        0x800E0D80u32 & 0xFFFFFFu32 == 0xE0D80u32,
        0x1C1B00u32 & 0xFFFFFFu32 == 0x1C1B00u32,
        0x383600u32 & 0xFFFFFFu32 == 0x383600u32,
        0x706C00u32 & 0xFFFFFFu32 == 0x706C00u32,
        0xE0D800u32 & 0xFFFFFFu32 == 0xE0D800u32,
        0x13E4409u32 & 0xFFFFFFu32 == 0x3E4409u32,
        0x27C8812u32 & 0xFFFFFFu32 == 0x7C8812u32,
        0x4F91024u32 & 0xFFFFFFu32 == 0xF91024u32,
        0x90DD441u32 & 0xFFFFFFu32 == 0xDD441u32,
        0x121BA882u32 & 0xFFFFFFu32 == 0x1BA882u32,
        0x24375104u32 & 0xFFFFFFu32 == 0x375104u32,
        0x486EA208u32 & 0xFFFFFFu32 == 0x6EA208u32,
        0x90DD4410u32 & 0xFFFFFFu32 == 0xDD4410u32,
        0x21457C29u32 & 0xFFFFFFu32 == 0x457C29u32,
        0x428AF852u32 & 0xFFFFFFu32 == 0x8AF852u32,
        0x85EA04ADu32 & 0xFFFFFFu32 == 0xEA04ADu32,
        0xB2BFD53u32 & 0xFFFFFFu32 == 0x2BFD53u32,
        0x1657FAA6u32 & 0xFFFFFFu32 == 0x57FAA6u32,
        0x2CAFF54Cu32 & 0xFFFFFFu32 == 0xAFF54Cu32,
        0x59A01E91u32 & 0xFFFFFFu32 == 0xA01E91u32,
        0xB3BFC92Bu32 & 0xFFFFFFu32 == 0xBFC92Bu32,
        0x6780665Fu32 & 0xFFFFFFu32 == 0x80665Fu32,
        0xCFFF38B7u32 & 0xFFFFFFu32 == 0xFF38B7u32,
        0x9F018567u32 & 0xFFFFFFu32 == 0x18567u32,
        0x3E030ACEu32 & 0xFFFFFFu32 == 0x30ACEu32,
        0x7C06159Cu32 & 0xFFFFFFu32 == 0x6159Cu32,
        0xF80C2B38u32 & 0xFFFFFFu32 == 0xC2B38u32,
        0xF0185670u32 & 0xFFFFFFu32 == 0x185670u32,
        0xE030ACE0u32 & 0xFFFFFFu32 == 0x30ACE0u32,
        0xC06159C0u32 & 0xFFFFFFu32 == 0x6159C0u32,
        0x80C2B380u32 & 0xFFFFFFu32 == 0xC2B380u32,
        0x17A9309u32 & 0xFFFFFFu32 == 0x7A9309u32,
        0x2F52612u32 & 0xFFFFFFu32 == 0xF52612u32,
        0x515B82Du32 & 0xFFFFFFu32 == 0x15B82Du32,
        0xA2B705Au32 & 0xFFFFFFu32 == 0x2B705Au32,
        0x1456E0B4u32 & 0xFFFFFFu32 == 0x56E0B4u32,
        0x28ADC168u32 & 0xFFFFFFu32 == 0xADC168u32,
        0x51A476D9u32 & 0xFFFFFFu32 == 0xA476D9u32,
        0xA3B719BBu32 & 0xFFFFFFu32 == 0xB719BBu32,
        0x4791C77Fu32 & 0xFFFFFFu32 == 0x91C77Fu32,
        0x8FDC7AF7u32 & 0xFFFFFFu32 == 0xDC7AF7u32,
        0x1F4701E7u32 & 0xFFFFFFu32 == 0x4701E7u32,
        0x3E8E03CEu32 & 0xFFFFFFu32 == 0x8E03CEu32,
        0x7DE3F395u32 & 0xFFFFFFu32 == 0xE3F395u32,
        0xFB381323u32 & 0xFFFFFFu32 == 0x381323u32,
        0xF6702646u32 & 0xFFFFFFu32 == 0x702646u32,
        0xECE04C8Cu32 & 0xFFFFFFu32 == 0xE04C8Cu32,
        0xD93F6D11u32 & 0xFFFFFFu32 == 0x3F6D11u32,
        0xB27EDA22u32 & 0xFFFFFFu32 == 0x7EDA22u32,
        0x64FDB444u32 & 0xFFFFFFu32 == 0xFDB444u32,
        0xC9049C81u32 & 0xFFFFFFu32 == 0x49C81u32,
        0x92093902u32 & 0xFFFFFFu32 == 0x93902u32,
        0x24127204u32 & 0xFFFFFFu32 == 0x127204u32,
        0x4824E408u32 & 0xFFFFFFu32 == 0x24E408u32,
        0x9049C810u32 & 0xFFFFFFu32 == 0x49C810u32,
        0x20939020u32 & 0xFFFFFFu32 == 0x939020u32,
        0x41D8D449u32 & 0xFFFFFFu32 == 0xD8D449u32,
        0x834E5C9Bu32 & 0xFFFFFFu32 == 0x4E5C9Bu32,
        0x69CB936u32 & 0xFFFFFFu32 == 0x9CB936u32,
        0xDC68665u32 & 0xFFFFFFu32 == 0xC68665u32,
        0x1B72F8C3u32 & 0xFFFFFFu32 == 0x72F8C3u32,
        0x36E5F186u32 & 0xFFFFFFu32 == 0xE5F186u32,
        0x6D341705u32 & 0xFFFFFFu32 == 0x341705u32,
        0xDA682E0Au32 & 0xFFFFFFu32 == 0x682E0Au32,
        0xB4D05C14u32 & 0xFFFFFFu32 == 0xD05C14u32,
        0x695F4C21u32 & 0xFFFFFFu32 == 0x5F4C21u32,
        0xD2BE9842u32 & 0xFFFFFFu32 == 0xBE9842u32,
        0xA582C48Du32 & 0xFFFFFFu32 == 0x82C48Du32,
        0x4BFA7D13u32 & 0xFFFFFFu32 == 0xFA7D13u32,
        0x970B0E2Fu32 & 0xFFFFFFu32 == 0xB0E2Fu32,
        0x2E161C5Eu32 & 0xFFFFFFu32 == 0x161C5Eu32,
        0x5C2C38BCu32 & 0xFFFFFFu32 == 0x2C38BCu32,
        0xB8587178u32 & 0xFFFFFFu32 == 0x587178u32,
        0x70B0E2F0u32 & 0xFFFFFFu32 == 0xB0E2F0u32,
        0xE19E31E9u32 & 0xFFFFFFu32 == 0x9E31E9u32,
        1u32 << 0u32 == 0x1u32,
        1u32 << 1u32 == 0x2u32,
        1u32 << 2u32 == 0x4u32,
        1u32 << 3u32 == 0x8u32,
        1u32 << 4u32 == 0x10u32,
        1u32 << 5u32 == 0x20u32,
        1u32 << 6u32 == 0x40u32,
        1u32 << 7u32 == 0x80u32,
        1u32 << 8u32 == 0x100u32,
        1u32 << 9u32 == 0x200u32,
        1u32 << 10u32 == 0x400u32,
        1u32 << 11u32 == 0x800u32,
        1u32 << 12u32 == 0x1000u32,
        1u32 << 13u32 == 0x2000u32,
        1u32 << 14u32 == 0x4000u32,
        1u32 << 15u32 == 0x8000u32,
        1u32 << 16u32 == 0x10000u32,
        1u32 << 17u32 == 0x20000u32,
        1u32 << 18u32 == 0x40000u32,
        1u32 << 19u32 == 0x80000u32,
        1u32 << 20u32 == 0x100000u32,
        1u32 << 21u32 == 0x200000u32,
        1u32 << 22u32 == 0x400000u32,
        1u32 << 23u32 == 0x800000u32,
{
}

/// The register values after a one bit and up to 82 zero bits.
proof fn lemma_shifted_values()
    ensures
        shifted_poly(0) == 0xFFF409u32,
        shifted_poly(1) == 0x1001C1Bu32,
        shifted_poly(2) == 0x2003836u32,
        shifted_poly(3) == 0x400706Cu32,
        shifted_poly(4) == 0x800E0D8u32,
        shifted_poly(5) == 0x1001C1B0u32,
        shifted_poly(6) == 0x20038360u32,
        shifted_poly(7) == 0x400706C0u32,
        shifted_poly(8) == 0x800E0D80u32,
        shifted_poly(9) == 0x1C1B00u32,
        shifted_poly(10) == 0x383600u32,
        shifted_poly(11) == 0x706C00u32,
        shifted_poly(12) == 0xE0D800u32,
        shifted_poly(13) == 0x13E4409u32,
        shifted_poly(14) == 0x27C8812u32,
        shifted_poly(15) == 0x4F91024u32,
        shifted_poly(16) == 0x90DD441u32,
        shifted_poly(17) == 0x121BA882u32,
        shifted_poly(18) == 0x24375104u32,
        shifted_poly(19) == 0x486EA208u32,
        shifted_poly(20) == 0x90DD4410u32,
        shifted_poly(21) == 0x21457C29u32,
        shifted_poly(22) == 0x428AF852u32,
        shifted_poly(23) == 0x85EA04ADu32,
        shifted_poly(24) == 0xB2BFD53u32,
        shifted_poly(25) == 0x1657FAA6u32,
        shifted_poly(26) == 0x2CAFF54Cu32,
        shifted_poly(27) == 0x59A01E91u32,
        shifted_poly(28) == 0xB3BFC92Bu32,
        shifted_poly(29) == 0x6780665Fu32,
        shifted_poly(30) == 0xCFFF38B7u32,
        shifted_poly(31) == 0x9F018567u32,
        shifted_poly(32) == 0x3E030ACEu32,
        shifted_poly(33) == 0x7C06159Cu32,
        shifted_poly(34) == 0xF80C2B38u32,
        shifted_poly(35) == 0xF0185670u32,
        shifted_poly(36) == 0xE030ACE0u32,
        shifted_poly(37) == 0xC06159C0u32,
        shifted_poly(38) == 0x80C2B380u32,
        shifted_poly(39) == 0x17A9309u32,
        shifted_poly(40) == 0x2F52612u32,
        shifted_poly(41) == 0x515B82Du32,
        shifted_poly(42) == 0xA2B705Au32,
        shifted_poly(43) == 0x1456E0B4u32,
        shifted_poly(44) == 0x28ADC168u32,
        shifted_poly(45) == 0x51A476D9u32,
        shifted_poly(46) == 0xA3B719BBu32,
        shifted_poly(47) == 0x4791C77Fu32,
        shifted_poly(48) == 0x8FDC7AF7u32,
        shifted_poly(49) == 0x1F4701E7u32,
        shifted_poly(50) == 0x3E8E03CEu32,
        shifted_poly(51) == 0x7DE3F395u32,
        shifted_poly(52) == 0xFB381323u32,
        shifted_poly(53) == 0xF6702646u32,
        shifted_poly(54) == 0xECE04C8Cu32,
        shifted_poly(55) == 0xD93F6D11u32,
        shifted_poly(56) == 0xB27EDA22u32,
        shifted_poly(57) == 0x64FDB444u32,
        shifted_poly(58) == 0xC9049C81u32,
        shifted_poly(59) == 0x92093902u32,
        shifted_poly(60) == 0x24127204u32,
        shifted_poly(61) == 0x4824E408u32,
        shifted_poly(62) == 0x9049C810u32,
        shifted_poly(63) == 0x20939020u32,
        shifted_poly(64) == 0x41D8D449u32,
        shifted_poly(65) == 0x834E5C9Bu32,
        shifted_poly(66) == 0x69CB936u32,
        shifted_poly(67) == 0xDC68665u32,
        shifted_poly(68) == 0x1B72F8C3u32,
        shifted_poly(69) == 0x36E5F186u32,
        shifted_poly(70) == 0x6D341705u32,
        shifted_poly(71) == 0xDA682E0Au32,
        shifted_poly(72) == 0xB4D05C14u32,
        shifted_poly(73) == 0x695F4C21u32,
        shifted_poly(74) == 0xD2BE9842u32,
        shifted_poly(75) == 0xA582C48Du32,
        shifted_poly(76) == 0x4BFA7D13u32,
        shifted_poly(77) == 0x970B0E2Fu32,
        shifted_poly(78) == 0x2E161C5Eu32,
        shifted_poly(79) == 0x5C2C38BCu32,
        shifted_poly(80) == 0xB8587178u32,
        shifted_poly(81) == 0x70B0E2F0u32,
        shifted_poly(82) == 0xE19E31E9u32,
{
    lemma_register_facts();
    assert(shifted_poly(0) == 0xFFF409u32);
    assert(shifted_poly(1) == 0x1001C1Bu32);
    assert(shifted_poly(2) == 0x2003836u32);
    assert(shifted_poly(3) == 0x400706Cu32);
    assert(shifted_poly(4) == 0x800E0D8u32);
    assert(shifted_poly(5) == 0x1001C1B0u32);
    assert(shifted_poly(6) == 0x20038360u32);
    assert(shifted_poly(7) == 0x400706C0u32);
    assert(shifted_poly(8) == 0x800E0D80u32);
    assert(shifted_poly(9) == 0x1C1B00u32);
    assert(shifted_poly(10) == 0x383600u32);
    assert(shifted_poly(11) == 0x706C00u32);
    assert(shifted_poly(12) == 0xE0D800u32);
    assert(shifted_poly(13) == 0x13E4409u32);
    assert(shifted_poly(14) == 0x27C8812u32);
    assert(shifted_poly(15) == 0x4F91024u32);
    assert(shifted_poly(16) == 0x90DD441u32);
    assert(shifted_poly(17) == 0x121BA882u32);
    assert(shifted_poly(18) == 0x24375104u32);
    assert(shifted_poly(19) == 0x486EA208u32);
    assert(shifted_poly(20) == 0x90DD4410u32);
    assert(shifted_poly(21) == 0x21457C29u32);
    assert(shifted_poly(22) == 0x428AF852u32);
    assert(shifted_poly(23) == 0x85EA04ADu32);
    assert(shifted_poly(24) == 0xB2BFD53u32);
    assert(shifted_poly(25) == 0x1657FAA6u32);
    assert(shifted_poly(26) == 0x2CAFF54Cu32);
    assert(shifted_poly(27) == 0x59A01E91u32);
    assert(shifted_poly(28) == 0xB3BFC92Bu32);
    assert(shifted_poly(29) == 0x6780665Fu32);
    assert(shifted_poly(30) == 0xCFFF38B7u32);
    assert(shifted_poly(31) == 0x9F018567u32);
    assert(shifted_poly(32) == 0x3E030ACEu32);
    assert(shifted_poly(33) == 0x7C06159Cu32);
    assert(shifted_poly(34) == 0xF80C2B38u32);
    assert(shifted_poly(35) == 0xF0185670u32);
    assert(shifted_poly(36) == 0xE030ACE0u32);
    assert(shifted_poly(37) == 0xC06159C0u32);
    assert(shifted_poly(38) == 0x80C2B380u32);
    assert(shifted_poly(39) == 0x17A9309u32);
    assert(shifted_poly(40) == 0x2F52612u32);
    assert(shifted_poly(41) == 0x515B82Du32);
    assert(shifted_poly(42) == 0xA2B705Au32);
    assert(shifted_poly(43) == 0x1456E0B4u32);
    assert(shifted_poly(44) == 0x28ADC168u32);
    assert(shifted_poly(45) == 0x51A476D9u32);
    assert(shifted_poly(46) == 0xA3B719BBu32);
    assert(shifted_poly(47) == 0x4791C77Fu32);
    assert(shifted_poly(48) == 0x8FDC7AF7u32);
    assert(shifted_poly(49) == 0x1F4701E7u32);
    assert(shifted_poly(50) == 0x3E8E03CEu32);
    assert(shifted_poly(51) == 0x7DE3F395u32);
    assert(shifted_poly(52) == 0xFB381323u32);
    assert(shifted_poly(53) == 0xF6702646u32);
    assert(shifted_poly(54) == 0xECE04C8Cu32);
    assert(shifted_poly(55) == 0xD93F6D11u32);
    assert(shifted_poly(56) == 0xB27EDA22u32);
    assert(shifted_poly(57) == 0x64FDB444u32);
    assert(shifted_poly(58) == 0xC9049C81u32);
    assert(shifted_poly(59) == 0x92093902u32);
    assert(shifted_poly(60) == 0x24127204u32);
    assert(shifted_poly(61) == 0x4824E408u32);
    assert(shifted_poly(62) == 0x9049C810u32);
    assert(shifted_poly(63) == 0x20939020u32);
    assert(shifted_poly(64) == 0x41D8D449u32);
    assert(shifted_poly(65) == 0x834E5C9Bu32);
    assert(shifted_poly(66) == 0x69CB936u32);
    assert(shifted_poly(67) == 0xDC68665u32);
    assert(shifted_poly(68) == 0x1B72F8C3u32);
    assert(shifted_poly(69) == 0x36E5F186u32);
    assert(shifted_poly(70) == 0x6D341705u32);
    assert(shifted_poly(71) == 0xDA682E0Au32);
    assert(shifted_poly(72) == 0xB4D05C14u32);
    assert(shifted_poly(73) == 0x695F4C21u32);
    assert(shifted_poly(74) == 0xD2BE9842u32);
    assert(shifted_poly(75) == 0xA582C48Du32);
    assert(shifted_poly(76) == 0x4BFA7D13u32);
    assert(shifted_poly(77) == 0x970B0E2Fu32);
    assert(shifted_poly(78) == 0x2E161C5Eu32);
    assert(shifted_poly(79) == 0x5C2C38BCu32);
    assert(shifted_poly(80) == 0xB8587178u32);
    assert(shifted_poly(81) == 0x70B0E2F0u32);
    assert(shifted_poly(82) == 0xE19E31E9u32);
}

/// Which single-bit syndrome of a data bit `s` is, counted from the last data bit (the
/// low 24 bits of `shifted_poly(i)` for `i` up to 82); -1 for none of them.
pub open spec fn chain_index(s: u32) -> int {
    if s == 0xFFF409u32 {
        0
    }     else if s == 0x1C1Bu32 {
        1
    }     else if s == 0x3836u32 {
        2
    }     else if s == 0x706Cu32 {
        3
    }     else if s == 0xE0D8u32 {
        4
    }     else if s == 0x1C1B0u32 {
        5
    }     else if s == 0x38360u32 {
        6
    }     else if s == 0x706C0u32 {
        7
    }     else if s == 0xE0D80u32 {
        8
    }     else if s == 0x1C1B00u32 {
        9
    }     else if s == 0x383600u32 {
        10
    }     else if s == 0x706C00u32 {
        11
    }     else if s == 0xE0D800u32 {
        12
    }     else if s == 0x3E4409u32 {
        13
    }     else if s == 0x7C8812u32 {
        14
    }     else if s == 0xF91024u32 {
        15
    }     else if s == 0xDD441u32 {
        16
    }     else if s == 0x1BA882u32 {
        17
    }     else if s == 0x375104u32 {
        18
    }     else if s == 0x6EA208u32 {
        19
    }     else if s == 0xDD4410u32 {
        20
    }     else if s == 0x457C29u32 {
        21
    }     else if s == 0x8AF852u32 {
        22
    }     else if s == 0xEA04ADu32 {
        23
    }     else if s == 0x2BFD53u32 {
        24
    }     else if s == 0x57FAA6u32 {
        25
    }     else if s == 0xAFF54Cu32 {
        26
    }     else if s == 0xA01E91u32 {
        27
    }     else if s == 0xBFC92Bu32 {
        28
    }     else if s == 0x80665Fu32 {
        29
    }     else if s == 0xFF38B7u32 {
        30
    }     else if s == 0x18567u32 {
        31
    }     else if s == 0x30ACEu32 {
        32
    }     else if s == 0x6159Cu32 {
        33
    }     else if s == 0xC2B38u32 {
        34
    }     else if s == 0x185670u32 {
        35
    }     else if s == 0x30ACE0u32 {
        36
    }     else if s == 0x6159C0u32 {
        37
    }     else if s == 0xC2B380u32 {
        38
    }     else if s == 0x7A9309u32 {
        39
    }     else if s == 0xF52612u32 {
        40
    }     else if s == 0x15B82Du32 {
        41
    }     else if s == 0x2B705Au32 {
        42
    }     else if s == 0x56E0B4u32 {
        43
    }     else if s == 0xADC168u32 {
        44
    }     else if s == 0xA476D9u32 {
        45
    }     else if s == 0xB719BBu32 {
        46
    }     else if s == 0x91C77Fu32 {
        47
    }     else if s == 0xDC7AF7u32 {
        48
    }     else if s == 0x4701E7u32 {
        49
    }     else if s == 0x8E03CEu32 {
        50
    }     else if s == 0xE3F395u32 {
        51
    }     else if s == 0x381323u32 {
        52
    }     else if s == 0x702646u32 {
        53
    }     else if s == 0xE04C8Cu32 {
        54
    }     else if s == 0x3F6D11u32 {
        55
    }     else if s == 0x7EDA22u32 {
        56
    }     else if s == 0xFDB444u32 {
        57
    }     else if s == 0x49C81u32 {
        58
    }     else if s == 0x93902u32 {
        59
    }     else if s == 0x127204u32 {
        60
    }     else if s == 0x24E408u32 {
        61
    }     else if s == 0x49C810u32 {
        62
    }     else if s == 0x939020u32 {
        63
    }     else if s == 0xD8D449u32 {
        64
    }     else if s == 0x4E5C9Bu32 {
        65
    }     else if s == 0x9CB936u32 {
        66
    }     else if s == 0xC68665u32 {
        67
    }     else if s == 0x72F8C3u32 {
        68
    }     else if s == 0xE5F186u32 {
        69
    }     else if s == 0x341705u32 {
        70
    }     else if s == 0x682E0Au32 {
        71
    }     else if s == 0xD05C14u32 {
        72
    }     else if s == 0x5F4C21u32 {
        73
    }     else if s == 0xBE9842u32 {
        74
    }     else if s == 0x82C48Du32 {
        75
    }     else if s == 0xFA7D13u32 {
        76
    }     else if s == 0xB0E2Fu32 {
        77
    }     else if s == 0x161C5Eu32 {
        78
    }     else if s == 0x2C38BCu32 {
        79
    }     else if s == 0x587178u32 {
        80
    }     else if s == 0xB0E2F0u32 {
        81
    }     else if s == 0x9E31E9u32 {
        82
    } else {
        -1
    }
}

/// Which power of two below 2^24 `s` is; -1 for none.
pub open spec fn parity_index(s: u32) -> int {
    if s == 0x1u32 {
        0
    }     else if s == 0x2u32 {
        1
    }     else if s == 0x4u32 {
        2
    }     else if s == 0x8u32 {
        3
    }     else if s == 0x10u32 {
        4
    }     else if s == 0x20u32 {
        5
    }     else if s == 0x40u32 {
        6
    }     else if s == 0x80u32 {
        7
    }     else if s == 0x100u32 {
        8
    }     else if s == 0x200u32 {
        9
    }     else if s == 0x400u32 {
        10
    }     else if s == 0x800u32 {
        11
    }     else if s == 0x1000u32 {
        12
    }     else if s == 0x2000u32 {
        13
    }     else if s == 0x4000u32 {
        14
    }     else if s == 0x8000u32 {
        15
    }     else if s == 0x10000u32 {
        16
    }     else if s == 0x20000u32 {
        17
    }     else if s == 0x40000u32 {
        18
    }     else if s == 0x80000u32 {
        19
    }     else if s == 0x100000u32 {
        20
    }     else if s == 0x200000u32 {
        21
    }     else if s == 0x400000u32 {
        22
    }     else if s == 0x800000u32 {
        23
    } else {
        -1
    }
}

/// The bit position of a `bitlen`-bit frame whose single-bit syndrome is `s`: a data bit when
/// `s` is one of the data-bit syndromes, otherwise the parity bit of its power of two.
pub open spec fn error_position(s: u32, bitlen: nat) -> int {
    if chain_index(s) >= 0 {
        bitlen - 25 - chain_index(s)
    } else {
        bitlen - 1 - parity_index(s)
    }
}

proof fn lemma_onehot_bit(n: nat, b: int, i: int)
    requires
        0 <= b < 8 * n,
        0 <= i < 8 * n,
    ensures
        msg_bit(flip_bit(zeros(n), b), i) == (i == b),
{
    lemma_register_facts();
    assert(0 <= b / 8 < n && 0 <= i / 8 < n) by (nonlinear_arith)
        requires
            0 <= b < 8 * n,
            0 <= i < 8 * n,
    ;
    let m = flip_bit(zeros(n), b);
    let t = (7 - i % 8) as u8;
    if i / 8 == b / 8 {
        let s = (7 - b % 8) as u8;
        assert(m[i / 8] == 0u8 ^ (1u8 << s));
        assert((((0u8 ^ (1u8 << s)) >> t) & 1u8 == 1u8) == (s == t));
    } else {
        assert(m[i / 8] == 0u8);
        assert(((0u8 >> t) & 1u8) != 1u8);
    }
}

proof fn lemma_onehot_register(n: nat, b: int, k: nat)
    requires
        0 <= b < 8 * n,
        k <= 8 * n,
    ensures
        crc_register(flip_bit(zeros(n), b), k) == if k <= b {
            0u32
        } else {
            shifted_poly((k - 1 - b) as nat)
        },
    decreases k,
{
    if k > 0 {
        lemma_onehot_register(n, b, (k - 1) as nat);
        lemma_onehot_bit(n, b, k - 1);
        lemma_register_facts();
    }
}

/// The syndrome of a data bit is the register after that one bit and the zeros that follow it.
proof fn lemma_data_syndrome(b: int, bitlen: nat)
    requires
        bitlen == 56 || bitlen == 112,
        0 <= b < bitlen - 24,
    ensures
        single_syndrome(b, bitlen) == shifted_poly((bitlen - 25 - b) as nat) & 0xFFFFFFu32,
{
    let n = byte_len(bitlen);
    assert(8 * n == bitlen);
    let m = flip_bit(zeros(n), b);
    lemma_onehot_register(n, b, ((n - 3) * 8) as nat);
    assert(b / 8 < n - 3);
    assert(m[n - 3] == 0u8 && m[n - 2] == 0u8 && m[n - 1] == 0u8);
    lemma_register_facts();
}

proof fn lemma_parity_byte(s: u8)
    by (bit_vector)
    requires
        s < 8,
    ensures
        (0u32 ^ (((((0u8 ^ (1u8 << s)) as u32) << 16u32) | ((0u8 as u32) << 8u32)) | (0u8 as u32)))
            & 0xFFFFFFu32 == 1u32 << (16u32 + (s as u32)),
        (0u32 ^ ((((0u8 as u32) << 16u32) | (((0u8 ^ (1u8 << s)) as u32) << 8u32)) | (0u8 as u32)))
            & 0xFFFFFFu32 == 1u32 << (8u32 + (s as u32)),
        (0u32 ^ ((((0u8 as u32) << 16u32) | ((0u8 as u32) << 8u32)) | ((0u8 ^ (1u8 << s)) as u32)))
            & 0xFFFFFFu32 == 1u32 << (s as u32),
{
}

/// The syndrome of a parity bit is that bit of the 24-bit parity field.
proof fn lemma_parity_syndrome(b: int, bitlen: nat)
    requires
        bitlen == 56 || bitlen == 112,
        bitlen - 24 <= b < bitlen,
    ensures
        single_syndrome(b, bitlen) == 1u32 << ((bitlen - 1 - b) as u32),
{
    let n = byte_len(bitlen);
    assert(8 * n == bitlen);
    let m = flip_bit(zeros(n), b);
    lemma_onehot_register(n, b, ((n - 3) * 8) as nat);
    let s = (7 - b % 8) as u8;
    lemma_parity_byte(s);
    if b / 8 == n - 3 {
        assert(m[n - 3] == 0u8 ^ (1u8 << s) && m[n - 2] == 0u8 && m[n - 1] == 0u8);
        assert((bitlen - 1 - b) as u32 == 16u32 + (s as u32));
    } else if b / 8 == n - 2 {
        assert(m[n - 3] == 0u8 && m[n - 2] == 0u8 ^ (1u8 << s) && m[n - 1] == 0u8);
        assert((bitlen - 1 - b) as u32 == 8u32 + (s as u32));
    } else {
        assert(b / 8 == n - 1);
        assert(m[n - 3] == 0u8 && m[n - 2] == 0u8 && m[n - 1] == 0u8 ^ (1u8 << s));
        assert((bitlen - 1 - b) as u32 == (s as u32));
    }
}

proof fn lemma_chain_low(i: int)
    requires
        0 <= i <= 20,
    ensures
        chain_index(shifted_poly(i as nat) % 0x1000000u32) == i,
{
    lemma_shifted_values();
    if i == 0 {
        assert(shifted_poly(i as nat) == shifted_poly(0));
    } else if i == 1 {
        assert(shifted_poly(i as nat) == shifted_poly(1));
    } else if i == 2 {
        assert(shifted_poly(i as nat) == shifted_poly(2));
    } else if i == 3 {
        assert(shifted_poly(i as nat) == shifted_poly(3));
    } else if i == 4 {
        assert(shifted_poly(i as nat) == shifted_poly(4));
    } else if i == 5 {
        assert(shifted_poly(i as nat) == shifted_poly(5));
    } else if i == 6 {
        assert(shifted_poly(i as nat) == shifted_poly(6));
    } else if i == 7 {
        assert(shifted_poly(i as nat) == shifted_poly(7));
    } else if i == 8 {
        assert(shifted_poly(i as nat) == shifted_poly(8));
    } else if i == 9 {
        assert(shifted_poly(i as nat) == shifted_poly(9));
    } else if i == 10 {
        assert(shifted_poly(i as nat) == shifted_poly(10));
    } else if i == 11 {
        assert(shifted_poly(i as nat) == shifted_poly(11));
    } else if i == 12 {
        assert(shifted_poly(i as nat) == shifted_poly(12));
    } else if i == 13 {
        assert(shifted_poly(i as nat) == shifted_poly(13));
    } else if i == 14 {
        assert(shifted_poly(i as nat) == shifted_poly(14));
    } else if i == 15 {
        assert(shifted_poly(i as nat) == shifted_poly(15));
    } else if i == 16 {
        assert(shifted_poly(i as nat) == shifted_poly(16));
    } else if i == 17 {
        assert(shifted_poly(i as nat) == shifted_poly(17));
    } else if i == 18 {
        assert(shifted_poly(i as nat) == shifted_poly(18));
    } else if i == 19 {
        assert(shifted_poly(i as nat) == shifted_poly(19));
    } else if i == 20 {
        assert(shifted_poly(i as nat) == shifted_poly(20));
    }
}

proof fn lemma_chain_mid(i: int)
    requires
        21 <= i <= 41,
    ensures
        chain_index(shifted_poly(i as nat) % 0x1000000u32) == i,
{
    lemma_shifted_values();
    if i == 21 {
        assert(shifted_poly(i as nat) == shifted_poly(21));
    } else if i == 22 {
        assert(shifted_poly(i as nat) == shifted_poly(22));
    } else if i == 23 {
        assert(shifted_poly(i as nat) == shifted_poly(23));
    } else if i == 24 {
        assert(shifted_poly(i as nat) == shifted_poly(24));
    } else if i == 25 {
        assert(shifted_poly(i as nat) == shifted_poly(25));
    } else if i == 26 {
        assert(shifted_poly(i as nat) == shifted_poly(26));
    } else if i == 27 {
        assert(shifted_poly(i as nat) == shifted_poly(27));
    } else if i == 28 {
        assert(shifted_poly(i as nat) == shifted_poly(28));
    } else if i == 29 {
        assert(shifted_poly(i as nat) == shifted_poly(29));
    } else if i == 30 {
        assert(shifted_poly(i as nat) == shifted_poly(30));
    } else if i == 31 {
        assert(shifted_poly(i as nat) == shifted_poly(31));
    } else if i == 32 {
        assert(shifted_poly(i as nat) == shifted_poly(32));
    } else if i == 33 {
        assert(shifted_poly(i as nat) == shifted_poly(33));
    } else if i == 34 {
        assert(shifted_poly(i as nat) == shifted_poly(34));
    } else if i == 35 {
        assert(shifted_poly(i as nat) == shifted_poly(35));
    } else if i == 36 {
        assert(shifted_poly(i as nat) == shifted_poly(36));
    } else if i == 37 {
        assert(shifted_poly(i as nat) == shifted_poly(37));
    } else if i == 38 {
        assert(shifted_poly(i as nat) == shifted_poly(38));
    } else if i == 39 {
        assert(shifted_poly(i as nat) == shifted_poly(39));
    } else if i == 40 {
        assert(shifted_poly(i as nat) == shifted_poly(40));
    } else if i == 41 {
        assert(shifted_poly(i as nat) == shifted_poly(41));
    }
}

proof fn lemma_chain_high(i: int)
    requires
        42 <= i <= 62,
    ensures
        chain_index(shifted_poly(i as nat) % 0x1000000u32) == i,
{
    lemma_shifted_values();
    if i == 42 {
        assert(shifted_poly(i as nat) == shifted_poly(42));
    } else if i == 43 {
        assert(shifted_poly(i as nat) == shifted_poly(43));
    } else if i == 44 {
        assert(shifted_poly(i as nat) == shifted_poly(44));
    } else if i == 45 {
        assert(shifted_poly(i as nat) == shifted_poly(45));
    } else if i == 46 {
        assert(shifted_poly(i as nat) == shifted_poly(46));
    } else if i == 47 {
        assert(shifted_poly(i as nat) == shifted_poly(47));
    } else if i == 48 {
        assert(shifted_poly(i as nat) == shifted_poly(48));
    } else if i == 49 {
        assert(shifted_poly(i as nat) == shifted_poly(49));
    } else if i == 50 {
        assert(shifted_poly(i as nat) == shifted_poly(50));
    } else if i == 51 {
        assert(shifted_poly(i as nat) == shifted_poly(51));
    } else if i == 52 {
        assert(shifted_poly(i as nat) == shifted_poly(52));
    } else if i == 53 {
        assert(shifted_poly(i as nat) == shifted_poly(53));
    } else if i == 54 {
        assert(shifted_poly(i as nat) == shifted_poly(54));
    } else if i == 55 {
        assert(shifted_poly(i as nat) == shifted_poly(55));
    } else if i == 56 {
        assert(shifted_poly(i as nat) == shifted_poly(56));
    } else if i == 57 {
        assert(shifted_poly(i as nat) == shifted_poly(57));
    } else if i == 58 {
        assert(shifted_poly(i as nat) == shifted_poly(58));
    } else if i == 59 {
        assert(shifted_poly(i as nat) == shifted_poly(59));
    } else if i == 60 {
        assert(shifted_poly(i as nat) == shifted_poly(60));
    } else if i == 61 {
        assert(shifted_poly(i as nat) == shifted_poly(61));
    } else if i == 62 {
        assert(shifted_poly(i as nat) == shifted_poly(62));
    }
}

proof fn lemma_chain_top(i: int)
    requires
        63 <= i <= 82,
    ensures
        chain_index(shifted_poly(i as nat) % 0x1000000u32) == i,
{
    lemma_shifted_values();
    if i == 63 {
        assert(shifted_poly(i as nat) == shifted_poly(63));
    } else if i == 64 {
        assert(shifted_poly(i as nat) == shifted_poly(64));
    } else if i == 65 {
        assert(shifted_poly(i as nat) == shifted_poly(65));
    } else if i == 66 {
        assert(shifted_poly(i as nat) == shifted_poly(66));
    } else if i == 67 {
        assert(shifted_poly(i as nat) == shifted_poly(67));
    } else if i == 68 {
        assert(shifted_poly(i as nat) == shifted_poly(68));
    } else if i == 69 {
        assert(shifted_poly(i as nat) == shifted_poly(69));
    } else if i == 70 {
        assert(shifted_poly(i as nat) == shifted_poly(70));
    } else if i == 71 {
        assert(shifted_poly(i as nat) == shifted_poly(71));
    } else if i == 72 {
        assert(shifted_poly(i as nat) == shifted_poly(72));
    } else if i == 73 {
        assert(shifted_poly(i as nat) == shifted_poly(73));
    } else if i == 74 {
        assert(shifted_poly(i as nat) == shifted_poly(74));
    } else if i == 75 {
        assert(shifted_poly(i as nat) == shifted_poly(75));
    } else if i == 76 {
        assert(shifted_poly(i as nat) == shifted_poly(76));
    } else if i == 77 {
        assert(shifted_poly(i as nat) == shifted_poly(77));
    } else if i == 78 {
        assert(shifted_poly(i as nat) == shifted_poly(78));
    } else if i == 79 {
        assert(shifted_poly(i as nat) == shifted_poly(79));
    } else if i == 80 {
        assert(shifted_poly(i as nat) == shifted_poly(80));
    } else if i == 81 {
        assert(shifted_poly(i as nat) == shifted_poly(81));
    } else if i == 82 {
        assert(shifted_poly(i as nat) == shifted_poly(82));
    }
}

proof fn lemma_parity_powers()
    by (bit_vector)
    ensures
        1u32 << 0u32 == 0x1u32,
        1u32 << 1u32 == 0x2u32,
        1u32 << 2u32 == 0x4u32,
        1u32 << 3u32 == 0x8u32,
        1u32 << 4u32 == 0x10u32,
        1u32 << 5u32 == 0x20u32,
        1u32 << 6u32 == 0x40u32,
        1u32 << 7u32 == 0x80u32,
        1u32 << 8u32 == 0x100u32,
        1u32 << 9u32 == 0x200u32,
        1u32 << 10u32 == 0x400u32,
        1u32 << 11u32 == 0x800u32,
        1u32 << 12u32 == 0x1000u32,
        1u32 << 13u32 == 0x2000u32,
        1u32 << 14u32 == 0x4000u32,
        1u32 << 15u32 == 0x8000u32,
        1u32 << 16u32 == 0x10000u32,
        1u32 << 17u32 == 0x20000u32,
        1u32 << 18u32 == 0x40000u32,
        1u32 << 19u32 == 0x80000u32,
        1u32 << 20u32 == 0x100000u32,
        1u32 << 21u32 == 0x200000u32,
        1u32 << 22u32 == 0x400000u32,
        1u32 << 23u32 == 0x800000u32,
{
}

proof fn lemma_low24(x: u32)
    by (bit_vector)
    ensures
        x & 0xFFFFFFu32 == x % 0x1000000u32,
{
}

proof fn lemma_parity_cases(j: int)
    requires
        0 <= j < 24,
    ensures
        parity_index(1u32 << (j as u32)) == j,
{
    lemma_parity_powers();
    if j == 0 {
        assert(1u32 << (j as u32) == 1u32 << 0u32);
    } else if j == 1 {
        assert(1u32 << (j as u32) == 1u32 << 1u32);
    } else if j == 2 {
        assert(1u32 << (j as u32) == 1u32 << 2u32);
    } else if j == 3 {
        assert(1u32 << (j as u32) == 1u32 << 3u32);
    } else if j == 4 {
        assert(1u32 << (j as u32) == 1u32 << 4u32);
    } else if j == 5 {
        assert(1u32 << (j as u32) == 1u32 << 5u32);
    } else if j == 6 {
        assert(1u32 << (j as u32) == 1u32 << 6u32);
    } else if j == 7 {
        assert(1u32 << (j as u32) == 1u32 << 7u32);
    } else if j == 8 {
        assert(1u32 << (j as u32) == 1u32 << 8u32);
    } else if j == 9 {
        assert(1u32 << (j as u32) == 1u32 << 9u32);
    } else if j == 10 {
        assert(1u32 << (j as u32) == 1u32 << 10u32);
    } else if j == 11 {
        assert(1u32 << (j as u32) == 1u32 << 11u32);
    } else if j == 12 {
        assert(1u32 << (j as u32) == 1u32 << 12u32);
    } else if j == 13 {
        assert(1u32 << (j as u32) == 1u32 << 13u32);
    } else if j == 14 {
        assert(1u32 << (j as u32) == 1u32 << 14u32);
    } else if j == 15 {
        assert(1u32 << (j as u32) == 1u32 << 15u32);
    } else if j == 16 {
        assert(1u32 << (j as u32) == 1u32 << 16u32);
    } else if j == 17 {
        assert(1u32 << (j as u32) == 1u32 << 17u32);
    } else if j == 18 {
        assert(1u32 << (j as u32) == 1u32 << 18u32);
    } else if j == 19 {
        assert(1u32 << (j as u32) == 1u32 << 19u32);
    } else if j == 20 {
        assert(1u32 << (j as u32) == 1u32 << 20u32);
    } else if j == 21 {
        assert(1u32 << (j as u32) == 1u32 << 21u32);
    } else if j == 22 {
        assert(1u32 << (j as u32) == 1u32 << 22u32);
    } else if j == 23 {
        assert(1u32 << (j as u32) == 1u32 << 23u32);
    }
}

/// Every bit position after the downlink format field of a 56- or 112-bit frame is where its own single-bit syndrome points.
pub proof fn lemma_syndrome_position(b: int, bitlen: nat)
    requires
        bitlen == 56 || bitlen == 112,
        5 <= b < bitlen,
    ensures
        error_position(single_syndrome(b, bitlen), bitlen) == b,
{
    if b < bitlen - 24 {
        let i = bitlen - 25 - b;
        lemma_data_syndrome(b, bitlen);
        lemma_low24(shifted_poly(i as nat));
        if i <= 20 {
            lemma_chain_low(i);
        } else if i <= 41 {
            lemma_chain_mid(i);
        } else if i <= 62 {
            lemma_chain_high(i);
        } else {
            lemma_chain_top(i);
        }
    } else {
        let j = bitlen - 1 - b;
        lemma_parity_syndrome(b, bitlen);
        lemma_parity_cases(j);
        assert(chain_index(1u32 << (j as u32)) == -1) by {
            lemma_parity_powers();
            lemma_parity_cases(j);
        }
    }
}

/// Different bit positions after the downlink format field of a 56- or 112-bit frame have different single-bit syndromes.
pub proof fn lemma_single_syndromes_differ(b1: int, b2: int, bitlen: nat)
    requires
        bitlen == 56 || bitlen == 112,
        5 <= b1 < bitlen,
        5 <= b2 < bitlen,
        b1 != b2,
    ensures
        single_syndrome(b1, bitlen) != single_syndrome(b2, bitlen),
{
    lemma_syndrome_position(b1, bitlen);
    lemma_syndrome_position(b2, bitlen);
}

/// A frame received with one bit inverted outside the downlink format field is diagnosed as
/// exactly that bit (a single-bit entry naming that position), and applying the entry gives
/// back the frame that was sent.
pub proof fn lemma_single_error_located(sent: Seq<u8>, bitlen: nat, t: Map<u32, ErrorInfo>, pos: int)
    requires
        bitlen == 56 || bitlen == 112,
        sent.len() >= bitlen / 8,
        checksum(sent, bitlen) == 0,
        correction_table(t, bitlen),
        5 <= pos < bitlen,
    ensures
        t.contains_key(checksum(flip_bit(sent, pos), bitlen)),
        t[checksum(flip_bit(sent, pos), bitlen)].errors == 1,
        t[checksum(flip_bit(sent, pos), bitlen)].bits@[0] == pos,
        apply_fix(flip_bit(sent, pos), t[checksum(flip_bit(sent, pos), bitlen)].bits@) == sent,
{
    let n = byte_len(bitlen);
    assert(8 * n == bitlen);
    lemma_register_facts();
    lemma_checksum_flip(sent, pos, bitlen);
    let key = single_syndrome(pos, bitlen);
    assert(checksum(flip_bit(sent, pos), bitlen) == key);
    assert(t.contains_key(single_syndrome(pos, bitlen)));
    let info = t[key];
    assert(valid_entry(key, info, bitlen));
    let p = info.bits@[0] as int;
    assert(apply_fix(zeros(n), info.bits@) == flip_bit(zeros(n), p));
    assert(single_syndrome(p, bitlen) == key);
    if p != pos {
        lemma_single_syndromes_differ(p, pos, bitlen);
    }
    let m2 = flip_bit(sent, pos);
    assert(0 <= pos / 8 < sent.len()) by (nonlinear_arith)
        requires
            0 <= pos < 8 * n,
            n <= sent.len(),
    ;
    let mask = 1u8 << ((7 - pos % 8) as u8);
    assert((sent[pos / 8] ^ mask) ^ mask == sent[pos / 8]);
    assert(flip_bit(m2, pos) =~= sent);
}

} // verus!
