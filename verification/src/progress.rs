//! The progress line printed while a comparison window is collected.
use crate::text::{
    ascii_chars, ascii_string, decimal_digits, is_ascii_bytes, lemma_digits_ascii, push_decimal,
};
use vstd::prelude::*;

verus! {

/// The marks of the first `m` ticks: `....10....20` and so on up to `10 * m`.
pub open spec fn tick_marks(m: nat) -> Seq<u8>
    decreases m,
{
    if m == 0 {
        Seq::<u8>::empty()
    } else {
        tick_marks((m - 1) as nat) + seq![0x2Eu8, 0x2Eu8, 0x2Eu8, 0x2Eu8] + decimal_digits(
            10 * m,
        )
    }
}

/// The progress line after `elapsed` seconds: `0`, then a tick for every full ten seconds.
pub open spec fn tick_text(elapsed: nat) -> Seq<u8> {
    seq![0x30u8] + tick_marks(elapsed / 10)
}

proof fn lemma_marks_ascii(m: nat)
    ensures
        is_ascii_bytes(tick_marks(m)),
    decreases m,
{
    if m > 0 {
        lemma_marks_ascii((m - 1) as nat);
        lemma_digits_ascii(10 * m);
    }
}

/// The progress line after `elapsed_secs` seconds (see `tick_text`).
pub fn tick_line(elapsed_secs: u64) -> (s: String)
    ensures
        s@ == ascii_chars(tick_text(elapsed_secs as nat)),
{
    let mut out: Vec<u8> = Vec::new();
    out.push(0x30);
    let ticks = elapsed_secs / 10;
    let mut k: u64 = 0;
    while k < ticks
        invariant
            k <= ticks == elapsed_secs / 10,
            out@ == seq![0x30u8] + tick_marks(k as nat),
        decreases ticks - k,
    {
        k = k + 1;
        out.push(0x2E);
        out.push(0x2E);
        out.push(0x2E);
        out.push(0x2E);
        push_decimal(&mut out, k * 10);
        assert(out@ =~= seq![0x30u8] + tick_marks(k as nat));
    }
    proof {
        lemma_marks_ascii(ticks as nat);
        assert(is_ascii_bytes(out@));
    }
    ascii_string(out.as_slice())
}

} // verus!
