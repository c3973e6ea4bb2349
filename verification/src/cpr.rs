//! Integer arithmetic of CPR position decoding.
use vstd::prelude::*;

verus! {

/// The magnitude of an integer.
pub open spec fn magnitude(a: int) -> int {
    if a >= 0 {
        a
    } else {
        -a
    }
}

/// The remainder of `a / b` as machine division leaves it: the remainder of the magnitudes,
/// with the sign of `a`.
pub open spec fn trunc_rem(a: int, b: int) -> int {
    if a >= 0 {
        magnitude(a) % magnitude(b)
    } else {
        -(magnitude(a) % magnitude(b))
    }
}

/// The CPR modulo: the machine remainder, moved up by `b` when negative.
pub open spec fn cpr_mod(a: int, b: int) -> int {
    if trunc_rem(a, b) < 0 {
        trunc_rem(a, b) + b
    } else {
        trunc_rem(a, b)
    }
}

/// Always-positive modulo for a positive divisor (for a negative one the negative remainder
/// is moved by `b`), as CPR decoding uses it.
pub fn cpr_mod_int(a: i32, b: i32) -> (r: i32)
    requires
        b != 0,
        !(a == i32::MIN && b == -1),
        trunc_rem(a as int, b as int) < 0 ==> i32::MIN <= trunc_rem(a as int, b as int) + b,
    ensures
        r == cpr_mod(a as int, b as int),
{
    let n: u32 = if a >= 0 {
        a as u32
    } else {
        (0i64 - a as i64) as u32
    };
    let m: u32 = if b >= 0 {
        b as u32
    } else {
        (0i64 - b as i64) as u32
    };
    let rem = n % m;
    assert(rem < m);
    let r: i32 = if a >= 0 {
        rem as i32
    } else {
        -(rem as i32)
    };
    if r < 0 {
        r + b
    } else {
        r
    }
}

/// For a positive divisor the CPR modulo is the mathematical remainder: between 0 and
/// `b - 1`, and congruent to `a`.
pub proof fn lemma_cpr_mod_positive(a: int, b: int)
    requires
        b > 0,
    ensures
        0 <= cpr_mod(a, b) < b,
        cpr_mod(a, b) == a % b,
{
    let n = magnitude(a);
    let q = n / b;
    let rr = n % b;
    vstd::arithmetic::div_mod::lemma_fundamental_div_mod(n, b);
    vstd::arithmetic::div_mod::lemma_mod_bound(n, b);
    if a >= 0 {
    } else if rr == 0 {
        assert(a == (-q) * b + 0) by (nonlinear_arith)
            requires
                n == b * q + rr,
                rr == 0,
                a == -n,
        ;
        vstd::arithmetic::div_mod::lemma_fundamental_div_mod_converse_mod(a, b, -q, 0);
    } else {
        assert(a == (-q - 1) * b + (b - rr)) by (nonlinear_arith)
            requires
                n == b * q + rr,
                a == -n,
        ;
        vstd::arithmetic::div_mod::lemma_fundamental_div_mod_converse_mod(a, b, -q - 1, b - rr);
    }
}

} // verus!
