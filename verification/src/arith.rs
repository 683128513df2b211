//! Small arithmetic spec functions and lemmas shared by the other modules.

use vstd::prelude::*;

verus! {

/// `b` raised to the power `e`.
pub open spec fn pow_int(b: int, e: nat) -> int
    decreases e,
{
    if e == 0 {
        1
    } else {
        b * pow_int(b, (e - 1) as nat)
    }
}

/// A power of a positive base is positive.
pub proof fn lemma_pow_pos(b: int, e: nat)
    requires
        b >= 1,
    ensures
        pow_int(b, e) >= 1,
    decreases e,
{
    if e > 0 {
        lemma_pow_pos(b, (e - 1) as nat);
        assert(b * pow_int(b, (e - 1) as nat) >= 1) by (nonlinear_arith)
            requires
                b >= 1,
                pow_int(b, (e - 1) as nat) >= 1,
        ;
    }
}

/// A power of an odd base is odd.
pub proof fn lemma_pow_odd(b: int, e: nat)
    requires
        b % 2 == 1,
    ensures
        pow_int(b, e) % 2 == 1,
    decreases e,
{
    if e > 0 {
        lemma_pow_odd(b, (e - 1) as nat);
        lemma_mul_odd(b, pow_int(b, (e - 1) as nat));
    }
}

/// A product of two odd numbers is odd.
pub proof fn lemma_mul_odd(a: int, b: int)
    requires
        a % 2 == 1,
        b % 2 == 1,
    ensures
        (a * b) % 2 == 1,
{
    let x = a / 2;
    let y = b / 2;
    vstd::arithmetic::div_mod::lemma_fundamental_div_mod(a, 2);
    vstd::arithmetic::div_mod::lemma_fundamental_div_mod(b, 2);
    assert(a * b == 2 * (2 * x * y + x + y) + 1) by (nonlinear_arith)
        requires
            a == 2 * x + 1,
            b == 2 * y + 1,
    ;
    let t = 2 * x * y + x + y;
    vstd::arithmetic::div_mod::lemma_mod_multiples_vanish(t, 1, 2);
}

/// A product of two positive numbers is positive.
pub proof fn lemma_mul_pos(a: int, b: int)
    requires
        a >= 1,
        b >= 1,
    ensures
        a * b >= 1,
{
    assert(a * b >= 1) by (nonlinear_arith)
        requires
            a >= 1,
            b >= 1,
    ;
}

} // verus!
