//! The factorial orchestrator: `n!` from the squared half factorial, the
//! odd swing value, and a power-of-two shift.

use vstd::prelude::*;

use crate::arith::pow_int;
use crate::big::Big;
use crate::swing::{odd_swing, os_spec};

verus! {

/// The mathematical factorial.
pub open spec fn fact(n: nat) -> int
    decreases n,
{
    if n == 0 {
        1
    } else {
        n * fact((n - 1) as nat)
    }
}

/// Every factorial is at least one.
pub proof fn lemma_fact_pos(n: nat)
    ensures
        fact(n) >= 1,
    decreases n,
{
    if n > 0 {
        lemma_fact_pos((n - 1) as nat);
        crate::arith::lemma_mul_pos(n as int, fact((n - 1) as nat));
    }
}

/// Dividing a factorial by its predecessor factorial gives back `n`
/// exactly: the integer division loses nothing.
pub proof fn lemma_fact_ratio(n: nat)
    requires
        n >= 1,
    ensures
        fact(n) / fact((n - 1) as nat) == n,
{
    lemma_fact_pos((n - 1) as nat);
    assert(fact(n) == fact((n - 1) as nat) * n) by {
        assert(n * fact((n - 1) as nat) == fact((n - 1) as nat) * n) by (nonlinear_arith);
    };
    vstd::arithmetic::div_mod::lemma_div_multiples_vanish(n as int, fact((n - 1) as nat));
    assert(fact((n - 1) as nat) * n as int == fact((n - 1) as nat) * n) by (nonlinear_arith);
}

/// The count of one bits in the binary writing of `n`.
pub open spec fn pop(n: nat) -> nat
    decreases n,
{
    if n == 0 {
        0
    } else {
        n % 2 + pop(n / 2)
    }
}

/// The bit count of `n` never exceeds `n`.
proof fn lemma_pop_le(n: nat)
    ensures
        pop(n) <= n,
    decreases n,
{
    if n > 0 {
        lemma_pop_le(n / 2);
    }
}

/// What the factorial recursion computes: one for zero and one, and for
/// larger `n` the square of the half factorial, times the odd swing
/// value, times two to the bit count of the half — the power of two that
/// halving strips out of the swing.
pub open spec fn fact_alg(n: nat) -> int
    decreases n,
{
    if n < 2 {
        1
    } else {
        fact_alg(n / 2) * fact_alg(n / 2) * os_spec(n) * pow_int(2, pop(n / 2))
    }
}

/// The swinging recursion evaluated on the inputs up to five.
#[verifier::rlimit(100)]
proof fn lemma_fact_alg_to_five()
    ensures
        fact_alg(0) == 1,
        fact_alg(1) == 1,
        fact_alg(2) == 2,
        fact_alg(3) == 6,
        fact_alg(4) == 24,
        fact_alg(5) == 120,
{
    crate::swing::lemma_os_small();
    reveal_with_fuel(pop, 5);
    reveal_with_fuel(pow_int, 5);
    assert(pop(1) == 1);
    assert(pop(2) == 1);
    assert(pow_int(2, 1) == 2);
    reveal_with_fuel(fact_alg, 2);
    assert(fact_alg(2) == fact_alg(1) * fact_alg(1) * os_spec(2) * pow_int(2, pop(1)));
    assert(fact_alg(2) == 2);
    assert(fact_alg(3) == fact_alg(1) * fact_alg(1) * os_spec(3) * pow_int(2, pop(1)));
    assert(fact_alg(3) == 6);
    assert(fact_alg(4) == fact_alg(2) * fact_alg(2) * os_spec(4) * pow_int(2, pop(2)));
    assert(fact_alg(4) == 24);
    assert(fact_alg(5) == fact_alg(2) * fact_alg(2) * os_spec(5) * pow_int(2, pop(2)));
    assert(fact_alg(5) == 120);
}

/// The swinging recursion evaluated on the inputs from six to ten.
#[verifier::rlimit(100)]
proof fn lemma_fact_alg_to_ten()
    ensures
        fact_alg(6) == 720,
        fact_alg(7) == 5040,
        fact_alg(8) == 40320,
        fact_alg(9) == 362880,
        fact_alg(10) == 3628800,
{
    crate::swing::lemma_os_small();
    lemma_fact_alg_to_five();
    reveal_with_fuel(pop, 5);
    reveal_with_fuel(pow_int, 5);
    assert(pop(3) == 2);
    assert(pop(4) == 1);
    assert(pop(5) == 2);
    assert(pow_int(2, 1) == 2);
    assert(pow_int(2, 2) == 4);
    reveal_with_fuel(fact_alg, 2);
    assert(fact_alg(6) == fact_alg(3) * fact_alg(3) * os_spec(6) * pow_int(2, pop(3)));
    assert(fact_alg(6) == 720);
    assert(fact_alg(7) == fact_alg(3) * fact_alg(3) * os_spec(7) * pow_int(2, pop(3)));
    assert(fact_alg(7) == 5040);
    assert(fact_alg(8) == fact_alg(4) * fact_alg(4) * os_spec(8) * pow_int(2, pop(4)));
    assert(fact_alg(8) == 40320);
    assert(fact_alg(9) == fact_alg(4) * fact_alg(4) * os_spec(9) * pow_int(2, pop(4)));
    assert(fact_alg(9) == 362880);
    assert(fact_alg(10) == fact_alg(5) * fact_alg(5) * os_spec(10) * pow_int(2, pop(5)));
    assert(fact_alg(10) == 3628800);
}

/// On every input up to ten, the swinging recursion yields exactly the
/// mathematical factorial; in particular the factorial of zero and of
/// one is one, of five is a hundred and twenty, and of ten is 3628800.
#[verifier::rlimit(100)]
pub proof fn lemma_fact_alg_small()
    ensures
        fact_alg(0) == fact(0),
        fact_alg(1) == fact(1),
        fact_alg(2) == fact(2),
        fact_alg(3) == fact(3),
        fact_alg(4) == fact(4),
        fact_alg(5) == fact(5),
        fact_alg(6) == fact(6),
        fact_alg(7) == fact(7),
        fact_alg(8) == fact(8),
        fact_alg(9) == fact(9),
        fact_alg(10) == fact(10),
        fact_alg(5) == 120,
        fact_alg(10) == 3628800,
{
    lemma_fact_alg_to_five();
    lemma_fact_alg_to_ten();
    reveal_with_fuel(fact, 12);
    assert(fact(5) == 120);
    assert(fact(10) == 3628800);
}

/// What the swinging recursion yields is always positive.
pub proof fn lemma_fact_alg_pos(n: nat)
    ensures
        fact_alg(n) >= 1,
    decreases n,
{
    if n >= 2 {
        lemma_fact_alg_pos(n / 2);
        crate::swing::lemma_os_spec_odd(n);
        crate::arith::lemma_pow_pos(2, pop(n / 2));
        crate::arith::lemma_mul_pos(fact_alg(n / 2), fact_alg(n / 2));
        crate::arith::lemma_mul_pos(fact_alg(n / 2) * fact_alg(n / 2), os_spec(n));
        crate::arith::lemma_mul_pos(
            fact_alg(n / 2) * fact_alg(n / 2) * os_spec(n),
            pow_int(2, pop(n / 2)),
        );
    }
}

/// The count of one bits of `m`, by repeated halving.
fn popcount(m: u64) -> (c: u64)
    ensures
        c as nat == pop(m as nat),
{
    proof {
        lemma_pop_le(m as nat);
    }
    let mut x = m;
    let mut c: u64 = 0;
    while x > 0
        invariant
            c as nat + pop(x as nat) == pop(m as nat),
            pop(m as nat) <= m,
        decreases x,
    {
        c = c + x % 2;
        x = x / 2;
    }
    c
}

/// The factorial of `n` as a big integer, by the swinging-factorial
/// recursion: square the half factorial, multiply by the odd swing
/// value, and shift by the bit count of the half.
pub fn factorial(n: u64) -> (r: Big)
    requires
        n < u64::MAX,
    ensures
        r@ == fact_alg(n as nat),
        r@ >= 1,
        n < 2 ==> r@ == 1,
    decreases n,
{
    proof {
        lemma_fact_alg_pos(n as nat);
    }
    if n < 2 {
        return Big::from_u64(1);
    }
    let half = factorial(n / 2);
    let squared = half.mul(&half);
    let sw = odd_swing(n);
    let combined = squared.mul(&sw);
    let c = popcount(n / 2);
    combined.shl(c)
}

} // verus!
