//! The odd swing value: the odd part of `n! / (floor(n/2)!)^2`, computed
//! from the parity of each prime's exponent, per Legendre's formula.

use vstd::prelude::*;

use crate::arith::{lemma_mul_odd, lemma_mul_pos, lemma_pow_odd, lemma_pow_pos, pow_int};
use crate::big::Big;
use crate::primes::{has_div, is_prime, lemma_has_div_of, sieve_range};
use crate::product::{prod, prod_ints, views_of};

verus! {

broadcast use vstd::arithmetic::div_mod::lemma_div_decreases;

/// The exponent of the prime `p` in the swing factorial of `n`: the sum
/// over `i >= 1` of the parity of `n / p^i` (Legendre's formula, folded
/// down to parities).
pub open spec fn sexp(p: nat, n: nat) -> nat
    decreases n,
{
    if p < 2 || n == 0 {
        0
    } else {
        (n / p) % 2 + sexp(p, n / p)
    }
}

/// The odd swing value of `n`, restricted to primes up to `k`: the
/// product over every prime `3 <= q <= k` of `q` raised to its swing
/// exponent.
pub open spec fn os_upto(n: nat, k: nat) -> int
    decreases k,
{
    if k < 3 {
        1
    } else {
        os_upto(n, (k - 1) as nat) * (if is_prime(k) {
            pow_int(k as int, sexp(k, n))
        } else {
            1
        })
    }
}

/// The odd swing value of `n`: the product of every odd prime up to `n`
/// raised to the parity-folded exponent that Legendre's formula gives it
/// in `n! / (floor(n/2)!)^2`.
pub open spec fn os_spec(n: nat) -> int {
    os_upto(n, n)
}

/// The integers held by a sequence of small factors.
pub open spec fn ints_of(s: Seq<u64>) -> Seq<int> {
    s.map_values(|x: u64| x as int)
}

/// A swing exponent never exceeds `n`.
proof fn lemma_sexp_le(p: nat, n: nat)
    requires
        p >= 2,
    ensures
        sexp(p, n) <= n,
    decreases n,
{
    if n == 0 {
    } else {
        lemma_sexp_le(p, n / p);
        assert(n / p <= n / 2) by {
            vstd::arithmetic::div_mod::lemma_div_is_ordered_by_denominator(n as int, 2, p as int);
        };
    }
}

/// Every odd swing value is odd and positive, prefix by prefix.
proof fn lemma_os_upto_odd(n: nat, k: nat)
    ensures
        os_upto(n, k) % 2 == 1,
        os_upto(n, k) >= 1,
    decreases k,
{
    if k >= 3 {
        lemma_os_upto_odd(n, (k - 1) as nat);
        if is_prime(k) {
            assert(k % 2 == 1) by {
                if k % 2 == 0 {
                    lemma_has_div_of(k, 2, (k - 1) as nat);
                }
            };
            lemma_pow_odd(k as int, sexp(k, n));
            lemma_pow_pos(k as int, sexp(k, n));
            lemma_mul_odd(os_upto(n, (k - 1) as nat), pow_int(k as int, sexp(k, n)));
            lemma_mul_pos(os_upto(n, (k - 1) as nat), pow_int(k as int, sexp(k, n)));
        }
    }
}

/// The odd swing value of any `n` is an odd, positive integer.
pub proof fn lemma_os_spec_odd(n: nat)
    ensures
        os_spec(n) % 2 == 1,
        os_spec(n) >= 1,
{
    lemma_os_upto_odd(n, n);
}

/// A stretch free of primes does not change the prefix product.
proof fn lemma_os_upto_flat(n: nat, a: nat, b: nat)
    requires
        2 <= a <= b,
        forall|k: nat| a < k <= b ==> !is_prime(k),
    ensures
        os_upto(n, b) == os_upto(n, a),
    decreases b,
{
    if b > a {
        assert(!is_prime(b));
        lemma_os_upto_flat(n, a, (b - 1) as nat);
    }
}

/// The prime most recently folded into the running product: two before
/// any prime has been, else the `j`th prime of the window.
pub open spec fn last_done(ps: Seq<u64>, j: int) -> nat {
    if j <= 0 {
        2
    } else {
        ps[j - 1] as nat
    }
}

/// Between one window prime and the next (and beyond the last, up to
/// `n`), no number is prime.
proof fn lemma_gap_not_prime(ps: Seq<u64>, n: u64, j: int, q: u64)
    requires
        forall|i: int| #![auto] 0 <= i < ps.len() ==> is_prime(ps[i] as nat),
        forall|i: int, k: int| 0 <= i < k < ps.len() ==> ps[i] < ps[k],
        forall|p: u64| 3 <= p < n + 1 && is_prime(p as nat) ==> ps.contains(p),
        0 <= j <= ps.len(),
        last_done(ps, j) < q as nat,
        q <= n,
        j < ps.len() ==> q < ps[j],
    ensures
        !is_prime(q as nat),
{
    if is_prime(q as nat) {
        assert(ps.contains(q));
        let i = choose|i: int| 0 <= i < ps.len() && ps[i] == q;
        if j < ps.len() && i >= j {
            if i > j {
                assert(ps[j] < ps[i]);
            }
            assert(false);
        } else {
            assert(i < j);
            if i < j - 1 {
                assert(ps[i] < ps[j - 1]);
            }
            assert(false);
        }
    }
}

/// The swing exponent of the prime `p` in `n`, by repeated division.
fn swing_exp(p: u64, n: u64) -> (e: u64)
    requires
        p >= 2,
    ensures
        e as nat == sexp(p as nat, n as nat),
{
    proof {
        lemma_sexp_le(p as nat, n as nat);
    }
    let mut m = n;
    let mut e: u64 = 0;
    while m > 0
        invariant
            p >= 2,
            e as nat + sexp(p as nat, m as nat) == sexp(p as nat, n as nat),
            sexp(p as nat, n as nat) <= n,
        decreases m,
    {
        let q = m / p;
        proof {
            assert(m / p <= m / 2) by {
                vstd::arithmetic::div_mod::lemma_div_is_ordered_by_denominator(
                    m as int,
                    2,
                    p as int,
                );
            };
        }
        e = e + q % 2;
        m = q;
    }
    e
}

/// The odd swing value of `n` as a big integer, by sieving the window
/// `[3, n + 1)` and folding in each prime's parity exponent, the factors
/// multiplied by balanced binary splitting.
pub fn odd_swing(n: u64) -> (r: Big)
    requires
        n < u64::MAX,
    ensures
        r@ == os_spec(n as nat),
        r@ % 2 == 1,
        r@ >= 1,
        n == 0 ==> r@ == 1,
{
    proof {
        lemma_os_spec_odd(n as nat);
        assert(os_spec(0) == 1);
    }
    if n < SWING_TABLE_LIMIT {
        return Big::from_u64(odd_swing_table(n));
    }
    let primes = sieve_range(3, n + 1);
    let mut factors: Vec<u64> = Vec::new();
    let mut j: usize = 0;
    while j < primes.len()
        invariant
            0 <= j <= primes@.len(),
            2 <= n < u64::MAX,
            forall|i: int| #![auto] 0 <= i < primes@.len() ==> is_prime(primes@[i] as nat),
            forall|i: int| 0 <= i < primes@.len() ==> 3 <= #[trigger] primes@[i] < n + 1,
            forall|i: int, k: int| 0 <= i < k < primes@.len() ==> primes@[i] < primes@[k],
            forall|p: u64| 3 <= p < n + 1 && is_prime(p as nat) ==> primes@.contains(p),
            prod_ints(ints_of(factors@)) == os_upto(n as nat, last_done(primes@, j as int)),
        decreases primes@.len() - j,
    {
        let p = primes[j];
        proof {
            assert forall|k: nat| last_done(primes@, j as int) < k <= (p - 1) as nat implies
                !is_prime(k) by {
                lemma_gap_not_prime(primes@, n, j as int, k as u64);
            };
            lemma_os_upto_flat(n as nat, last_done(primes@, j as int), (p - 1) as nat);
        }
        let e = swing_exp(p, n);
        let mut t: u64 = 0;
        while t < e
            invariant
                t <= e,
                2 <= n < u64::MAX,
                0 <= j < primes@.len(),
                p == primes@[j as int],
                3 <= p,
                is_prime(p as nat),
                e as nat == sexp(p as nat, n as nat),
                prod_ints(ints_of(factors@)) == os_upto(n as nat, (p - 1) as nat) * pow_int(
                    p as int,
                    t as nat,
                ),
            decreases e - t,
        {
            let ghost oldf = factors@;
            factors.push(p);
            proof {
                assert(ints_of(factors@).drop_last() =~= ints_of(oldf));
                assert(ints_of(factors@).last() == p as int);
                let a = os_upto(n as nat, (p - 1) as nat);
                let w = pow_int(p as int, t as nat);
                assert(pow_int(p as int, (t + 1) as nat) == p as int * w);
                assert(a * w * p as int == a * (p as int * w)) by (nonlinear_arith);
            }
            t = t + 1;
        }
        proof {
            assert(os_upto(n as nat, p as nat) == os_upto(n as nat, (p - 1) as nat) * pow_int(
                p as int,
                sexp(p as nat, n as nat),
            ));
        }
        j = j + 1;
    }
    proof {
        let last = last_done(primes@, primes@.len() as int);
        assert forall|k: nat| last < k <= n as nat implies !is_prime(k) by {
            lemma_gap_not_prime(primes@, n, primes@.len() as int, k as u64);
        };
        assert(last <= n) by {
            if primes@.len() > 0 {
                assert(primes@[primes@.len() - 1] < n + 1);
            }
        };
        lemma_os_upto_flat(n as nat, last, n as nat);
    }
    let mut bigs: Vec<Big> = Vec::new();
    let mut i: usize = 0;
    while i < factors.len()
        invariant
            0 <= i <= factors@.len(),
            bigs@.len() == i,
            forall|k: int| 0 <= k < i ==> #[trigger] bigs@[k]@ == factors@[k] as int,
            prod_ints(ints_of(factors@)) == os_spec(n as nat),
        decreases factors@.len() - i,
    {
        bigs.push(Big::from_u64(factors[i]));
        i = i + 1;
    }
    proof {
        assert(views_of(bigs@) =~= ints_of(factors@));
    }
    prod(bigs.as_slice())
}

/// Below this value the odd swing comes from the lookup table.
pub const SWING_TABLE_LIMIT: u64 = 8;

/// The primality of each number that the table proofs fold over.
proof fn lemma_small_primality()
    ensures
        is_prime(3),
        !is_prime(4),
        is_prime(5),
        !is_prime(6),
        is_prime(7),
        !is_prime(8),
        !is_prime(9),
        !is_prime(10),
{
    assert(is_prime(3)) by { reveal_with_fuel(has_div, 8); };
    assert(!is_prime(4)) by { reveal_with_fuel(has_div, 8); };
    assert(is_prime(5)) by { reveal_with_fuel(has_div, 8); };
    assert(!is_prime(6)) by { reveal_with_fuel(has_div, 8); };
    assert(is_prime(7)) by { reveal_with_fuel(has_div, 8); };
    assert(!is_prime(8)) by { reveal_with_fuel(has_div, 8); };
    assert(!is_prime(9)) by { reveal_with_fuel(has_div, 9); };
    assert(!is_prime(10)) by { reveal_with_fuel(has_div, 10); };
}

/// The odd swing values below the table threshold, evaluated from the
/// definition prime by prime.
#[verifier::rlimit(100)]
pub(crate) proof fn lemma_os_small()
    ensures
        os_spec(0) == 1,
        os_spec(1) == 1,
        os_spec(2) == 1,
        os_spec(3) == 3,
        os_spec(4) == 3,
        os_spec(5) == 15,
        os_spec(6) == 5,
        os_spec(7) == 35,
        os_spec(8) == 35,
        os_spec(9) == 315,
        os_spec(10) == 63,
{
    lemma_small_primality();
    reveal_with_fuel(sexp, 4);
    reveal_with_fuel(pow_int, 4);
    assert(os_upto(0, 0) == 1) by { reveal_with_fuel(os_upto, 1); };
    assert(os_upto(1, 1) == 1) by { reveal_with_fuel(os_upto, 1); };
    assert(os_upto(2, 2) == 1) by { reveal_with_fuel(os_upto, 1); };
    assert(sexp(3, 3) == 1);
    assert(os_upto(3, 3) == 3) by { reveal_with_fuel(os_upto, 2); };
    assert(sexp(3, 4) == 1);
    assert(os_upto(4, 3) == 3) by { reveal_with_fuel(os_upto, 2); };
    assert(os_upto(4, 4) == 3) by { reveal_with_fuel(os_upto, 2); };
    assert(sexp(3, 5) == 1);
    assert(sexp(5, 5) == 1);
    assert(os_upto(5, 3) == 3) by { reveal_with_fuel(os_upto, 2); };
    assert(os_upto(5, 4) == 3) by { reveal_with_fuel(os_upto, 2); };
    assert(os_upto(5, 5) == 15) by { reveal_with_fuel(os_upto, 2); };
    assert(sexp(3, 6) == 0);
    assert(sexp(5, 6) == 1);
    assert(os_upto(6, 3) == 1) by { reveal_with_fuel(os_upto, 2); };
    assert(os_upto(6, 4) == 1) by { reveal_with_fuel(os_upto, 2); };
    assert(os_upto(6, 5) == 5) by { reveal_with_fuel(os_upto, 2); };
    assert(os_upto(6, 6) == 5) by { reveal_with_fuel(os_upto, 2); };
    assert(sexp(3, 7) == 0);
    assert(sexp(5, 7) == 1);
    assert(sexp(7, 7) == 1);
    assert(os_upto(7, 3) == 1) by { reveal_with_fuel(os_upto, 2); };
    assert(os_upto(7, 4) == 1) by { reveal_with_fuel(os_upto, 2); };
    assert(os_upto(7, 5) == 5) by { reveal_with_fuel(os_upto, 2); };
    assert(os_upto(7, 6) == 5) by { reveal_with_fuel(os_upto, 2); };
    assert(os_upto(7, 7) == 35) by { reveal_with_fuel(os_upto, 2); };
    assert(sexp(3, 8) == 0);
    assert(sexp(5, 8) == 1);
    assert(sexp(7, 8) == 1);
    assert(os_upto(8, 3) == 1) by { reveal_with_fuel(os_upto, 2); };
    assert(os_upto(8, 4) == 1) by { reveal_with_fuel(os_upto, 2); };
    assert(os_upto(8, 5) == 5) by { reveal_with_fuel(os_upto, 2); };
    assert(os_upto(8, 6) == 5) by { reveal_with_fuel(os_upto, 2); };
    assert(os_upto(8, 7) == 35) by { reveal_with_fuel(os_upto, 2); };
    assert(os_upto(8, 8) == 35) by { reveal_with_fuel(os_upto, 2); };
    assert(sexp(3, 9) == 2);
    assert(pow_int(3, 2) == 9);
    assert(sexp(5, 9) == 1);
    assert(sexp(7, 9) == 1);
    assert(os_upto(9, 3) == 9) by { reveal_with_fuel(os_upto, 2); };
    assert(os_upto(9, 4) == 9) by { reveal_with_fuel(os_upto, 2); };
    assert(os_upto(9, 5) == 45) by { reveal_with_fuel(os_upto, 2); };
    assert(os_upto(9, 6) == 45) by { reveal_with_fuel(os_upto, 2); };
    assert(os_upto(9, 7) == 315) by { reveal_with_fuel(os_upto, 2); };
    assert(os_upto(9, 8) == 315) by { reveal_with_fuel(os_upto, 2); };
    assert(os_upto(9, 9) == 315) by { reveal_with_fuel(os_upto, 2); };
    assert(sexp(3, 10) == 2);
    assert(sexp(5, 10) == 0);
    assert(sexp(7, 10) == 1);
    assert(os_upto(10, 3) == 9) by { reveal_with_fuel(os_upto, 2); };
    assert(os_upto(10, 4) == 9) by { reveal_with_fuel(os_upto, 2); };
    assert(os_upto(10, 5) == 9) by { reveal_with_fuel(os_upto, 2); };
    assert(os_upto(10, 6) == 9) by { reveal_with_fuel(os_upto, 2); };
    assert(os_upto(10, 7) == 63) by { reveal_with_fuel(os_upto, 2); };
    assert(os_upto(10, 8) == 63) by { reveal_with_fuel(os_upto, 2); };
    assert(os_upto(10, 9) == 63) by { reveal_with_fuel(os_upto, 2); };
    assert(os_upto(10, 10) == 63) by { reveal_with_fuel(os_upto, 2); };
}

/// The odd swing values below the table threshold, as constant lookup
/// data: entry `n` holds the odd swing value of `n`.
fn odd_swing_table(n: u64) -> (r: u64)
    requires
        n < SWING_TABLE_LIMIT,
    ensures
        r as int == os_spec(n as nat),
{
    proof {
        lemma_os_small();
    }
    if n == 0 {
        1
    } else if n == 1 {
        1
    } else if n == 2 {
        1
    } else if n == 3 {
        3
    } else if n == 4 {
        3
    } else if n == 5 {
        15
    } else if n == 6 {
        5
    } else {
        35
    }
}

} // verus!
