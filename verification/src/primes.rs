//! Prime enumeration over a half-open window `[lower, upper)`: a mark
//! table for the window is swept once for every small divisor, and the
//! unmarked entries are exactly the primes.

use vstd::prelude::*;

verus! {

broadcast use vstd::arithmetic::div_mod::lemma_div_is_ordered;

/// Whether `n` has a divisor `d` with `2 <= d <= b`.
pub open spec fn has_div(n: nat, b: nat) -> bool
    decreases b,
{
    if b < 2 {
        false
    } else {
        n % b == 0 || has_div(n, (b - 1) as nat)
    }
}

/// Whether `n` is prime: at least two, with no divisor strictly between
/// one and itself.
pub open spec fn is_prime(n: nat) -> bool {
    n >= 2 && !has_div(n, (n - 1) as nat)
}

/// Whether the window sweep up to the divisor bound `dbound` writes a
/// mark at `x`: some divisor below the bound times some cofactor of at
/// least two reaches `x`.
pub open spec fn win_marked(x: nat, dbound: nat) -> bool {
    exists|dd: nat, k: nat| 2 <= dd < dbound && 2 <= k && x == #[trigger] (dd * k)
}

/// A divisor within the bound makes `has_div` true.
pub proof fn lemma_has_div_of(n: nat, d: nat, b: nat)
    requires
        2 <= d <= b,
        n % d == 0,
    ensures
        has_div(n, b),
    decreases b,
{
    if d < b {
        lemma_has_div_of(n, d, (b - 1) as nat);
    }
}

/// `has_div` always comes from a concrete divisor.
pub proof fn lemma_has_div_witness(n: nat, b: nat) -> (d: nat)
    requires
        has_div(n, b),
    ensures
        2 <= d <= b,
        n % d == 0,
    decreases b,
{
    if b >= 2 && n % b == 0 {
        b
    } else {
        lemma_has_div_witness(n, (b - 1) as nat)
    }
}

/// A composite number has a factor no larger than its square root, with
/// a cofactor of at least two.
proof fn lemma_small_factor(x: nat) -> (a: nat)
    requires
        x >= 2,
        has_div(x, (x - 1) as nat),
    ensures
        2 <= a,
        a * a <= x,
        2 <= x / a,
        x == a * (x / a),
{
    let w = lemma_has_div_witness(x, (x - 1) as nat);
    let c = x / w;
    vstd::arithmetic::div_mod::lemma_fundamental_div_mod(x as int, w as int);
    assert(x as int == w as int * c as int);
    assert(c >= 2) by (nonlinear_arith)
        requires
            x as int == w as int * c as int,
            2 <= w as int <= x as int - 1,
            x >= 2,
            c >= 0,
    ;
    if w * w <= x {
        w
    } else {
        assert(c * c <= x && c <= x - 1) by (nonlinear_arith)
            requires
                x as int == w as int * c as int,
                w * w > x,
                2 <= w,
                2 <= c,
        ;
        assert(x as nat % c == 0) by {
            vstd::arithmetic::div_mod::lemma_mod_multiples_basic(w as int, c as int);
        };
        vstd::arithmetic::div_mod::lemma_fundamental_div_mod(x as int, c as int);
        assert(x as int == c as int * (x as nat / c) as int);
        assert(x / c == w) by (nonlinear_arith)
            requires
                x as int == w as int * c as int,
                x as int == c as int * (x as nat / c) as int,
                c >= 2,
        ;
        c
    }
}

/// A product of a divisor and a cofactor, both at least two, is no
/// prime.
proof fn lemma_product_not_prime(x: nat, dd: nat, k: nat)
    requires
        2 <= dd,
        2 <= k,
        x == dd * k,
    ensures
        !is_prime(x),
{
    assert(x as nat % dd == 0) by {
        assert(x as int == k as int * dd as int) by (nonlinear_arith)
            requires
                x == dd * k,
        ;
        vstd::arithmetic::div_mod::lemma_mod_multiples_basic(k as int, dd as int);
    };
    assert(4 <= x && dd <= x - 1) by (nonlinear_arith)
        requires
            x == dd * k,
            2 <= dd,
            2 <= k,
    ;
    lemma_has_div_of(x, dd, (x - 1) as nat);
}

/// Raising the divisor bound by one adds exactly the multiples of the
/// old bound with a cofactor of at least two.
proof fn lemma_win_marked_step(x: nat, d: nat)
    requires
        2 <= d,
    ensures
        win_marked(x, (d + 1) as nat) <==> (win_marked(x, d) || (x % d == 0 && 2 * d <= x)),
{
    if win_marked(x, (d + 1) as nat) {
        let (dd, k) = choose|dd: nat, k: nat| 2 <= dd < d + 1 && 2 <= k && x == #[trigger] (dd
            * k);
        if dd == d {
            assert(x == d * k);
            assert(x % d == 0) by {
                assert(x as int == k as int * d as int) by (nonlinear_arith)
                    requires
                        x == d * k,
                ;
                vstd::arithmetic::div_mod::lemma_mod_multiples_basic(k as int, d as int);
            };
            assert(2 * d <= x) by (nonlinear_arith)
                requires
                    x == d * k,
                    2 <= k,
                    2 <= d,
            ;
        }
    }
    if x % d == 0 && 2 * d <= x {
        let k = x / d;
        vstd::arithmetic::div_mod::lemma_fundamental_div_mod(x as int, d as int);
        assert(x == d * k);
        assert((2 * d) as int / d as int <= x as int / d as int);
        assert((d as int * 2) / d as int == 2) by {
            vstd::arithmetic::div_mod::lemma_div_multiples_vanish(2, d as int);
        };
        assert(2 <= k);
    }
}

/// Two distinct multiples of `d` lie at least `d` apart.
proof fn lemma_multiple_gap(m: nat, x: nat, d: nat)
    requires
        1 <= d,
        m % d == 0,
        x % d == 0,
        m < x,
    ensures
        x >= m + d,
{
    vstd::arithmetic::div_mod::lemma_fundamental_div_mod(m as int, d as int);
    vstd::arithmetic::div_mod::lemma_fundamental_div_mod(x as int, d as int);
    assert(x >= m + d) by (nonlinear_arith)
        requires
            m as int == d as int * (m as nat / d) as int,
            x as int == d as int * (x as nat / d) as int,
            (m as nat / d) as int <= (x as nat / d) as int,
            m < x,
            1 <= d,
    ;
}

/// All primes `p` with `lower <= p < upper`, in increasing order: a
/// windowed sieve that marks, for every divisor up to the square root of
/// the window's end, each of its multiples inside the window.
///
/// The result holds primes only, within the window, strictly ascending,
/// and misses no prime of the window.
#[verifier::rlimit(100)]
pub fn sieve_range(lower: u64, upper: u64) -> (r: Vec<u64>)
    requires
        lower <= upper,
    ensures
        forall|i: int| #![auto] 0 <= i < r@.len() ==> is_prime(r@[i] as nat),
        forall|i: int| 0 <= i < r@.len() ==> lower <= #[trigger] r@[i] < upper,
        forall|i: int, j: int| 0 <= i < j < r@.len() ==> r@[i] < r@[j],
        forall|p: u64| lower <= p < upper && is_prime(p as nat) ==> r@.contains(p),
{
    if upper < 2 {
        return Vec::new();
    }
    let mut marks: Vec<bool> = Vec::new();
    let mut i: u64 = lower;
    while i < upper
        invariant
            lower <= i <= upper,
            marks@.len() == i - lower,
            forall|t: int| 0 <= t < marks@.len() ==> marks@[t] == false,
        decreases upper - i,
    {
        marks.push(false);
        i = i + 1;
    }
    let wlen = marks.len();
    let mut d: u64 = 2;
    while d <= (upper - 1) / d
        invariant
            2 <= d,
            2 <= upper,
            lower <= upper,
            marks@.len() == upper - lower,
            wlen == marks@.len(),
            forall|x: u64|
                lower <= x < upper ==> (marks@[x - lower] <==> #[trigger] win_marked(
                    x as nat,
                    d as nat,
                )),
        decreases upper - d,
    {
        proof {
            vstd::arithmetic::div_mod::lemma_fundamental_div_mod(upper as int - 1, d as int);
            assert(d * d <= upper - 1) by (nonlinear_arith)
                requires
                    upper as int - 1 == d as int * ((upper - 1) as nat / d as nat) as int + (
                    upper as int - 1) % d as int,
                    d as int <= ((upper - 1) as nat / d as nat) as int,
                    0 <= (upper as int - 1) % d as int,
                    2 <= d,
            ;
            assert(2 * d <= d * d) by (nonlinear_arith)
                requires
                    2 <= d,
            ;
        }
        // the first multiple of d inside the window whose cofactor is at
        // least two
        let q = lower / d;
        let rem = lower % d;
        proof {
            vstd::arithmetic::div_mod::lemma_fundamental_div_mod(lower as int, d as int);
            assert(q as u128 * (d as u128) <= lower as u128) by (nonlinear_arith)
                requires
                    lower as int == d as int * q as int + rem as int,
                    0 <= rem,
                    q == lower as u128 / d as u128,
                    q as int == lower as int / d as int,
            ;
        }
        let next128: u128 = if rem == 0 {
            lower as u128
        } else {
            (q as u128) * (d as u128) + (d as u128)
        };
        let two_d: u64 = 2 * d;
        let start128: u128 = if next128 < two_d as u128 {
            two_d as u128
        } else {
            next128
        };
        proof {
            if rem != 0 {
                assert(next128 == d as int * (q as int + 1)) by (nonlinear_arith)
                    requires
                        next128 as int == q as int * d as int + d as int,
                ;
            }
            // the start is a multiple of d
            assert(next128 as int % d as int == 0) by {
                if rem == 0 {
                    assert(lower as int == d as int * q as int);
                    vstd::arithmetic::div_mod::lemma_mod_multiples_basic(q as int, d as int);
                    assert(lower as int == q as int * d as int) by (nonlinear_arith)
                        requires
                            lower as int == d as int * q as int,
                    ;
                } else {
                    vstd::arithmetic::div_mod::lemma_mod_multiples_basic(
                        q as int + 1,
                        d as int,
                    );
                    assert(d as int * (q as int + 1) == (q as int + 1) * d as int)
                        by (nonlinear_arith);
                }
            };
            assert(two_d as int % d as int == 0) by {
                vstd::arithmetic::div_mod::lemma_mod_multiples_basic(2, d as int);
                assert(d as int * 2 == 2 * d as int) by (nonlinear_arith);
            };
            // the start lies at or beyond the window's lower edge
            assert(lower as u128 <= next128) by {
                if rem != 0 {
                    assert(lower as int == d as int * q as int + rem as int);
                    assert(next128 as int == q as int * d as int + d as int);
                    assert(d as int * q as int == q as int * d as int) by (nonlinear_arith);
                    assert(rem < d);
                }
            };
            // every window multiple of d with cofactor at least two lies
            // at or beyond the start
            assert forall|x: u64|
                lower <= x < upper && #[trigger] (x % d) == 0 && 2 * d <= x implies start128
                <= x as u128 by {
                vstd::arithmetic::div_mod::lemma_fundamental_div_mod(x as int, d as int);
                let xq = x as nat / d as nat;
                if rem != 0 {
                    assert(q as int <= xq as int);
                    if q as nat == xq {
                        assert(false) by (nonlinear_arith)
                            requires
                                x as int == d as int * q as int,
                                lower as int == d as int * q as int + rem as int,
                                0 < rem,
                                lower <= x,
                        ;
                    }
                    assert(q as int + 1 <= xq as int);
                    assert(d as int * (q as int + 1) <= d as int * xq as int)
                        by (nonlinear_arith)
                        requires
                            q as int + 1 <= xq as int,
                            2 <= d,
                    ;
                    assert(next128 <= x as u128);
                } else {
                    assert(next128 <= x as u128);
                }
                assert(two_d as u128 <= x as u128);
            };
        }
        if start128 < upper as u128 {
            let mut m: u64 = start128 as u64;
            while m < upper
                invariant
                    2 <= d,
                    2 <= upper,
                    lower <= upper,
                    2 * d == two_d,
                    marks@.len() == upper - lower,
                    wlen == marks@.len(),
                    lower <= m,
                    two_d <= m,
                    m < upper ==> m % d == 0,
                    forall|x: u64|
                        lower <= x < upper ==> (marks@[x - lower] <==> (#[trigger] win_marked(
                            x as nat,
                            d as nat,
                        ) || (x % d == 0 && 2 * d <= x && x < m))),
                decreases upper - m,
            {
                let ghost pre = marks@;
                let idx: usize = (m - lower) as usize;
                marks[idx] = true;
                let old_m = m;
                if m < upper - d {
                    m = m + d;
                    proof {
                        vstd::arithmetic::div_mod::lemma_fundamental_div_mod(
                            old_m as int,
                            d as int,
                        );
                        let mk = old_m as nat / d as nat;
                        assert(m as int == d as int * (mk as int + 1)) by (nonlinear_arith)
                            requires
                                m as int == old_m as int + d as int,
                                old_m as int == d as int * mk as int,
                        ;
                        vstd::arithmetic::div_mod::lemma_mod_multiples_basic(
                            mk as int + 1,
                            d as int,
                        );
                        assert(d as int * (mk as int + 1) == (mk as int + 1) * d as int)
                            by (nonlinear_arith);
                        assert(m % d == 0);
                    }
                } else {
                    m = upper;
                }
                proof {
                    assert(marks@ == pre.update(idx as int, true));
                    assert(m <= old_m + d);
                    assert forall|x: u64| lower <= x < upper implies (marks@[x - lower] <==> (
                    #[trigger] win_marked(x as nat, d as nat) || (x % d == 0 && 2 * d <= x && x
                        < m))) by {
                        if x == old_m {
                            assert(marks@[x - lower]);
                            assert(x % d == 0);
                            assert(2 * d <= x);
                            assert(x < m);
                            assert(marks@[x - lower] <==> (win_marked(x as nat, d as nat) || (
                            x % d == 0 && 2 * d <= x && x < m)));
                        } else {
                            assert(x - lower != idx as int);
                            assert(marks@[x - lower] == pre[x - lower]);
                            assert(pre[x - lower] <==> (win_marked(x as nat, d as nat) || (x % d
                                == 0 && 2 * d <= x && x < old_m)));
                            assert(old_m < m);
                            if pre[x - lower] {
                                assert(win_marked(x as nat, d as nat) || (x % d == 0 && 2 * d
                                    <= x && x < old_m));
                            }
                            if x % d == 0 && 2 * d <= x && old_m < x && x < m {
                                lemma_multiple_gap(old_m as nat, x as nat, d as nat);
                            }
                            assert(marks@[x - lower] <==> (win_marked(x as nat, d as nat) || (
                            x % d == 0 && 2 * d <= x && x < m)));
                        }
                    };
                }
            }
            proof {
                assert forall|x: u64| lower <= x < upper implies (marks@[x - lower] <==>
                #[trigger] win_marked(x as nat, (d + 1) as nat)) by {
                    lemma_win_marked_step(x as nat, d as nat);
                    assert(upper <= m);
                    assert(x < m);
                    assert(marks@[x - lower] <==> (win_marked(x as nat, d as nat) || (x % d
                        == 0 && 2 * d <= x && x < m)));
                };
            }
        } else {
            proof {
                assert forall|x: u64| lower <= x < upper implies (marks@[x - lower] <==>
                #[trigger] win_marked(x as nat, (d + 1) as nat)) by {
                    lemma_win_marked_step(x as nat, d as nat);
                    if x % d == 0 && 2 * d <= x {
                        assert(start128 <= x as u128);
                        assert(false);
                    }
                };
            }
        }
        let ghost d_prev = d;
        d = d + 1;
        proof {
            assert forall|x: u64| lower <= x < upper implies (marks@[x - lower] <==>
            #[trigger] win_marked(x as nat, d as nat)) by {
                assert(marks@[x - lower] <==> win_marked(x as nat, (d_prev + 1) as nat));
                assert(d as nat == (d_prev + 1) as nat);
            };
        }
    }
    let ghost dfin = d;
    proof {
        vstd::arithmetic::div_mod::lemma_fundamental_div_mod(upper as int - 1, dfin as int);
        assert(dfin * dfin > upper - 1) by (nonlinear_arith)
            requires
                upper as int - 1 == dfin as int * ((upper - 1) as nat / dfin as nat) as int + (
                upper as int - 1) % dfin as int,
                dfin as int > ((upper - 1) as nat / dfin as nat) as int,
                ((upper as int - 1) % (dfin as int)) < dfin as int,
                2 <= dfin,
        ;
    }
    let mut r: Vec<u64> = Vec::new();
    let mut x = lower;
    while x < upper
        invariant
            lower <= x <= upper,
            2 <= upper,
            marks@.len() == upper - lower,
            wlen == marks@.len(),
            dfin * dfin > upper - 1,
            2 <= dfin,
            forall|y: u64|
                lower <= y < upper ==> (marks@[y - lower] <==> #[trigger] win_marked(
                    y as nat,
                    dfin as nat,
                )),
            forall|i: int| #![auto] 0 <= i < r@.len() ==> is_prime(r@[i] as nat),
            forall|i: int| 0 <= i < r@.len() ==> lower <= #[trigger] r@[i] < x,
            forall|i: int, j: int| 0 <= i < j < r@.len() ==> r@[i] < r@[j],
            forall|p: u64| lower <= p < x && is_prime(p as nat) ==> r@.contains(p),
        decreases upper - x,
    {
        let idx: usize = (x - lower) as usize;
        if x >= 2 && !marks[idx] {
            proof {
                if !is_prime(x as nat) {
                    let a = lemma_small_factor(x as nat);
                    assert(a < dfin) by (nonlinear_arith)
                        requires
                            a * a <= x,
                            x <= upper - 1,
                            dfin * dfin > upper - 1,
                            2 <= a,
                            2 <= dfin,
                    ;
                    assert(x as nat == a * (x as nat / a));
                    assert(win_marked(x as nat, dfin as nat));
                    assert(false);
                }
            }
            let ghost old_r = r@;
            r.push(x);
            proof {
                assert(r@ == old_r.push(x));
                assert forall|p: u64| lower <= p < x + 1 && is_prime(p as nat) implies r@.contains(
                    p,
                ) by {
                    if p < x {
                        let i = choose|i: int| 0 <= i < old_r.len() && old_r[i] == p;
                        assert(r@[i] == p);
                    } else {
                        assert(r@[old_r.len() as int] == x);
                    }
                };
            }
        } else {
            proof {
                if x >= 2 {
                    assert(win_marked(x as nat, dfin as nat));
                    let (dd, k) = choose|dd: nat, k: nat|
                        2 <= dd < dfin as nat && 2 <= k && x as nat == #[trigger] (dd * k);
                    lemma_product_not_prime(x as nat, dd, k);
                }
            }
        }
        x = x + 1;
    }
    r
}

/// How a sieve request can fail.
#[derive(Clone, Copy, PartialEq, Eq, Structural, Debug)]
pub enum SieveError {
    /// The window's upper bound lies below its lower bound.
    InvalidRange,
}

/// All primes `p` with `lower <= p < upper`, ascending; rejects a window
/// whose upper bound lies below its lower bound.
pub fn erasthotenes(lower: u64, upper: u64) -> (r: Result<Vec<u64>, SieveError>)
    ensures
        r is Ok <==> lower <= upper,
        r is Err ==> r->Err_0 == SieveError::InvalidRange,
        r is Ok ==> forall|i: int| #![auto]
            0 <= i < r->Ok_0@.len() ==> is_prime(r->Ok_0@[i] as nat),
        r is Ok ==> forall|i: int|
            0 <= i < r->Ok_0@.len() ==> lower <= #[trigger] r->Ok_0@[i] < upper,
        r is Ok ==> forall|i: int, j: int|
            0 <= i < j < r->Ok_0@.len() ==> r->Ok_0@[i] < r->Ok_0@[j],
        r is Ok ==> forall|p: u64|
            lower <= p < upper && is_prime(p as nat) ==> r->Ok_0@.contains(p),
        lower == upper ==> r is Ok && r->Ok_0@.len() == 0,
{
    if upper < lower {
        return Err(SieveError::InvalidRange);
    }
    let v = sieve_range(lower, upper);
    proof {
        if lower == upper && v@.len() > 0 {
            assert(lower <= v@[0] < upper);
        }
    }
    Ok(v)
}

} // verus!
