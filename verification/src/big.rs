//! The arbitrary-precision integer used by the factorial pipeline.
//!
//! The big-integer arithmetic itself is done by an outside crate; this
//! module gives each value a mathematical reading (the integer it holds)
//! and states what each outside operation does to that reading.
//! Everything built on top is verified against those statements.

use vstd::prelude::*;

use crate::arith::pow_int;

verus! {

#[verifier::external_type_specification]
#[verifier::external_body]
pub struct ExBigInt(num_bigint::BigInt);

/// The integer that an outside arbitrary-precision value holds.
pub uninterp spec fn big_value(b: num_bigint::BigInt) -> int;

/// An arbitrary-precision integer. Its view is the integer it holds.
pub struct Big {
    pub(crate) inner: num_bigint::BigInt,
}

impl View for Big {
    type V = int;

    closed spec fn view(&self) -> int {
        big_value(self.inner)
    }
}

impl Big {
    /// Relies on `num_bigint::BigInt`'s `From<u64>`: the new value holds
    /// exactly the given number.
    #[verifier::external_body]
    pub fn from_u64(x: u64) -> (r: Big)
        ensures
            r@ == x as int,
    {
        Big { inner: num_bigint::BigInt::from(x) }
    }

    /// Relies on `Mul<&BigInt> for &BigInt`: the result holds the product
    /// of the two values.
    #[verifier::external_body]
    pub(crate) fn mul(&self, other: &Big) -> (r: Big)
        ensures
            big_value(r.inner) == big_value(self.inner) * big_value(other.inner),
            r@ == self@ * other@,
    {
        Big { inner: &self.inner * &other.inner }
    }

    /// Relies on `Shl<u64> for &BigInt`: shifting left by `k` bits
    /// multiplies the value by two to the `k`.
    #[verifier::external_body]
    pub(crate) fn shl(&self, k: u64) -> (r: Big)
        ensures
            big_value(r.inner) == big_value(self.inner) * pow_int(2, k as nat),
            r@ == self@ * pow_int(2, k as nat),
    {
        Big { inner: &self.inner << k }
    }

    /// Relies on `PartialEq for BigInt`: equality of the held values.
    #[verifier::external_body]
    pub fn equals(&self, other: &Big) -> (r: bool)
        ensures
            r == (self@ == other@),
    {
        self.inner == other.inner
    }
}

} // verus!
