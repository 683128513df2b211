//! Factorial of large numbers by the swinging-factorial method:
//! prime enumeration over a window, odd-swing values built from prime
//! exponent parities, and a balanced binary-splitting product.

pub mod arith;
pub mod big;
pub mod factorial;
pub mod primes;
pub mod product;
pub mod swing;
