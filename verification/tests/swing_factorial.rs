use swing_factorial::big::Big;
use swing_factorial::factorial::factorial;
use swing_factorial::primes::erasthotenes;
use swing_factorial::product::prod;
use swing_factorial::swing::odd_swing;
use swing_factorial::primes::SieveError;

/// The odd swing value of `n` computed the slow way: for every odd prime
/// up to `n`, fold the parities of `n / p^i` into an exponent.
fn brute_odd_swing(n: u64) -> u64 {
    let mut v: u128 = 1;
    let mut p: u64 = 3;
    while p <= n {
        let mut is_p = p >= 2;
        let mut d: u64 = 2;
        while d < p {
            if p % d == 0 {
                is_p = false;
            }
            d += 1;
        }
        if is_p {
            let mut e: u32 = 0;
            let mut m = n;
            while m > 0 {
                m /= p;
                e += (m % 2) as u32;
            }
            v *= (p as u128).pow(e);
        }
        p += 1;
    }
    v as u64
}

#[test]
fn small_prod() {
    let iter = vec![Big::from_u64(2), Big::from_u64(5)];
    assert!(prod(&iter).equals(&Big::from_u64(10)));
}

#[test]
fn large_prod() {
    let mut iter: Vec<Big> = Vec::new();
    for _ in 0..25 {
        iter.push(Big::from_u64(2));
    }
    assert!(prod(&iter).equals(&Big::from_u64(33554432)));
}

#[test]
fn small_primes() {
    let primes: Vec<u64> = vec![2, 3, 5, 7, 11];
    let found = erasthotenes(1, 12).unwrap();
    assert!(primes == found);
}

#[test]
fn sieve_empty_windows() {
    assert!(erasthotenes(13, 13).unwrap().is_empty());
    assert!(erasthotenes(0, 0).unwrap().is_empty());
    assert!(erasthotenes(100, 100).unwrap().is_empty());
    assert!(erasthotenes(0, 2).unwrap().is_empty());
}

#[test]
fn sieve_rejects_inverted_window() {
    assert_eq!(erasthotenes(12, 1), Err(SieveError::InvalidRange));
    assert_eq!(erasthotenes(5, 4), Err(SieveError::InvalidRange));
}

#[test]
fn sieve_larger_window() {
    let found = erasthotenes(90, 130).unwrap();
    assert_eq!(found, vec![97, 101, 103, 107, 109, 113, 127]);
}

#[test]
fn product_of_nothing_is_one() {
    let empty: Vec<Big> = Vec::new();
    assert!(prod(&empty).equals(&Big::from_u64(1)));
}

#[test]
fn product_of_one_element_is_that_element() {
    for x in [0u64, 1, 7, 123456789] {
        let one = vec![Big::from_u64(x)];
        assert!(prod(&one).equals(&Big::from_u64(x)));
    }
}

#[test]
fn product_split_matches_sequential() {
    for len in 0..=50u64 {
        let mut items: Vec<Big> = Vec::new();
        let mut seq = Big::from_u64(1);
        for i in 0..len {
            let x = (i * i + 3 * i + 1) % 97 + 1;
            items.push(Big::from_u64(x));
            seq = prod(&[seq, Big::from_u64(x)]);
        }
        assert!(prod(&items).equals(&seq));
    }
}

#[test]
fn odd_swing_of_zero_is_one() {
    assert!(odd_swing(0).equals(&Big::from_u64(1)));
}

#[test]
fn odd_swing_is_always_odd() {
    for n in 0..=60u64 {
        let expected = brute_odd_swing(n);
        assert_eq!(expected % 2, 1);
        assert!(odd_swing(n).equals(&Big::from_u64(expected)));
    }
}

#[test]
fn odd_swing_table_boundary() {
    for n in 5..=11u64 {
        assert!(odd_swing(n).equals(&Big::from_u64(brute_odd_swing(n))));
    }
    for n in 30..=35u64 {
        assert!(odd_swing(n).equals(&Big::from_u64(brute_odd_swing(n))));
    }
}

#[test]
fn factorial_small_values() {
    assert!(factorial(0).equals(&Big::from_u64(1)));
    assert!(factorial(1).equals(&Big::from_u64(1)));
    assert!(factorial(5).equals(&Big::from_u64(120)));
    assert!(factorial(10).equals(&Big::from_u64(3628800)));
}

#[test]
fn factorial_matches_sequential_product() {
    for n in [0u64, 1, 2, 5, 10, 24, 25, 32, 33, 50, 100] {
        let mut items: Vec<Big> = Vec::new();
        for i in 1..=n {
            items.push(Big::from_u64(i));
        }
        assert!(factorial(n).equals(&prod(&items)));
    }
}

#[test]
fn factorial_successor_ratio() {
    for n in 1..=40u64 {
        let step = prod(&[factorial(n - 1), Big::from_u64(n)]);
        assert!(factorial(n).equals(&step));
    }
}
