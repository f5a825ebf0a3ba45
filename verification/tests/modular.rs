use ckks::{cmod, inv, is_in_range, Error, ModPoly, Poly};

#[test]
fn cmod_small_values() {
    assert_eq!(cmod(0, 5), 0);
    assert_eq!(cmod(1, 5), 1);
    assert_eq!(cmod(2, 5), -3);
    assert_eq!(cmod(3, 5), -2);
    assert_eq!(cmod(4, 5), -1);
    assert_eq!(cmod(5, 5), 0);
}

#[test]
fn cmod_congruence_and_magnitude() {
    for x in -50..50 {
        for q in [2i64, 3, 5, 8, 16, 97] {
            let r = cmod(x, q);
            assert_eq!((x - r) % q, 0);
            assert!(-q <= r && r < q);
        }
    }
}

#[test]
fn cmod_even_modulus_band() {
    // For an even modulus and non-negative input the result stays in the
    // centered band.
    for x in 0..64 {
        let r = cmod(x, 16);
        assert!(is_in_range(r, 16) || x % 16 == 8);
    }
}

#[test]
fn in_range_boundaries() {
    assert!(is_in_range(2, 5));
    assert!(is_in_range(-1, 5));
    assert!(!is_in_range(-2, 5));
    assert!(!is_in_range(3, 5));
    // For modulus 1 the band (-1/2, 1/2] holds no integer at all.
    assert!(!is_in_range(0, 1));
    assert!(!is_in_range(1, 1));
}

#[test]
fn inverse_found() {
    // 3 is the smallest positive inverse of 2 modulo 5.
    assert_eq!(inv(2, 5).unwrap(), 3);
    assert_eq!(inv(1, 7).unwrap(), 1);
    assert_eq!(inv(-1, 5).unwrap(), 4);
}

#[test]
fn inverse_division_by_zero() {
    assert_eq!(inv(0, 5), Err(Error::DivisionByZero));
}

#[test]
fn inverse_out_of_range() {
    assert_eq!(inv(3, 5), Err(Error::OutOfRange));
    assert_eq!(inv(-7, 5), Err(Error::OutOfRange));
}

#[test]
fn inverse_not_invertible() {
    assert_eq!(inv(2, 4), Err(Error::NotInvertible));
}

#[test]
fn modpoly_div_propagates_inverse_errors() {
    let poly = ModPoly::new(vec![1, 2, 3, 4], 5);
    assert_eq!(poly.div(0).unwrap_err(), Error::DivisionByZero);
    assert_eq!(poly.div(3).unwrap_err(), Error::OutOfRange);
    let even = ModPoly::new(vec![1, 2, 3, 4], 4);
    assert_eq!(even.div(2).unwrap_err(), Error::NotInvertible);
}

#[test]
fn poly_overflow_detected() {
    let big = Poly::new(vec![i64::MAX, 0]);
    let one = Poly::new(vec![1, 0]);
    assert_eq!(big.add(&one).unwrap_err(), Error::ModulusOverflow);
    assert_eq!(big.sub(&one).unwrap().coeffs, vec![i64::MAX - 1, 0]);
    let low = Poly::new(vec![i64::MIN, 0]);
    assert_eq!(low.neg().unwrap_err(), Error::ModulusOverflow);
    assert_eq!(low.mul_scalar(2).unwrap_err(), Error::ModulusOverflow);
    assert_eq!(low.div(0).unwrap_err(), Error::DivisionByZero);
    assert_eq!(low.div(-1).unwrap_err(), Error::ModulusOverflow);
    assert_eq!(big.mul(&big).unwrap_err(), Error::ModulusOverflow);
}

#[test]
fn poly_exact_arithmetic() {
    let a = Poly::new(vec![1, 2, 3, 4]);
    let b = Poly::new(vec![4, 3, 2, 1]);
    assert_eq!(a.add(&b).unwrap().coeffs, vec![5, 5, 5, 5]);
    assert_eq!(a.sub(&b).unwrap().coeffs, vec![-3, -1, 1, 3]);
    assert_eq!(a.neg().unwrap().coeffs, vec![-1, -2, -3, -4]);
    assert_eq!(a.mul_scalar(3).unwrap().coeffs, vec![3, 6, 9, 12]);
    assert_eq!(a.div(2).unwrap().coeffs, vec![0, 1, 1, 2]);
    // Negacyclic fold of the full convolution [4, 11, 20, 30, 20, 11, 4].
    assert_eq!(a.mul(&b).unwrap().coeffs, vec![-16, 0, 16, 30]);
}
