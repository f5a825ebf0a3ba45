use ckks::ModPoly;

#[test]
fn neg() {
    let poly = ModPoly::new(vec![1, 2, 3, 4], 5);
    let neg_poly = poly.neg();
    assert_eq!(neg_poly.coeffs, vec![-1, -2, -3, -4]);
}

#[test]
fn add() {
    let poly1 = ModPoly::new(vec![1, 2, 3, 4], 5);
    let poly2 = ModPoly::new(vec![4, 3, 2, 1], 5);
    let sum_poly = poly1.add(&poly2);
    assert_eq!(sum_poly.coeffs, vec![0, 0, 0, 0]);
}

#[test]
fn sub() {
    let poly1 = ModPoly::new(vec![1, 2, 3, 4], 5);
    let poly2 = ModPoly::new(vec![4, 3, 2, 1], 5);
    let diff_poly = poly1.sub(&poly2);
    assert_eq!(diff_poly.coeffs, vec![-3, -1, 1, -2]);
}

#[test]
fn mul() {
    let poly1 = ModPoly::new(vec![1, 2, 3, 4], 5);
    let poly2 = ModPoly::new(vec![4, 3, 2, 1], 5);
    let prod_poly = poly1.mul(&poly2);
    assert_eq!(prod_poly.coeffs, vec![-1, 0, 1, 0]);
}

#[test]
fn mul_scalar() {
    let poly = ModPoly::new(vec![1, 2, 3, 4], 5);
    let scalar = 2;
    let prod_poly = poly.mul_scalar(scalar);
    assert_eq!(prod_poly.coeffs, vec![-3, -1, 1, -2]);
}

#[test]
fn div_scalar_by_inverse() {
    let poly = ModPoly::new(vec![1, 2, 3, 4], 5);
    let quot_poly = poly.div(2).unwrap();
    assert_eq!(quot_poly.coeffs, vec![-2, 1, -1, -3]);
}

#[test]
fn with_modulo_keeps_coefficients() {
    let poly = ModPoly::new(vec![1, 2, 3, 4], 5);
    let lifted = poly.with_modulo(50);
    assert_eq!(lifted.coeffs, vec![1, 2, 3, 4]);
    assert_eq!(lifted.modulo, 50);
    assert_eq!(poly.modulo, 5);
}

#[test]
fn mul_keeps_top_coefficient() {
    // [0, 0, 0, 1] * [0, 0, 0, 1] is X^6 = -X^2 in the negacyclic ring.
    let poly1 = ModPoly::new(vec![0, 0, 0, 1], 97);
    let poly2 = ModPoly::new(vec![0, 0, 0, 1], 97);
    let prod = poly1.mul(&poly2);
    assert_eq!(prod.coeffs, vec![0, 0, -1, 0]);
    // [1, 1, 1, 1] * [1, 0, 0, 0] keeps every coefficient, including X^3.
    let poly3 = ModPoly::new(vec![1, 1, 1, 1], 97);
    let one = ModPoly::new(vec![1, 0, 0, 0], 97);
    assert_eq!(poly3.mul(&one).coeffs, vec![1, 1, 1, 1]);
}

#[test]
fn single_coefficient_ring() {
    // With N = 1 the ring collapses to centered residues: [3] * [4] = [-2]
    // modulo 7, since 12 reduces to -2.
    let poly1 = ModPoly::new(vec![3], 7);
    let poly2 = ModPoly::new(vec![4], 7);
    assert_eq!(poly1.mul(&poly2).coeffs, vec![-2]);
    assert_eq!(poly1.add(&poly2).coeffs, vec![0]);
}

#[test]
fn random_polynomial_in_range() {
    let poly = ckks::ModPoly::new_random(16, -100, 100, 6388711);
    assert_eq!(poly.coeffs.len(), 16);
    assert_eq!(poly.modulo, 6388711);
    for c in &poly.coeffs {
        assert!(-100 <= *c && *c < 100);
    }
    let raw = ckks::rand_array(8, -1, 2);
    assert_eq!(raw.len(), 8);
    for c in &raw {
        assert!(-1 <= *c && *c < 2);
    }
}
