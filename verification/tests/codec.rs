// The canonical-embedding codec works over complex floating-point vectors,
// which the verified core does not hold; these helpers mirror the embedding
// so the integer engine can be exercised end to end.
use ckks::{decrypt, encrypt, generate_keys, Plaintext, Poly};
use num_complex::Complex64;
use std::f64::consts::PI;

fn canonical_embedding(coeffs: &[Complex64]) -> Vec<Complex64> {
    let n = coeffs.len();
    let theta = PI / n as f64;
    (0..n)
        .map(|i| {
            let root = Complex64::from_polar(1.0, theta * (2.0 * i as f64 + 1.0));
            coeffs
                .iter()
                .enumerate()
                .map(|(j, c)| c * root.powu(j as u32))
                .sum()
        })
        .collect()
}

fn canonical_embedding_inv(z: &[Complex64]) -> Vec<Complex64> {
    let n = z.len();
    let theta = PI / n as f64;
    (0..n)
        .map(|i| {
            let sum: Complex64 = z
                .iter()
                .enumerate()
                .map(|(j, zj)| {
                    let root = Complex64::from_polar(1.0, theta * (2.0 * j as f64 + 1.0));
                    zj * root.powu(i as u32).conj()
                })
                .sum();
            sum / n as f64
        })
        .collect()
}

fn project(z: &[Complex64]) -> Vec<Complex64> {
    z[..z.len() / 2].to_vec()
}

fn project_inv(half: &[Complex64]) -> Vec<Complex64> {
    let mut full: Vec<Complex64> = half.to_vec();
    let mut tail: Vec<Complex64> = half.iter().map(|c| c.conj()).collect();
    tail.reverse();
    full.extend(tail);
    full
}

fn encode(z: &[Complex64], scale: i64) -> Plaintext {
    let embedded = canonical_embedding_inv(&project_inv(z));
    assert!(embedded.iter().all(|c| c.im.abs() < 1e-6));
    let coeffs: Vec<i64> = embedded
        .iter()
        .map(|c| (c.re * scale as f64).round() as i64)
        .collect();
    Plaintext::new(Poly::new(coeffs), scale)
}

fn decode(plaintext: &Plaintext) -> Vec<Complex64> {
    let scaled: Vec<Complex64> = plaintext
        .m
        .coeffs
        .iter()
        .map(|c| Complex64::new(*c as f64 / plaintext.scale as f64, 0.0))
        .collect();
    project(&canonical_embedding(&scaled))
}

#[test]
fn encode_decode_round_trip() {
    let z = vec![Complex64::new(3.2, -1.7), Complex64::new(-0.5, 2.25)];
    let delta = 65536;
    let decoded = decode(&encode(&z, delta));
    assert_eq!(decoded.len(), 2);
    for (d, original) in decoded.iter().zip(z.iter()) {
        assert!((d - original).norm() < 1e-3, "round trip drifted: {} vs {}", d, original);
    }
}

#[test]
fn round_trip_error_shrinks_with_scale() {
    let z = vec![Complex64::new(413.0, 0.0), Complex64::new(784.3, 55.0)];
    let coarse = decode(&encode(&z, 64));
    let fine = decode(&encode(&z, 65536));
    let coarse_err: f64 = coarse.iter().zip(z.iter()).map(|(d, o)| (d - o).norm()).sum();
    let fine_err: f64 = fine.iter().zip(z.iter()).map(|(d, o)| (d - o).norm()).sum();
    assert!(fine_err < coarse_err);
    assert!(coarse_err < 0.5);
}

#[test]
fn end_to_end_scenario() {
    // N = 4, limit = 3, p = 97, q0 = 7, key-switching scale 10000, delta 64.
    let z = vec![Complex64::new(413.0, 0.0), Complex64::new(784.3, 55.0)];
    let delta = 64;
    let plaintext = encode(&z, delta);
    let (public_key, secret_key, evaluation_key) = generate_keys(4, 3, 97, 7, 10000).unwrap();
    let ciphertext = encrypt(&plaintext, &public_key, &evaluation_key);
    let decrypted = decrypt(&ciphertext, &secret_key);
    let decoded = decode(&decrypted);
    assert_eq!(decoded.len(), 2);
    for (d, original) in decoded.iter().zip(z.iter()) {
        assert!(
            (d - original).norm() < 5.0,
            "end to end drifted: {} vs {}",
            d,
            original
        );
    }
}
