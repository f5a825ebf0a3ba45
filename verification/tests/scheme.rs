use ckks::{decrypt, encrypt, generate_keys, Ciphertext, Error, Plaintext, Poly};

#[test]
fn key_generation_moduli_and_ranges() {
    let (public_key, secret_key, evaluation_key) = generate_keys(4, 3, 97, 7, 10000).unwrap();
    let ql = 97i64.pow(3) * 7;
    assert_eq!(ql, 6388711);
    assert_eq!(secret_key.s.modulo, ql);
    assert_eq!(public_key.b.modulo, ql);
    assert_eq!(public_key.a.modulo, ql);
    assert_eq!(evaluation_key.b.modulo, ql * 10000);
    assert_eq!(evaluation_key.a.modulo, ql * 10000);
    assert_eq!(secret_key.s.coeffs.len(), 4);
    for c in &secret_key.s.coeffs {
        assert!(-1 <= *c && *c <= 1);
    }
    for c in &public_key.a.coeffs {
        assert!(-100 <= *c && *c < 100);
    }
}

#[test]
fn key_generation_overflow_detected() {
    assert_eq!(
        generate_keys(4, 4, i64::MAX, 7, 10000).unwrap_err(),
        Error::ModulusOverflow
    );
    assert_eq!(
        generate_keys(4, 1, 3037000499, 3037000499, 2).unwrap_err(),
        Error::ModulusOverflow
    );
}

#[test]
fn public_key_satisfies_lwe_relation() {
    // b + a*s must reduce to the injected noise, which lies in [-3, 3).
    let (public_key, secret_key, _) = generate_keys(4, 3, 97, 7, 10000).unwrap();
    let recovered = public_key.b.add(&public_key.a.mul(&secret_key.s));
    for c in &recovered.coeffs {
        assert!(-3 <= *c && *c < 3);
    }
}

#[test]
fn encrypt_then_decrypt_recovers_message() {
    let (public_key, secret_key, evaluation_key) = generate_keys(4, 3, 97, 7, 10000).unwrap();
    let message = vec![35939, -6677, -704, 6768];
    let plaintext = Plaintext::new(Poly::new(message.clone()), 64);
    let ciphertext = encrypt(&plaintext, &public_key, &evaluation_key);
    assert_eq!(ciphertext.scale, 64);
    let decrypted = decrypt(&ciphertext, &secret_key);
    assert_eq!(decrypted.scale, 64);
    // Noise per coefficient: v*e + e0 + e1*s, far below 100 for N = 4.
    for (d, m) in decrypted.m.coeffs.iter().zip(message.iter()) {
        assert!((d - m).abs() <= 100, "noise too large: {} vs {}", d, m);
    }
}

#[test]
fn homomorphic_addition_matches_plaintext_sum() {
    let (public_key, secret_key, evaluation_key) = generate_keys(4, 3, 97, 7, 10000).unwrap();
    let p1 = Plaintext::new(Poly::new(vec![20000, -6677, -704, 6768]), 64);
    let p2 = Plaintext::new(Poly::new(vec![-1500, 2400, 31000, -800]), 64);
    let c1 = encrypt(&p1, &public_key, &evaluation_key);
    let c2 = encrypt(&p2, &public_key, &evaluation_key);
    let csum = c1.add(&c2).unwrap();
    assert_eq!(csum.scale, 64);
    let decrypted = decrypt(&csum, &secret_key);
    let expected = p1.add(&p2).unwrap();
    // Noise of the sum stays within the sum of the two individual bounds.
    for (d, m) in decrypted.m.coeffs.iter().zip(expected.m.coeffs.iter()) {
        assert!((d - m).abs() <= 200, "noise too large: {} vs {}", d, m);
    }
}

#[test]
fn homomorphic_addition_scale_mismatch() {
    let (public_key, _, evaluation_key) = generate_keys(4, 3, 97, 7, 10000).unwrap();
    let p1 = Plaintext::new(Poly::new(vec![100, 0, 0, 0]), 64);
    let p2 = Plaintext::new(Poly::new(vec![100, 0, 0, 0]), 128);
    let c1 = encrypt(&p1, &public_key, &evaluation_key);
    let c2 = encrypt(&p2, &public_key, &evaluation_key);
    assert_eq!(c1.add(&c2).unwrap_err(), Error::ScaleMismatch);
    assert_eq!(c1.mul(&c2).unwrap_err(), Error::ScaleMismatch);
}

#[test]
fn homomorphic_multiplication_matches_plaintext_product() {
    // Parameters wide enough that no reduction wraps: q_L = 11200^3 * 7 and
    // the key-switching scale equals the encoding scale 65536.
    let delta = 65536i64;
    let (public_key, secret_key, evaluation_key) = generate_keys(4, 3, 11200, 7, delta).unwrap();
    let m1 = vec![65536, 32768, 0, -16384];
    let m2 = vec![65536, 65536, 16384, 8192];
    let p1 = Plaintext::new(Poly::new(m1), delta);
    let p2 = Plaintext::new(Poly::new(m2), delta);
    let c1 = encrypt(&p1, &public_key, &evaluation_key);
    let c2 = encrypt(&p2, &public_key, &evaluation_key);
    let cprod = c1.mul(&c2).unwrap();
    assert_eq!(cprod.scale, delta * delta);
    let decrypted = decrypt(&cprod, &secret_key);
    assert_eq!(decrypted.scale, delta * delta);
    let expected = p1.mul(&p2).unwrap();
    assert_eq!(expected.scale, delta * delta);
    // Multiplicative noise is dominated by the key-switching term
    // d2 * e / scale, well below one percent of the message here.
    for (d, m) in decrypted.m.coeffs.iter().zip(expected.m.coeffs.iter()) {
        let diff = (d - m).abs();
        assert!(diff <= 200_000_000, "noise too large: {} vs {}", d, m);
    }
}

#[test]
fn ciphertext_new_keeps_components() {
    let (public_key, _, evaluation_key) = generate_keys(4, 3, 97, 7, 10000).unwrap();
    let c0 = public_key.b.with_modulo(public_key.b.modulo);
    let c1 = public_key.a.with_modulo(public_key.a.modulo);
    let ct = Ciphertext::new(c0, c1, evaluation_key, 64);
    assert_eq!(ct.c0.coeffs, public_key.b.coeffs);
    assert_eq!(ct.c1.coeffs, public_key.a.coeffs);
    assert_eq!(ct.scale, 64);
}

#[test]
fn plaintext_operations() {
    let p1 = Plaintext::new(Poly::new(vec![1, 2, 3, 4]), 8);
    let p2 = Plaintext::new(Poly::new(vec![4, 3, 2, 1]), 8);
    let sum = p1.add(&p2).unwrap();
    assert_eq!(sum.m.coeffs, vec![5, 5, 5, 5]);
    assert_eq!(sum.scale, 8);
    let prod = p1.mul(&p2).unwrap();
    assert_eq!(prod.m.coeffs, vec![-16, 0, 16, 30]);
    assert_eq!(prod.scale, 64);
}
