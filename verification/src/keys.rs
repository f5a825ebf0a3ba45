use vstd::prelude::*;
use crate::error::Error;
use crate::poly::{
    i64_fits, modpoly_add, modpoly_mul, modpoly_neg, modpoly_scale, mul_i64_wide, ModPoly,
};

verus! {

broadcast use crate::poly::lemma_seq_ints_len;

/// Coefficients all drawn from `[-1, 2)`: the ternary secret.
pub open spec fn ternary(s: Seq<int>) -> bool {
    forall|i: int| 0 <= i < s.len() ==> -1 <= #[trigger] s[i] <= 1
}

/// Coefficients all drawn from the wide public range `[-100, 100)`.
pub open spec fn wide_range(s: Seq<int>) -> bool {
    forall|i: int| 0 <= i < s.len() ==> -100 <= #[trigger] s[i] < 100
}

/// Coefficients all drawn from the narrow noise range `[-3, 3)`.
pub open spec fn noise_range(s: Seq<int>) -> bool {
    forall|i: int| 0 <= i < s.len() ==> -3 <= #[trigger] s[i] < 3
}

/// The Ring-LWE relation the public key satisfies: `b = -a*s + e` under the
/// reducing ring operations, for some noise `e` in the narrow range.
pub open spec fn public_key_relation(b: Seq<int>, a: Seq<int>, s: Seq<int>, q: int) -> bool {
    exists|e: Seq<int>|
        e.len() == b.len() && noise_range(e) && b == #[trigger] modpoly_add(
            modpoly_mul(modpoly_neg(a, q), s, q),
            e,
            q,
        )
}

/// The key-switching relation the evaluation key satisfies:
/// `b = -a*s + e + (s*s)*scale` under the lifted modulus.
pub open spec fn evaluation_key_relation(
    b: Seq<int>,
    a: Seq<int>,
    s: Seq<int>,
    scale: int,
    q: int,
) -> bool {
    exists|e: Seq<int>|
        e.len() == b.len() && noise_range(e) && b == #[trigger] modpoly_add(
            modpoly_add(modpoly_mul(modpoly_neg(a, q), s, q), e, q),
            modpoly_scale(modpoly_mul(s, s, q), scale, q),
            q,
        )
}

/// The ternary secret polynomial, sampled once per key generation.
#[derive(Debug, Clone)]
pub struct SecretKey {
    pub s: ModPoly,
}

impl SecretKey {
    pub fn generate(n: usize, modulo: i64) -> (r: SecretKey)
        ensures
            r.s@.len() == n,
            r.s.modulo == modulo,
            ternary(r.s@),
    {
        SecretKey { s: ModPoly::new_random(n, -1, 2, modulo) }
    }
}

/// The shareable encryption key: `(b, a)` with `b = -a*s + e`.
#[derive(Debug, Clone)]
pub struct PublicKey {
    pub b: ModPoly,
    pub a: ModPoly,
}

impl PublicKey {
    pub fn generate(secret_key: &SecretKey, modulo: i64) -> (r: PublicKey)
        requires
            modulo >= 1,
            1 <= secret_key.s.coeffs@.len() <= usize::MAX / 2,
        ensures
            r.a@.len() == secret_key.s@.len(),
            r.b@.len() == secret_key.s@.len(),
            r.a.modulo == modulo,
            r.b.modulo == modulo,
            wide_range(r.a@),
            public_key_relation(r.b@, r.a@, secret_key.s@, modulo as int),
    {
        let n = secret_key.s.coeffs.len();
        let a = ModPoly::new_random(n, -100, 100, modulo);
        let e = ModPoly::new_random(n, -3, 3, modulo);
        let neg_a = a.neg();
        assert(neg_a.coeffs@.len() == n);
        let prod = neg_a.mul(&secret_key.s);
        assert(prod.coeffs@.len() == n);
        let b = prod.add(&e);
        proof {
            assert(e@.len() == b@.len() && noise_range(e@) && b@ == modpoly_add(
                modpoly_mul(modpoly_neg(a@, modulo as int), secret_key.s@, modulo as int),
                e@,
                modulo as int,
            ));
        }
        PublicKey { b, a }
    }
}

/// The relinearization key: `(b, a)` under the lifted modulus `q * scale`,
/// with `b = -a*s + e + (s*s)*scale`.
#[derive(Debug, Clone)]
pub struct EvaluationKey {
    pub b: ModPoly,
    pub a: ModPoly,
}

impl EvaluationKey {
    /// An identical key value, handed to each ciphertext that is built.
    pub fn duplicate(&self) -> (r: EvaluationKey)
        ensures
            r.b@ == self.b@,
            r.a@ == self.a@,
            r.b.modulo == self.b.modulo,
            r.a.modulo == self.a.modulo,
    {
        EvaluationKey { b: self.b.with_modulo(self.b.modulo), a: self.a.with_modulo(self.a.modulo) }
    }

    /// Generation under the lifted modulus `modulo * scale`; fails with
    /// `ModulusOverflow` when the lifted modulus leaves the integer width.
    pub fn generate(secret_key: &SecretKey, modulo: i64, scale: i64) -> (r: Result<
        EvaluationKey,
        Error,
    >)
        requires
            modulo >= 1,
            scale >= 1,
            1 <= secret_key.s.coeffs@.len() <= usize::MAX / 2,
        ensures
            r is Ok <==> i64_fits(modulo as int * scale as int),
            r is Err ==> r == Err::<EvaluationKey, Error>(Error::ModulusOverflow),
            r matches Ok(k) ==> {
                let q = modulo as int * scale as int;
                &&& k.a@.len() == secret_key.s@.len()
                &&& k.b@.len() == secret_key.s@.len()
                &&& k.a.modulo == q
                &&& k.b.modulo == q
                &&& wide_range(k.a@)
                &&& evaluation_key_relation(k.b@, k.a@, secret_key.s@, scale as int, q)
            },
    {
        let wide: i128 = mul_i64_wide(modulo, scale);
        if !(wide <= i64::MAX as i128) {
            return Err(Error::ModulusOverflow);
        }
        proof {
            assert(modulo as int * scale as int >= 1) by (nonlinear_arith)
                requires modulo >= 1, scale >= 1;
        }
        let modulo_scaled = wide as i64;
        let n = secret_key.s.coeffs.len();
        let s = secret_key.s.with_modulo(modulo_scaled);
        let a = ModPoly::new_random(n, -100, 100, modulo_scaled);
        let e = ModPoly::new_random(n, -3, 3, modulo_scaled);
        let neg_a = a.neg();
        assert(neg_a.coeffs@.len() == n);
        assert(s.coeffs@.len() == n);
        let lin = neg_a.mul(&s);
        assert(lin.coeffs@.len() == n);
        let lin_e = lin.add(&e);
        assert(lin_e.coeffs@.len() == n);
        let sq = s.mul(&s);
        assert(sq.coeffs@.len() == n);
        let gadget = sq.mul_scalar(scale);
        assert(gadget.coeffs@.len() == n);
        let b = lin_e.add(&gadget);
        let ghost q = modulo_scaled as int;
        proof {
            assert(e@.len() == b@.len() && noise_range(e@) && b@ == modpoly_add(
                modpoly_add(modpoly_mul(modpoly_neg(a@, q), secret_key.s@, q), e@, q),
                modpoly_scale(modpoly_mul(secret_key.s@, secret_key.s@, q), scale as int, q),
                q,
            ));
        }
        Ok(EvaluationKey { b, a })
    }
}

} // verus!
