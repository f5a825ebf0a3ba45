use vstd::prelude::*;

pub mod ciphertext;
pub mod convolution;
pub mod error;
pub mod keys;
pub mod laws;
pub mod modulo;
pub mod plaintext;
pub mod poly;
pub mod random;

pub use ciphertext::Ciphertext;
pub use error::Error;
pub use keys::{EvaluationKey, PublicKey, SecretKey};
pub use modulo::{cmod, inv, is_in_range};
pub use plaintext::Plaintext;
pub use poly::{ModPoly, Poly};
pub use random::rand_array;

use crate::keys::{
    evaluation_key_relation, noise_range, public_key_relation, ternary, wide_range,
};
use crate::poly::{i64_fits, modpoly_add, modpoly_mul, mul_i64_wide};

verus! {

broadcast use crate::poly::lemma_seq_ints_len;

/// `base` raised to the `e`-th power, over the unbounded integers.
pub open spec fn int_pow(base: int, e: nat) -> int
    decreases e,
{
    if e == 0 {
        1
    } else {
        base * int_pow(base, (e - 1) as nat)
    }
}

proof fn lemma_pow_succ(base: int, e: nat)
    ensures
        int_pow(base, e + 1) == base * int_pow(base, e),
{
    assert(int_pow(base, e + 1) == base * int_pow(base, ((e + 1) - 1) as nat));
}

proof fn lemma_pow_pos(base: int, e: nat)
    requires
        base >= 1,
    ensures
        int_pow(base, e) >= 1,
    decreases e,
{
    if e > 0 {
        lemma_pow_pos(base, (e - 1) as nat);
        assert(base * int_pow(base, (e - 1) as nat) >= 1) by (nonlinear_arith)
            requires base >= 1, int_pow(base, (e - 1) as nat) >= 1;
    }
}

proof fn lemma_pow_monotone(base: int, e1: nat, e2: nat)
    requires
        base >= 1,
        e1 <= e2,
    ensures
        int_pow(base, e1) <= int_pow(base, e2),
    decreases e2,
{
    lemma_pow_pos(base, e1);
    if e1 < e2 {
        lemma_pow_monotone(base, e1, (e2 - 1) as nat);
        lemma_pow_pos(base, (e2 - 1) as nat);
        assert(int_pow(base, (e2 - 1) as nat) <= base * int_pow(base, (e2 - 1) as nat))
            by (nonlinear_arith)
            requires base >= 1, int_pow(base, (e2 - 1) as nat) >= 1;
    }
}

/// The whole modulus chain `p^limit * q0 * scale` fits the coefficient type:
/// the condition under which one key generation succeeds.
pub open spec fn modulus_chain_fits(limit: nat, p: int, q0: int, scale: int) -> bool {
    i64_fits(int_pow(p, limit) * q0 * scale)
}

/// One atomic key-generation event: a ternary secret under the working
/// modulus `q_L = p^limit * q0`, a public key satisfying the Ring-LWE
/// relation under `q_L`, and an evaluation key satisfying the key-switching
/// relation under the lifted modulus `q_L * scale`. Fails with
/// `ModulusOverflow` exactly when the modulus chain leaves the integer width.
pub fn generate_keys(n: usize, limit: u32, p: i64, q0: i64, scale: i64) -> (r: Result<
    (PublicKey, SecretKey, EvaluationKey),
    Error,
>)
    requires
        p >= 1,
        q0 >= 1,
        scale >= 1,
        1 <= n <= usize::MAX / 2,
    ensures
        r is Ok <==> modulus_chain_fits(limit as nat, p as int, q0 as int, scale as int),
        r is Err ==> r == Err::<(PublicKey, SecretKey, EvaluationKey), Error>(
            Error::ModulusOverflow,
        ),
        r matches Ok(ks) ==> {
            let ql = int_pow(p as int, limit as nat) * q0 as int;
            &&& ks.1.s@.len() == n
            &&& ks.1.s.modulo == ql
            &&& ternary(ks.1.s@)
            &&& ks.0.a@.len() == n && ks.0.b@.len() == n
            &&& ks.0.a.modulo == ql && ks.0.b.modulo == ql
            &&& wide_range(ks.0.a@)
            &&& public_key_relation(ks.0.b@, ks.0.a@, ks.1.s@, ql)
            &&& ks.2.a@.len() == n && ks.2.b@.len() == n
            &&& ks.2.a.modulo == ql * scale as int && ks.2.b.modulo == ql * scale as int
            &&& wide_range(ks.2.a@)
            &&& evaluation_key_relation(ks.2.b@, ks.2.a@, ks.1.s@, scale as int, ql * scale as int)
        },
{
    let ghost pw = int_pow(p as int, limit as nat);
    let ghost chain = pw * q0 as int * scale as int;
    let mut acc: i64 = 1;
    let mut e: u32 = 0;
    while e < limit
        invariant
            p >= 1,
            q0 >= 1,
            scale >= 1,
            e <= limit,
            acc >= 1,
            acc as int == int_pow(p as int, e as nat),
            pw == int_pow(p as int, limit as nat),
            chain == pw * q0 as int * scale as int,
        decreases limit - e,
    {
        let wide: i128 = mul_i64_wide(acc, p);
        if !(wide <= i64::MAX as i128) {
            proof {
                lemma_pow_succ(p as int, e as nat);
                assert(acc as int * p as int == int_pow(p as int, (e + 1) as nat));
                lemma_pow_monotone(p as int, (e + 1) as nat, limit as nat);
                lemma_pow_pos(p as int, limit as nat);
                assert(pw * q0 as int >= pw) by (nonlinear_arith)
                    requires pw >= 1, q0 >= 1;
                assert(pw * q0 as int * scale as int >= pw * q0 as int) by (nonlinear_arith)
                    requires pw * q0 as int >= 1, scale >= 1;
                assert(!i64_fits(chain));
            }
            return Err(Error::ModulusOverflow);
        }
        proof {
            lemma_pow_succ(p as int, e as nat);
            assert(acc as int * p as int >= 1) by (nonlinear_arith)
                requires acc >= 1, p >= 1;
        }
        acc = wide as i64;
        e = e + 1;
    }
    let wide: i128 = mul_i64_wide(acc, q0);
    if !(wide <= i64::MAX as i128) {
        proof {
            lemma_pow_pos(p as int, limit as nat);
            assert(pw * q0 as int * scale as int >= pw * q0 as int) by (nonlinear_arith)
                requires pw >= 1, q0 >= 1, scale >= 1;
            assert(!i64_fits(chain));
        }
        return Err(Error::ModulusOverflow);
    }
    proof {
        assert(acc as int * q0 as int >= 1) by (nonlinear_arith)
            requires acc >= 1, q0 >= 1;
    }
    let ql: i64 = wide as i64;
    let secret_key = SecretKey::generate(n, ql);
    let public_key = PublicKey::generate(&secret_key, ql);
    match EvaluationKey::generate(&secret_key, ql, scale) {
        Ok(evaluation_key) => {
            proof {
                assert(i64_fits(chain));
            }
            Ok((public_key, secret_key, evaluation_key))
        },
        Err(_) => {
            proof {
                assert(!i64_fits(chain));
            }
            Err(Error::ModulusOverflow)
        },
    }
}

/// Ring-LWE encryption under the public key: `c0 = v*b + m + e0` and
/// `c1 = v*a + e1` for a ternary mask `v` and narrow noise `e0`, `e1`, all
/// under the public key's modulus. The ciphertext carries the evaluation key
/// and the plaintext's scale.
pub fn encrypt(plaintext: &Plaintext, public_key: &PublicKey, evaluation_key: &EvaluationKey) -> (r:
    Ciphertext)
    requires
        public_key.b.modulo >= 1,
        public_key.b.coeffs@.len() == plaintext.m.coeffs@.len(),
        public_key.a.coeffs@.len() == plaintext.m.coeffs@.len(),
        evaluation_key.b.coeffs@.len() == plaintext.m.coeffs@.len(),
        evaluation_key.a.coeffs@.len() == plaintext.m.coeffs@.len(),
        evaluation_key.b.modulo == evaluation_key.a.modulo,
        evaluation_key.b.modulo >= 1,
        plaintext.scale >= 1,
        1 <= plaintext.m.coeffs@.len() <= usize::MAX / 2,
    ensures
        r.scale == plaintext.scale,
        r.c0.modulo == public_key.b.modulo,
        r.c1.modulo == public_key.b.modulo,
        r.c0@.len() == plaintext.m@.len(),
        r.c1@.len() == plaintext.m@.len(),
        r.evaluation_key.b@ == evaluation_key.b@,
        r.evaluation_key.a@ == evaluation_key.a@,
        r.evaluation_key.b.modulo == evaluation_key.b.modulo,
        r.evaluation_key.a.modulo == evaluation_key.a.modulo,
        r.wf(),
        exists|v: Seq<int>, e0: Seq<int>, e1: Seq<int>|
            #![trigger v.len(), e0.len(), e1.len()]
            {
                let q = public_key.b.modulo as int;
                &&& v.len() == plaintext.m@.len()
                &&& e0.len() == plaintext.m@.len()
                &&& e1.len() == plaintext.m@.len()
                &&& ternary(v)
                &&& noise_range(e0)
                &&& noise_range(e1)
                &&& r.c0@ == modpoly_add(
                    modpoly_add(modpoly_mul(v, public_key.b@, q), plaintext.m@, q),
                    e0,
                    q,
                )
                &&& r.c1@ == modpoly_add(modpoly_mul(v, public_key.a@, q), e1, q)
            },
{
    let modulo = public_key.b.modulo;
    let n = plaintext.m.coeffs.len();
    let m = ModPoly::new(plaintext.m.coeffs.clone(), modulo);
    let v = ModPoly::new_random(n, -1, 2, modulo);
    let e0 = ModPoly::new_random(n, -3, 3, modulo);
    let e1 = ModPoly::new_random(n, -3, 3, modulo);
    let vb = v.mul(&public_key.b);
    assert(vb.coeffs@.len() == n);
    let vbm = vb.add(&m);
    assert(vbm.coeffs@.len() == n);
    let c0 = vbm.add(&e0);
    let va = v.mul(&public_key.a);
    assert(va.coeffs@.len() == n);
    let c1 = va.add(&e1);
    let r = Ciphertext::new(c0, c1, evaluation_key.duplicate(), plaintext.scale);
    proof {
        let q = public_key.b.modulo as int;
        assert(m@ == plaintext.m@) by {
            assert(m@ =~= plaintext.m@);
        }
        assert(v@.len() == plaintext.m@.len() && e0@.len() == plaintext.m@.len() && e1@.len()
            == plaintext.m@.len() && ternary(v@) && noise_range(e0@) && noise_range(e1@) && r.c0@
            == modpoly_add(modpoly_add(modpoly_mul(v@, public_key.b@, q), plaintext.m@, q), e0@, q)
            && r.c1@ == modpoly_add(modpoly_mul(v@, public_key.a@, q), e1@, q));
    }
    r
}

/// Decryption: `c0 + c1*s` under the ciphertext's modulus, returned as a
/// plaintext carrying the ciphertext's scale.
pub fn decrypt(ciphertext: &Ciphertext, secret_key: &SecretKey) -> (r: Plaintext)
    requires
        ciphertext.c0.modulo >= 1,
        ciphertext.c1.modulo >= 1,
        ciphertext.c0.coeffs@.len() == ciphertext.c1.coeffs@.len(),
        secret_key.s.coeffs@.len() == ciphertext.c0.coeffs@.len(),
        1 <= ciphertext.c0.coeffs@.len() <= usize::MAX / 2,
    ensures
        r.scale == ciphertext.scale,
        r.m@ == modpoly_add(
            ciphertext.c0@,
            modpoly_mul(ciphertext.c1@, secret_key.s@, ciphertext.c1.modulo as int),
            ciphertext.c0.modulo as int,
        ),
{
    let c1s = ciphertext.c1.mul(&secret_key.s);
    assert(c1s.coeffs@.len() == ciphertext.c0.coeffs@.len());
    let m = ciphertext.c0.add(&c1s);
    let r = Plaintext::new(Poly::new(m.coeffs), ciphertext.scale);
    proof {
        assert(r.m@ =~= modpoly_add(
            ciphertext.c0@,
            modpoly_mul(ciphertext.c1@, secret_key.s@, ciphertext.c1.modulo as int),
            ciphertext.c0.modulo as int,
        ));
    }
    r
}

} // verus!
