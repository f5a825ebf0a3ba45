use vstd::prelude::*;
use crate::error::Error;
use crate::keys::EvaluationKey;
use crate::poly::{
    i64_fits, modpoly_add, modpoly_mul, modpoly_tdiv, mul_i64_wide, ModPoly,
};

verus! {

broadcast use crate::poly::lemma_seq_ints_len;

/// One relinearized output component: the tensor part `d`, plus the degree
/// two part `d2` multiplied by one half of the evaluation key and divided
/// back down by the key-switching scale, all under the lifted modulus.
pub open spec fn relin_output(d: Seq<int>, d2: Seq<int>, key: Seq<int>, scale: int, qk: int) -> Seq<
    int,
> {
    modpoly_add(d, modpoly_tdiv(modpoly_mul(d2, key, qk), scale, qk), qk)
}

/// An encrypted message: the pair `(c0, c1)` with `c0 + c1*s` approximately
/// `scale` times the message polynomial, carrying the evaluation key that
/// multiplication will switch with.
#[derive(Debug, Clone)]
pub struct Ciphertext {
    pub c0: ModPoly,
    pub c1: ModPoly,
    pub evaluation_key: EvaluationKey,
    pub scale: i64,
}

impl Ciphertext {
    /// The shape every homomorphic operation preserves: both components of
    /// equal length under one positive modulus, an evaluation key of the same
    /// length under its own positive modulus, and a positive scale.
    pub open spec fn wf(&self) -> bool {
        &&& self.c0.modulo == self.c1.modulo
        &&& self.c0.modulo >= 1
        &&& self.c0.coeffs@.len() == self.c1.coeffs@.len()
        &&& self.evaluation_key.b.coeffs@.len() == self.c0.coeffs@.len()
        &&& self.evaluation_key.a.coeffs@.len() == self.c0.coeffs@.len()
        &&& self.evaluation_key.b.modulo == self.evaluation_key.a.modulo
        &&& self.evaluation_key.b.modulo >= 1
        &&& self.scale >= 1
        &&& 1 <= self.c0.coeffs@.len() <= usize::MAX / 2
    }

    pub fn new(c0: ModPoly, c1: ModPoly, evaluation_key: EvaluationKey, scale: i64) -> (r:
        Ciphertext)
        ensures
            r.c0@ == c0@ && r.c0.modulo == c0.modulo,
            r.c1@ == c1@ && r.c1.modulo == c1.modulo,
            r.evaluation_key == evaluation_key,
            r.scale == scale,
    {
        Ciphertext { c0, c1, evaluation_key, scale }
    }

    /// Homomorphic addition: component-wise ring addition, demanding equal
    /// scales on the two operands.
    pub fn add(&self, rhs: &Ciphertext) -> (r: Result<Ciphertext, Error>)
        requires
            self.wf(),
            rhs.wf(),
            self.c0.coeffs@.len() == rhs.c0.coeffs@.len(),
        ensures
            r is Err <==> self.scale != rhs.scale,
            r is Err ==> r == Err::<Ciphertext, Error>(Error::ScaleMismatch),
            r matches Ok(c) ==> {
                &&& c.c0@ == modpoly_add(self.c0@, rhs.c0@, self.c0.modulo as int)
                &&& c.c1@ == modpoly_add(self.c1@, rhs.c1@, self.c1.modulo as int)
                &&& c.c0.modulo == self.c0.modulo
                &&& c.c1.modulo == self.c1.modulo
                &&& c.evaluation_key.b@ == self.evaluation_key.b@
                &&& c.evaluation_key.a@ == self.evaluation_key.a@
                &&& c.evaluation_key.b.modulo == self.evaluation_key.b.modulo
                &&& c.evaluation_key.a.modulo == self.evaluation_key.a.modulo
                &&& c.scale == self.scale
                &&& c.wf()
            },
    {
        if self.scale != rhs.scale {
            return Err(Error::ScaleMismatch);
        }
        let c0 = self.c0.add(&rhs.c0);
        let c1 = self.c1.add(&rhs.c1);
        Ok(Ciphertext { c0, c1, evaluation_key: self.evaluation_key.duplicate(), scale: self.scale })
    }

    /// Homomorphic multiplication: tensor the two pairs, then relinearize the
    /// degree-two part through the evaluation key, dividing the switched
    /// terms back down by the ciphertext scale. The result's scale is the
    /// product of the operand scales.
    pub fn mul(&self, rhs: &Ciphertext) -> (r: Result<Ciphertext, Error>)
        requires
            self.wf(),
            rhs.wf(),
            self.c0.coeffs@.len() == rhs.c0.coeffs@.len(),
        ensures
            r == Err::<Ciphertext, Error>(Error::ScaleMismatch) <==> self.scale != rhs.scale,
            self.scale == rhs.scale ==> (r is Ok <==> i64_fits(
                self.scale as int * rhs.scale as int,
            )),
            r is Err ==> r == Err::<Ciphertext, Error>(Error::ScaleMismatch) || r == Err::<
                Ciphertext,
                Error,
            >(Error::ModulusOverflow),
            r matches Ok(c) ==> {
                let q = self.c0.modulo as int;
                let qe = self.evaluation_key.b.modulo as int;
                let d0 = modpoly_mul(self.c0@, rhs.c0@, q);
                let d1 = modpoly_add(
                    modpoly_mul(self.c0@, rhs.c1@, q),
                    modpoly_mul(self.c1@, rhs.c0@, q),
                    q,
                );
                let d2 = modpoly_mul(self.c1@, rhs.c1@, q);
                &&& c.c0@ == relin_output(d0, d2, self.evaluation_key.b@, self.scale as int, qe)
                &&& c.c1@ == relin_output(d1, d2, self.evaluation_key.a@, self.scale as int, qe)
                &&& c.c0.modulo == self.evaluation_key.b.modulo
                &&& c.c1.modulo == self.evaluation_key.b.modulo
                &&& c.evaluation_key.b@ == self.evaluation_key.b@
                &&& c.evaluation_key.a@ == self.evaluation_key.a@
                &&& c.evaluation_key.b.modulo == self.evaluation_key.b.modulo
                &&& c.evaluation_key.a.modulo == self.evaluation_key.a.modulo
                &&& c.scale as int == self.scale as int * rhs.scale as int
                &&& c.wf()
            },
    {
        if self.scale != rhs.scale {
            return Err(Error::ScaleMismatch);
        }
        let wide: i128 = mul_i64_wide(self.scale, rhs.scale);
        if !(wide <= i64::MAX as i128) {
            return Err(Error::ModulusOverflow);
        }
        proof {
            assert(self.scale as int * rhs.scale as int >= 1) by (nonlinear_arith)
                requires self.scale >= 1, rhs.scale >= 1;
        }
        let n = self.c0.coeffs.len();
        let c0 = self.c0.mul(&rhs.c0);
        let c1a = self.c0.mul(&rhs.c1);
        let c1b = self.c1.mul(&rhs.c0);
        assert(c1a.coeffs@.len() == n && c1b.coeffs@.len() == n);
        let c1 = c1a.add(&c1b);
        let c2 = self.c1.mul(&rhs.c1);
        let new_modulo = self.evaluation_key.b.modulo;
        let c2w = c2.with_modulo(new_modulo);
        assert(c2w.coeffs@.len() == n);
        let kb = c2w.mul(&self.evaluation_key.b).div_truncate(self.scale);
        let ka = c2w.mul(&self.evaluation_key.a).div_truncate(self.scale);
        assert(kb.coeffs@.len() == n && ka.coeffs@.len() == n);
        let c0w = c0.with_modulo(new_modulo);
        let c1w = c1.with_modulo(new_modulo);
        assert(c0w.coeffs@.len() == n && c1w.coeffs@.len() == n);
        let d0 = c0w.add(&kb);
        let d1 = c1w.add(&ka);
        Ok(
            Ciphertext {
                c0: d0,
                c1: d1,
                evaluation_key: self.evaluation_key.duplicate(),
                scale: wide as i64,
            },
        )
    }
}

} // verus!
