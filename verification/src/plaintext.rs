use vstd::prelude::*;
use crate::error::Error;
use crate::poly::{
    i64_fits, mul_i64_wide, poly_add_overflows, poly_add_s, poly_mul_overflows, poly_nega_mul, Poly,
};

verus! {

/// A scale-tagged ring element: the encoded, unreduced message polynomial
/// together with the fixed-point factor that produced it.
#[derive(Debug, Clone)]
pub struct Plaintext {
    pub m: Poly,
    pub scale: i64,
}

impl Plaintext {
    pub fn new(m: Poly, scale: i64) -> (r: Plaintext)
        ensures
            r.m@ == m@,
            r.scale == scale,
    {
        Plaintext { m, scale }
    }

    /// Plaintext-space addition: exact coefficient sums, keeping the scale.
    pub fn add(&self, rhs: &Plaintext) -> (r: Result<Plaintext, Error>)
        requires
            self.m.coeffs@.len() == rhs.m.coeffs@.len(),
        ensures
            r is Ok <==> !poly_add_overflows(self.m@, rhs.m@),
            r matches Ok(p) ==> p.m@ == poly_add_s(self.m@, rhs.m@) && p.scale == self.scale,
            r is Err ==> r == Err::<Plaintext, Error>(Error::ModulusOverflow),
    {
        match self.m.add(&rhs.m) {
            Ok(m) => Ok(Plaintext { m, scale: self.scale }),
            Err(e) => Err(e),
        }
    }

    /// Plaintext-space multiplication: the exact negacyclic product, with the
    /// scales multiplying.
    pub fn mul(&self, rhs: &Plaintext) -> (r: Result<Plaintext, Error>)
        requires
            self.m.coeffs@.len() == rhs.m.coeffs@.len(),
            1 <= self.m.coeffs@.len() <= usize::MAX / 2,
        ensures
            r is Ok <==> !poly_mul_overflows(self.m@, rhs.m@) && i64_fits(
                self.scale as int * rhs.scale as int,
            ),
            r matches Ok(p) ==> p.m@ == poly_nega_mul(self.m@, rhs.m@) && p.scale as int
                == self.scale as int * rhs.scale as int,
            r is Err ==> r == Err::<Plaintext, Error>(Error::ModulusOverflow),
    {
        let wide: i128 = mul_i64_wide(self.scale, rhs.scale);
        if !(i64::MIN as i128 <= wide && wide <= i64::MAX as i128) {
            return Err(Error::ModulusOverflow);
        }
        match self.m.mul(&rhs.m) {
            Ok(m) => Ok(Plaintext { m, scale: wide as i64 }),
            Err(e) => Err(e),
        }
    }
}

} // verus!
