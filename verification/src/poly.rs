use vstd::prelude::*;
use crate::error::Error;
use crate::modulo::{cong, has_inverse, lemma_cmod_congruent, spec_cmod, spec_in_range};
use crate::modulo::inv;
use crate::random::rand_array;

verus! {

/// A coefficient vector read as a sequence of unbounded integers.
pub open spec fn seq_ints(s: Seq<i64>) -> Seq<int> {
    Seq::new(s.len(), |i: int| s[i] as int)
}

/// Reading a coefficient vector as integers keeps its length.
pub broadcast proof fn lemma_seq_ints_len(s: Seq<i64>)
    ensures
        #![trigger seq_ints(s)]
        seq_ints(s).len() == s.len(),
{
}

pub open spec fn i64_fits(x: int) -> bool {
    i64::MIN <= x <= i64::MAX
}

pub open spec fn i128_fits(x: int) -> bool {
    i128::MIN <= x <= i128::MAX
}

/// One term of the ordinary convolution of `a` and `b` at output index `k`:
/// the product `a[i] * b[k - i]` when both indices exist, zero otherwise.
pub open spec fn conv_term(a: Seq<int>, b: Seq<int>, k: int, i: int) -> int {
    if 0 <= i < a.len() && 0 <= k - i < b.len() {
        a[i] * b[k - i]
    } else {
        0
    }
}

/// The first `m` terms (by index into `a`) of the convolution at index `k`.
pub open spec fn conv_prefix(a: Seq<int>, b: Seq<int>, k: int, m: nat) -> int
    decreases m,
{
    if m == 0 {
        0
    } else {
        conv_prefix(a, b, k, (m - 1) as nat) + conv_term(a, b, k, m - 1)
    }
}

/// Coefficient `k` of the ordinary (length 2N-1) convolution of `a` and `b`.
pub open spec fn conv_at(a: Seq<int>, b: Seq<int>, k: int) -> int {
    conv_prefix(a, b, k, a.len())
}

/// Coefficient `i` of the negacyclic product: fold the ordinary convolution
/// with X^N == -1, so the upper half is subtracted from the lower half.
pub open spec fn nega_mul_at(a: Seq<int>, b: Seq<int>, i: int) -> int {
    conv_at(a, b, i) - conv_at(a, b, i + a.len())
}

/// The convolution at index `k`, accumulated in the order the multiplication
/// routine runs, with every partial sum and every term pulled back through
/// the centered reduction.
pub open spec fn mul_acc(a: Seq<int>, b: Seq<int>, q: int, k: int, m: nat) -> int
    decreases m,
{
    if m == 0 {
        0
    } else {
        let i = m - 1;
        let prev = mul_acc(a, b, q, k, (m - 1) as nat);
        if 0 <= i < a.len() && 0 <= k - i < b.len() {
            spec_cmod(prev + spec_cmod(a[i] * b[k - i], q), q)
        } else {
            prev
        }
    }
}

/// The fully accumulated, reduced convolution at index `k`.
pub open spec fn macc(a: Seq<int>, b: Seq<int>, q: int, k: int) -> int {
    mul_acc(a, b, q, k, a.len())
}

pub open spec fn modpoly_neg(a: Seq<int>, q: int) -> Seq<int> {
    Seq::new(a.len(), |i: int| spec_cmod(-a[i], q))
}

pub open spec fn modpoly_add(a: Seq<int>, b: Seq<int>, q: int) -> Seq<int> {
    Seq::new(a.len(), |i: int| spec_cmod(a[i] + b[i], q))
}

pub open spec fn modpoly_sub(a: Seq<int>, b: Seq<int>, q: int) -> Seq<int> {
    Seq::new(a.len(), |i: int| spec_cmod(a[i] - b[i], q))
}

pub open spec fn modpoly_scale(a: Seq<int>, x: int, q: int) -> Seq<int> {
    Seq::new(a.len(), |i: int| spec_cmod(a[i] * x, q))
}

/// The reduced negacyclic product: reduced convolution, folded with
/// X^N == -1, reduced once more.
pub open spec fn modpoly_mul(a: Seq<int>, b: Seq<int>, q: int) -> Seq<int> {
    Seq::new(a.len(), |i: int| spec_cmod(macc(a, b, q, i) - macc(a, b, q, i + a.len()), q))
}

/// Truncating scalar division of each coefficient, reduced afterwards.
pub open spec fn modpoly_tdiv(a: Seq<int>, x: int, q: int) -> Seq<int> {
    Seq::new(a.len(), |i: int| spec_cmod(tdiv(a[i], x), q))
}

/// Centered remainder of a wide intermediate value.
pub(crate) fn cmod_wide(x: i128, modulo: i64) -> (r: i64)
    requires
        modulo >= 1,
    ensures
        r as int == spec_cmod(x as int, modulo as int),
{
    proof {
        lemma_cmod_congruent(x as int, modulo as int);
    }
    let q = modulo as i128;
    let t: i128 = x % q;
    let w: i128 = if t < q / 2 {
        t
    } else {
        t - q
    };
    w as i64
}

/// Product of two narrow values, carried out in a wide register.
pub(crate) fn mul_i64_wide(a: i64, b: i64) -> (r: i128)
    ensures
        r as int == a as int * b as int,
{
    proof {
        assert(-0x40000000000000000000000000000000 <= a as int * b as int
            <= 0x40000000000000000000000000000000) by (nonlinear_arith)
            requires
                -0x8000000000000000 <= a as int <= 0x7fffffffffffffff,
                -0x8000000000000000 <= b as int <= 0x7fffffffffffffff,
        ;
    }
    (a as i128) * (b as i128)
}

/// Truncating integer division: the quotient Rust's `/` computes, rounded
/// toward zero.
pub open spec fn tdiv(a: int, b: int) -> int {
    let m = (if a < 0 {
        -a
    } else {
        a
    }) / (if b < 0 {
        -b
    } else {
        b
    });
    if (a < 0) != (b < 0) {
        -m
    } else {
        m
    }
}

pub open spec fn poly_neg_s(a: Seq<int>) -> Seq<int> {
    Seq::new(a.len(), |i: int| -a[i])
}

pub open spec fn poly_add_s(a: Seq<int>, b: Seq<int>) -> Seq<int> {
    Seq::new(a.len(), |i: int| a[i] + b[i])
}

pub open spec fn poly_sub_s(a: Seq<int>, b: Seq<int>) -> Seq<int> {
    Seq::new(a.len(), |i: int| a[i] - b[i])
}

pub open spec fn poly_scale_s(a: Seq<int>, x: int) -> Seq<int> {
    Seq::new(a.len(), |i: int| a[i] * x)
}

pub open spec fn poly_tdiv_s(a: Seq<int>, x: int) -> Seq<int> {
    Seq::new(a.len(), |i: int| tdiv(a[i], x))
}

/// The exact negacyclic product as a sequence.
pub open spec fn poly_nega_mul(a: Seq<int>, b: Seq<int>) -> Seq<int> {
    Seq::new(a.len(), |i: int| nega_mul_at(a, b, i))
}

pub open spec fn poly_neg_overflows(a: Seq<int>) -> bool {
    exists|i: int| 0 <= i < a.len() && !i64_fits(-#[trigger] a[i])
}

pub open spec fn poly_add_overflows(a: Seq<int>, b: Seq<int>) -> bool {
    exists|i: int| 0 <= i < a.len() && !i64_fits(#[trigger] a[i] + b[i])
}

pub open spec fn poly_sub_overflows(a: Seq<int>, b: Seq<int>) -> bool {
    exists|i: int| 0 <= i < a.len() && !i64_fits(#[trigger] a[i] - b[i])
}

pub open spec fn poly_scale_overflows(a: Seq<int>, x: int) -> bool {
    exists|i: int| 0 <= i < a.len() && !i64_fits(#[trigger] a[i] * x)
}

pub open spec fn poly_tdiv_overflows(a: Seq<int>, x: int) -> bool {
    exists|i: int| 0 <= i < a.len() && !i64_fits(tdiv(#[trigger] a[i], x))
}

/// The exact product overflows when some partial convolution sum leaves the
/// wide accumulator's range, or some folded coefficient leaves the
/// coefficient range.
pub open spec fn poly_mul_overflows(a: Seq<int>, b: Seq<int>) -> bool {
    (exists|k: int, m: nat|
        0 <= k < a.len() + b.len() - 1 && m <= a.len() && !i128_fits(
            #[trigger] conv_prefix(a, b, k, m),
        )) || (exists|i: int| 0 <= i < a.len() && !i64_fits(#[trigger] nega_mul_at(a, b, i)))
}

fn checked_add_i128(a: i128, b: i128) -> (r: Option<i128>)
    ensures
        r matches Some(v) ==> v as int == a as int + b as int,
        r is None <==> !i128_fits(a as int + b as int),
{
    if b > 0 && a > i128::MAX - b {
        None
    } else if b < 0 && a < i128::MIN - b {
        None
    } else {
        Some(a + b)
    }
}

fn checked_sub_i128(a: i128, b: i128) -> (r: Option<i128>)
    ensures
        r matches Some(v) ==> v as int == a as int - b as int,
        r is None <==> !i128_fits(a as int - b as int),
{
    if b > 0 && a < i128::MIN + b {
        None
    } else if b < 0 && a > i128::MAX + b {
        None
    } else {
        Some(a - b)
    }
}

/// Checks whether a wide value fits back into a coefficient.
fn fits_i64(x: i128) -> (r: bool)
    ensures
        r == i64_fits(x as int),
{
    i64::MIN as i128 <= x && x <= i64::MAX as i128
}

/// Polynomial with signed-integer coefficients in Z[X]/(X^N + 1), reduced
/// modulo nothing: the plaintext-side ring. Its operations are exact and
/// report `ModulusOverflow` instead of wrapping.
#[derive(Debug, Clone)]
pub struct Poly {
    pub coeffs: Vec<i64>,
}

impl View for Poly {
    type V = Seq<int>;

    open spec fn view(&self) -> Seq<int> {
        seq_ints(self.coeffs@)
    }
}

impl Poly {
    pub fn new(coeffs: Vec<i64>) -> (r: Poly)
        ensures
            r.coeffs@ == coeffs@,
    {
        Poly { coeffs }
    }

    /// Coefficients drawn uniformly from `[lo, hi)`.
    pub fn new_random(n: usize, lo: i64, hi: i64) -> (r: Poly)
        requires
            lo < hi,
        ensures
            r@.len() == n,
            forall|i: int| 0 <= i < n ==> lo <= #[trigger] r@[i] < hi,
    {
        Poly { coeffs: rand_array(n, lo, hi) }
    }

    pub fn neg(&self) -> (r: Result<Poly, Error>)
        ensures
            r is Ok <==> !poly_neg_overflows(self@),
            r matches Ok(p) ==> p@ == poly_neg_s(self@),
            r is Err ==> r == Err::<Poly, Error>(Error::ModulusOverflow),
    {
        let n = self.coeffs.len();
        let mut out: Vec<i64> = Vec::new();
        let mut i: usize = 0;
        while i < n
            invariant
                n == self.coeffs@.len(),
                i <= n,
                out@.len() == i,
                forall|j: int| 0 <= j < i ==> #[trigger] out@[j] as int == -(self.coeffs@[j] as int),
            decreases n - i,
        {
            let c = self.coeffs[i];
            if c == i64::MIN {
                proof {
                    assert(!i64_fits(-self@[i as int]));
                }
                return Err(Error::ModulusOverflow);
            }
            out.push(-c);
            i += 1;
        }
        let r = Poly { coeffs: out };
        proof {
            assert forall|j: int| 0 <= j < n implies i64_fits(-#[trigger] self@[j]) by {
                assert(out@[j] as int == -(self.coeffs@[j] as int));
            }
            assert(r@ =~= poly_neg_s(self@));
        }
        Ok(r)
    }

    pub fn add(&self, rhs: &Poly) -> (r: Result<Poly, Error>)
        requires
            self.coeffs@.len() == rhs.coeffs@.len(),
        ensures
            r is Ok <==> !poly_add_overflows(self@, rhs@),
            r matches Ok(p) ==> p@ == poly_add_s(self@, rhs@),
            r is Err ==> r == Err::<Poly, Error>(Error::ModulusOverflow),
    {
        let n = self.coeffs.len();
        let mut out: Vec<i64> = Vec::new();
        let mut i: usize = 0;
        while i < n
            invariant
                n == self.coeffs@.len(),
                n == rhs.coeffs@.len(),
                i <= n,
                out@.len() == i,
                forall|j: int|
                    0 <= j < i ==> #[trigger] out@[j] as int == self.coeffs@[j] as int
                        + rhs.coeffs@[j] as int,
            decreases n - i,
        {
            let s: i128 = (self.coeffs[i] as i128) + (rhs.coeffs[i] as i128);
            if !fits_i64(s) {
                proof {
                    assert(!i64_fits(self@[i as int] + rhs@[i as int]));
                }
                return Err(Error::ModulusOverflow);
            }
            out.push(s as i64);
            i += 1;
        }
        let r = Poly { coeffs: out };
        proof {
            assert forall|j: int| 0 <= j < n implies i64_fits(#[trigger] self@[j] + rhs@[j]) by {
                assert(out@[j] as int == self.coeffs@[j] as int + rhs.coeffs@[j] as int);
            }
            assert(r@ =~= poly_add_s(self@, rhs@));
        }
        Ok(r)
    }

    pub fn sub(&self, rhs: &Poly) -> (r: Result<Poly, Error>)
        requires
            self.coeffs@.len() == rhs.coeffs@.len(),
        ensures
            r is Ok <==> !poly_sub_overflows(self@, rhs@),
            r matches Ok(p) ==> p@ == poly_sub_s(self@, rhs@),
            r is Err ==> r == Err::<Poly, Error>(Error::ModulusOverflow),
    {
        let n = self.coeffs.len();
        let mut out: Vec<i64> = Vec::new();
        let mut i: usize = 0;
        while i < n
            invariant
                n == self.coeffs@.len(),
                n == rhs.coeffs@.len(),
                i <= n,
                out@.len() == i,
                forall|j: int|
                    0 <= j < i ==> #[trigger] out@[j] as int == self.coeffs@[j] as int
                        - rhs.coeffs@[j] as int,
            decreases n - i,
        {
            let s: i128 = (self.coeffs[i] as i128) - (rhs.coeffs[i] as i128);
            if !fits_i64(s) {
                proof {
                    assert(!i64_fits(self@[i as int] - rhs@[i as int]));
                }
                return Err(Error::ModulusOverflow);
            }
            out.push(s as i64);
            i += 1;
        }
        let r = Poly { coeffs: out };
        proof {
            assert forall|j: int| 0 <= j < n implies i64_fits(#[trigger] self@[j] - rhs@[j]) by {
                assert(out@[j] as int == self.coeffs@[j] as int - rhs.coeffs@[j] as int);
            }
            assert(r@ =~= poly_sub_s(self@, rhs@));
        }
        Ok(r)
    }

    pub fn mul_scalar(&self, rhs: i64) -> (r: Result<Poly, Error>)
        ensures
            r is Ok <==> !poly_scale_overflows(self@, rhs as int),
            r matches Ok(p) ==> p@ == poly_scale_s(self@, rhs as int),
            r is Err ==> r == Err::<Poly, Error>(Error::ModulusOverflow),
    {
        let n = self.coeffs.len();
        let mut out: Vec<i64> = Vec::new();
        let mut i: usize = 0;
        while i < n
            invariant
                n == self.coeffs@.len(),
                i <= n,
                out@.len() == i,
                forall|j: int|
                    0 <= j < i ==> #[trigger] out@[j] as int == self.coeffs@[j] as int * rhs as int,
            decreases n - i,
        {
            let p: i128 = mul_i64_wide(self.coeffs[i], rhs);
            if !fits_i64(p) {
                proof {
                    assert(!i64_fits(self@[i as int] * rhs as int));
                }
                return Err(Error::ModulusOverflow);
            }
            out.push(p as i64);
            i += 1;
        }
        let r = Poly { coeffs: out };
        proof {
            assert forall|j: int| 0 <= j < n implies i64_fits(#[trigger] self@[j] * rhs as int) by {
                assert(out@[j] as int == self.coeffs@[j] as int * rhs as int);
            }
            assert(r@ =~= poly_scale_s(self@, rhs as int));
        }
        Ok(r)
    }

    /// Truncating scalar division of an unreduced polynomial.
    pub fn div(&self, rhs: i64) -> (r: Result<Poly, Error>)
        ensures
            r == Err::<Poly, Error>(Error::DivisionByZero) <==> rhs == 0,
            rhs != 0 ==> (r is Ok <==> !poly_tdiv_overflows(self@, rhs as int)),
            r matches Ok(p) ==> p@ == poly_tdiv_s(self@, rhs as int),
            rhs != 0 && r is Err ==> r == Err::<Poly, Error>(Error::ModulusOverflow),
    {
        if rhs == 0 {
            return Err(Error::DivisionByZero);
        }
        let n = self.coeffs.len();
        let mut out: Vec<i64> = Vec::new();
        let mut i: usize = 0;
        while i < n
            invariant
                rhs != 0,
                n == self.coeffs@.len(),
                i <= n,
                out@.len() == i,
                forall|j: int|
                    0 <= j < i ==> #[trigger] out@[j] as int == tdiv(
                        self.coeffs@[j] as int,
                        rhs as int,
                    ),
            decreases n - i,
        {
            let c = self.coeffs[i];
            let av: i128 = if c < 0 {
                -(c as i128)
            } else {
                c as i128
            };
            let bv: i128 = if rhs < 0 {
                -(rhs as i128)
            } else {
                rhs as i128
            };
            let m: i128 = av / bv;
            let d: i128 = if (c < 0) != (rhs < 0) {
                -m
            } else {
                m
            };
            proof {
                assert(0 <= m as int <= av as int) by (nonlinear_arith)
                    requires m as int == av as int / bv as int, av >= 0, bv >= 1;
                assert(d as int == tdiv(self@[i as int], rhs as int));
            }
            if !fits_i64(d) {
                proof {
                    assert(!i64_fits(tdiv(self@[i as int], rhs as int)));
                }
                return Err(Error::ModulusOverflow);
            }
            out.push(d as i64);
            i += 1;
        }
        let r = Poly { coeffs: out };
        proof {
            assert forall|j: int| 0 <= j < n implies i64_fits(tdiv(#[trigger] self@[j], rhs as int))
                by {
                assert(out@[j] as int == tdiv(self.coeffs@[j] as int, rhs as int));
            }
            assert(r@ =~= poly_tdiv_s(self@, rhs as int));
        }
        Ok(r)
    }

    /// Exact negacyclic product, every intermediate checked for overflow.
    pub fn mul(&self, rhs: &Poly) -> (r: Result<Poly, Error>)
        requires
            self.coeffs@.len() == rhs.coeffs@.len(),
            1 <= self.coeffs@.len() <= usize::MAX / 2,
        ensures
            r is Ok <==> !poly_mul_overflows(self@, rhs@),
            r matches Ok(p) ==> p@ == poly_nega_mul(self@, rhs@),
            r is Err ==> r == Err::<Poly, Error>(Error::ModulusOverflow),
    {
        let n = self.coeffs.len();
        let width = 2 * n - 1;
        let ghost a = self@;
        let ghost b = rhs@;
        let mut product: Vec<i128> = Vec::new();
        let mut k: usize = 0;
        while k < width
            invariant
                n == self.coeffs@.len(),
                n == rhs.coeffs@.len(),
                a == self@,
                b == rhs@,
                a.len() == n,
                b.len() == n,
                1 <= n,
                width == 2 * n - 1,
                k <= width,
                product@.len() == k,
                forall|t: int| 0 <= t < k ==> #[trigger] product@[t] as int == conv_at(a, b, t),
                forall|t: int, m: nat|
                    0 <= t < k && m <= n ==> i128_fits(#[trigger] conv_prefix(a, b, t, m)),
            decreases width - k,
        {
            let mut acc: i128 = 0;
            let mut i: usize = 0;
            while i < n
                invariant
                    n == self.coeffs@.len(),
                    n == rhs.coeffs@.len(),
                    a == self@,
                    b == rhs@,
                    a.len() == n,
                    b.len() == n,
                    i <= n,
                    k < 2 * n - 1,
                    acc as int == conv_prefix(a, b, k as int, i as nat),
                    forall|m: nat| m <= i ==> i128_fits(#[trigger] conv_prefix(a, b, k as int, m)),
                decreases n - i,
            {
                let ghost m_next = (i + 1) as nat;
                if k >= i && k - i < n {
                    let term: i128 = mul_i64_wide(self.coeffs[i], rhs.coeffs[k - i]);
                    match checked_add_i128(acc, term) {
                        Some(v) => {
                            acc = v;
                        },
                        None => {
                            proof {
                                assert(!i128_fits(conv_prefix(a, b, k as int, m_next)));
                            }
                            return Err(Error::ModulusOverflow);
                        },
                    }
                }
                proof {
                    assert(conv_prefix(a, b, k as int, m_next) == acc as int);
                    assert(forall|m: nat|
                        m <= i + 1 ==> i128_fits(#[trigger] conv_prefix(a, b, k as int, m)));
                }
                i += 1;
            }
            product.push(acc);
            k += 1;
        }
        let mut out: Vec<i64> = Vec::new();
        let mut idx: usize = 0;
        while idx < n
            invariant
                n == self.coeffs@.len(),
                a == self@,
                b == rhs@,
                a.len() == n,
                b.len() == n,
                1 <= n,
                width == 2 * n - 1,
                product@.len() == width,
                forall|t: int| 0 <= t < width ==> #[trigger] product@[t] as int == conv_at(a, b, t),
                forall|t: int, m: nat|
                    0 <= t < width && m <= n ==> i128_fits(#[trigger] conv_prefix(a, b, t, m)),
                idx <= n,
                out@.len() == idx,
                forall|j: int| 0 <= j < idx ==> #[trigger] out@[j] as int == nega_mul_at(a, b, j),
                forall|j: int| 0 <= j < idx ==> i64_fits(#[trigger] nega_mul_at(a, b, j)),
            decreases n - idx,
        {
            let hi: i128 = if idx + n < width {
                product[idx + n]
            } else {
                proof {
                    lemma_conv_out_of_span(a, b, idx + n as int);
                }
                0
            };
            let diff: i128 = match checked_sub_i128(product[idx], hi) {
                Some(v) => v,
                None => {
                    proof {
                        assert(!i64_fits(nega_mul_at(a, b, idx as int)));
                    }
                    return Err(Error::ModulusOverflow);
                },
            };
            if !fits_i64(diff) {
                proof {
                    assert(!i64_fits(nega_mul_at(a, b, idx as int)));
                }
                return Err(Error::ModulusOverflow);
            }
            out.push(diff as i64);
            idx += 1;
        }
        let r = Poly { coeffs: out };
        proof {
            assert(r@ =~= poly_nega_mul(self@, rhs@));
        }
        Ok(r)
    }
}

/// Beyond the span of the convolution every term is zero.
pub proof fn lemma_conv_out_of_span(a: Seq<int>, b: Seq<int>, k: int)
    requires
        k >= a.len() + b.len() - 1 || k < 0,
    ensures
        conv_at(a, b, k) == 0,
{
    lemma_conv_prefix_out_of_span(a, b, k, a.len());
}

proof fn lemma_conv_prefix_out_of_span(a: Seq<int>, b: Seq<int>, k: int, m: nat)
    requires
        m <= a.len(),
        k >= a.len() + b.len() - 1 || k < 0,
    ensures
        conv_prefix(a, b, k, m) == 0,
    decreases m,
{
    if m > 0 {
        lemma_conv_prefix_out_of_span(a, b, k, (m - 1) as nat);
    }
}

/// Polynomial in (Z/qZ)[X]/(X^N + 1): every operation reduces each
/// coefficient through the centered remainder for the stored modulus.
#[derive(Debug, Clone)]
pub struct ModPoly {
    pub coeffs: Vec<i64>,
    pub modulo: i64,
}

impl View for ModPoly {
    type V = Seq<int>;

    open spec fn view(&self) -> Seq<int> {
        seq_ints(self.coeffs@)
    }
}

impl ModPoly {
    /// A positive modulus, which every reducing operation requires.
    pub open spec fn wf(&self) -> bool {
        self.modulo >= 1
    }

    pub fn new(coeffs: Vec<i64>, modulo: i64) -> (r: ModPoly)
        ensures
            r.coeffs@ == coeffs@,
            r.modulo == modulo,
    {
        ModPoly { coeffs, modulo }
    }

    /// Coefficients drawn uniformly from `[lo, hi)`, under the given modulus.
    pub fn new_random(n: usize, lo: i64, hi: i64, modulo: i64) -> (r: ModPoly)
        requires
            lo < hi,
        ensures
            r@.len() == n,
            r.modulo == modulo,
            forall|i: int| 0 <= i < n ==> lo <= #[trigger] r@[i] < hi,
    {
        let coeffs = rand_array(n, lo, hi);
        ModPoly { coeffs, modulo }
    }

    /// The same coefficients read under another modulus: the lift that
    /// relinearization applies before key switching.
    pub fn with_modulo(&self, modulo: i64) -> (r: ModPoly)
        ensures
            r@ == self@,
            r.modulo == modulo,
    {
        ModPoly { coeffs: self.coeffs.clone(), modulo }
    }

    pub fn neg(&self) -> (r: ModPoly)
        requires
            self.wf(),
        ensures
            r.modulo == self.modulo,
            r@ == modpoly_neg(self@, self.modulo as int),
    {
        let n = self.coeffs.len();
        let mut out: Vec<i64> = Vec::new();
        let mut i: usize = 0;
        while i < n
            invariant
                n == self.coeffs@.len(),
                self.wf(),
                i <= n,
                out@.len() == i,
                forall|j: int|
                    0 <= j < i ==> #[trigger] out@[j] as int == spec_cmod(
                        -(self.coeffs@[j] as int),
                        self.modulo as int,
                    ),
            decreases n - i,
        {
            let c = self.coeffs[i];
            out.push(cmod_wide(-(c as i128), self.modulo));
            i += 1;
        }
        let r = ModPoly { coeffs: out, modulo: self.modulo };
        proof {
            assert(r@ =~= modpoly_neg(self@, self.modulo as int));
        }
        r
    }

    pub fn add(&self, rhs: &ModPoly) -> (r: ModPoly)
        requires
            self.wf(),
            self.coeffs@.len() == rhs.coeffs@.len(),
        ensures
            r.modulo == self.modulo,
            r@ == modpoly_add(self@, rhs@, self.modulo as int),
    {
        let n = self.coeffs.len();
        let mut out: Vec<i64> = Vec::new();
        let mut i: usize = 0;
        while i < n
            invariant
                n == self.coeffs@.len(),
                n == rhs.coeffs@.len(),
                self.wf(),
                i <= n,
                out@.len() == i,
                forall|j: int|
                    0 <= j < i ==> #[trigger] out@[j] as int == spec_cmod(
                        self.coeffs@[j] as int + rhs.coeffs@[j] as int,
                        self.modulo as int,
                    ),
            decreases n - i,
        {
            let s: i128 = (self.coeffs[i] as i128) + (rhs.coeffs[i] as i128);
            out.push(cmod_wide(s, self.modulo));
            i += 1;
        }
        let r = ModPoly { coeffs: out, modulo: self.modulo };
        proof {
            assert(r@ =~= modpoly_add(self@, rhs@, self.modulo as int));
        }
        r
    }

    pub fn sub(&self, rhs: &ModPoly) -> (r: ModPoly)
        requires
            self.wf(),
            self.coeffs@.len() == rhs.coeffs@.len(),
        ensures
            r.modulo == self.modulo,
            r@ == modpoly_sub(self@, rhs@, self.modulo as int),
    {
        let n = self.coeffs.len();
        let mut out: Vec<i64> = Vec::new();
        let mut i: usize = 0;
        while i < n
            invariant
                n == self.coeffs@.len(),
                n == rhs.coeffs@.len(),
                self.wf(),
                i <= n,
                out@.len() == i,
                forall|j: int|
                    0 <= j < i ==> #[trigger] out@[j] as int == spec_cmod(
                        self.coeffs@[j] as int - rhs.coeffs@[j] as int,
                        self.modulo as int,
                    ),
            decreases n - i,
        {
            let s: i128 = (self.coeffs[i] as i128) - (rhs.coeffs[i] as i128);
            out.push(cmod_wide(s, self.modulo));
            i += 1;
        }
        let r = ModPoly { coeffs: out, modulo: self.modulo };
        proof {
            assert(r@ =~= modpoly_sub(self@, rhs@, self.modulo as int));
        }
        r
    }

    /// Scalar multiple, each product reduced.
    pub fn mul_scalar(&self, rhs: i64) -> (r: ModPoly)
        requires
            self.wf(),
        ensures
            r.modulo == self.modulo,
            r@ == modpoly_scale(self@, rhs as int, self.modulo as int),
    {
        let n = self.coeffs.len();
        let mut out: Vec<i64> = Vec::new();
        let mut i: usize = 0;
        while i < n
            invariant
                n == self.coeffs@.len(),
                self.wf(),
                i <= n,
                out@.len() == i,
                forall|j: int|
                    0 <= j < i ==> #[trigger] out@[j] as int == spec_cmod(
                        self.coeffs@[j] as int * rhs as int,
                        self.modulo as int,
                    ),
            decreases n - i,
        {
            let p = mul_i64_wide(self.coeffs[i], rhs);
            out.push(cmod_wide(p, self.modulo));
            i += 1;
        }
        let r = ModPoly { coeffs: out, modulo: self.modulo };
        proof {
            assert(r@ =~= modpoly_scale(self@, rhs as int, self.modulo as int));
        }
        r
    }

    /// Negacyclic product: convolve with every term and partial sum reduced,
    /// then fold the upper half back with X^N == -1.
    pub fn mul(&self, rhs: &ModPoly) -> (r: ModPoly)
        requires
            self.wf(),
            self.coeffs@.len() == rhs.coeffs@.len(),
            1 <= self.coeffs@.len() <= usize::MAX / 2,
        ensures
            r.modulo == self.modulo,
            r@ == modpoly_mul(self@, rhs@, self.modulo as int),
    {
        let n = self.coeffs.len();
        let width = 2 * n - 1;
        let ghost a = self@;
        let ghost b = rhs@;
        let ghost q = self.modulo as int;
        let mut product: Vec<i64> = Vec::new();
        let mut k: usize = 0;
        while k < width
            invariant
                n == self.coeffs@.len(),
                n == rhs.coeffs@.len(),
                a == self@,
                b == rhs@,
                q == self.modulo as int,
                self.wf(),
                1 <= n,
                width == 2 * n - 1,
                k <= width,
                product@.len() == k,
                forall|t: int| 0 <= t < k ==> #[trigger] product@[t] as int == macc(a, b, q, t),
            decreases width - k,
        {
            let mut acc: i64 = 0;
            let mut i: usize = 0;
            while i < n
                invariant
                    n == self.coeffs@.len(),
                    n == rhs.coeffs@.len(),
                    a == self@,
                    b == rhs@,
                    q == self.modulo as int,
                    self.wf(),
                    i <= n,
                    k < 2 * n - 1,
                    acc as int == mul_acc(a, b, q, k as int, i as nat),
                decreases n - i,
            {
                if k >= i && k - i < n {
                    let term = cmod_wide(mul_i64_wide(self.coeffs[i], rhs.coeffs[k - i]), self.modulo);
                    acc = cmod_wide((acc as i128) + (term as i128), self.modulo);
                }
                i += 1;
            }
            product.push(acc);
            k += 1;
        }
        let mut out: Vec<i64> = Vec::new();
        let mut idx: usize = 0;
        while idx < n
            invariant
                n == self.coeffs@.len(),
                a == self@,
                b == rhs@,
                a.len() == n,
                b.len() == n,
                q == self.modulo as int,
                self.wf(),
                1 <= n,
                width == 2 * n - 1,
                product@.len() == width,
                forall|t: int| 0 <= t < width ==> #[trigger] product@[t] as int == macc(a, b, q, t),
                idx <= n,
                out@.len() == idx,
                forall|j: int|
                    0 <= j < idx ==> #[trigger] out@[j] as int == spec_cmod(
                        macc(a, b, q, j) - macc(a, b, q, j + n),
                        q,
                    ),
            decreases n - idx,
        {
            let hi: i64 = if idx + n < width {
                product[idx + n]
            } else {
                proof {
                    lemma_macc_out_of_span(a, b, q, idx + n as int);
                }
                0
            };
            let v = cmod_wide((product[idx] as i128) - (hi as i128), self.modulo);
            out.push(v);
            idx += 1;
        }
        let r = ModPoly { coeffs: out, modulo: self.modulo };
        proof {
            assert(r@ =~= modpoly_mul(self@, rhs@, self.modulo as int));
        }
        r
    }

    /// Truncating scalar division by a positive divisor, each quotient
    /// reduced: the key-switching divide that relinearization applies.
    pub fn div_truncate(&self, rhs: i64) -> (r: ModPoly)
        requires
            self.wf(),
            rhs >= 1,
        ensures
            r.modulo == self.modulo,
            r@ == modpoly_tdiv(self@, rhs as int, self.modulo as int),
    {
        let n = self.coeffs.len();
        let mut out: Vec<i64> = Vec::new();
        let mut i: usize = 0;
        while i < n
            invariant
                rhs >= 1,
                n == self.coeffs@.len(),
                self.wf(),
                i <= n,
                out@.len() == i,
                forall|j: int|
                    0 <= j < i ==> #[trigger] out@[j] as int == spec_cmod(
                        tdiv(self.coeffs@[j] as int, rhs as int),
                        self.modulo as int,
                    ),
            decreases n - i,
        {
            let c = self.coeffs[i];
            let av: i128 = if c < 0 {
                -(c as i128)
            } else {
                c as i128
            };
            let m: i128 = av / (rhs as i128);
            let d: i128 = if c < 0 {
                -m
            } else {
                m
            };
            proof {
                assert(d as int == tdiv(self@[i as int], rhs as int));
            }
            out.push(cmod_wide(d, self.modulo));
            i += 1;
        }
        let r = ModPoly { coeffs: out, modulo: self.modulo };
        proof {
            assert(r@ =~= modpoly_tdiv(self@, rhs as int, self.modulo as int));
        }
        r
    }

    /// Scalar division as multiplication by the modular inverse, with the
    /// inverse's error taxonomy passed through unchanged.
    pub fn div(&self, rhs: i64) -> (r: Result<ModPoly, Error>)
        requires
            self.wf(),
        ensures
            r == Err::<ModPoly, Error>(Error::DivisionByZero) <==> rhs == 0,
            r == Err::<ModPoly, Error>(Error::OutOfRange) <==> rhs != 0 && !spec_in_range(
                rhs as int,
                self.modulo as int,
            ),
            r == Err::<ModPoly, Error>(Error::NotInvertible) <==> rhs != 0 && spec_in_range(
                rhs as int,
                self.modulo as int,
            ) && !has_inverse(rhs as int, self.modulo as int),
            r is Ok <==> rhs != 0 && spec_in_range(rhs as int, self.modulo as int) && has_inverse(
                rhs as int,
                self.modulo as int,
            ),
            r matches Ok(p) ==> exists|y: int|
                1 <= y < self.modulo && #[trigger] cong(rhs as int * y, 1, self.modulo as int)
                    && p@ == modpoly_scale(self@, y, self.modulo as int) && p.modulo == self.modulo,
    {
        match inv(rhs, self.modulo) {
            Ok(y) => {
                let p = self.mul_scalar(y);
                proof {
                    assert(1 <= y as int && (y as int) < self.modulo as int && cong(
                        rhs as int * y as int,
                        1,
                        self.modulo as int,
                    ) && p@ == modpoly_scale(self@, y as int, self.modulo as int) && p.modulo
                        == self.modulo);
                }
                Ok(p)
            },
            Err(e) => Err(e),
        }
    }
}

/// Beyond the span of the convolution no term is defined, so the reduced
/// accumulation is zero.
pub proof fn lemma_macc_out_of_span(a: Seq<int>, b: Seq<int>, q: int, k: int)
    requires
        k >= a.len() + b.len() - 1 || k < 0,
    ensures
        macc(a, b, q, k) == 0,
{
    lemma_mul_acc_out_of_span(a, b, q, k, a.len());
}

proof fn lemma_mul_acc_out_of_span(a: Seq<int>, b: Seq<int>, q: int, k: int, m: nat)
    requires
        m <= a.len(),
        k >= a.len() + b.len() - 1 || k < 0,
    ensures
        mul_acc(a, b, q, k, m) == 0,
    decreases m,
{
    if m > 0 {
        lemma_mul_acc_out_of_span(a, b, q, k, (m - 1) as nat);
    }
}

} // verus!
