use vstd::prelude::*;
use vstd::arithmetic::div_mod::lemma_fundamental_div_mod;
use vstd::arithmetic::div_mod::lemma_mod_multiples_basic;
use crate::error::Error;

verus! {

/// `a` and `b` differ by an integer multiple of `q`.
pub open spec fn cong(a: int, b: int, q: int) -> bool {
    exists|k: int| a - b == #[trigger] (k * q)
}

pub proof fn lemma_cong_refl(a: int, q: int)
    ensures
        cong(a, a, q),
{
    assert(a - a == 0 * q);
}

pub proof fn lemma_cong_sym(a: int, b: int, q: int)
    requires
        cong(a, b, q),
    ensures
        cong(b, a, q),
{
    let k = choose|k: int| a - b == #[trigger] (k * q);
    assert(b - a == (-k) * q) by (nonlinear_arith)
        requires a - b == k * q;
}

pub proof fn lemma_cong_trans(a: int, b: int, c: int, q: int)
    requires
        cong(a, b, q),
        cong(b, c, q),
    ensures
        cong(a, c, q),
{
    let k = choose|k: int| a - b == #[trigger] (k * q);
    let j = choose|j: int| b - c == #[trigger] (j * q);
    assert(a - c == (k + j) * q) by (nonlinear_arith)
        requires a - b == k * q, b - c == j * q;
}

pub proof fn lemma_cong_add(a: int, b: int, c: int, d: int, q: int)
    requires
        cong(a, b, q),
        cong(c, d, q),
    ensures
        cong(a + c, b + d, q),
{
    let k = choose|k: int| a - b == #[trigger] (k * q);
    let j = choose|j: int| c - d == #[trigger] (j * q);
    assert((a + c) - (b + d) == (k + j) * q) by (nonlinear_arith)
        requires a - b == k * q, c - d == j * q;
}

pub proof fn lemma_cong_sub(a: int, b: int, c: int, d: int, q: int)
    requires
        cong(a, b, q),
        cong(c, d, q),
    ensures
        cong(a - c, b - d, q),
{
    let k = choose|k: int| a - b == #[trigger] (k * q);
    let j = choose|j: int| c - d == #[trigger] (j * q);
    assert((a - c) - (b - d) == (k - j) * q) by (nonlinear_arith)
        requires a - b == k * q, c - d == j * q;
}

pub proof fn lemma_cong_mul(a: int, b: int, c: int, d: int, q: int)
    requires
        cong(a, b, q),
        cong(c, d, q),
    ensures
        cong(a * c, b * d, q),
{
    let k = choose|k: int| a - b == #[trigger] (k * q);
    let j = choose|j: int| c - d == #[trigger] (j * q);
    assert(a * c - b * d == (k * c + b * j) * q) by (nonlinear_arith)
        requires a - b == k * q, c - d == j * q;
}

/// Truncated remainder (the remainder Rust's `%` computes): same sign as `x`,
/// magnitude below `q`. Specs are written with it because the executable
/// reduction uses the machine remainder.
pub open spec fn tmod(x: int, q: int) -> int {
    if x >= 0 {
        x % q
    } else {
        -((-x) % q)
    }
}

/// The reduction every ring operation applies: take the truncated remainder,
/// then subtract `q` once when the remainder reaches `q / 2`.
pub open spec fn spec_cmod(x: int, q: int) -> int {
    let t = tmod(x, q);
    if t < q / 2 {
        t
    } else {
        t - q
    }
}

proof fn lemma_tmod_properties(x: int, q: int)
    requires
        q >= 1,
    ensures
        -q < tmod(x, q) < q,
        cong(x, tmod(x, q), q),
{
    if x >= 0 {
        assert(0 <= x % q < q) by (nonlinear_arith)
            requires q >= 1, x >= 0;
        lemma_fundamental_div_mod(x, q);
        assert(x - tmod(x, q) == (x / q) * q) by {
            assert(x == q * (x / q) + x % q);
            assert(q * (x / q) == (x / q) * q) by (nonlinear_arith);
        }
    } else {
        let y = -x;
        assert(0 <= y % q < q) by (nonlinear_arith)
            requires q >= 1, y >= 0;
        lemma_fundamental_div_mod(y, q);
        assert(x - tmod(x, q) == (-(y / q)) * q) by {
            assert(y == q * (y / q) + y % q);
            assert(x - tmod(x, q) == -(y - y % q));
            assert(-(q * (y / q)) == (-(y / q)) * q) by (nonlinear_arith);
        }
    }
}

/// The reduced value is congruent to its source, and its magnitude stays
/// below `q`.
pub proof fn lemma_cmod_congruent(x: int, q: int)
    requires
        q >= 1,
    ensures
        cong(x, spec_cmod(x, q), q),
        -q <= spec_cmod(x, q) < q,
{
    lemma_tmod_properties(x, q);
    let t = tmod(x, q);
    if t < q / 2 {
        assert(0 <= q / 2) by (nonlinear_arith)
            requires q >= 1;
    } else {
        let k = choose|k: int| x - t == #[trigger] (k * q);
        assert(x - (t - q) == (k + 1) * q) by (nonlinear_arith)
            requires x - t == k * q;
        assert(0 <= q / 2 < q) by (nonlinear_arith)
            requires q >= 1;
    }
}

/// Reducing an already-reduced value changes nothing.
pub proof fn lemma_cmod_idempotent(x: int, q: int)
    requires
        q >= 1,
    ensures
        spec_cmod(spec_cmod(x, q), q) == spec_cmod(x, q),
{
    lemma_tmod_properties(x, q);
    let t = tmod(x, q);
    assert(0 <= q / 2 < q) by (nonlinear_arith)
        requires q >= 1;
    let r = spec_cmod(x, q);
    assert(-q <= r < q / 2);
    if r >= 0 {
        assert(r % q == r) by (nonlinear_arith)
            requires 0 <= r < q;
    } else if r == -q {
        assert(t == 0 && q / 2 <= 0);
        assert(q % q == 0) by (nonlinear_arith)
            requires q >= 1;
        assert(tmod(r, q) == 0);
    } else {
        assert((-r) % q == -r) by (nonlinear_arith)
            requires 0 < -r < q;
    }
}

/// Centered remainder: reduce `x` modulo `modulo`, pulling the machine
/// remainder down by one modulus as soon as it reaches `modulo / 2`.
pub fn cmod(x: i64, modulo: i64) -> (r: i64)
    requires
        modulo >= 1,
    ensures
        r == spec_cmod(x as int, modulo as int),
{
    let t: i64 = x % modulo;
    if t < modulo / 2 {
        t
    } else {
        t - modulo
    }
}

/// The truncated remainder vanishes exactly on the multiples of `q`.
pub proof fn lemma_tmod_zero_iff_multiple(a: int, q: int)
    requires
        q >= 1,
    ensures
        tmod(a, q) == 0 <==> cong(a, 0, q),
{
    if tmod(a, q) == 0 {
        lemma_tmod_properties(a, q);
    }
    if cong(a, 0, q) {
        let k = choose|k: int| a - 0 == #[trigger] (k * q);
        if a >= 0 {
            lemma_mod_multiples_basic(k, q);
        } else {
            lemma_mod_multiples_basic(-k, q);
            assert(-a == (-k) * q) by (nonlinear_arith)
                requires a == k * q;
        }
    }
}

/// Whether some multiplier in `[1, q)` sends `x` to a value congruent to one.
pub open spec fn has_inverse(x: int, q: int) -> bool {
    exists|y: int| 1 <= y < q && #[trigger] cong(x * y, 1, q)
}

/// Modular inverse in the ring of centered representatives: a bounded linear
/// search for the smallest multiplier in `[1, modulo)` whose product with `x`
/// is congruent to one.
pub fn inv(x: i64, modulo: i64) -> (r: Result<i64, Error>)
    requires
        modulo >= 1,
    ensures
        r == Err::<i64, Error>(Error::DivisionByZero) <==> x == 0,
        r == Err::<i64, Error>(Error::OutOfRange) <==> x != 0 && !spec_in_range(
            x as int,
            modulo as int,
        ),
        r == Err::<i64, Error>(Error::NotInvertible) <==> x != 0 && spec_in_range(
            x as int,
            modulo as int,
        ) && !has_inverse(x as int, modulo as int),
        r is Ok <==> x != 0 && spec_in_range(x as int, modulo as int) && has_inverse(
            x as int,
            modulo as int,
        ),
        r matches Ok(y) ==> 1 <= y < modulo && cong(x as int * y as int, 1, modulo as int)
            && forall|j: int| 1 <= j < y ==> !#[trigger] cong(x as int * j, 1, modulo as int),
{
    if x == 0 {
        return Err(Error::DivisionByZero);
    }
    if !is_in_range(x, modulo) {
        return Err(Error::OutOfRange);
    }
    let mut y: i64 = 1;
    while y < modulo
        invariant
            modulo >= 1,
            x != 0,
            spec_in_range(x as int, modulo as int),
            1 <= y <= modulo,
            forall|j: int| 1 <= j < y ==> !#[trigger] cong(x as int * j, 1, modulo as int),
        decreases modulo - y,
    {
        proof {
            assert(-0x40000000000000000000000000000000 <= x as int * y as int
                <= 0x40000000000000000000000000000000) by (nonlinear_arith)
                requires
                    -0x8000000000000000 <= x as int <= 0x7fffffffffffffff,
                    0 <= y as int <= 0x7fffffffffffffff,
            ;
        }
        let prod: i128 = (x as i128) * (y as i128);
        let rem: i128 = (prod - 1) % (modulo as i128);
        proof {
            assert(prod == x as int * y as int);
            assert(rem == tmod(prod - 1, modulo as int));
            lemma_tmod_zero_iff_multiple(prod - 1, modulo as int);
            assert(cong(prod - 1, 0, modulo as int) <==> cong(
                x as int * y as int,
                1,
                modulo as int,
            ));
        }
        if rem == 0 {
            proof {
                assert(cong(x as int * y as int, 1, modulo as int));
                assert(has_inverse(x as int, modulo as int));
            }
            return Ok(y);
        }
        y = y + 1;
    }
    assert(!has_inverse(x as int, modulo as int));
    Err(Error::NotInvertible)
}

/// Whether `x` already lies in the centered band `(-modulo/2, modulo/2]`
/// (with `modulo / 2` rounded toward zero).
pub open spec fn spec_in_range(x: int, q: int) -> bool {
    x + q / 2 > 0 && x - q / 2 <= 0
}

/// Range check for the centered band `(-modulo/2, modulo/2]`.
pub fn is_in_range(x: i64, modulo: i64) -> (r: bool)
    requires
        modulo >= 1,
    ensures
        r == spec_in_range(x as int, modulo as int),
{
    let half: i64 = modulo / 2;
    let xw = x as i128;
    let hw = half as i128;
    xw + hw > 0 && xw - hw <= 0
}

} // verus!
