use vstd::prelude::*;
use crate::poly::{
    conv_at, conv_prefix, conv_term, lemma_conv_out_of_span, nega_mul_at, poly_add_s,
    poly_nega_mul, poly_neg_s, poly_scale_s,
};

verus! {

proof fn lemma_conv_prefix_linear(a1: Seq<int>, a2: Seq<int>, b: Seq<int>, k: int, m: nat)
    requires
        a1.len() == a2.len(),
        m <= a1.len(),
    ensures
        conv_prefix(poly_add_s(a1, a2), b, k, m) == conv_prefix(a1, b, k, m) + conv_prefix(
            a2,
            b,
            k,
            m,
        ),
    decreases m,
{
    if m > 0 {
        let i = m - 1;
        lemma_conv_prefix_linear(a1, a2, b, k, (m - 1) as nat);
        if 0 <= i < a1.len() && 0 <= k - i < b.len() {
            assert((a1[i] + a2[i]) * b[k - i] == a1[i] * b[k - i] + a2[i] * b[k - i])
                by (nonlinear_arith);
        }
    }
}

/// Convolution is linear in its first argument.
pub proof fn lemma_conv_linear(a1: Seq<int>, a2: Seq<int>, b: Seq<int>, k: int)
    requires
        a1.len() == a2.len(),
    ensures
        conv_at(poly_add_s(a1, a2), b, k) == conv_at(a1, b, k) + conv_at(a2, b, k),
{
    lemma_conv_prefix_linear(a1, a2, b, k, a1.len());
}

/// Every slot's magnitude stays within `bound`.
pub open spec fn bounded(s: Seq<int>, bound: int) -> bool {
    forall|i: int| 0 <= i < s.len() ==> -bound <= #[trigger] s[i] <= bound
}

pub(crate) proof fn lemma_conv_prefix_bound(a: Seq<int>, b: Seq<int>, k: int, m: nat, ba: int, bb: int)
    requires
        0 <= ba,
        0 <= bb,
        bounded(a, ba),
        bounded(b, bb),
        m <= a.len(),
    ensures
        -(m * ba * bb) <= conv_prefix(a, b, k, m) <= m * ba * bb,
    decreases m,
{
    if m == 0 {
    } else {
        let i = m - 1;
        lemma_conv_prefix_bound(a, b, k, (m - 1) as nat, ba, bb);
        if 0 <= i < a.len() && 0 <= k - i < b.len() {
            assert(-(ba * bb) <= a[i] * b[k - i] <= ba * bb) by (nonlinear_arith)
                requires -ba <= a[i] <= ba, -bb <= b[k - i] <= bb, 0 <= ba, 0 <= bb;
        }
        assert(m * ba * bb == (m - 1) * ba * bb + ba * bb) by (nonlinear_arith);
    }
}

proof fn lemma_conv_prefix_neg(a: Seq<int>, b: Seq<int>, k: int, m: nat)
    requires
        m <= a.len(),
    ensures
        conv_prefix(poly_neg_s(a), b, k, m) == -conv_prefix(a, b, k, m),
    decreases m,
{
    if m > 0 {
        let i = m - 1;
        lemma_conv_prefix_neg(a, b, k, (m - 1) as nat);
        if 0 <= i < a.len() && 0 <= k - i < b.len() {
            assert((-a[i]) * b[k - i] == -(a[i] * b[k - i])) by (nonlinear_arith);
        }
    }
}

/// Negating one factor negates the negacyclic product.
pub proof fn lemma_nega_mul_neg(a: Seq<int>, b: Seq<int>, i: int)
    ensures
        nega_mul_at(poly_neg_s(a), b, i) == -nega_mul_at(a, b, i),
{
    lemma_conv_prefix_neg(a, b, i, a.len());
    lemma_conv_prefix_neg(a, b, i + a.len(), a.len());
}

/// `u` padded with zeros to length `l`.
pub open spec fn zpad(u: Seq<int>, l: nat) -> Seq<int> {
    Seq::new(l, |t: int| if 0 <= t < u.len() { u[t] } else { 0 })
}

/// `u` moved up by `d` slots, with zeros below.
pub open spec fn shifted(u: Seq<int>, d: nat) -> Seq<int> {
    Seq::new(u.len() + d, |t: int| if t < d { 0 } else { u[t - d] })
}

/// A single value at one slot of an otherwise zero sequence.
pub open spec fn unit_at(l: nat, i0: int, x: int) -> Seq<int> {
    Seq::new(l, |t: int| if t == i0 { x } else { 0 })
}

/// The full (length `a.len() + b.len() - 1`) convolution as a sequence.
pub open spec fn conv_seq(a: Seq<int>, b: Seq<int>) -> Seq<int> {
    Seq::new((a.len() + b.len() - 1) as nat, |t: int| conv_at(a, b, t))
}

/// The triple convolution `sum_i a[i] * conv(b, c)[k - i]`, accumulated over
/// `a`'s indices.
pub open spec fn tri_prefix(a: Seq<int>, b: Seq<int>, c: Seq<int>, k: int, m: nat) -> int
    decreases m,
{
    if m == 0 {
        0
    } else {
        let i = m - 1;
        tri_prefix(a, b, c, k, (m - 1) as nat) + if 0 <= i < a.len() {
            a[i] * conv_at(b, c, k - i)
        } else {
            0
        }
    }
}

pub open spec fn tri(a: Seq<int>, b: Seq<int>, c: Seq<int>, k: int) -> int {
    tri_prefix(a, b, c, k, a.len())
}

proof fn lemma_conv_prefix_take(a: Seq<int>, b: Seq<int>, k: int, m: nat, j: nat)
    requires
        m <= j <= a.len(),
    ensures
        conv_prefix(a.take(j as int), b, k, m) == conv_prefix(a, b, k, m),
    decreases m,
{
    if m > 0 {
        lemma_conv_prefix_take(a, b, k, (m - 1) as nat, j);
    }
}

proof fn lemma_conv_prefix_zpad_first(a: Seq<int>, b: Seq<int>, l: nat, k: int, m: nat)
    requires
        m <= l,
    ensures
        conv_prefix(zpad(a, l), b, k, m) == conv_prefix(a, b, k, if m <= a.len() {
            m
        } else {
            a.len()
        }),
    decreases m,
{
    if m > 0 {
        lemma_conv_prefix_zpad_first(a, b, l, k, (m - 1) as nat);
        let i = m - 1;
        if i < a.len() {
        } else {
            assert(conv_term(zpad(a, l), b, k, i) == 0);
        }
    }
}

proof fn lemma_conv_zpad_first(a: Seq<int>, b: Seq<int>, l: nat, k: int)
    requires
        a.len() <= l,
    ensures
        conv_at(zpad(a, l), b, k) == conv_at(a, b, k),
{
    lemma_conv_prefix_zpad_first(a, b, l, k, l);
}

proof fn lemma_conv_prefix_shift_first(a: Seq<int>, b: Seq<int>, d: nat, k: int, m: nat)
    requires
        m <= a.len(),
    ensures
        conv_prefix(shifted(a, d), b, k, m + d) == conv_prefix(a, b, k - d, m),
    decreases m,
{
    if m == 0 {
        lemma_conv_prefix_shift_zeros(a, b, d, k, d);
    } else {
        lemma_conv_prefix_shift_first(a, b, d, k, (m - 1) as nat);
        let i = m + d - 1;
        assert(conv_term(shifted(a, d), b, k, i) == conv_term(a, b, k - d, m - 1));
    }
}

proof fn lemma_conv_prefix_shift_zeros(a: Seq<int>, b: Seq<int>, d: nat, k: int, m: nat)
    requires
        m <= d,
    ensures
        conv_prefix(shifted(a, d), b, k, m) == 0,
    decreases m,
{
    if m > 0 {
        lemma_conv_prefix_shift_zeros(a, b, d, k, (m - 1) as nat);
        assert(conv_term(shifted(a, d), b, k, m - 1) == 0);
    }
}

proof fn lemma_conv_shift_first(a: Seq<int>, b: Seq<int>, d: nat, k: int)
    ensures
        conv_at(shifted(a, d), b, k) == conv_at(a, b, k - d),
{
    lemma_conv_prefix_shift_first(a, b, d, k, a.len());
}

proof fn lemma_conv_prefix_scale_first(a: Seq<int>, b: Seq<int>, x: int, k: int, m: nat)
    requires
        m <= a.len(),
    ensures
        conv_prefix(poly_scale_s(a, x), b, k, m) == x * conv_prefix(a, b, k, m),
    decreases m,
{
    if m == 0 {
        assert(x * 0 == 0) by (nonlinear_arith);
    } else {
        let i = m - 1;
        lemma_conv_prefix_scale_first(a, b, x, k, (m - 1) as nat);
        if 0 <= k - i < b.len() {
            assert((a[i] * x) * b[k - i] == x * (a[i] * b[k - i])) by (nonlinear_arith);
        }
        assert(x * conv_prefix(a, b, k, (m - 1) as nat) + x * conv_term(a, b, k, i) == x * (
        conv_prefix(a, b, k, (m - 1) as nat) + conv_term(a, b, k, i))) by (nonlinear_arith);
    }
}

proof fn lemma_conv_prefix_linear_second(
    a: Seq<int>,
    u: Seq<int>,
    v: Seq<int>,
    k: int,
    m: nat,
)
    requires
        u.len() == v.len(),
    ensures
        conv_prefix(a, poly_add_s(u, v), k, m) == conv_prefix(a, u, k, m) + conv_prefix(
            a,
            v,
            k,
            m,
        ),
    decreases m,
{
    if m > 0 {
        let i = m - 1;
        lemma_conv_prefix_linear_second(a, u, v, k, (m - 1) as nat);
        if 0 <= i < a.len() && 0 <= k - i < u.len() {
            assert(a[i] * (u[k - i] + v[k - i]) == a[i] * u[k - i] + a[i] * v[k - i])
                by (nonlinear_arith);
        }
    }
}

proof fn lemma_conv_prefix_zpad_second(a: Seq<int>, u: Seq<int>, l: nat, k: int, m: nat)
    requires
        u.len() <= l,
    ensures
        conv_prefix(a, zpad(u, l), k, m) == conv_prefix(a, u, k, m),
    decreases m,
{
    if m > 0 {
        let i = m - 1;
        lemma_conv_prefix_zpad_second(a, u, l, k, (m - 1) as nat);
        assert(conv_term(a, zpad(u, l), k, i) == conv_term(a, u, k, i)) by {
            if 0 <= i < a.len() && 0 <= k - i < l {
                if k - i >= u.len() {
                    assert(zpad(u, l)[k - i] == 0);
                    assert(a[i] * 0 == 0) by (nonlinear_arith);
                }
            }
        }
    }
}

proof fn lemma_conv_prefix_shift_second(a: Seq<int>, u: Seq<int>, d: nat, k: int, m: nat)
    ensures
        conv_prefix(a, shifted(u, d), k, m) == conv_prefix(a, u, k - d, m),
    decreases m,
{
    if m > 0 {
        let i = m - 1;
        lemma_conv_prefix_shift_second(a, u, d, k, (m - 1) as nat);
        assert(conv_term(a, shifted(u, d), k, i) == conv_term(a, u, k - d, i)) by {
            if 0 <= i < a.len() && 0 <= k - i < u.len() + d {
                if k - i < d {
                    assert(shifted(u, d)[k - i] == 0);
                    assert(a[i] * 0 == 0) by (nonlinear_arith);
                }
            }
        }
    }
}

proof fn lemma_conv_prefix_unit_second(a: Seq<int>, l: nat, i0: int, x: int, k: int, m: nat)
    requires
        0 <= i0 < l,
    ensures
        conv_prefix(a, unit_at(l, i0, x), k, m) == if 0 <= k - i0 && k - i0 < m && k - i0
            < a.len() {
            a[k - i0] * x
        } else {
            0
        },
    decreases m,
{
    if m > 0 {
        let i = m - 1;
        lemma_conv_prefix_unit_second(a, l, i0, x, k, (m - 1) as nat);
        if 0 <= i < a.len() && 0 <= k - i < l && k - i != i0 {
            assert(unit_at(l, i0, x)[k - i] == 0);
            assert(a[i] * 0 == 0) by (nonlinear_arith);
        }
    }
}

proof fn lemma_conv_prefix_empty_second(b: Seq<int>, u: Seq<int>, k: int, m: nat)
    requires
        u.len() == 0,
    ensures
        conv_prefix(b, u, k, m) == 0,
    decreases m,
{
    if m > 0 {
        lemma_conv_prefix_empty_second(b, u, k, (m - 1) as nat);
    }
}

/// Convolution is symmetric in its two factors.
pub proof fn lemma_conv_comm(a: Seq<int>, b: Seq<int>, k: int)
    ensures
        conv_at(a, b, k) == conv_at(b, a, k),
    decreases a.len(),
{
    if a.len() == 0 {
        lemma_conv_prefix_empty_second(b, a, k, b.len());
    } else {
        let n = a.len();
        let a1 = a.take(n - 1);
        let last = a[n - 1];
        lemma_conv_prefix_take(a, b, k, (n - 1) as nat, (n - 1) as nat);
        assert(conv_at(a1, b, k) == conv_prefix(a, b, k, (n - 1) as nat));
        assert(a =~= poly_add_s(zpad(a1, n), unit_at(n, n - 1, last)));
        lemma_conv_prefix_linear_second(b, zpad(a1, n), unit_at(n, n - 1, last), k, b.len());
        lemma_conv_prefix_zpad_second(b, a1, n, k, b.len());
        lemma_conv_prefix_unit_second(b, n, n - 1, last, k, b.len());
        lemma_conv_comm(a1, b, k);
        assert(conv_term(a, b, k, n - 1) == if 0 <= k - (n - 1) && k - (n - 1) < b.len() {
            b[k - (n - 1)] * last
        } else {
            0
        }) by {
            if 0 <= k - (n - 1) < b.len() {
                assert(a[n - 1] * b[k - (n - 1)] == b[k - (n - 1)] * last) by (nonlinear_arith)
                    requires last == a[n - 1];
            }
        }
    }
}

proof fn lemma_tri_prefix_take(a: Seq<int>, b: Seq<int>, c: Seq<int>, k: int, m: nat, j: nat)
    requires
        m <= j <= a.len(),
    ensures
        tri_prefix(a.take(j as int), b, c, k, m) == tri_prefix(a, b, c, k, m),
    decreases m,
{
    if m > 0 {
        lemma_tri_prefix_take(a, b, c, k, (m - 1) as nat, j);
    }
}

proof fn lemma_tri_prefix_is_conv_second(
    a: Seq<int>,
    b: Seq<int>,
    c: Seq<int>,
    k: int,
    m: nat,
)
    requires
        b.len() >= 1,
        c.len() >= 1,
    ensures
        conv_prefix(a, conv_seq(b, c), k, m) == tri_prefix(a, b, c, k, m),
    decreases m,
{
    if m > 0 {
        let i = m - 1;
        lemma_tri_prefix_is_conv_second(a, b, c, k, (m - 1) as nat);
        if 0 <= i < a.len() {
            let w = b.len() + c.len() - 1;
            if 0 <= k - i < w {
                assert(conv_seq(b, c)[k - i] == conv_at(b, c, k - i));
            } else {
                lemma_conv_out_of_span(b, c, k - i);
                assert(a[i] * 0 == 0) by (nonlinear_arith);
            }
        }
    }
}

/// Grouping the convolution on the right gives the triple convolution.
pub proof fn lemma_conv_assoc_right(a: Seq<int>, b: Seq<int>, c: Seq<int>, k: int)
    requires
        b.len() >= 1,
        c.len() >= 1,
    ensures
        conv_at(a, conv_seq(b, c), k) == tri(a, b, c, k),
{
    lemma_tri_prefix_is_conv_second(a, b, c, k, a.len());
}

/// Grouping the convolution on the left also gives the triple convolution.
pub proof fn lemma_conv_assoc_left(a: Seq<int>, b: Seq<int>, c: Seq<int>, k: int)
    requires
        b.len() >= 1,
        c.len() >= 1,
    ensures
        conv_at(conv_seq(a, b), c, k) == tri(a, b, c, k),
    decreases a.len(),
{
    if a.len() == 0 {
        let w = (b.len() - 1) as nat;
        assert(conv_seq(a, b) =~= zpad(Seq::<int>::empty(), w));
        lemma_conv_zpad_first(Seq::<int>::empty(), c, w, k);
    } else {
        let n = a.len();
        let a1 = a.take(n - 1);
        let last = a[n - 1];
        let w = (n + b.len() - 1) as nat;
        let low = conv_seq(a1, b);
        let high = poly_scale_s(shifted(b, (n - 1) as nat), last);
        assert(conv_seq(a, b) =~= poly_add_s(zpad(low, w), high)) by {
            assert forall|t: int| 0 <= t < w implies conv_seq(a, b)[t] == poly_add_s(
                zpad(low, w),
                high,
            )[t] by {
                lemma_conv_prefix_take(a, b, t, (n - 1) as nat, (n - 1) as nat);
                assert(conv_at(a, b, t) == conv_at(a1, b, t) + conv_term(a, b, t, n - 1));
                if t >= a1.len() + b.len() - 1 {
                    lemma_conv_out_of_span(a1, b, t);
                }
                if 0 <= t - (n - 1) < b.len() {
                    assert(high[t] == b[t - (n - 1)] * last);
                    assert(conv_term(a, b, t, n - 1) == b[t - (n - 1)] * last) by (nonlinear_arith)
                        requires
                            conv_term(a, b, t, n - 1) == a[n - 1] * b[t - (n - 1)],
                            last == a[n - 1],
                    ;
                } else {
                    assert(high[t] == 0 * last);
                    assert(0 * last == 0) by (nonlinear_arith);
                }
            }
        }
        lemma_conv_prefix_linear(zpad(low, w), high, c, k, w);
        lemma_conv_zpad_first(low, c, w, k);
        lemma_conv_prefix_scale_first(shifted(b, (n - 1) as nat), c, last, k, w);
        lemma_conv_shift_first(b, c, (n - 1) as nat, k);
        lemma_conv_assoc_left(a1, b, c, k);
        lemma_tri_prefix_take(a, b, c, k, (n - 1) as nat, (n - 1) as nat);
        assert(tri(a, b, c, k) == tri_prefix(a, b, c, k, (n - 1) as nat) + last * conv_at(
            b,
            c,
            k - (n - 1),
        ));
    }
}

/// Convolution is associative.
pub proof fn lemma_conv_assoc(a: Seq<int>, b: Seq<int>, c: Seq<int>, k: int)
    requires
        b.len() >= 1,
        c.len() >= 1,
    ensures
        conv_at(conv_seq(a, b), c, k) == conv_at(a, conv_seq(b, c), k),
{
    lemma_conv_assoc_left(a, b, c, k);
    lemma_conv_assoc_right(a, b, c, k);
}

proof fn lemma_conv_prefix_scale_second(a: Seq<int>, u: Seq<int>, x: int, k: int, m: nat)
    ensures
        conv_prefix(a, poly_scale_s(u, x), k, m) == x * conv_prefix(a, u, k, m),
    decreases m,
{
    if m == 0 {
        assert(x * 0 == 0) by (nonlinear_arith);
    } else {
        let i = m - 1;
        lemma_conv_prefix_scale_second(a, u, x, k, (m - 1) as nat);
        if 0 <= i < a.len() && 0 <= k - i < u.len() {
            assert(a[i] * (u[k - i] * x) == x * (a[i] * u[k - i])) by (nonlinear_arith);
        }
        assert(x * conv_prefix(a, u, k, (m - 1) as nat) + x * conv_term(a, u, k, i) == x * (
        conv_prefix(a, u, k, (m - 1) as nat) + conv_term(a, u, k, i))) by (nonlinear_arith);
    }
}

/// The negacyclic fold, applied to the first factor, reads off the full
/// convolution at three spots: `T(k) - T(k+n) + T(k+2n)`.
proof fn lemma_nega_fold_first(a: Seq<int>, b: Seq<int>, c: Seq<int>, k: int)
    requires
        a.len() == b.len(),
        c.len() == a.len(),
        a.len() >= 1,
        0 <= k < a.len(),
    ensures
        nega_mul_at(poly_nega_mul(a, b), c, k) == conv_at(conv_seq(a, b), c, k) - conv_at(
            conv_seq(a, b),
            c,
            k + a.len(),
        ) + conv_at(conv_seq(a, b), c, k + 2 * a.len()),
{
    let n = a.len();
    let u = poly_nega_mul(a, b);
    let low = Seq::new(n, |m: int| conv_at(a, b, m));
    let high1 = Seq::new((n - 1) as nat, |m: int| conv_at(a, b, m + n));
    let w = (2 * n - 1) as nat;

    assert(u =~= poly_add_s(low, poly_scale_s(high1.push(0), -1))) by {
        lemma_conv_out_of_span(a, b, 2 * n - 1);
        assert forall|m: int| 0 <= m < n implies u[m] == poly_add_s(
            low,
            poly_scale_s(high1.push(0), -1),
        )[m] by {
            if m < n - 1 {
                assert(high1.push(0)[m] == conv_at(a, b, m + n));
            } else {
                assert(high1.push(0)[m] == 0);
            }
            assert(high1.push(0)[m] * -1 == -(high1.push(0)[m])) by (nonlinear_arith);
        }
    }
    lemma_conv_prefix_linear(low, poly_scale_s(high1.push(0), -1), c, k, n);
    lemma_conv_prefix_linear(low, poly_scale_s(high1.push(0), -1), c, k + n, n);
    lemma_conv_prefix_scale_first(high1.push(0), c, -1, k, n);
    lemma_conv_prefix_scale_first(high1.push(0), c, -1, k + n, n);
    assert(high1.push(0) =~= zpad(high1, n));
    lemma_conv_zpad_first(high1, c, n, k);
    lemma_conv_zpad_first(high1, c, n, k + n);
    let lk = conv_at(low, c, k);
    let lkn = conv_at(low, c, k + n);
    let hk = conv_at(high1, c, k);
    let hkn = conv_at(high1, c, k + n);
    assert(conv_at(u, c, k) == lk + -1 * hk);
    assert(conv_at(u, c, k + n) == lkn + -1 * hkn);
    assert(-1 * hk == -hk) by (nonlinear_arith);
    assert(-1 * hkn == -hkn) by (nonlinear_arith);

    assert(conv_seq(a, b) =~= poly_add_s(zpad(low, w), shifted(high1, n))) by {
        assert forall|t: int| 0 <= t < w implies conv_seq(a, b)[t] == poly_add_s(
            zpad(low, w),
            shifted(high1, n),
        )[t] by {
            if t < n {
                assert(shifted(high1, n)[t] == 0);
            } else {
                assert(zpad(low, w)[t] == 0);
                assert(shifted(high1, n)[t] == conv_at(a, b, t));
            }
        }
    }
    lemma_conv_prefix_linear(zpad(low, w), shifted(high1, n), c, k, w);
    lemma_conv_prefix_linear(zpad(low, w), shifted(high1, n), c, k + n, w);
    lemma_conv_prefix_linear(zpad(low, w), shifted(high1, n), c, k + 2 * n, w);
    lemma_conv_zpad_first(low, c, w, k);
    lemma_conv_zpad_first(low, c, w, k + n);
    lemma_conv_zpad_first(low, c, w, k + 2 * n);
    lemma_conv_shift_first(high1, c, n, k);
    lemma_conv_shift_first(high1, c, n, k + n);
    lemma_conv_shift_first(high1, c, n, k + 2 * n);
    lemma_conv_out_of_span(high1, c, k - n);
    lemma_conv_out_of_span(low, c, k + 2 * n);
}

/// The negacyclic fold, applied to the second factor, reads off the full
/// convolution at the same three spots.
proof fn lemma_nega_fold_second(a: Seq<int>, b: Seq<int>, c: Seq<int>, k: int)
    requires
        b.len() == a.len(),
        c.len() == a.len(),
        a.len() >= 1,
        0 <= k < a.len(),
    ensures
        nega_mul_at(a, poly_nega_mul(b, c), k) == conv_at(a, conv_seq(b, c), k) - conv_at(
            a,
            conv_seq(b, c),
            k + a.len(),
        ) + conv_at(a, conv_seq(b, c), k + 2 * a.len()),
{
    let n = a.len();
    let u = poly_nega_mul(b, c);
    let low = Seq::new(n, |m: int| conv_at(b, c, m));
    let high1 = Seq::new((n - 1) as nat, |m: int| conv_at(b, c, m + n));
    let w = (2 * n - 1) as nat;

    assert(u =~= poly_add_s(low, poly_scale_s(high1.push(0), -1))) by {
        lemma_conv_out_of_span(b, c, 2 * n - 1);
        assert forall|m: int| 0 <= m < n implies u[m] == poly_add_s(
            low,
            poly_scale_s(high1.push(0), -1),
        )[m] by {
            if m < n - 1 {
                assert(high1.push(0)[m] == conv_at(b, c, m + n));
            } else {
                assert(high1.push(0)[m] == 0);
            }
            assert(high1.push(0)[m] * -1 == -(high1.push(0)[m])) by (nonlinear_arith);
        }
    }
    lemma_conv_prefix_linear_second(a, low, poly_scale_s(high1.push(0), -1), k, a.len());
    lemma_conv_prefix_linear_second(a, low, poly_scale_s(high1.push(0), -1), k + n, a.len());
    lemma_conv_prefix_scale_second(a, high1.push(0), -1, k, a.len());
    lemma_conv_prefix_scale_second(a, high1.push(0), -1, k + n, a.len());
    assert(high1.push(0) =~= zpad(high1, n));
    lemma_conv_prefix_zpad_second(a, high1, n, k, a.len());
    lemma_conv_prefix_zpad_second(a, high1, n, k + n, a.len());
    let lk = conv_at(a, low, k);
    let lkn = conv_at(a, low, k + n);
    let hk = conv_at(a, high1, k);
    let hkn = conv_at(a, high1, k + n);
    assert(conv_at(a, u, k) == lk + -1 * hk);
    assert(conv_at(a, u, k + n) == lkn + -1 * hkn);
    assert(-1 * hk == -hk) by (nonlinear_arith);
    assert(-1 * hkn == -hkn) by (nonlinear_arith);

    assert(conv_seq(b, c) =~= poly_add_s(zpad(low, w), shifted(high1, n))) by {
        assert forall|t: int| 0 <= t < w implies conv_seq(b, c)[t] == poly_add_s(
            zpad(low, w),
            shifted(high1, n),
        )[t] by {
            if t < n {
                assert(shifted(high1, n)[t] == 0);
            } else {
                assert(zpad(low, w)[t] == 0);
                assert(shifted(high1, n)[t] == conv_at(b, c, t));
            }
        }
    }
    lemma_conv_prefix_linear_second(a, zpad(low, w), shifted(high1, n), k, a.len());
    lemma_conv_prefix_linear_second(a, zpad(low, w), shifted(high1, n), k + n, a.len());
    lemma_conv_prefix_linear_second(a, zpad(low, w), shifted(high1, n), k + 2 * n, a.len());
    lemma_conv_prefix_zpad_second(a, low, w, k, a.len());
    lemma_conv_prefix_zpad_second(a, low, w, k + n, a.len());
    lemma_conv_prefix_zpad_second(a, low, w, k + 2 * n, a.len());
    lemma_conv_prefix_shift_second(a, high1, n, k, a.len());
    lemma_conv_prefix_shift_second(a, high1, n, k + n, a.len());
    lemma_conv_prefix_shift_second(a, high1, n, k + 2 * n, a.len());
    lemma_conv_out_of_span(a, high1, k - n);
    lemma_conv_out_of_span(a, low, k + 2 * n);
}

/// The negacyclic product is associative.
pub proof fn lemma_nega_assoc(a: Seq<int>, b: Seq<int>, c: Seq<int>, k: int)
    requires
        b.len() == a.len(),
        c.len() == a.len(),
        a.len() >= 1,
        0 <= k < a.len(),
    ensures
        nega_mul_at(poly_nega_mul(a, b), c, k) == nega_mul_at(a, poly_nega_mul(b, c), k),
{
    let n = a.len();
    lemma_nega_fold_first(a, b, c, k);
    lemma_nega_fold_second(a, b, c, k);
    lemma_conv_assoc(a, b, c, k);
    lemma_conv_assoc(a, b, c, k + n);
    lemma_conv_assoc(a, b, c, k + 2 * n);
}

/// The negacyclic product is commutative.
pub proof fn lemma_nega_comm(a: Seq<int>, b: Seq<int>, k: int)
    requires
        b.len() == a.len(),
    ensures
        nega_mul_at(a, b, k) == nega_mul_at(b, a, k),
{
    lemma_conv_comm(a, b, k);
    lemma_conv_comm(a, b, k + a.len());
}

/// Associativity, stated over whole coefficient sequences.
pub proof fn lemma_nega_assoc_seq(a: Seq<int>, b: Seq<int>, c: Seq<int>)
    requires
        b.len() == a.len(),
        c.len() == a.len(),
        a.len() >= 1,
    ensures
        poly_nega_mul(poly_nega_mul(a, b), c) == poly_nega_mul(a, poly_nega_mul(b, c)),
{
    assert forall|k: int| 0 <= k < a.len() implies #[trigger] poly_nega_mul(
        poly_nega_mul(a, b),
        c,
    )[k] == poly_nega_mul(a, poly_nega_mul(b, c))[k] by {
        lemma_nega_assoc(a, b, c, k);
    }
    assert(poly_nega_mul(poly_nega_mul(a, b), c) =~= poly_nega_mul(a, poly_nega_mul(b, c)));
}

/// Commutativity, stated over whole coefficient sequences.
pub proof fn lemma_nega_comm_seq(a: Seq<int>, b: Seq<int>)
    requires
        b.len() == a.len(),
    ensures
        poly_nega_mul(a, b) == poly_nega_mul(b, a),
{
    assert forall|k: int| 0 <= k < a.len() implies #[trigger] poly_nega_mul(a, b)[k]
        == poly_nega_mul(b, a)[k] by {
        lemma_nega_comm(a, b, k);
    }
    assert(poly_nega_mul(a, b) =~= poly_nega_mul(b, a));
}

/// The negacyclic product distributes over addition in its first factor.
pub proof fn lemma_nega_linear1(u: Seq<int>, v: Seq<int>, b: Seq<int>, k: int)
    requires
        v.len() == u.len(),
    ensures
        nega_mul_at(poly_add_s(u, v), b, k) == nega_mul_at(u, b, k) + nega_mul_at(v, b, k),
{
    lemma_conv_linear(u, v, b, k);
    lemma_conv_linear(u, v, b, k + u.len());
}

/// The negacyclic product distributes over addition in its second factor.
pub proof fn lemma_nega_linear2(a: Seq<int>, u: Seq<int>, v: Seq<int>, k: int)
    requires
        v.len() == u.len(),
    ensures
        nega_mul_at(a, poly_add_s(u, v), k) == nega_mul_at(a, u, k) + nega_mul_at(a, v, k),
{
    lemma_conv_prefix_linear_second(a, u, v, k, a.len());
    lemma_conv_prefix_linear_second(a, u, v, k + a.len(), a.len());
}

/// Scaling the first factor scales the negacyclic product.
pub proof fn lemma_nega_scale1(u: Seq<int>, x: int, b: Seq<int>, k: int)
    ensures
        nega_mul_at(poly_scale_s(u, x), b, k) == x * nega_mul_at(u, b, k),
{
    lemma_conv_prefix_scale_first(u, b, x, k, u.len());
    lemma_conv_prefix_scale_first(u, b, x, k + u.len(), u.len());
    assert(x * conv_at(u, b, k) - x * conv_at(u, b, k + u.len()) == x * (conv_at(u, b, k)
        - conv_at(u, b, k + u.len()))) by (nonlinear_arith);
}

/// Scaling the second factor scales the negacyclic product.
pub proof fn lemma_nega_scale2(a: Seq<int>, u: Seq<int>, x: int, k: int)
    ensures
        nega_mul_at(a, poly_scale_s(u, x), k) == x * nega_mul_at(a, u, k),
{
    lemma_conv_prefix_scale_second(a, u, x, k, a.len());
    lemma_conv_prefix_scale_second(a, u, x, k + a.len(), a.len());
    assert(x * conv_at(a, u, k) - x * conv_at(a, u, k + a.len()) == x * (conv_at(a, u, k)
        - conv_at(a, u, k + a.len()))) by (nonlinear_arith);
}

} // verus!
