use vstd::prelude::*;
use crate::modulo::{
    cong, lemma_cmod_congruent, lemma_cong_add, lemma_cong_mul, lemma_cong_refl, lemma_cong_sub,
    lemma_cong_sym, lemma_cong_trans, spec_cmod, spec_in_range, tmod,
};
use crate::poly::{modpoly_scale, modpoly_tdiv, tdiv};
use vstd::arithmetic::div_mod::lemma_fundamental_div_mod;
use crate::ciphertext::relin_output;
use crate::keys::{noise_range, ternary, wide_range};
use crate::convolution::{
    bounded, lemma_conv_linear, lemma_conv_prefix_bound, lemma_nega_assoc, lemma_nega_assoc_seq,
    lemma_nega_comm, lemma_nega_comm_seq, lemma_nega_linear1, lemma_nega_linear2,
    lemma_nega_mul_neg, lemma_nega_scale1, lemma_nega_scale2,
};
use crate::poly::{
    conv_at, conv_prefix, conv_term, macc, modpoly_add, modpoly_mul,
    modpoly_neg, mul_acc, nega_mul_at, poly_add_s, poly_nega_mul, poly_neg_s, poly_scale_s,
    poly_sub_s,
};

verus! {

/// Law: the centered remainder leaves every value that already lies strictly
/// inside the band `(-q/2, q/2)` unchanged; more generally it is the identity
/// on `(-q, q/2)`.
pub proof fn lemma_cmod_identity(x: int, q: int)
    requires
        q >= 1,
        -q < x < q / 2,
    ensures
        spec_cmod(x, q) == x,
{
    if x >= 0 {
        assert(x % q == x) by (nonlinear_arith)
            requires 0 <= x < q, q >= 1;
        assert(q / 2 < q) by (nonlinear_arith)
            requires q >= 1;
    } else {
        assert((-x) % q == -x) by (nonlinear_arith)
            requires 0 < -x < q, q >= 1;
        assert(tmod(x, q) == x);
        assert(0 <= q / 2) by (nonlinear_arith)
            requires q >= 1;
    }
}

/// Law: the centered remainder lands in the band `(-q/2, q/2]` whenever the
/// machine remainder stays clear of the band's boundary cells: above
/// `-q/2` and, when it reaches `q/2`, beyond `q - q/2`.
pub proof fn lemma_cmod_in_band(x: int, q: int)
    requires
        q >= 2,
        -(q / 2) < tmod(x, q),
        tmod(x, q) < q / 2 || tmod(x, q) > q - q / 2,
    ensures
        spec_in_range(spec_cmod(x, q), q),
{
    lemma_cmod_congruent(x, q);
    let t = tmod(x, q);
    assert(2 * (q / 2) <= q < 2 * (q / 2) + 2) by (nonlinear_arith)
        requires q >= 2;
    if t < q / 2 {
        assert(spec_cmod(x, q) == t);
    } else {
        assert(spec_cmod(x, q) == t - q);
        assert(-q < t - q < 0);
        assert(t - q + q / 2 > 0);
    }
}

/// Two coefficient sequences congruent slot by slot.
pub open spec fn seq_cong(x: Seq<int>, y: Seq<int>, q: int) -> bool {
    x.len() == y.len() && forall|i: int| 0 <= i < x.len() ==> #[trigger] cong(x[i], y[i], q)
}

/// Reduction of a sum is congruent to the sum itself, slot by slot: the
/// reducing ring addition agrees with exact addition modulo `q`.
pub proof fn lemma_modpoly_add_cong(a: Seq<int>, b: Seq<int>, q: int, i: int)
    requires
        q >= 1,
        0 <= i < a.len(),
        a.len() == b.len(),
    ensures
        cong(modpoly_add(a, b, q)[i], a[i] + b[i], q),
{
    lemma_cmod_congruent(a[i] + b[i], q);
    lemma_cong_sym(a[i] + b[i], spec_cmod(a[i] + b[i], q), q);
}

proof fn lemma_conv_prefix_cong(a: Seq<int>, b: Seq<int>, a2: Seq<int>, b2: Seq<int>, q: int, k: int, m: nat)
    requires
        q >= 1,
        m <= a.len(),
        seq_cong(a, a2, q),
        seq_cong(b, b2, q),
    ensures
        cong(conv_prefix(a, b, k, m), conv_prefix(a2, b2, k, m), q),
    decreases m,
{
    if m == 0 {
        lemma_cong_refl(0, q);
    } else {
        let i = m - 1;
        lemma_conv_prefix_cong(a, b, a2, b2, q, k, (m - 1) as nat);
        if 0 <= i < a.len() && 0 <= k - i < b.len() {
            lemma_cong_mul(a[i], a2[i], b[k - i], b2[k - i], q);
        } else {
            lemma_cong_refl(0, q);
        }
        lemma_cong_add(
            conv_prefix(a, b, k, (m - 1) as nat),
            conv_prefix(a2, b2, k, (m - 1) as nat),
            conv_term(a, b, k, i),
            conv_term(a2, b2, k, i),
            q,
        );
    }
}

/// Congruent inputs convolve to congruent outputs.
pub proof fn lemma_conv_cong(a: Seq<int>, b: Seq<int>, a2: Seq<int>, b2: Seq<int>, q: int, k: int)
    requires
        q >= 1,
        seq_cong(a, a2, q),
        seq_cong(b, b2, q),
    ensures
        cong(conv_at(a, b, k), conv_at(a2, b2, k), q),
{
    lemma_conv_prefix_cong(a, b, a2, b2, q, k, a.len());
}

proof fn lemma_mul_acc_cong_prefix(a: Seq<int>, b: Seq<int>, q: int, k: int, m: nat)
    requires
        q >= 1,
        m <= a.len(),
    ensures
        cong(mul_acc(a, b, q, k, m), conv_prefix(a, b, k, m), q),
    decreases m,
{
    if m == 0 {
        lemma_cong_refl(0, q);
    } else {
        let i = m - 1;
        let prev = mul_acc(a, b, q, k, (m - 1) as nat);
        let prev_c = conv_prefix(a, b, k, (m - 1) as nat);
        lemma_mul_acc_cong_prefix(a, b, q, k, (m - 1) as nat);
        if 0 <= i < a.len() && 0 <= k - i < b.len() {
            let term = a[i] * b[k - i];
            lemma_cmod_congruent(term, q);
            lemma_cong_sym(term, spec_cmod(term, q), q);
            lemma_cong_sym(spec_cmod(term, q), term, q);
            lemma_cmod_congruent(prev + spec_cmod(term, q), q);
            lemma_cong_sym(prev + spec_cmod(term, q), spec_cmod(prev + spec_cmod(term, q), q), q);
            lemma_cong_add(prev, prev_c, spec_cmod(term, q), term, q);
            lemma_cong_trans(
                spec_cmod(prev + spec_cmod(term, q), q),
                prev + spec_cmod(term, q),
                prev_c + term,
                q,
            );
        }
    }
}

/// The reduced accumulation is congruent to the exact convolution.
pub proof fn lemma_macc_cong_conv(a: Seq<int>, b: Seq<int>, q: int, k: int)
    requires
        q >= 1,
    ensures
        cong(macc(a, b, q, k), conv_at(a, b, k), q),
{
    lemma_mul_acc_cong_prefix(a, b, q, k, a.len());
}

/// The reduced negacyclic product is congruent, slot by slot, to the exact
/// negacyclic product of any slotwise-congruent inputs.
pub proof fn lemma_modpoly_mul_cong(
    a: Seq<int>,
    b: Seq<int>,
    a2: Seq<int>,
    b2: Seq<int>,
    q: int,
    i: int,
)
    requires
        q >= 1,
        0 <= i < a.len(),
        seq_cong(a, a2, q),
        seq_cong(b, b2, q),
    ensures
        cong(
            modpoly_mul(a, b, q)[i],
            conv_at(a2, b2, i) - conv_at(a2, b2, i + a2.len()),
            q,
        ),
{
    let n = a.len() as int;
    let folded = macc(a, b, q, i) - macc(a, b, q, i + n);
    lemma_cmod_congruent(folded, q);
    lemma_cong_sym(folded, spec_cmod(folded, q), q);
    lemma_macc_cong_conv(a, b, q, i);
    lemma_macc_cong_conv(a, b, q, i + n);
    lemma_conv_cong(a, b, a2, b2, q, i);
    lemma_conv_cong(a, b, a2, b2, q, i + n);
    lemma_cong_trans(macc(a, b, q, i), conv_at(a, b, i), conv_at(a2, b2, i), q);
    lemma_cong_trans(macc(a, b, q, i + n), conv_at(a, b, i + n), conv_at(a2, b2, i + n), q);
    lemma_cong_sub(
        macc(a, b, q, i),
        conv_at(a2, b2, i),
        macc(a, b, q, i + n),
        conv_at(a2, b2, i + n),
        q,
    );
    lemma_cong_trans(
        spec_cmod(folded, q),
        folded,
        conv_at(a2, b2, i) - conv_at(a2, b2, i + n),
        q,
    );
}

pub proof fn lemma_seq_cong_refl(x: Seq<int>, q: int)
    ensures
        seq_cong(x, x, q),
{
    assert forall|i: int| 0 <= i < x.len() implies #[trigger] cong(x[i], x[i], q) by {
        lemma_cong_refl(x[i], q);
    }
}

/// The reducing ring addition is slotwise congruent to exact addition.
pub proof fn lemma_seq_cong_modpoly_add(a: Seq<int>, b: Seq<int>, q: int)
    requires
        q >= 1,
        a.len() == b.len(),
    ensures
        seq_cong(modpoly_add(a, b, q), poly_add_s(a, b), q),
{
    assert forall|i: int| 0 <= i < modpoly_add(a, b, q).len() implies #[trigger] cong(
        modpoly_add(a, b, q)[i],
        poly_add_s(a, b)[i],
        q,
    ) by {
        lemma_cmod_congruent(a[i] + b[i], q);
        lemma_cong_sym(a[i] + b[i], spec_cmod(a[i] + b[i], q), q);
    }
}

/// What decryption computes, over views: `c0 + c1*s` under `q`.
pub open spec fn decrypt_view(c0: Seq<int>, c1: Seq<int>, s: Seq<int>, q: int) -> Seq<int> {
    modpoly_add(c0, modpoly_mul(c1, s, q), q)
}

/// Decryption expands, modulo `q`, to the exact ring expression
/// `c0[i] + (c1 * s)[i]` with the exact negacyclic product.
pub proof fn lemma_decrypt_view_cong(c0: Seq<int>, c1: Seq<int>, s: Seq<int>, q: int, i: int)
    requires
        q >= 1,
        c0.len() == c1.len(),
        0 <= i < c0.len(),
    ensures
        cong(
            decrypt_view(c0, c1, s, q)[i],
            c0[i] + (conv_at(c1, s, i) - conv_at(c1, s, i + c1.len())),
            q,
        ),
{
    let p = modpoly_mul(c1, s, q);
    let x = conv_at(c1, s, i) - conv_at(c1, s, i + c1.len());
    lemma_modpoly_add_cong(c0, p, q, i);
    lemma_seq_cong_refl(c1, q);
    lemma_seq_cong_refl(s, q);
    lemma_modpoly_mul_cong(c1, s, c1, s, q, i);
    lemma_cong_refl(c0[i], q);
    lemma_cong_add(c0[i], c0[i], p[i], x, q);
    lemma_cong_trans(decrypt_view(c0, c1, s, q)[i], c0[i] + p[i], c0[i] + x, q);
}

/// Law: decryption is additively homomorphic. Adding two ciphertexts
/// component-wise and decrypting gives, slot by slot and modulo the
/// ciphertext modulus, the sum of the two individual decryptions.
pub proof fn lemma_homomorphic_add(
    c01: Seq<int>,
    c11: Seq<int>,
    c02: Seq<int>,
    c12: Seq<int>,
    s: Seq<int>,
    q: int,
    i: int,
)
    requires
        q >= 1,
        c01.len() == c11.len(),
        c02.len() == c01.len(),
        c12.len() == c01.len(),
        0 <= i < c01.len(),
    ensures
        cong(
            decrypt_view(modpoly_add(c01, c02, q), modpoly_add(c11, c12, q), s, q)[i],
            decrypt_view(c01, c11, s, q)[i] + decrypt_view(c02, c12, s, q)[i],
            q,
        ),
{
    let n = c01.len() as int;
    let c0s = modpoly_add(c01, c02, q);
    let c1s = modpoly_add(c11, c12, q);
    let e1 = c01[i] + (conv_at(c11, s, i) - conv_at(c11, s, i + n));
    let e2 = c02[i] + (conv_at(c12, s, i) - conv_at(c12, s, i + n));

    // The decryption of the sum expands to the summed exact expression.
    lemma_decrypt_view_cong(c0s, c1s, s, q, i);
    lemma_modpoly_add_cong(c01, c02, q, i);
    lemma_seq_cong_modpoly_add(c11, c12, q);
    lemma_seq_cong_refl(s, q);
    lemma_conv_cong(c1s, s, poly_add_s(c11, c12), s, q, i);
    lemma_conv_cong(c1s, s, poly_add_s(c11, c12), s, q, i + n);
    lemma_conv_linear(c11, c12, s, i);
    lemma_conv_linear(c11, c12, s, i + n);
    lemma_cong_sub(
        conv_at(c1s, s, i),
        conv_at(c11, s, i) + conv_at(c12, s, i),
        conv_at(c1s, s, i + n),
        conv_at(c11, s, i + n) + conv_at(c12, s, i + n),
        q,
    );
    lemma_cong_add(
        c0s[i],
        c01[i] + c02[i],
        conv_at(c1s, s, i) - conv_at(c1s, s, i + n),
        (conv_at(c11, s, i) + conv_at(c12, s, i)) - (conv_at(c11, s, i + n) + conv_at(
            c12,
            s,
            i + n,
        )),
        q,
    );
    lemma_cong_trans(
        decrypt_view(c0s, c1s, s, q)[i],
        c0s[i] + (conv_at(c1s, s, i) - conv_at(c1s, s, i + n)),
        e1 + e2,
        q,
    );

    // Each summand's decryption expands the same way.
    lemma_decrypt_view_cong(c01, c11, s, q, i);
    lemma_decrypt_view_cong(c02, c12, s, q, i);
    lemma_cong_add(decrypt_view(c01, c11, s, q)[i], e1, decrypt_view(c02, c12, s, q)[i], e2, q);
    lemma_cong_sym(
        decrypt_view(c01, c11, s, q)[i] + decrypt_view(c02, c12, s, q)[i],
        e1 + e2,
        q,
    );
    lemma_cong_trans(
        decrypt_view(c0s, c1s, s, q)[i],
        e1 + e2,
        decrypt_view(c01, c11, s, q)[i] + decrypt_view(c02, c12, s, q)[i],
        q,
    );
}

/// Law: when every coefficient stays clear of the reduction band, decrypting
/// a homomorphic sum gives exactly the sum of the individual decryptions:
/// the noise of the sum is exactly the sum of the noises.
pub proof fn lemma_homomorphic_add_exact(
    c01: Seq<int>,
    c11: Seq<int>,
    c02: Seq<int>,
    c12: Seq<int>,
    s: Seq<int>,
    q: int,
    bc0: int,
    bc1: int,
    bs: int,
    i: int,
)
    requires
        q >= 1,
        c01.len() >= 1,
        c11.len() == c01.len(),
        c02.len() == c01.len(),
        c12.len() == c01.len(),
        s.len() == c01.len(),
        0 <= i < c01.len(),
        0 <= bc0,
        0 <= bc1,
        1 <= bs,
        bounded(c01, bc0),
        bounded(c02, bc0),
        bounded(c11, bc1),
        bounded(c12, bc1),
        bounded(s, bs),
        2 * bc0 + 4 * c01.len() * bc1 * bs < q / 2,
    ensures
        decrypt_view(modpoly_add(c01, c02, q), modpoly_add(c11, c12, q), s, q)[i] == decrypt_view(
            c01,
            c11,
            s,
            q,
        )[i] + decrypt_view(c02, c12, s, q)[i],
{
    let n = c01.len() as int;
    let c0s = modpoly_add(c01, c02, q);
    let c1s = modpoly_add(c11, c12, q);
    assert(4 * n * bc1 * bs >= 0) by (nonlinear_arith)
        requires n >= 1, bc1 >= 0, bs >= 1;
    assert(2 * bc1 <= 4 * n * bc1 * bs) by (nonlinear_arith)
        requires n >= 1, bc1 >= 0, bs >= 1;

    assert(c0s =~= poly_add_s(c01, c02)) by {
        assert forall|j: int| 0 <= j < n implies c0s[j] == poly_add_s(c01, c02)[j] by {
            lemma_cmod_identity(c01[j] + c02[j], q);
        }
    }
    assert(c1s =~= poly_add_s(c11, c12)) by {
        assert forall|j: int| 0 <= j < n implies c1s[j] == poly_add_s(c11, c12)[j] by {
            lemma_cmod_identity(c11[j] + c12[j], q);
        }
    }
    assert(bounded(c1s, 2 * bc1));

    assert(2 * n * (2 * bc1) * bs == 4 * n * bc1 * bs) by (nonlinear_arith);
    assert(2 * n * bc1 * bs <= 4 * n * bc1 * bs) by (nonlinear_arith)
        requires n >= 1, bc1 >= 0, bs >= 0;
    lemma_modpoly_mul_exact(c1s, s, q, 2 * bc1, bs, i);
    lemma_modpoly_mul_exact(c11, s, q, bc1, bs, i);
    lemma_modpoly_mul_exact(c12, s, q, bc1, bs, i);
    lemma_nega_linear1(c11, c12, s, i);

    lemma_cmod_identity(c0s[i] + modpoly_mul(c1s, s, q)[i], q);
    lemma_cmod_identity(c01[i] + modpoly_mul(c11, s, q)[i], q);
    lemma_cmod_identity(c02[i] + modpoly_mul(c12, s, q)[i], q);
}

proof fn lemma_mul_acc_exact(a: Seq<int>, b: Seq<int>, q: int, k: int, m: nat, ba: int, bb: int)
    requires
        q >= 1,
        0 <= ba,
        0 <= bb,
        bounded(a, ba),
        bounded(b, bb),
        m <= a.len(),
        a.len() * ba * bb < q / 2,
    ensures
        mul_acc(a, b, q, k, m) == conv_prefix(a, b, k, m),
    decreases m,
{
    if m > 0 {
        let i = m - 1;
        lemma_mul_acc_exact(a, b, q, k, (m - 1) as nat, ba, bb);
        if 0 <= i < a.len() && 0 <= k - i < b.len() {
            assert(-(ba * bb) <= a[i] * b[k - i] <= ba * bb) by (nonlinear_arith)
                requires -ba <= a[i] <= ba, -bb <= b[k - i] <= bb, 0 <= ba, 0 <= bb;
            let term = a[i] * b[k - i];
            assert(ba * bb <= a.len() * ba * bb) by (nonlinear_arith)
                requires a.len() >= 1, 0 <= ba, 0 <= bb;
            lemma_cmod_identity(term, q);
            lemma_conv_prefix_bound(a, b, k, (m - 1) as nat, ba, bb);
            let sum = conv_prefix(a, b, k, (m - 1) as nat) + term;
            assert((m - 1) * ba * bb + ba * bb == m * ba * bb) by (nonlinear_arith);
            assert(m * ba * bb <= a.len() * ba * bb) by (nonlinear_arith)
                requires m <= a.len(), 0 <= ba, 0 <= bb;
            lemma_cmod_identity(sum, q);
        }
    }
}

/// When both factors are small enough that no intermediate value reaches the
/// reduction band, the reduced negacyclic product equals the exact one.
pub proof fn lemma_modpoly_mul_exact(
    a: Seq<int>,
    b: Seq<int>,
    q: int,
    ba: int,
    bb: int,
    i: int,
)
    requires
        q >= 1,
        0 <= ba,
        0 <= bb,
        bounded(a, ba),
        bounded(b, bb),
        0 <= i < a.len(),
        2 * a.len() * ba * bb < q / 2,
    ensures
        modpoly_mul(a, b, q)[i] == nega_mul_at(a, b, i),
        -(2 * a.len() * ba * bb) <= nega_mul_at(a, b, i) <= 2 * a.len() * ba * bb,
{
    let n = a.len() as int;
    assert(n * ba * bb <= 2 * n * ba * bb) by (nonlinear_arith)
        requires n >= 1, 0 <= ba, 0 <= bb;
    lemma_mul_acc_exact(a, b, q, i, a.len(), ba, bb);
    lemma_mul_acc_exact(a, b, q, i + n, a.len(), ba, bb);
    lemma_conv_prefix_bound(a, b, i, a.len(), ba, bb);
    lemma_conv_prefix_bound(a, b, i + n, a.len(), ba, bb);
    let folded = macc(a, b, q, i) - macc(a, b, q, i + n);
    assert(n * ba * bb + n * ba * bb == 2 * n * ba * bb) by (nonlinear_arith);
    lemma_cmod_identity(folded, q);
}

/// Law: key consistency. For any secret `s`, sampled mask `a` and noise `e`
/// in their configured ranges, the generated `b = -a*s + e` satisfies
/// `b + a*s == e`: the Ring-LWE relation reduces to a value inside the noise
/// range. The modulus must be wide enough that no intermediate value reaches
/// the reduction band; on narrower moduli the relation holds only modulo `q`.
pub proof fn lemma_key_consistency(a: Seq<int>, s: Seq<int>, e: Seq<int>, q: int)
    requires
        a.len() >= 1,
        s.len() == a.len(),
        e.len() == a.len(),
        wide_range(a),
        ternary(s),
        noise_range(e),
        q >= 800 * a.len() + 14,
    ensures
        modpoly_add(
            modpoly_add(modpoly_mul(modpoly_neg(a, q), s, q), e, q),
            modpoly_mul(a, s, q),
            q,
        ) == e,
{
    let n = a.len() as int;
    let neg_a = modpoly_neg(a, q);
    assert(2 * (q / 2) <= q < 2 * (q / 2) + 2) by (nonlinear_arith)
        requires q >= 2;
    assert(400 * n + 6 < q / 2);

    // The reduced negation is the exact negation.
    assert forall|j: int| 0 <= j < n implies #[trigger] neg_a[j] == -a[j] by {
        lemma_cmod_identity(-a[j], q);
    }
    assert(neg_a =~= poly_neg_s(a));
    assert(bounded(a, 100));
    assert(bounded(poly_neg_s(a), 100));
    assert(bounded(s, 1));

    let p_neg = modpoly_mul(neg_a, s, q);
    let p_pos = modpoly_mul(a, s, q);
    let b = modpoly_add(p_neg, e, q);
    let r = modpoly_add(b, p_pos, q);
    assert(2 * n * 100 * 1 < q / 2) by (nonlinear_arith)
        requires 400 * n + 6 < q / 2, n >= 1;
    assert forall|j: int| 0 <= j < n implies #[trigger] r[j] == e[j] by {
        lemma_modpoly_mul_exact(poly_neg_s(a), s, q, 100, 1, j);
        lemma_modpoly_mul_exact(a, s, q, 100, 1, j);
        lemma_nega_mul_neg(a, s, j);
        assert(p_neg[j] == -nega_mul_at(a, s, j));
        assert(p_pos[j] == nega_mul_at(a, s, j));
        assert(-(2 * n * 100 * 1) <= nega_mul_at(a, s, j) <= 2 * n * 100 * 1);
        lemma_cmod_identity(p_neg[j] + e[j], q);
        assert(b[j] == -nega_mul_at(a, s, j) + e[j]);
        lemma_cmod_identity(b[j] + p_pos[j], q);
    }
    assert(r =~= e);
}

pub proof fn lemma_seq_cong_trans(x: Seq<int>, y: Seq<int>, z: Seq<int>, q: int)
    requires
        seq_cong(x, y, q),
        seq_cong(y, z, q),
    ensures
        seq_cong(x, z, q),
{
    assert forall|j: int| 0 <= j < x.len() implies #[trigger] cong(x[j], z[j], q) by {
        lemma_cong_trans(x[j], y[j], z[j], q);
    }
}

/// The reducing ring product is slotwise congruent to the exact negacyclic
/// product.
pub proof fn lemma_seq_cong_modpoly_mul(a: Seq<int>, b: Seq<int>, q: int)
    requires
        q >= 1,
    ensures
        seq_cong(modpoly_mul(a, b, q), poly_nega_mul(a, b), q),
{
    lemma_seq_cong_refl(a, q);
    lemma_seq_cong_refl(b, q);
    assert forall|j: int| 0 <= j < modpoly_mul(a, b, q).len() implies #[trigger] cong(
        modpoly_mul(a, b, q)[j],
        poly_nega_mul(a, b)[j],
        q,
    ) by {
        lemma_modpoly_mul_cong(a, b, a, b, q, j);
    }
}

/// The exact negacyclic product respects slotwise congruence in its first
/// factor.
pub proof fn lemma_seq_cong_nega_first(u: Seq<int>, u2: Seq<int>, s: Seq<int>, q: int)
    requires
        q >= 1,
        seq_cong(u, u2, q),
    ensures
        seq_cong(poly_nega_mul(u, s), poly_nega_mul(u2, s), q),
{
    lemma_seq_cong_refl(s, q);
    assert forall|j: int| 0 <= j < poly_nega_mul(u, s).len() implies #[trigger] cong(
        poly_nega_mul(u, s)[j],
        poly_nega_mul(u2, s)[j],
        q,
    ) by {
        lemma_conv_cong(u, s, u2, s, q, j);
        lemma_conv_cong(u, s, u2, s, q, j + u.len());
        lemma_cong_sub(
            conv_at(u, s, j),
            conv_at(u2, s, j),
            conv_at(u, s, j + u.len()),
            conv_at(u2, s, j + u2.len()),
            q,
        );
    }
}

/// The reducing ring sum of two slotwise-congruent pairs is congruent to the
/// exact sum of the congruent counterparts.
pub proof fn lemma_seq_cong_modpoly_add_general(
    u: Seq<int>,
    v: Seq<int>,
    u2: Seq<int>,
    v2: Seq<int>,
    q: int,
)
    requires
        q >= 1,
        v.len() == u.len(),
        seq_cong(u, u2, q),
        seq_cong(v, v2, q),
    ensures
        seq_cong(modpoly_add(u, v, q), poly_add_s(u2, v2), q),
{
    assert forall|j: int| 0 <= j < modpoly_add(u, v, q).len() implies #[trigger] cong(
        modpoly_add(u, v, q)[j],
        poly_add_s(u2, v2)[j],
        q,
    ) by {
        lemma_modpoly_add_cong(u, v, q, j);
        lemma_cong_add(u[j], u2[j], v[j], v2[j], q);
        lemma_cong_trans(modpoly_add(u, v, q)[j], u[j] + v[j], u2[j] + v2[j], q);
    }
}

/// Law: multiplicative tensor correctness. Tensor two ciphertext pairs with
/// the reducing ring operations into `(d0, d1, d2)`; then decrypting the
/// degree-two triple - `d0 + d1*s` plus the `d2*s*s` term - is congruent,
/// slot by slot and modulo the ciphertext modulus, to the exact negacyclic
/// product of the two individual decryptions. Relinearization then only
/// rewrites the `d2*s*s` term through the evaluation key.
pub proof fn lemma_homomorphic_mul_tensor(
    c0: Seq<int>,
    c1: Seq<int>,
    c0p: Seq<int>,
    c1p: Seq<int>,
    s: Seq<int>,
    q: int,
    i: int,
)
    requires
        q >= 1,
        c1.len() == c0.len(),
        c0p.len() == c0.len(),
        c1p.len() == c0.len(),
        s.len() == c0.len(),
        c0.len() >= 1,
        0 <= i < c0.len(),
    ensures
        cong(
            decrypt_view(
                modpoly_mul(c0, c0p, q),
                modpoly_add(modpoly_mul(c0, c1p, q), modpoly_mul(c1, c0p, q), q),
                s,
                q,
            )[i] + modpoly_mul(modpoly_mul(modpoly_mul(c1, c1p, q), s, q), s, q)[i],
            nega_mul_at(
                poly_add_s(c0, poly_nega_mul(c1, s)),
                poly_add_s(c0p, poly_nega_mul(c1p, s)),
                i,
            ),
            q,
        ),
{
    let n = c0.len() as int;
    let e0 = poly_nega_mul(c0, c0p);
    let e01 = poly_nega_mul(c0, c1p);
    let e10 = poly_nega_mul(c1, c0p);
    let e2 = poly_nega_mul(c1, c1p);
    let ss = poly_nega_mul(s, s);
    let d0m = modpoly_mul(c0, c0p, q);
    let d1m = modpoly_add(modpoly_mul(c0, c1p, q), modpoly_mul(c1, c0p, q), q);
    let d2m = modpoly_mul(c1, c1p, q);
    let dec1 = poly_add_s(c0, poly_nega_mul(c1, s));
    let dec2 = poly_add_s(c0p, poly_nega_mul(c1p, s));

    // The degree-one part expands to the exact tensor terms.
    lemma_decrypt_view_cong(d0m, d1m, s, q, i);
    lemma_seq_cong_modpoly_mul(c0, c0p, q);
    lemma_seq_cong_modpoly_mul(c0, c1p, q);
    lemma_seq_cong_modpoly_mul(c1, c0p, q);
    lemma_seq_cong_modpoly_add_general(
        modpoly_mul(c0, c1p, q),
        modpoly_mul(c1, c0p, q),
        e01,
        e10,
        q,
    );
    lemma_seq_cong_refl(s, q);
    lemma_conv_cong(d1m, s, poly_add_s(e01, e10), s, q, i);
    lemma_conv_cong(d1m, s, poly_add_s(e01, e10), s, q, i + n);
    lemma_cong_sub(
        conv_at(d1m, s, i),
        conv_at(poly_add_s(e01, e10), s, i),
        conv_at(d1m, s, i + n),
        conv_at(poly_add_s(e01, e10), s, i + n),
        q,
    );
    lemma_nega_linear1(e01, e10, s, i);
    lemma_cong_add(
        d0m[i],
        e0[i],
        nega_mul_at(d1m, s, i),
        nega_mul_at(e01, s, i) + nega_mul_at(e10, s, i),
        q,
    );
    lemma_cong_trans(
        decrypt_view(d0m, d1m, s, q)[i],
        d0m[i] + nega_mul_at(d1m, s, i),
        e0[i] + (nega_mul_at(e01, s, i) + nega_mul_at(e10, s, i)),
        q,
    );

    // The degree-two part expands to the exact (c1*c1')*s*s term.
    lemma_seq_cong_modpoly_mul(c1, c1p, q);
    lemma_seq_cong_modpoly_mul(d2m, s, q);
    lemma_seq_cong_nega_first(d2m, e2, s, q);
    lemma_seq_cong_trans(
        modpoly_mul(d2m, s, q),
        poly_nega_mul(d2m, s),
        poly_nega_mul(e2, s),
        q,
    );
    lemma_modpoly_mul_cong(modpoly_mul(d2m, s, q), s, poly_nega_mul(e2, s), s, q, i);
    let t3 = modpoly_mul(modpoly_mul(d2m, s, q), s, q)[i];
    assert(cong(t3, nega_mul_at(poly_nega_mul(e2, s), s, i), q));

    // Both parts together.
    lemma_cong_add(
        decrypt_view(d0m, d1m, s, q)[i],
        e0[i] + (nega_mul_at(e01, s, i) + nega_mul_at(e10, s, i)),
        t3,
        nega_mul_at(poly_nega_mul(e2, s), s, i),
        q,
    );

    // The exact tensor terms regroup into the product of the decryptions.
    lemma_nega_linear1(c0, poly_nega_mul(c1, s), dec2, i);
    lemma_nega_linear2(c0, c0p, poly_nega_mul(c1p, s), i);
    lemma_nega_linear2(poly_nega_mul(c1, s), c0p, poly_nega_mul(c1p, s), i);
    // First cross term: c0 * (c1'*s) == (c0*c1') * s.
    lemma_nega_assoc(c0, c1p, s, i);
    // Second cross term: (c1*s) * c0' == (c1*c0') * s.
    lemma_nega_comm(poly_nega_mul(c1, s), c0p, i);
    lemma_nega_assoc(c0p, c1, s, i);
    lemma_nega_comm_seq(c0p, c1);
    // Degree-two term: (c1*s) * (c1'*s) == ((c1*c1')*s) * s.
    lemma_nega_assoc(c1, s, poly_nega_mul(c1p, s), i);
    lemma_nega_comm_seq(s, poly_nega_mul(c1p, s));
    lemma_nega_assoc_seq(c1p, s, s);
    lemma_nega_assoc(c1, c1p, ss, i);
    lemma_nega_assoc(e2, s, s, i);
    assert(nega_mul_at(poly_nega_mul(c1, s), poly_nega_mul(c1p, s), i) == nega_mul_at(
        poly_nega_mul(e2, s),
        s,
        i,
    )) by {
        assert(poly_nega_mul(s, poly_nega_mul(c1p, s)) == poly_nega_mul(
            poly_nega_mul(c1p, s),
            s,
        ));
        assert(poly_nega_mul(poly_nega_mul(c1p, s), s) == poly_nega_mul(c1p, ss));
        assert(nega_mul_at(poly_nega_mul(c1, s), poly_nega_mul(c1p, s), i) == nega_mul_at(
            c1,
            poly_nega_mul(c1p, ss),
            i,
        ));
        assert(nega_mul_at(c1, poly_nega_mul(c1p, ss), i) == nega_mul_at(e2, ss, i));
        assert(nega_mul_at(poly_nega_mul(e2, s), s, i) == nega_mul_at(e2, ss, i));
    }
    assert(nega_mul_at(dec1, dec2, i) == e0[i] + (nega_mul_at(e01, s, i) + nega_mul_at(
        e10,
        s,
        i,
    )) + nega_mul_at(poly_nega_mul(e2, s), s, i));
}

/// Truncating division and the truncated remainder recompose the dividend.
pub proof fn lemma_tdiv_fundamental(x: int, d: int)
    requires
        d >= 1,
    ensures
        x == tdiv(x, d) * d + tmod(x, d),
        -d < tmod(x, d) < d,
{
    if x >= 0 {
        lemma_fundamental_div_mod(x, d);
        assert(0 <= x % d < d) by (nonlinear_arith)
            requires d >= 1, x >= 0;
        assert(d * (x / d) == (x / d) * d) by (nonlinear_arith);
    } else {
        let y = -x;
        lemma_fundamental_div_mod(y, d);
        assert(0 <= y % d < d) by (nonlinear_arith)
            requires d >= 1, y >= 0;
        assert(y == d * (y / d) + y % d);
        assert(tdiv(x, d) == -(y / d));
        assert(tmod(x, d) == -(y % d));
        assert((-(y / d)) * d == -(d * (y / d))) by (nonlinear_arith);
    }
}

/// The slotwise truncated remainders of a sequence.
pub open spec fn tmod_seq(u: Seq<int>, d: int) -> Seq<int> {
    Seq::new(u.len(), |j: int| tmod(u[j], d))
}

proof fn lemma_seq_cong_modpoly_neg(a: Seq<int>, q: int)
    requires
        q >= 1,
    ensures
        seq_cong(modpoly_neg(a, q), poly_neg_s(a), q),
{
    assert forall|j: int| 0 <= j < modpoly_neg(a, q).len() implies #[trigger] cong(
        modpoly_neg(a, q)[j],
        poly_neg_s(a)[j],
        q,
    ) by {
        lemma_cmod_congruent(-a[j], q);
        lemma_cong_sym(-a[j], spec_cmod(-a[j], q), q);
    }
}

proof fn lemma_seq_cong_modpoly_scale(u: Seq<int>, u2: Seq<int>, x: int, q: int)
    requires
        q >= 1,
        seq_cong(u, u2, q),
    ensures
        seq_cong(modpoly_scale(u, x, q), poly_scale_s(u2, x), q),
{
    assert forall|j: int| 0 <= j < modpoly_scale(u, x, q).len() implies #[trigger] cong(
        modpoly_scale(u, x, q)[j],
        poly_scale_s(u2, x)[j],
        q,
    ) by {
        lemma_cmod_congruent(u[j] * x, q);
        lemma_cong_sym(u[j] * x, spec_cmod(u[j] * x, q), q);
        lemma_cong_refl(x, q);
        lemma_cong_mul(u[j], u2[j], x, x, q);
        lemma_cong_trans(modpoly_scale(u, x, q)[j], u[j] * x, u2[j] * x, q);
    }
}

/// The exact negacyclic product respects slotwise congruence in its second
/// factor.
pub proof fn lemma_seq_cong_nega_second(a: Seq<int>, u: Seq<int>, u2: Seq<int>, q: int)
    requires
        q >= 1,
        seq_cong(u, u2, q),
    ensures
        seq_cong(poly_nega_mul(a, u), poly_nega_mul(a, u2), q),
{
    lemma_seq_cong_refl(a, q);
    assert forall|j: int| 0 <= j < poly_nega_mul(a, u).len() implies #[trigger] cong(
        poly_nega_mul(a, u)[j],
        poly_nega_mul(a, u2)[j],
        q,
    ) by {
        lemma_conv_cong(a, u, a, u2, q, j);
        lemma_conv_cong(a, u, a, u2, q, j + a.len());
        lemma_cong_sub(
            conv_at(a, u, j),
            conv_at(a, u2, j),
            conv_at(a, u, j + a.len()),
            conv_at(a, u2, j + a.len()),
            q,
        );
    }
}

/// Scaling a reduced truncating quotient recovers the dividend, up to the
/// truncated remainder, modulo `q`.
proof fn lemma_scaled_tdiv_cong(u: Seq<int>, p: int, q: int, j: int)
    requires
        q >= 1,
        p >= 1,
        0 <= j < u.len(),
    ensures
        cong(p * modpoly_tdiv(u, p, q)[j], u[j] - tmod(u[j], p), q),
{
    let y = tdiv(u[j], p);
    lemma_cmod_congruent(y, q);
    lemma_cong_sym(y, spec_cmod(y, q), q);
    lemma_cong_refl(p, q);
    lemma_cong_mul(p, p, spec_cmod(y, q), y, q);
    lemma_tdiv_fundamental(u[j], p);
    assert(p * y == y * p) by (nonlinear_arith);
}

/// Law: relinearization correctness. With an evaluation key `(b, a)` built
/// for the switching scale `p` - so `b = -a*s + e + (s*s)*p` under the ring
/// operations - the switched pair `(d2*b)/p`, `(d2*a)/p` decrypts, scaled
/// back up by `p` and modulo the key modulus, to `p` times the degree-two
/// term `d2*(s*s)`, plus the key noise `d2*e` and two truncation remainders,
/// each remainder coefficient smaller than `p` in magnitude.
pub proof fn lemma_relinearization(
    d2: Seq<int>,
    a: Seq<int>,
    s: Seq<int>,
    e: Seq<int>,
    b: Seq<int>,
    p: int,
    q: int,
    i: int,
)
    requires
        q >= 1,
        p >= 1,
        a.len() == d2.len(),
        s.len() == d2.len(),
        e.len() == d2.len(),
        b.len() == d2.len(),
        d2.len() >= 1,
        0 <= i < d2.len(),
        b == modpoly_add(
            modpoly_add(modpoly_mul(modpoly_neg(a, q), s, q), e, q),
            modpoly_scale(modpoly_mul(s, s, q), p, q),
            q,
        ),
    ensures
        cong(
            p * (modpoly_tdiv(modpoly_mul(d2, b, q), p, q)[i] + nega_mul_at(
                modpoly_tdiv(modpoly_mul(d2, a, q), p, q),
                s,
                i,
            )),
            p * nega_mul_at(d2, poly_nega_mul(s, s), i) + nega_mul_at(d2, e, i) - tmod_seq(
                modpoly_mul(d2, b, q),
                p,
            )[i] - nega_mul_at(tmod_seq(modpoly_mul(d2, a, q), p), s, i),
            q,
        ),
        forall|j: int|
            0 <= j < d2.len() ==> -p < #[trigger] tmod_seq(modpoly_mul(d2, b, q), p)[j] < p,
        forall|j: int|
            0 <= j < d2.len() ==> -p < #[trigger] tmod_seq(modpoly_mul(d2, a, q), p)[j] < p,
{
    let n = d2.len() as int;
    let ss = poly_nega_mul(s, s);
    let asq = poly_nega_mul(a, s);
    let mb = modpoly_mul(d2, b, q);
    let ma = modpoly_mul(d2, a, q);
    let kb = modpoly_tdiv(mb, p, q);
    let ka = modpoly_tdiv(ma, p, q);
    let rb = tmod_seq(mb, p);
    let ra = tmod_seq(ma, p);

    assert forall|j: int| 0 <= j < n implies -p < #[trigger] rb[j] < p && -p < ra[j] < p by {
        lemma_tdiv_fundamental(mb[j], p);
        lemma_tdiv_fundamental(ma[j], p);
    }

    // The key itself, slot by slot, is congruent to its exact form.
    let na_exact = poly_nega_mul(poly_neg_s(a), s);
    let lin = poly_add_s(na_exact, e);
    let gadget = poly_scale_s(ss, p);
    let b_exact = poly_add_s(lin, gadget);
    lemma_seq_cong_modpoly_mul(modpoly_neg(a, q), s, q);
    lemma_seq_cong_modpoly_neg(a, q);
    lemma_seq_cong_nega_first(modpoly_neg(a, q), poly_neg_s(a), s, q);
    lemma_seq_cong_trans(
        modpoly_mul(modpoly_neg(a, q), s, q),
        poly_nega_mul(modpoly_neg(a, q), s),
        na_exact,
        q,
    );
    lemma_seq_cong_refl(e, q);
    lemma_seq_cong_modpoly_add_general(
        modpoly_mul(modpoly_neg(a, q), s, q),
        e,
        na_exact,
        e,
        q,
    );
    lemma_seq_cong_modpoly_mul(s, s, q);
    lemma_seq_cong_modpoly_scale(modpoly_mul(s, s, q), ss, p, q);
    lemma_seq_cong_modpoly_add_general(
        modpoly_add(modpoly_mul(modpoly_neg(a, q), s, q), e, q),
        modpoly_scale(modpoly_mul(s, s, q), p, q),
        lin,
        gadget,
        q,
    );
    assert(seq_cong(b, b_exact, q));

    // The b-side switched component.
    lemma_scaled_tdiv_cong(mb, p, q, i);
    lemma_seq_cong_modpoly_mul(d2, b, q);
    lemma_seq_cong_nega_second(d2, b, b_exact, q);
    lemma_seq_cong_trans(mb, poly_nega_mul(d2, b), poly_nega_mul(d2, b_exact), q);
    lemma_nega_linear2(d2, lin, gadget, i);
    lemma_nega_linear2(d2, na_exact, e, i);
    lemma_nega_scale2(d2, ss, p, i);
    assert(na_exact =~= poly_scale_s(asq, -1)) by {
        assert forall|j: int| 0 <= j < n implies na_exact[j] == poly_scale_s(asq, -1)[j] by {
            lemma_nega_mul_neg(a, s, j);
            assert(asq[j] * -1 == -asq[j]) by (nonlinear_arith);
        }
    }
    lemma_nega_scale2(d2, asq, -1, i);
    assert(-1 * nega_mul_at(d2, asq, i) == -nega_mul_at(d2, asq, i)) by (nonlinear_arith);
    assert(poly_nega_mul(d2, b_exact)[i] == -nega_mul_at(d2, asq, i) + nega_mul_at(d2, e, i) + p
        * nega_mul_at(d2, ss, i));
    lemma_cong_refl(rb[i], q);
    lemma_cong_sub(mb[i], poly_nega_mul(d2, b_exact)[i], rb[i], rb[i], q);
    lemma_cong_trans(
        p * kb[i],
        mb[i] - tmod(mb[i], p),
        poly_nega_mul(d2, b_exact)[i] - rb[i],
        q,
    );

    // The a-side switched component.
    lemma_seq_cong_modpoly_mul(d2, a, q);
    let da = poly_nega_mul(d2, a);
    let scaled_ka = poly_scale_s(ka, p);
    let target_a = poly_sub_s(da, ra);
    assert(seq_cong(scaled_ka, target_a, q)) by {
        assert forall|j: int| 0 <= j < n implies #[trigger] cong(scaled_ka[j], target_a[j], q) by {
            lemma_scaled_tdiv_cong(ma, p, q, j);
            assert(ka[j] * p == p * ka[j]) by (nonlinear_arith);
            lemma_cong_refl(ra[j], q);
            lemma_cong_sub(ma[j], da[j], ra[j], ra[j], q);
            lemma_cong_trans(scaled_ka[j], ma[j] - tmod(ma[j], p), da[j] - ra[j], q);
        }
    }
    lemma_nega_scale1(ka, p, s, i);
    lemma_seq_cong_refl(s, q);
    lemma_conv_cong(scaled_ka, s, target_a, s, q, i);
    lemma_conv_cong(scaled_ka, s, target_a, s, q, i + n);
    lemma_cong_sub(
        conv_at(scaled_ka, s, i),
        conv_at(target_a, s, i),
        conv_at(scaled_ka, s, i + n),
        conv_at(target_a, s, i + n),
        q,
    );
    assert(target_a =~= poly_add_s(da, poly_scale_s(ra, -1))) by {
        assert forall|j: int| 0 <= j < n implies target_a[j] == poly_add_s(
            da,
            poly_scale_s(ra, -1),
        )[j] by {
            assert(ra[j] * -1 == -ra[j]) by (nonlinear_arith);
        }
    }
    lemma_nega_linear1(da, poly_scale_s(ra, -1), s, i);
    lemma_nega_scale1(ra, -1, s, i);
    assert(-1 * nega_mul_at(ra, s, i) == -nega_mul_at(ra, s, i)) by (nonlinear_arith);
    lemma_nega_assoc(d2, a, s, i);
    assert(nega_mul_at(target_a, s, i) == nega_mul_at(d2, asq, i) - nega_mul_at(ra, s, i));

    // Both components together: the a*s terms cancel.
    lemma_cong_add(
        p * kb[i],
        poly_nega_mul(d2, b_exact)[i] - rb[i],
        p * nega_mul_at(ka, s, i),
        nega_mul_at(d2, asq, i) - nega_mul_at(ra, s, i),
        q,
    );
    assert(p * (kb[i] + nega_mul_at(ka, s, i)) == p * kb[i] + p * nega_mul_at(ka, s, i))
        by (nonlinear_arith);
}

/// Law: homomorphic multiplication. Tensor two ciphertexts into
/// `(d0, d1, d2)` and relinearize with an evaluation key `(b, a)` built for
/// the switching scale `p`, exactly as ciphertext multiplication does. Then,
/// modulo the key modulus `qk`, `p` times the decryption of the product
/// ciphertext is `p` times the degree-two tensor decryption
/// `d0 + d1*s + d2*(s*s)`, plus the key noise `d2*e` and truncation
/// remainders whose coefficients stay below `p`; and, modulo the ciphertext
/// modulus `q`, that tensor decryption is the exact negacyclic product of
/// the two individual decryptions.
pub proof fn lemma_homomorphic_mul(
    c0: Seq<int>,
    c1: Seq<int>,
    c0p: Seq<int>,
    c1p: Seq<int>,
    s: Seq<int>,
    a: Seq<int>,
    e: Seq<int>,
    b: Seq<int>,
    p: int,
    q: int,
    qk: int,
    i: int,
)
    requires
        q >= 1,
        qk >= 1,
        p >= 1,
        c1.len() == c0.len(),
        c0p.len() == c0.len(),
        c1p.len() == c0.len(),
        s.len() == c0.len(),
        a.len() == c0.len(),
        e.len() == c0.len(),
        b.len() == c0.len(),
        c0.len() >= 1,
        0 <= i < c0.len(),
        b == modpoly_add(
            modpoly_add(modpoly_mul(modpoly_neg(a, qk), s, qk), e, qk),
            modpoly_scale(modpoly_mul(s, s, qk), p, qk),
            qk,
        ),
    ensures
        ({
            let d0 = modpoly_mul(c0, c0p, q);
            let d1 = modpoly_add(modpoly_mul(c0, c1p, q), modpoly_mul(c1, c0p, q), q);
            let d2 = modpoly_mul(c1, c1p, q);
            let ss = poly_nega_mul(s, s);
            let tensor = d0[i] + nega_mul_at(d1, s, i) + nega_mul_at(d2, ss, i);
            &&& cong(
                p * decrypt_view(
                    relin_output(d0, d2, b, p, qk),
                    relin_output(d1, d2, a, p, qk),
                    s,
                    qk,
                )[i],
                p * tensor + nega_mul_at(d2, e, i) - tmod_seq(modpoly_mul(d2, b, qk), p)[i]
                    - nega_mul_at(tmod_seq(modpoly_mul(d2, a, qk), p), s, i),
                qk,
            )
            &&& cong(
                tensor,
                nega_mul_at(
                    poly_add_s(c0, poly_nega_mul(c1, s)),
                    poly_add_s(c0p, poly_nega_mul(c1p, s)),
                    i,
                ),
                q,
            )
        }),
{
    let n = c0.len() as int;
    let d0 = modpoly_mul(c0, c0p, q);
    let d1 = modpoly_add(modpoly_mul(c0, c1p, q), modpoly_mul(c1, c0p, q), q);
    let d2 = modpoly_mul(c1, c1p, q);
    let ss = poly_nega_mul(s, s);
    let kb = modpoly_tdiv(modpoly_mul(d2, b, qk), p, qk);
    let ka = modpoly_tdiv(modpoly_mul(d2, a, qk), p, qk);
    let c0n = relin_output(d0, d2, b, p, qk);
    let c1n = relin_output(d1, d2, a, p, qk);
    let tensor = d0[i] + nega_mul_at(d1, s, i) + nega_mul_at(d2, ss, i);

    // The decryption of the relinearized pair splits into the degree-one
    // part and the switched part.
    lemma_decrypt_view_cong(c0n, c1n, s, qk, i);
    lemma_modpoly_add_cong(d0, kb, qk, i);
    assert(seq_cong(c1n, poly_add_s(d1, ka), qk)) by {
        assert forall|j: int| 0 <= j < n implies #[trigger] cong(
            c1n[j],
            poly_add_s(d1, ka)[j],
            qk,
        ) by {
            lemma_modpoly_add_cong(d1, ka, qk, j);
        }
    }
    lemma_seq_cong_refl(s, qk);
    lemma_conv_cong(c1n, s, poly_add_s(d1, ka), s, qk, i);
    lemma_conv_cong(c1n, s, poly_add_s(d1, ka), s, qk, i + n);
    lemma_cong_sub(
        conv_at(c1n, s, i),
        conv_at(poly_add_s(d1, ka), s, i),
        conv_at(c1n, s, i + n),
        conv_at(poly_add_s(d1, ka), s, i + n),
        qk,
    );
    lemma_nega_linear1(d1, ka, s, i);
    lemma_cong_add(
        c0n[i],
        d0[i] + kb[i],
        nega_mul_at(c1n, s, i),
        nega_mul_at(d1, s, i) + nega_mul_at(ka, s, i),
        qk,
    );
    lemma_cong_trans(
        decrypt_view(c0n, c1n, s, qk)[i],
        c0n[i] + nega_mul_at(c1n, s, i),
        (d0[i] + kb[i]) + (nega_mul_at(d1, s, i) + nega_mul_at(ka, s, i)),
        qk,
    );
    lemma_cong_refl(p, qk);
    lemma_cong_mul(
        p,
        p,
        decrypt_view(c0n, c1n, s, qk)[i],
        (d0[i] + kb[i]) + (nega_mul_at(d1, s, i) + nega_mul_at(ka, s, i)),
        qk,
    );

    // The switched part recovers p times the degree-two term plus noise.
    lemma_relinearization(d2, a, s, e, b, p, qk, i);
    let noise = nega_mul_at(d2, e, i) - tmod_seq(modpoly_mul(d2, b, qk), p)[i] - nega_mul_at(
        tmod_seq(modpoly_mul(d2, a, qk), p),
        s,
        i,
    );
    assert(p * ((d0[i] + kb[i]) + (nega_mul_at(d1, s, i) + nega_mul_at(ka, s, i))) == p * (d0[i]
        + nega_mul_at(d1, s, i)) + p * (kb[i] + nega_mul_at(ka, s, i))) by (nonlinear_arith);
    lemma_cong_refl(p * (d0[i] + nega_mul_at(d1, s, i)), qk);
    lemma_cong_add(
        p * (d0[i] + nega_mul_at(d1, s, i)),
        p * (d0[i] + nega_mul_at(d1, s, i)),
        p * (kb[i] + nega_mul_at(ka, s, i)),
        p * nega_mul_at(d2, ss, i) + nega_mul_at(d2, e, i) - tmod_seq(
            modpoly_mul(d2, b, qk),
            p,
        )[i] - nega_mul_at(tmod_seq(modpoly_mul(d2, a, qk), p), s, i),
        qk,
    );
    assert(p * (d0[i] + nega_mul_at(d1, s, i)) + (p * nega_mul_at(d2, ss, i) + noise) == p * (d0[i]
        + nega_mul_at(d1, s, i) + nega_mul_at(d2, ss, i)) + noise) by (nonlinear_arith);
    lemma_cong_trans(
        p * decrypt_view(c0n, c1n, s, qk)[i],
        p * ((d0[i] + kb[i]) + (nega_mul_at(d1, s, i) + nega_mul_at(ka, s, i))),
        p * tensor + noise,
        qk,
    );

    // The tensor itself is congruent, modulo the ciphertext modulus, to the
    // product of the two decryptions.
    lemma_homomorphic_mul_tensor(c0, c1, c0p, c1p, s, q, i);
    lemma_decrypt_view_cong(d0, d1, s, q, i);
    lemma_seq_cong_refl(s, q);
    lemma_seq_cong_modpoly_mul(c1, c1p, q);
    lemma_seq_cong_modpoly_mul(d2, s, q);
    lemma_seq_cong_nega_first(d2, poly_nega_mul(c1, c1p), s, q);
    lemma_seq_cong_trans(
        modpoly_mul(d2, s, q),
        poly_nega_mul(d2, s),
        poly_nega_mul(poly_nega_mul(c1, c1p), s),
        q,
    );
    lemma_modpoly_mul_cong(
        modpoly_mul(d2, s, q),
        s,
        poly_nega_mul(poly_nega_mul(c1, c1p), s),
        s,
        q,
        i,
    );
    lemma_nega_assoc(poly_nega_mul(c1, c1p), s, s, i);
    // The exact degree-two term matches the tensor's d2 * (s*s) term.
    assert(seq_cong(d2, poly_nega_mul(c1, c1p), q));
    lemma_seq_cong_refl(ss, q);
    lemma_conv_cong(d2, ss, poly_nega_mul(c1, c1p), ss, q, i);
    lemma_conv_cong(d2, ss, poly_nega_mul(c1, c1p), ss, q, i + n);
    lemma_cong_sub(
        conv_at(d2, ss, i),
        conv_at(poly_nega_mul(c1, c1p), ss, i),
        conv_at(d2, ss, i + n),
        conv_at(poly_nega_mul(c1, c1p), ss, i + n),
        q,
    );
    lemma_cong_sym(
        modpoly_mul(modpoly_mul(d2, s, q), s, q)[i],
        nega_mul_at(poly_nega_mul(poly_nega_mul(c1, c1p), s), s, i),
        q,
    );
    lemma_cong_sym(
        nega_mul_at(d2, ss, i),
        nega_mul_at(poly_nega_mul(c1, c1p), ss, i),
        q,
    );
    lemma_cong_trans(
        nega_mul_at(d2, ss, i),
        nega_mul_at(poly_nega_mul(c1, c1p), ss, i),
        modpoly_mul(modpoly_mul(d2, s, q), s, q)[i],
        q,
    );
    lemma_cong_sym(
        nega_mul_at(d2, ss, i),
        modpoly_mul(modpoly_mul(d2, s, q), s, q)[i],
        q,
    );
    lemma_cong_add(
        decrypt_view(d0, d1, s, q)[i],
        d0[i] + nega_mul_at(d1, s, i),
        modpoly_mul(modpoly_mul(d2, s, q), s, q)[i],
        nega_mul_at(d2, ss, i),
        q,
    );
    lemma_cong_sym(
        decrypt_view(d0, d1, s, q)[i] + modpoly_mul(modpoly_mul(d2, s, q), s, q)[i],
        tensor,
        q,
    );
    lemma_cong_trans(
        tensor,
        decrypt_view(d0, d1, s, q)[i] + modpoly_mul(modpoly_mul(d2, s, q), s, q)[i],
        nega_mul_at(
            poly_add_s(c0, poly_nega_mul(c1, s)),
            poly_add_s(c0p, poly_nega_mul(c1p, s)),
            i,
        ),
        q,
    );
}

/// Law: decryption inverts encryption up to the injected noise. With a
/// public key `b = -a*s + e` and a ciphertext `c0 = v*b + m + e0`,
/// `c1 = v*a + e1` built with the reducing ring operations, decrypting gives,
/// slot by slot and modulo the ciphertext modulus, the message plus the
/// noise `v*e + e0 + e1*s`. No size constraint is needed: the identity holds
/// for every mask and noise value.
pub proof fn lemma_encrypt_decrypt(
    m: Seq<int>,
    v: Seq<int>,
    e0: Seq<int>,
    e1: Seq<int>,
    a: Seq<int>,
    e: Seq<int>,
    s: Seq<int>,
    q: int,
    i: int,
)
    requires
        q >= 1,
        v.len() == m.len(),
        e0.len() == m.len(),
        e1.len() == m.len(),
        a.len() == m.len(),
        e.len() == m.len(),
        s.len() == m.len(),
        m.len() >= 1,
        0 <= i < m.len(),
    ensures
        ({
            let b = modpoly_add(modpoly_mul(modpoly_neg(a, q), s, q), e, q);
            let c0 = modpoly_add(modpoly_add(modpoly_mul(v, b, q), m, q), e0, q);
            let c1 = modpoly_add(modpoly_mul(v, a, q), e1, q);
            cong(
                decrypt_view(c0, c1, s, q)[i],
                m[i] + nega_mul_at(v, e, i) + e0[i] + nega_mul_at(e1, s, i),
                q,
            )
        }),
{
    let n = m.len() as int;
    let b = modpoly_add(modpoly_mul(modpoly_neg(a, q), s, q), e, q);
    let c0 = modpoly_add(modpoly_add(modpoly_mul(v, b, q), m, q), e0, q);
    let c1 = modpoly_add(modpoly_mul(v, a, q), e1, q);
    let asq = poly_nega_mul(a, s);
    let b_exact = poly_add_s(poly_nega_mul(poly_neg_s(a), s), e);

    // The public key, slot by slot, is congruent to its exact form.
    lemma_seq_cong_modpoly_mul(modpoly_neg(a, q), s, q);
    lemma_seq_cong_modpoly_neg(a, q);
    lemma_seq_cong_nega_first(modpoly_neg(a, q), poly_neg_s(a), s, q);
    lemma_seq_cong_trans(
        modpoly_mul(modpoly_neg(a, q), s, q),
        poly_nega_mul(modpoly_neg(a, q), s),
        poly_nega_mul(poly_neg_s(a), s),
        q,
    );
    lemma_seq_cong_refl(e, q);
    lemma_seq_cong_modpoly_add_general(
        modpoly_mul(modpoly_neg(a, q), s, q),
        e,
        poly_nega_mul(poly_neg_s(a), s),
        e,
        q,
    );
    assert(seq_cong(b, b_exact, q));

    // c0 expands to v*b + m + e0 with the exact key.
    lemma_decrypt_view_cong(c0, c1, s, q, i);
    lemma_modpoly_add_cong(modpoly_add(modpoly_mul(v, b, q), m, q), e0, q, i);
    lemma_modpoly_add_cong(modpoly_mul(v, b, q), m, q, i);
    lemma_seq_cong_refl(v, q);
    lemma_modpoly_mul_cong(v, b, v, b_exact, q, i);
    lemma_nega_linear2(v, poly_nega_mul(poly_neg_s(a), s), e, i);
    assert(poly_nega_mul(poly_neg_s(a), s) =~= poly_scale_s(asq, -1)) by {
        assert forall|j: int| 0 <= j < n implies poly_nega_mul(poly_neg_s(a), s)[j]
            == poly_scale_s(asq, -1)[j] by {
            lemma_nega_mul_neg(a, s, j);
            assert(asq[j] * -1 == -asq[j]) by (nonlinear_arith);
        }
    }
    lemma_nega_scale2(v, asq, -1, i);
    assert(-1 * nega_mul_at(v, asq, i) == -nega_mul_at(v, asq, i)) by (nonlinear_arith);
    assert(nega_mul_at(v, b_exact, i) == -nega_mul_at(v, asq, i) + nega_mul_at(v, e, i));
    let vb = modpoly_mul(v, b, q);
    assert(cong(vb[i], nega_mul_at(v, b_exact, i), q));
    lemma_cong_refl(m[i], q);
    lemma_cong_refl(e0[i], q);
    lemma_cong_add(vb[i], nega_mul_at(v, b_exact, i), m[i], m[i], q);
    lemma_cong_trans(
        modpoly_add(vb, m, q)[i],
        vb[i] + m[i],
        nega_mul_at(v, b_exact, i) + m[i],
        q,
    );
    lemma_cong_add(
        modpoly_add(vb, m, q)[i],
        nega_mul_at(v, b_exact, i) + m[i],
        e0[i],
        e0[i],
        q,
    );
    lemma_cong_trans(
        c0[i],
        modpoly_add(vb, m, q)[i] + e0[i],
        (nega_mul_at(v, b_exact, i) + m[i]) + e0[i],
        q,
    );

    // c1 * s expands to v*(a*s) + e1*s.
    assert(seq_cong(c1, poly_add_s(poly_nega_mul(v, a), e1), q)) by {
        lemma_seq_cong_modpoly_mul(v, a, q);
        lemma_seq_cong_modpoly_add_general(
            modpoly_mul(v, a, q),
            e1,
            poly_nega_mul(v, a),
            e1,
            q,
        );
    }
    lemma_seq_cong_refl(s, q);
    lemma_conv_cong(c1, s, poly_add_s(poly_nega_mul(v, a), e1), s, q, i);
    lemma_conv_cong(c1, s, poly_add_s(poly_nega_mul(v, a), e1), s, q, i + n);
    lemma_cong_sub(
        conv_at(c1, s, i),
        conv_at(poly_add_s(poly_nega_mul(v, a), e1), s, i),
        conv_at(c1, s, i + n),
        conv_at(poly_add_s(poly_nega_mul(v, a), e1), s, i + n),
        q,
    );
    lemma_nega_linear1(poly_nega_mul(v, a), e1, s, i);
    lemma_nega_assoc(v, a, s, i);

    // The v*(a*s) terms cancel.
    lemma_cong_add(
        c0[i],
        (nega_mul_at(v, b_exact, i) + m[i]) + e0[i],
        nega_mul_at(c1, s, i),
        nega_mul_at(v, asq, i) + nega_mul_at(e1, s, i),
        q,
    );
    lemma_cong_trans(
        decrypt_view(c0, c1, s, q)[i],
        c0[i] + nega_mul_at(c1, s, i),
        m[i] + nega_mul_at(v, e, i) + e0[i] + nega_mul_at(e1, s, i),
        q,
    );
}

} // verus!
