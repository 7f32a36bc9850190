use vstd::prelude::*;
use crate::params::Q;
use crate::arith::{power2round_spec, mod_pm};
use crate::ntt::{is_poly, pointwise_spec};
use crate::poly::{poly_add_spec, poly_sub_spec, shiftl_spec, p2r_high_spec, p2r_low_spec};
use crate::polyvec::{dot_spec, vec_add_spec, vec_scale_spec};
use crate::sample::zero_poly;
use crate::ntt_props::{lemma_modq, lemma_cong};
use vstd::arithmetic::div_mod::lemma_fundamental_div_mod_converse;

verus! {

/// Multiplication in the NTT domain distributes over sums and differences.
pub proof fn lemma_pointwise_distrib(c: Seq<u32>, a: Seq<u32>, b: Seq<u32>)
    requires
        c.len() == 256,
        a.len() == 256,
        b.len() == 256,
    ensures
        pointwise_spec(c, poly_add_spec(a, b)) == poly_add_spec(
            pointwise_spec(c, a),
            pointwise_spec(c, b),
        ),
        pointwise_spec(c, poly_sub_spec(a, b)) == poly_sub_spec(
            pointwise_spec(c, a),
            pointwise_spec(c, b),
        ),
{
    let qq = Q as int;
    assert forall|i: int| 0 <= i < 256 implies pointwise_spec(c, poly_add_spec(a, b))[i]
        == poly_add_spec(pointwise_spec(c, a), pointwise_spec(c, b))[i] && pointwise_spec(
        c,
        poly_sub_spec(a, b),
    )[i] == poly_sub_spec(pointwise_spec(c, a), pointwise_spec(c, b))[i] by {
        let (k, x, y) = (c[i] as int, a[i] as int, b[i] as int);
        lemma_modq(x + y);
        lemma_modq(x - y);
        lemma_modq(k * x);
        lemma_modq(k * y);
        lemma_cong(k, (x + y) % qq, k, x + y);
        lemma_cong(k, (x - y) % qq, k, x - y);
        lemma_cong((k * x) % qq, (k * y) % qq, k * x, k * y);
        assert(k * (x + y) == k * x + k * y) by (nonlinear_arith);
        assert(k * (x - y) == k * x - k * y) by (nonlinear_arith);
    }
    assert(pointwise_spec(c, poly_add_spec(a, b)) =~= poly_add_spec(
        pointwise_spec(c, a),
        pointwise_spec(c, b),
    ));
    assert(pointwise_spec(c, poly_sub_spec(a, b)) =~= poly_sub_spec(
        pointwise_spec(c, a),
        pointwise_spec(c, b),
    ));
}

/// Multiplication in the NTT domain is associative and commutative.
pub proof fn lemma_pointwise_assoc(a: Seq<u32>, b: Seq<u32>, c: Seq<u32>)
    requires
        a.len() == 256,
        b.len() == 256,
        c.len() == 256,
    ensures
        pointwise_spec(a, pointwise_spec(b, c)) == pointwise_spec(b, pointwise_spec(a, c)),
{
    let qq = Q as int;
    assert forall|i: int| 0 <= i < 256 implies pointwise_spec(a, pointwise_spec(b, c))[i]
        == pointwise_spec(b, pointwise_spec(a, c))[i] by {
        let (x, y, z) = (a[i] as int, b[i] as int, c[i] as int);
        lemma_modq(y * z);
        lemma_modq(x * z);
        lemma_cong(x, (y * z) % qq, x, y * z);
        lemma_cong(y, (x * z) % qq, y, x * z);
        assert(x * (y * z) == y * (x * z)) by (nonlinear_arith);
    }
    assert(pointwise_spec(a, pointwise_spec(b, c)) =~= pointwise_spec(b, pointwise_spec(a, c)));
}

/// The inner product is additive in the vector and commutes with multiplication by
/// one polynomial.
pub proof fn lemma_dot_linear(
    row: Seq<Seq<u32>>,
    u: Seq<Seq<u32>>,
    v: Seq<Seq<u32>>,
    c: Seq<u32>,
    n: nat,
)
    requires
        n <= row.len(),
        n <= u.len(),
        n <= v.len(),
        c.len() == 256,
        forall|i: int| 0 <= i < n ==> (#[trigger] row[i]).len() == 256,
        forall|i: int| 0 <= i < n ==> (#[trigger] u[i]).len() == 256,
        forall|i: int| 0 <= i < n ==> (#[trigger] v[i]).len() == 256,
    ensures
        dot_spec(row, vec_add_spec(u, v), n) == poly_add_spec(
            dot_spec(row, u, n),
            dot_spec(row, v, n),
        ),
        dot_spec(row, vec_scale_spec(c, u), n) == pointwise_spec(c, dot_spec(row, u, n)),
        dot_spec(row, u, n).len() == 256,
    decreases n,
{
    let qq = Q as int;
    if n == 0 {
        assert forall|i: int| 0 <= i < 256 implies poly_add_spec(zero_poly(), zero_poly())[i]
            == zero_poly()[i] && pointwise_spec(c, zero_poly())[i] == zero_poly()[i] by {
            assert(c[i] as int * 0 == 0);
        }
        assert(poly_add_spec(zero_poly(), zero_poly()) =~= zero_poly());
        assert(pointwise_spec(c, zero_poly()) =~= zero_poly());
    } else {
        let m = (n - 1) as nat;
        lemma_dot_linear(row, u, v, c, m);
        let du = dot_spec(row, u, m);
        let dv = dot_spec(row, v, m);
        let r = row[m as int];
        let (um, vm) = (u[m as int], v[m as int]);
        assert(vec_add_spec(u, v)[m as int] == poly_add_spec(um, vm));
        assert(vec_scale_spec(c, u)[m as int] == pointwise_spec(c, um));
        // sums
        let pu = pointwise_spec(r, um);
        let pv = pointwise_spec(r, vm);
        lemma_pointwise_distrib(r, um, vm);
        assert forall|i: int| 0 <= i < 256 implies poly_add_spec(
            poly_add_spec(du, dv),
            poly_add_spec(pu, pv),
        )[i] == poly_add_spec(poly_add_spec(du, pu), poly_add_spec(dv, pv))[i] by {
            let (a, b, x, y) = (du[i] as int, dv[i] as int, pu[i] as int, pv[i] as int);
            lemma_modq(a + b);
            lemma_modq(x + y);
            lemma_modq(a + x);
            lemma_modq(b + y);
            lemma_cong((a + b) % qq, (x + y) % qq, a + b, x + y);
            lemma_cong((a + x) % qq, (b + y) % qq, a + x, b + y);
        }
        assert(poly_add_spec(poly_add_spec(du, dv), poly_add_spec(pu, pv)) =~= poly_add_spec(
            poly_add_spec(du, pu),
            poly_add_spec(dv, pv),
        ));
        // products
        lemma_pointwise_assoc(r, c, um);
        lemma_pointwise_distrib(c, du, pu);
    }
}

/// Power2Round reconstructs its input: 2^13 * t1 = t - t0 modulo q.
pub proof fn lemma_power2round_recon(t: Seq<u32>)
    requires
        is_poly(t),
    ensures
        shiftl_spec(p2r_high_spec(t)) == poly_sub_spec(t, p2r_low_spec(t)),
{
    let qq = Q as int;
    assert forall|i: int| 0 <= i < 256 implies shiftl_spec(p2r_high_spec(t))[i] == poly_sub_spec(
        t,
        p2r_low_spec(t),
    )[i] by {
        let r = t[i] as int;
        let (r1, r0) = power2round_spec(r);
        assert(r1 * 8192 + r0 == r);
        assert(0 <= r1 < 1024);
        lemma_modq(r0);
        lemma_cong(r, r0 % qq, r, r0);
        assert(r - r0 == r1 * 8192);
    }
    assert(shiftl_spec(p2r_high_spec(t)) =~= poly_sub_spec(t, p2r_low_spec(t)));
}

} // verus!

verus! {

/// w minus its low part is 2 * gamma2 times its high part, modulo q.
pub proof fn lemma_decompose_recon(w: int)
    requires
        0 <= w < Q,
    ensures
        (w - crate::arith::decompose_spec(w).1) % (Q as int) == (2 * crate::params::ml_dsa_44::GAMMA2
            * crate::arith::decompose_spec(w).0) % (Q as int),
        0 <= crate::arith::decompose_spec(w).0 < 44,
{
}

/// The hint recovers the high part: for |a| < 2 * gamma2 and w1 in [0, 44),
/// UseHint(MakeHint(a, w1), 2 * gamma2 * w1 + a) = w1.
pub proof fn lemma_use_make_hint(w1: int, a: int)
    requires
        0 <= w1 < 44,
        -2 * crate::params::ml_dsa_44::GAMMA2 < a < 2 * crate::params::ml_dsa_44::GAMMA2,
    ensures
        crate::arith::use_hint_spec(
            (2 * crate::params::ml_dsa_44::GAMMA2 * w1 + a) % (Q as int),
            crate::arith::make_hint_spec(a % (Q as int), w1),
        ) == w1,
{
    let g = 95232int;
    let qq = Q as int;
    let m = 2 * g;
    let x = m * w1 + a;
    let v = x % qq;
    if a >= 0 {
        lemma_fundamental_div_mod_converse(x, qq, 0, x);
        lemma_fundamental_div_mod_converse(a, qq, 0, a);
        if a <= g {
            lemma_fundamental_div_mod_converse(v, m, w1, a);
        } else if w1 <= 42 {
            lemma_fundamental_div_mod_converse(v, m, w1, a);
        } else {
            lemma_fundamental_div_mod_converse(v, m, w1, a);
        }
    } else {
        lemma_fundamental_div_mod_converse(a, qq, -1, a + qq);
        if w1 >= 1 {
            lemma_fundamental_div_mod_converse(x, qq, 0, x);
            if a >= -g {
                lemma_fundamental_div_mod_converse(v, m, w1 - 1, a + m);
            } else {
                lemma_fundamental_div_mod_converse(v, m, w1 - 1, a + m);
            }
        } else {
            lemma_fundamental_div_mod_converse(x, qq, -1, x + qq);
            if a + 1 + m <= g {
                lemma_fundamental_div_mod_converse(v, m, 43, a + 1 + m);
            } else if a == -1 {
                lemma_fundamental_div_mod_converse(v, m, 44, 0);
            } else {
                lemma_fundamental_div_mod_converse(v, m, 43, a + 1 + m);
            }
        }
    }
}

} // verus!
