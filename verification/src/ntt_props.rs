use vstd::prelude::*;
use crate::params::Q;
use vstd::arithmetic::div_mod::{
    lemma_fundamental_div_mod, lemma_fundamental_div_mod_converse, lemma_add_mod_noop,
    lemma_sub_mod_noop, lemma_mul_mod_noop, lemma_mod_twice, lemma_mod_pos_bound, lemma_mod_bound, lemma_mod_multiples_vanish,
};
use crate::ntt::{
    ZETAS, N_INV, is_layer_len, is_poly, ntt_layer_spec, intt_layer_spec, ntt_layers, intt_layers,
    scale_spec, ntt_spec, intt_spec, pointwise_spec,
};
use crate::poly::{poly_add_spec, poly_sub_spec};

verus! {

/// The largest power of two not above k, for 1 <= k < 256.
pub open spec fn top_pow2(k: int) -> int {
    if k >= 128 {
        128
    } else if k >= 64 {
        64
    } else if k >= 32 {
        32
    } else if k >= 16 {
        16
    } else if k >= 8 {
        8
    } else if k >= 4 {
        4
    } else if k >= 2 {
        2
    } else {
        1
    }
}

/// The zeta used by the inverse transform at the position where the forward
/// transform uses ZETAS[k].
pub open spec fn zeta_partner(k: int) -> int {
    3 * top_pow2(k) - 1 - k
}

/// ZETAS[k] * ZETAS[partner] = -1 mod q.
pub open spec fn zeta_pair_ok(k: int) -> bool {
    (ZETAS[k] as int * ZETAS[zeta_partner(k)] as int) % (Q as int) == Q - 1
}

/// The pair property for every k in [1, n].
pub open spec fn zeta_pairs_upto(n: nat) -> bool
    decreases n,
{
    if n == 0 {
        true
    } else {
        zeta_pairs_upto((n - 1) as nat) && zeta_pair_ok(n as int)
    }
}

proof fn lemma_zeta_pairs_0()
    ensures
        zeta_pairs_upto(32),
{
    assert(zeta_pairs_upto(0));
    assert(zeta_pairs_upto(1));
    assert(zeta_pairs_upto(2));
    assert(zeta_pairs_upto(3));
    assert(zeta_pairs_upto(4));
    assert(zeta_pairs_upto(5));
    assert(zeta_pairs_upto(6));
    assert(zeta_pairs_upto(7));
    assert(zeta_pairs_upto(8));
    assert(zeta_pairs_upto(9));
    assert(zeta_pairs_upto(10));
    assert(zeta_pairs_upto(11));
    assert(zeta_pairs_upto(12));
    assert(zeta_pairs_upto(13));
    assert(zeta_pairs_upto(14));
    assert(zeta_pairs_upto(15));
    assert(zeta_pairs_upto(16));
    assert(zeta_pairs_upto(17));
    assert(zeta_pairs_upto(18));
    assert(zeta_pairs_upto(19));
    assert(zeta_pairs_upto(20));
    assert(zeta_pairs_upto(21));
    assert(zeta_pairs_upto(22));
    assert(zeta_pairs_upto(23));
    assert(zeta_pairs_upto(24));
    assert(zeta_pairs_upto(25));
    assert(zeta_pairs_upto(26));
    assert(zeta_pairs_upto(27));
    assert(zeta_pairs_upto(28));
    assert(zeta_pairs_upto(29));
    assert(zeta_pairs_upto(30));
    assert(zeta_pairs_upto(31));
    assert(zeta_pairs_upto(32));
}

proof fn lemma_zeta_pairs_1()
    requires
        zeta_pairs_upto(32),
    ensures
        zeta_pairs_upto(64),
{
    assert(zeta_pairs_upto(33));
    assert(zeta_pairs_upto(34));
    assert(zeta_pairs_upto(35));
    assert(zeta_pairs_upto(36));
    assert(zeta_pairs_upto(37));
    assert(zeta_pairs_upto(38));
    assert(zeta_pairs_upto(39));
    assert(zeta_pairs_upto(40));
    assert(zeta_pairs_upto(41));
    assert(zeta_pairs_upto(42));
    assert(zeta_pairs_upto(43));
    assert(zeta_pairs_upto(44));
    assert(zeta_pairs_upto(45));
    assert(zeta_pairs_upto(46));
    assert(zeta_pairs_upto(47));
    assert(zeta_pairs_upto(48));
    assert(zeta_pairs_upto(49));
    assert(zeta_pairs_upto(50));
    assert(zeta_pairs_upto(51));
    assert(zeta_pairs_upto(52));
    assert(zeta_pairs_upto(53));
    assert(zeta_pairs_upto(54));
    assert(zeta_pairs_upto(55));
    assert(zeta_pairs_upto(56));
    assert(zeta_pairs_upto(57));
    assert(zeta_pairs_upto(58));
    assert(zeta_pairs_upto(59));
    assert(zeta_pairs_upto(60));
    assert(zeta_pairs_upto(61));
    assert(zeta_pairs_upto(62));
    assert(zeta_pairs_upto(63));
    assert(zeta_pairs_upto(64));
}

proof fn lemma_zeta_pairs_2()
    requires
        zeta_pairs_upto(64),
    ensures
        zeta_pairs_upto(96),
{
    assert(zeta_pairs_upto(65));
    assert(zeta_pairs_upto(66));
    assert(zeta_pairs_upto(67));
    assert(zeta_pairs_upto(68));
    assert(zeta_pairs_upto(69));
    assert(zeta_pairs_upto(70));
    assert(zeta_pairs_upto(71));
    assert(zeta_pairs_upto(72));
    assert(zeta_pairs_upto(73));
    assert(zeta_pairs_upto(74));
    assert(zeta_pairs_upto(75));
    assert(zeta_pairs_upto(76));
    assert(zeta_pairs_upto(77));
    assert(zeta_pairs_upto(78));
    assert(zeta_pairs_upto(79));
    assert(zeta_pairs_upto(80));
    assert(zeta_pairs_upto(81));
    assert(zeta_pairs_upto(82));
    assert(zeta_pairs_upto(83));
    assert(zeta_pairs_upto(84));
    assert(zeta_pairs_upto(85));
    assert(zeta_pairs_upto(86));
    assert(zeta_pairs_upto(87));
    assert(zeta_pairs_upto(88));
    assert(zeta_pairs_upto(89));
    assert(zeta_pairs_upto(90));
    assert(zeta_pairs_upto(91));
    assert(zeta_pairs_upto(92));
    assert(zeta_pairs_upto(93));
    assert(zeta_pairs_upto(94));
    assert(zeta_pairs_upto(95));
    assert(zeta_pairs_upto(96));
}

proof fn lemma_zeta_pairs_3()
    requires
        zeta_pairs_upto(96),
    ensures
        zeta_pairs_upto(128),
{
    assert(zeta_pairs_upto(97));
    assert(zeta_pairs_upto(98));
    assert(zeta_pairs_upto(99));
    assert(zeta_pairs_upto(100));
    assert(zeta_pairs_upto(101));
    assert(zeta_pairs_upto(102));
    assert(zeta_pairs_upto(103));
    assert(zeta_pairs_upto(104));
    assert(zeta_pairs_upto(105));
    assert(zeta_pairs_upto(106));
    assert(zeta_pairs_upto(107));
    assert(zeta_pairs_upto(108));
    assert(zeta_pairs_upto(109));
    assert(zeta_pairs_upto(110));
    assert(zeta_pairs_upto(111));
    assert(zeta_pairs_upto(112));
    assert(zeta_pairs_upto(113));
    assert(zeta_pairs_upto(114));
    assert(zeta_pairs_upto(115));
    assert(zeta_pairs_upto(116));
    assert(zeta_pairs_upto(117));
    assert(zeta_pairs_upto(118));
    assert(zeta_pairs_upto(119));
    assert(zeta_pairs_upto(120));
    assert(zeta_pairs_upto(121));
    assert(zeta_pairs_upto(122));
    assert(zeta_pairs_upto(123));
    assert(zeta_pairs_upto(124));
    assert(zeta_pairs_upto(125));
    assert(zeta_pairs_upto(126));
    assert(zeta_pairs_upto(127));
    assert(zeta_pairs_upto(128));
}

proof fn lemma_zeta_pairs_4()
    requires
        zeta_pairs_upto(128),
    ensures
        zeta_pairs_upto(160),
{
    assert(zeta_pairs_upto(129));
    assert(zeta_pairs_upto(130));
    assert(zeta_pairs_upto(131));
    assert(zeta_pairs_upto(132));
    assert(zeta_pairs_upto(133));
    assert(zeta_pairs_upto(134));
    assert(zeta_pairs_upto(135));
    assert(zeta_pairs_upto(136));
    assert(zeta_pairs_upto(137));
    assert(zeta_pairs_upto(138));
    assert(zeta_pairs_upto(139));
    assert(zeta_pairs_upto(140));
    assert(zeta_pairs_upto(141));
    assert(zeta_pairs_upto(142));
    assert(zeta_pairs_upto(143));
    assert(zeta_pairs_upto(144));
    assert(zeta_pairs_upto(145));
    assert(zeta_pairs_upto(146));
    assert(zeta_pairs_upto(147));
    assert(zeta_pairs_upto(148));
    assert(zeta_pairs_upto(149));
    assert(zeta_pairs_upto(150));
    assert(zeta_pairs_upto(151));
    assert(zeta_pairs_upto(152));
    assert(zeta_pairs_upto(153));
    assert(zeta_pairs_upto(154));
    assert(zeta_pairs_upto(155));
    assert(zeta_pairs_upto(156));
    assert(zeta_pairs_upto(157));
    assert(zeta_pairs_upto(158));
    assert(zeta_pairs_upto(159));
    assert(zeta_pairs_upto(160));
}

proof fn lemma_zeta_pairs_5()
    requires
        zeta_pairs_upto(160),
    ensures
        zeta_pairs_upto(192),
{
    assert(zeta_pairs_upto(161));
    assert(zeta_pairs_upto(162));
    assert(zeta_pairs_upto(163));
    assert(zeta_pairs_upto(164));
    assert(zeta_pairs_upto(165));
    assert(zeta_pairs_upto(166));
    assert(zeta_pairs_upto(167));
    assert(zeta_pairs_upto(168));
    assert(zeta_pairs_upto(169));
    assert(zeta_pairs_upto(170));
    assert(zeta_pairs_upto(171));
    assert(zeta_pairs_upto(172));
    assert(zeta_pairs_upto(173));
    assert(zeta_pairs_upto(174));
    assert(zeta_pairs_upto(175));
    assert(zeta_pairs_upto(176));
    assert(zeta_pairs_upto(177));
    assert(zeta_pairs_upto(178));
    assert(zeta_pairs_upto(179));
    assert(zeta_pairs_upto(180));
    assert(zeta_pairs_upto(181));
    assert(zeta_pairs_upto(182));
    assert(zeta_pairs_upto(183));
    assert(zeta_pairs_upto(184));
    assert(zeta_pairs_upto(185));
    assert(zeta_pairs_upto(186));
    assert(zeta_pairs_upto(187));
    assert(zeta_pairs_upto(188));
    assert(zeta_pairs_upto(189));
    assert(zeta_pairs_upto(190));
    assert(zeta_pairs_upto(191));
    assert(zeta_pairs_upto(192));
}

proof fn lemma_zeta_pairs_6()
    requires
        zeta_pairs_upto(192),
    ensures
        zeta_pairs_upto(224),
{
    assert(zeta_pairs_upto(193));
    assert(zeta_pairs_upto(194));
    assert(zeta_pairs_upto(195));
    assert(zeta_pairs_upto(196));
    assert(zeta_pairs_upto(197));
    assert(zeta_pairs_upto(198));
    assert(zeta_pairs_upto(199));
    assert(zeta_pairs_upto(200));
    assert(zeta_pairs_upto(201));
    assert(zeta_pairs_upto(202));
    assert(zeta_pairs_upto(203));
    assert(zeta_pairs_upto(204));
    assert(zeta_pairs_upto(205));
    assert(zeta_pairs_upto(206));
    assert(zeta_pairs_upto(207));
    assert(zeta_pairs_upto(208));
    assert(zeta_pairs_upto(209));
    assert(zeta_pairs_upto(210));
    assert(zeta_pairs_upto(211));
    assert(zeta_pairs_upto(212));
    assert(zeta_pairs_upto(213));
    assert(zeta_pairs_upto(214));
    assert(zeta_pairs_upto(215));
    assert(zeta_pairs_upto(216));
    assert(zeta_pairs_upto(217));
    assert(zeta_pairs_upto(218));
    assert(zeta_pairs_upto(219));
    assert(zeta_pairs_upto(220));
    assert(zeta_pairs_upto(221));
    assert(zeta_pairs_upto(222));
    assert(zeta_pairs_upto(223));
    assert(zeta_pairs_upto(224));
}

proof fn lemma_zeta_pairs_7()
    requires
        zeta_pairs_upto(224),
    ensures
        zeta_pairs_upto(255),
{
    assert(zeta_pairs_upto(225));
    assert(zeta_pairs_upto(226));
    assert(zeta_pairs_upto(227));
    assert(zeta_pairs_upto(228));
    assert(zeta_pairs_upto(229));
    assert(zeta_pairs_upto(230));
    assert(zeta_pairs_upto(231));
    assert(zeta_pairs_upto(232));
    assert(zeta_pairs_upto(233));
    assert(zeta_pairs_upto(234));
    assert(zeta_pairs_upto(235));
    assert(zeta_pairs_upto(236));
    assert(zeta_pairs_upto(237));
    assert(zeta_pairs_upto(238));
    assert(zeta_pairs_upto(239));
    assert(zeta_pairs_upto(240));
    assert(zeta_pairs_upto(241));
    assert(zeta_pairs_upto(242));
    assert(zeta_pairs_upto(243));
    assert(zeta_pairs_upto(244));
    assert(zeta_pairs_upto(245));
    assert(zeta_pairs_upto(246));
    assert(zeta_pairs_upto(247));
    assert(zeta_pairs_upto(248));
    assert(zeta_pairs_upto(249));
    assert(zeta_pairs_upto(250));
    assert(zeta_pairs_upto(251));
    assert(zeta_pairs_upto(252));
    assert(zeta_pairs_upto(253));
    assert(zeta_pairs_upto(254));
    assert(zeta_pairs_upto(255));
}

proof fn lemma_zeta_pairs_table()
    ensures
        zeta_pairs_upto(255),
{
    lemma_zeta_pairs_0();
    lemma_zeta_pairs_1();
    lemma_zeta_pairs_2();
    lemma_zeta_pairs_3();
    lemma_zeta_pairs_4();
    lemma_zeta_pairs_5();
    lemma_zeta_pairs_6();
    lemma_zeta_pairs_7();
}

proof fn lemma_zeta_pairs_below(n: nat, k: int)
    requires
        zeta_pairs_upto(n),
        1 <= k <= n,
    ensures
        zeta_pair_ok(k),
    decreases n,
{
    if k < n {
        lemma_zeta_pairs_below((n - 1) as nat, k);
    }
}

/// The zetas of a forward block and of the matching inverse block multiply to -1 mod q.
#[verifier::spinoff_prover]
pub proof fn lemma_zeta_pair(len: int, blk: int)
    requires
        is_layer_len(len),
        0 <= blk < 128int / len,
    ensures
        (ZETAS[128int / len + blk] as int * ZETAS[2 * (128int / len) - 1 - blk] as int) % (Q as int) == Q
            - 1,
{
    lemma_zeta_pairs_table();
    let k = 128int / len + blk;
    if len == 1 {
        assert(top_pow2(k) == 128);
    } else if len == 2 {
        assert(top_pow2(k) == 64);
    } else if len == 4 {
        assert(top_pow2(k) == 32);
    } else if len == 8 {
        assert(top_pow2(k) == 16);
    } else if len == 16 {
        assert(top_pow2(k) == 8);
    } else if len == 32 {
        assert(top_pow2(k) == 4);
    } else if len == 64 {
        assert(top_pow2(k) == 2);
    } else {
        assert(len == 128);
        assert(128int / len == 128int / 128int);
        assert(k == 1);
        assert(top_pow2(k) == 1);
    }
    assert(zeta_partner(k) == 2 * (128int / len) - 1 - blk);
    lemma_zeta_pairs_below(255, k);
    assert(zeta_pair_ok(k));
}

/// x mod q lies in [0, q) and reducing twice changes nothing.
pub proof fn lemma_modq(x: int)
    ensures
        0 <= x % (Q as int) < Q,
        (x % (Q as int)) % (Q as int) == x % (Q as int),
{
    lemma_mod_bound(x, Q as int);
    lemma_mod_twice(x, Q as int);
}

/// Congruence modulo q is kept by sums, differences and products.
pub proof fn lemma_cong(a: int, b: int, a2: int, b2: int)
    requires
        a % (Q as int) == a2 % (Q as int),
        b % (Q as int) == b2 % (Q as int),
    ensures
        (a + b) % (Q as int) == (a2 + b2) % (Q as int),
        (a - b) % (Q as int) == (a2 - b2) % (Q as int),
        (a * b) % (Q as int) == (a2 * b2) % (Q as int),
{
    lemma_add_mod_noop(a, b, Q as int);
    lemma_add_mod_noop(a2, b2, Q as int);
    lemma_sub_mod_noop(a, b, Q as int);
    lemma_sub_mod_noop(a2, b2, Q as int);
    lemma_mul_mod_noop(a, b, Q as int);
    lemma_mul_mod_noop(a2, b2, Q as int);
}

/// Where index i sits in a layer with half-length len: its block, and its partner i +- len.
pub proof fn lemma_layer_index(i: int, len: int)
    requires
        is_layer_len(len),
        0 <= i < 256,
    ensures
        0 <= i / (2 * len) < 128int / len,
        0 <= i % (2 * len) < 2 * len,
        i % (2 * len) < len ==> i + len < 256 && (i + len) / (2 * len) == i / (2 * len) && (i
            + len) % (2 * len) == i % (2 * len) + len,
        i % (2 * len) >= len ==> i - len >= 0 && (i - len) / (2 * len) == i / (2 * len) && (i
            - len) % (2 * len) == i % (2 * len) - len,
{
    let d = 2 * len;
    lemma_fundamental_div_mod(i, d);
    lemma_mod_pos_bound(i, d);
    let blk = i / d;
    let r = i % d;
    assert(0 <= blk < 128int / len) by (nonlinear_arith)
        requires
            is_layer_len(len),
            d == 2 * len,
            i == d * blk + r,
            0 <= r < d,
            0 <= i < 256,
    {
        if blk < 0 {
            assert(d * blk <= -d);
        }
        assert(d * blk <= i);
    }
    if r < len {
        lemma_fundamental_div_mod_converse(i + len, d, blk, r + len);
        assert(i + len < 256) by (nonlinear_arith)
            requires
                is_layer_len(len),
                d == 2 * len,
                i == d * blk + r,
                0 <= r < len,
                0 <= blk < 128int / len,
        {
            assert(blk + 1 <= 128int / len);
            assert(d * (blk + 1) <= 256);
        }
    } else {
        assert(i - len == blk * d + (r - len)) by (nonlinear_arith)
            requires
                i == d * blk + r,
        ;
        lemma_fundamental_div_mod_converse(i - len, d, blk, r - len);
    }
}

/// A forward layer commutes with multiplication by a constant.
pub proof fn lemma_ntt_layer_scale(w: Seq<u32>, len: int, c: int)
    requires
        is_layer_len(len),
        w.len() == 256,
    ensures
        ntt_layer_spec(scale_spec(w, c), len) == scale_spec(ntt_layer_spec(w, len), c),
{
    let sw = scale_spec(w, c);
    let lhs = ntt_layer_spec(sw, len);
    let rhs = scale_spec(ntt_layer_spec(w, len), c);
    let qq = Q as int;
    assert forall|i: int| 0 <= i < 256 implies lhs[i] == rhs[i] by {
        lemma_layer_index(i, len);
        let z = ZETAS[128int / len + i / (2 * len)] as int;
        if i % (2 * len) < len {
            let a = w[i] as int;
            let b = w[i + len] as int;
            lemma_modq(c * a);
            lemma_modq(c * b);
            lemma_modq(a + z * b);
            lemma_cong(z, (c * b) % qq, z, c * b);
            lemma_cong((c * a) % qq, z * ((c * b) % qq), c * a, z * (c * b));
            lemma_cong(c, (a + z * b) % qq, c, a + z * b);
            assert(c * (a + z * b) == c * a + z * (c * b)) by (nonlinear_arith);
        } else {
            let a = w[i - len] as int;
            let b = w[i] as int;
            lemma_modq(c * a);
            lemma_modq(c * b);
            lemma_modq(a - z * b);
            lemma_cong(z, (c * b) % qq, z, c * b);
            lemma_cong((c * a) % qq, z * ((c * b) % qq), c * a, z * (c * b));
            lemma_cong(c, (a - z * b) % qq, c, a - z * b);
            assert(c * (a - z * b) == c * a - z * (c * b)) by (nonlinear_arith);
        }
    }
    assert(lhs =~= rhs);
}

/// Multiplying by a residue of -1 negates modulo q.
pub proof fn lemma_neg_one(p: int, d: int)
    requires
        p % (Q as int) == Q - 1,
    ensures
        (p * d) % (Q as int) == (-d) % (Q as int),
{
    let qq = Q as int;
    lemma_modq(qq - 1);
    lemma_cong(p, d, qq - 1, d);
    assert((qq - 1) * d == qq * d + (-d)) by (nonlinear_arith);
    lemma_mod_multiples_vanish(d, -d, qq);
}

/// An inverse layer commutes with multiplication by a constant.
pub proof fn lemma_intt_layer_scale(w: Seq<u32>, len: int, c: int)
    requires
        is_layer_len(len),
        w.len() == 256,
    ensures
        intt_layer_spec(scale_spec(w, c), len) == scale_spec(intt_layer_spec(w, len), c),
{
    let sw = scale_spec(w, c);
    let lhs = intt_layer_spec(sw, len);
    let rhs = scale_spec(intt_layer_spec(w, len), c);
    let qq = Q as int;
    assert forall|i: int| 0 <= i < 256 implies lhs[i] == rhs[i] by {
        lemma_layer_index(i, len);
        let z = ZETAS[2 * (128int / len) - 1 - i / (2 * len)] as int;
        if i % (2 * len) < len {
            let a = w[i] as int;
            let b = w[i + len] as int;
            lemma_modq(c * a);
            lemma_modq(c * b);
            lemma_modq(a + b);
            lemma_cong((c * a) % qq, (c * b) % qq, c * a, c * b);
            lemma_cong(c, (a + b) % qq, c, a + b);
            assert(c * (a + b) == c * a + c * b) by (nonlinear_arith);
        } else {
            let a = w[i - len] as int;
            let b = w[i] as int;
            lemma_modq(c * a);
            lemma_modq(c * b);
            lemma_modq(z * (b - a));
            lemma_cong((c * b) % qq, (c * a) % qq, c * b, c * a);
            lemma_cong(z, (c * b) % qq - (c * a) % qq, z, c * b - c * a);
            lemma_cong(c, (z * (b - a)) % qq, c, z * (b - a));
            assert(c * (z * (b - a)) == z * (c * b - c * a)) by (nonlinear_arith);
        }
    }
    assert(lhs =~= rhs);
}

/// A forward layer is additive.
pub proof fn lemma_ntt_layer_add(a: Seq<u32>, b: Seq<u32>, len: int)
    requires
        is_layer_len(len),
        a.len() == 256,
        b.len() == 256,
    ensures
        ntt_layer_spec(poly_add_spec(a, b), len) == poly_add_spec(
            ntt_layer_spec(a, len),
            ntt_layer_spec(b, len),
        ),
        ntt_layer_spec(poly_sub_spec(a, b), len) == poly_sub_spec(
            ntt_layer_spec(a, len),
            ntt_layer_spec(b, len),
        ),
{
    let qq = Q as int;
    let s = poly_add_spec(a, b);
    let d = poly_sub_spec(a, b);
    let la = ntt_layer_spec(a, len);
    let lb = ntt_layer_spec(b, len);
    assert forall|i: int| 0 <= i < 256 implies ntt_layer_spec(s, len)[i] == poly_add_spec(
        la,
        lb,
    )[i] && ntt_layer_spec(d, len)[i] == poly_sub_spec(la, lb)[i] by {
        lemma_layer_index(i, len);
        let z = ZETAS[128int / len + i / (2 * len)] as int;
        let j = if i % (2 * len) < len {
            i + len
        } else {
            i - len
        };
        let (ai, aj, bi, bj) = (a[i] as int, a[j] as int, b[i] as int, b[j] as int);
        lemma_modq(ai + bi);
        lemma_modq(aj + bj);
        lemma_modq(ai - bi);
        lemma_modq(aj - bj);
        lemma_cong(z, (aj + bj) % qq, z, aj + bj);
        lemma_cong(z, (aj - bj) % qq, z, aj - bj);
        if i % (2 * len) < len {
            lemma_modq(ai + z * aj);
            lemma_modq(bi + z * bj);
            lemma_cong((ai + bi) % qq, z * ((aj + bj) % qq), ai + bi, z * (aj + bj));
            lemma_cong((ai - bi) % qq, z * ((aj - bj) % qq), ai - bi, z * (aj - bj));
            lemma_cong((ai + z * aj) % qq, (bi + z * bj) % qq, ai + z * aj, bi + z * bj);
            assert(ai + bi + z * (aj + bj) == (ai + z * aj) + (bi + z * bj)) by (nonlinear_arith);
            assert(ai - bi + z * (aj - bj) == (ai + z * aj) - (bi + z * bj)) by (nonlinear_arith);
        } else {
            lemma_modq(aj - z * ai);
            lemma_modq(bj - z * bi);
            lemma_modq(z * ((ai + bi) % qq));
            lemma_cong(z, (ai + bi) % qq, z, ai + bi);
            lemma_cong(z, (ai - bi) % qq, z, ai - bi);
            lemma_cong((aj + bj) % qq, z * ((ai + bi) % qq), aj + bj, z * (ai + bi));
            lemma_cong((aj - bj) % qq, z * ((ai - bi) % qq), aj - bj, z * (ai - bi));
            lemma_cong((aj - z * ai) % qq, (bj - z * bi) % qq, aj - z * ai, bj - z * bi);
            assert(aj + bj - z * (ai + bi) == (aj - z * ai) + (bj - z * bi)) by (nonlinear_arith);
            assert(aj - bj - z * (ai - bi) == (aj - z * ai) - (bj - z * bi)) by (nonlinear_arith);
        }
    }
    assert(ntt_layer_spec(s, len) =~= poly_add_spec(la, lb));
    assert(ntt_layer_spec(d, len) =~= poly_sub_spec(la, lb));
}

/// An inverse layer is additive.
pub proof fn lemma_intt_layer_add(a: Seq<u32>, b: Seq<u32>, len: int)
    requires
        is_layer_len(len),
        a.len() == 256,
        b.len() == 256,
    ensures
        intt_layer_spec(poly_add_spec(a, b), len) == poly_add_spec(
            intt_layer_spec(a, len),
            intt_layer_spec(b, len),
        ),
        intt_layer_spec(poly_sub_spec(a, b), len) == poly_sub_spec(
            intt_layer_spec(a, len),
            intt_layer_spec(b, len),
        ),
{
    let qq = Q as int;
    let s = poly_add_spec(a, b);
    let d = poly_sub_spec(a, b);
    let la = intt_layer_spec(a, len);
    let lb = intt_layer_spec(b, len);
    assert forall|i: int| 0 <= i < 256 implies intt_layer_spec(s, len)[i] == poly_add_spec(
        la,
        lb,
    )[i] && intt_layer_spec(d, len)[i] == poly_sub_spec(la, lb)[i] by {
        lemma_layer_index(i, len);
        let z = ZETAS[2 * (128int / len) - 1 - i / (2 * len)] as int;
        let j = if i % (2 * len) < len {
            i + len
        } else {
            i - len
        };
        let (ai, aj, bi, bj) = (a[i] as int, a[j] as int, b[i] as int, b[j] as int);
        lemma_modq(ai + bi);
        lemma_modq(aj + bj);
        lemma_modq(ai - bi);
        lemma_modq(aj - bj);
        if i % (2 * len) < len {
            lemma_modq(ai + aj);
            lemma_modq(bi + bj);
            lemma_cong((ai + bi) % qq, (aj + bj) % qq, ai + bi, aj + bj);
            lemma_cong((ai - bi) % qq, (aj - bj) % qq, ai - bi, aj - bj);
            lemma_cong((ai + aj) % qq, (bi + bj) % qq, ai + aj, bi + bj);
        } else {
            lemma_modq(z * (ai - aj));
            lemma_modq(z * (bi - bj));
            lemma_cong((ai + bi) % qq, (aj + bj) % qq, ai + bi, aj + bj);
            lemma_cong((ai - bi) % qq, (aj - bj) % qq, ai - bi, aj - bj);
            lemma_cong(z, (ai + bi) % qq - (aj + bj) % qq, z, (ai + bi) - (aj + bj));
            lemma_cong(z, (ai - bi) % qq - (aj - bj) % qq, z, (ai - bi) - (aj - bj));
            lemma_cong((z * (ai - aj)) % qq, (z * (bi - bj)) % qq, z * (ai - aj), z * (bi - bj));
            assert(z * ((ai + bi) - (aj + bj)) == z * (ai - aj) + z * (bi - bj)) by (nonlinear_arith);
            assert(z * ((ai - bi) - (aj - bj)) == z * (ai - aj) - z * (bi - bj)) by (nonlinear_arith);
        }
    }
    assert(intt_layer_spec(s, len) =~= poly_add_spec(la, lb));
    assert(intt_layer_spec(d, len) =~= poly_sub_spec(la, lb));
}

/// The inverse layer undoes the forward layer of the same half-length, up to a factor 2.
pub proof fn lemma_intt_ntt_layer(w: Seq<u32>, len: int)
    requires
        is_layer_len(len),
        w.len() == 256,
    ensures
        intt_layer_spec(ntt_layer_spec(w, len), len) == scale_spec(w, 2),
{
    let qq = Q as int;
    let x = ntt_layer_spec(w, len);
    let y = intt_layer_spec(x, len);
    assert forall|i: int| 0 <= i < 256 implies y[i] == scale_spec(w, 2)[i] by {
        lemma_layer_index(i, len);
        let blk = i / (2 * len);
        let z = ZETAS[128int / len + blk] as int;
        let z2 = ZETAS[2 * (128int / len) - 1 - blk] as int;
        if i % (2 * len) < len {
            let a = w[i] as int;
            let b = w[i + len] as int;
            lemma_modq(a + z * b);
            lemma_modq(a - z * b);
            lemma_cong((a + z * b) % qq, (a - z * b) % qq, a + z * b, a - z * b);
            assert((a + z * b) + (a - z * b) == 2 * a);
        } else {
            let a = w[i - len] as int;
            let b = w[i] as int;
            lemma_zeta_pair(len, blk);
            lemma_modq(a - z * b);
            lemma_modq(a + z * b);
            lemma_cong((a - z * b) % qq, (a + z * b) % qq, a - z * b, a + z * b);
            lemma_cong(z2, (a - z * b) % qq - (a + z * b) % qq, z2, (a - z * b) - (a + z * b));
            assert(z2 * ((a - z * b) - (a + z * b)) == (z * z2) * (-2 * b)) by (nonlinear_arith);
            lemma_neg_one(z * z2, -2 * b);
        }
    }
    assert(y =~= scale_spec(w, 2));
}

/// The forward layer undoes the inverse layer of the same half-length, up to a factor 2.
pub proof fn lemma_ntt_intt_layer(w: Seq<u32>, len: int)
    requires
        is_layer_len(len),
        w.len() == 256,
    ensures
        ntt_layer_spec(intt_layer_spec(w, len), len) == scale_spec(w, 2),
{
    let qq = Q as int;
    let x = intt_layer_spec(w, len);
    let y = ntt_layer_spec(x, len);
    assert forall|i: int| 0 <= i < 256 implies y[i] == scale_spec(w, 2)[i] by {
        lemma_layer_index(i, len);
        let blk = i / (2 * len);
        let z = ZETAS[128int / len + blk] as int;
        let z2 = ZETAS[2 * (128int / len) - 1 - blk] as int;
        lemma_zeta_pair(len, blk);
        if i % (2 * len) < len {
            let a = w[i] as int;
            let b = w[i + len] as int;
            lemma_modq(a + b);
            lemma_modq(z2 * (b - a));
            lemma_cong(z, (z2 * (b - a)) % qq, z, z2 * (b - a));
            lemma_cong((a + b) % qq, z * ((z2 * (b - a)) % qq), a + b, z * (z2 * (b - a)));
            assert(z * (z2 * (b - a)) == (z * z2) * (b - a)) by (nonlinear_arith);
            lemma_neg_one(z * z2, b - a);
            lemma_cong(a + b, (z * z2) * (b - a), a + b, -(b - a));
        } else {
            let a = w[i - len] as int;
            let b = w[i] as int;
            lemma_modq(a + b);
            lemma_modq(z2 * (b - a));
            lemma_cong(z, (z2 * (b - a)) % qq, z, z2 * (b - a));
            lemma_cong((a + b) % qq, z * ((z2 * (b - a)) % qq), a + b, z * (z2 * (b - a)));
            assert(z * (z2 * (b - a)) == (z * z2) * (b - a)) by (nonlinear_arith);
            lemma_neg_one(z * z2, b - a);
            lemma_cong(a + b, (z * z2) * (b - a), a + b, -(b - a));
        }
    }
    assert(y =~= scale_spec(w, 2));
}

/// Scaling twice is scaling by the product.
pub proof fn lemma_scale_scale(u: Seq<u32>, a: int, b: int)
    requires
        u.len() == 256,
    ensures
        scale_spec(scale_spec(u, a), b) == scale_spec(u, a * b),
{
    let qq = Q as int;
    assert forall|i: int| 0 <= i < 256 implies scale_spec(scale_spec(u, a), b)[i] == scale_spec(
        u,
        a * b,
    )[i] by {
        let x = u[i] as int;
        lemma_modq(a * x);
        lemma_cong(b, (a * x) % qq, b, a * x);
        assert(b * (a * x) == (a * b) * x) by (nonlinear_arith);
    }
    assert(scale_spec(scale_spec(u, a), b) =~= scale_spec(u, a * b));
}

/// Scaling a polynomial by a constant congruent to 1 leaves it unchanged.
pub proof fn lemma_scale_one(u: Seq<u32>, c: int)
    requires
        is_poly(u),
        c % (Q as int) == 1,
    ensures
        scale_spec(u, c) == u,
{
    let qq = Q as int;
    assert forall|i: int| 0 <= i < 256 implies scale_spec(u, c)[i] == u[i] by {
        let x = u[i] as int;
        lemma_modq(1);
        lemma_cong(c, x, 1, x);
        assert(x % qq == x) by {
            vstd::arithmetic::div_mod::lemma_small_mod(x as nat, qq as nat);
        }
    }
    assert(scale_spec(u, c) =~= u);
}

/// Scaling distributes over sums and differences.
pub proof fn lemma_scale_add(a: Seq<u32>, b: Seq<u32>, c: int)
    requires
        a.len() == 256,
        b.len() == 256,
    ensures
        scale_spec(poly_add_spec(a, b), c) == poly_add_spec(scale_spec(a, c), scale_spec(b, c)),
        scale_spec(poly_sub_spec(a, b), c) == poly_sub_spec(scale_spec(a, c), scale_spec(b, c)),
{
    let qq = Q as int;
    assert forall|i: int| 0 <= i < 256 implies scale_spec(poly_add_spec(a, b), c)[i]
        == poly_add_spec(scale_spec(a, c), scale_spec(b, c))[i] && scale_spec(
        poly_sub_spec(a, b),
        c,
    )[i] == poly_sub_spec(scale_spec(a, c), scale_spec(b, c))[i] by {
        let (x, y) = (a[i] as int, b[i] as int);
        lemma_modq(x + y);
        lemma_modq(x - y);
        lemma_modq(c * x);
        lemma_modq(c * y);
        lemma_cong(c, (x + y) % qq, c, x + y);
        lemma_cong(c, (x - y) % qq, c, x - y);
        lemma_cong((c * x) % qq, (c * y) % qq, c * x, c * y);
        assert(c * (x + y) == c * x + c * y) by (nonlinear_arith);
        assert(c * (x - y) == c * x - c * y) by (nonlinear_arith);
    }
    assert(scale_spec(poly_add_spec(a, b), c) =~= poly_add_spec(scale_spec(a, c), scale_spec(b, c)));
    assert(scale_spec(poly_sub_spec(a, b), c) =~= poly_sub_spec(scale_spec(a, c), scale_spec(b, c)));
}

/// Half-lengths of the forward layers still to apply (0 when none are left).
pub open spec fn is_layer_len_or_zero(len: int) -> bool {
    len == 0 || is_layer_len(len)
}

/// The forward layers commute with scaling and are additive.
pub proof fn lemma_ntt_layers_linear(a: Seq<u32>, b: Seq<u32>, c: int, len: nat)
    requires
        is_layer_len_or_zero(len as int),
        a.len() == 256,
        b.len() == 256,
    ensures
        ntt_layers(scale_spec(a, c), len) == scale_spec(ntt_layers(a, len), c),
        ntt_layers(poly_add_spec(a, b), len) == poly_add_spec(ntt_layers(a, len), ntt_layers(b, len)),
        ntt_layers(poly_sub_spec(a, b), len) == poly_sub_spec(ntt_layers(a, len), ntt_layers(b, len)),
        ntt_layers(a, len).len() == 256,
    decreases len,
{
    if len > 0 {
        lemma_ntt_layer_scale(a, len as int, c);
        lemma_ntt_layer_add(a, b, len as int);
        lemma_ntt_layers_linear(
            ntt_layer_spec(a, len as int),
            ntt_layer_spec(b, len as int),
            c,
            len / 2,
        );
    }
}

/// The inverse layers commute with scaling and are additive.
pub proof fn lemma_intt_layers_linear(a: Seq<u32>, b: Seq<u32>, c: int, len: nat)
    requires
        len == 256 || is_layer_len(len as int),
        a.len() == 256,
        b.len() == 256,
    ensures
        intt_layers(scale_spec(a, c), len) == scale_spec(intt_layers(a, len), c),
        intt_layers(poly_add_spec(a, b), len) == poly_add_spec(
            intt_layers(a, len),
            intt_layers(b, len),
        ),
        intt_layers(poly_sub_spec(a, b), len) == poly_sub_spec(
            intt_layers(a, len),
            intt_layers(b, len),
        ),
        intt_layers(a, len).len() == 256,
    decreases 256 - len,
{
    if len <= 128 {
        lemma_intt_layer_scale(a, len as int, c);
        lemma_intt_layer_add(a, b, len as int);
        lemma_intt_layers_linear(
            intt_layer_spec(a, len as int),
            intt_layer_spec(b, len as int),
            c,
            len * 2,
        );
    }
}

proof fn lemma_intt_after_ntt_layers(u: Seq<u32>, c: int, m: nat)
    requires
        is_layer_len(m as int),
        u.len() == 256,
    ensures
        intt_layers(scale_spec(ntt_layers(u, m), c), 1) == intt_layers(
            scale_spec(u, 2 * m * c),
            2 * m,
        ),
    decreases m,
{
    let lu = ntt_layer_spec(u, m as int);
    lemma_intt_ntt_layer(u, m as int);
    lemma_intt_layer_scale(lu, m as int, m * c);
    lemma_scale_scale(u, 2, m * c);
    if m == 1 {
        assert(ntt_layers(lu, 0) == lu);
        assert(ntt_layers(u, m) == lu);
        lemma_intt_layer_scale(lu, 1, c);
    } else {
        lemma_intt_after_ntt_layers(lu, c, m / 2);
        assert(2 * (m / 2) * c == m * c) by (nonlinear_arith)
            requires
                is_layer_len(m as int),
                m > 1,
        ;
        assert(2 * (m / 2) == m) by (nonlinear_arith)
            requires
                is_layer_len(m as int),
                m > 1,
        ;
    }
    assert(2 * (m * c) == 2 * m * c) by (nonlinear_arith);
}

proof fn lemma_ntt_after_intt_layers(u: Seq<u32>, c: int, m: nat)
    requires
        is_layer_len(m as int),
        u.len() == 256,
    ensures
        ntt_layers(scale_spec(intt_layers(u, m), c), 128) == ntt_layers(
            scale_spec(u, c * (256int / (m as int))),
            m / 2,
        ),
    decreases 256 - m,
{
    let iu = intt_layer_spec(u, m as int);
    lemma_ntt_intt_layer(u, m as int);
    if m == 128 {
        assert(intt_layers(iu, 256) == iu);
        assert(intt_layers(u, m) == intt_layers(iu, 256));
        lemma_ntt_layer_scale(iu, 128, c);
        lemma_scale_scale(u, 2, c);
        assert(256int / 128int == 2);
        assert(256int / (m as int) == 256int / 128int);
        assert(ntt_layers(scale_spec(iu, c), 128) == ntt_layers(
            ntt_layer_spec(scale_spec(iu, c), 128),
            64,
        ));
    } else {
        lemma_ntt_after_intt_layers(iu, c, 2 * m);
        let k = c * (256int / (2 * m as int));
        lemma_ntt_layer_scale(iu, m as int, k);
        lemma_scale_scale(u, 2, k);
        assert(2 * k == c * (256int / (m as int))) by (nonlinear_arith)
            requires
                is_layer_len(m as int),
                m < 128,
                k == c * (256int / (2 * m as int)),
        ;
        assert((2 * m) / 2 == m);
        assert(intt_layers(u, m) == intt_layers(iu, 2 * m));
        assert(ntt_layers(scale_spec(iu, k), m) == ntt_layers(
            ntt_layer_spec(scale_spec(iu, k), m as int),
            m / 2,
        ));
    }
}

/// The forward transform maps polynomials to polynomials.
pub proof fn lemma_ntt_layers_poly(w: Seq<u32>, len: nat)
    requires
        is_poly(w),
        is_layer_len_or_zero(len as int),
    ensures
        is_poly(ntt_layers(w, len)),
    decreases len,
{
    if len > 0 {
        lemma_ntt_layers_poly(ntt_layer_spec(w, len as int), len / 2);
    }
}

/// The inverse transform undoes the forward transform.
pub proof fn lemma_intt_ntt(u: Seq<u32>)
    requires
        is_poly(u),
    ensures
        intt_spec(ntt_spec(u)) == u,
{
    lemma_ntt_layers_poly(u, 128);
    lemma_scale_one(ntt_spec(u), 1);
    lemma_intt_after_ntt_layers(u, 1, 128);
    assert(intt_layers(scale_spec(u, 256), 256) == scale_spec(u, 256));
    lemma_scale_scale(u, 256, N_INV as int);
    lemma_scale_one(u, 256 * N_INV as int);
}

/// The forward transform undoes the inverse transform.
pub proof fn lemma_ntt_intt(u: Seq<u32>)
    requires
        is_poly(u),
    ensures
        ntt_spec(intt_spec(u)) == u,
{
    lemma_intt_layers_linear(u, u, 0, 1);
    lemma_ntt_layers_linear(intt_layers(u, 1), intt_layers(u, 1), N_INV as int, 128);
    lemma_ntt_after_intt_layers(u, N_INV as int, 1);
    assert(256int / 1int == 256);
    lemma_scale_one(u, N_INV * 256int);
}

/// The transforms are additive and commute with scaling.
pub proof fn lemma_transforms_linear(a: Seq<u32>, b: Seq<u32>, c: int)
    requires
        a.len() == 256,
        b.len() == 256,
    ensures
        ntt_spec(poly_add_spec(a, b)) == poly_add_spec(ntt_spec(a), ntt_spec(b)),
        ntt_spec(poly_sub_spec(a, b)) == poly_sub_spec(ntt_spec(a), ntt_spec(b)),
        ntt_spec(scale_spec(a, c)) == scale_spec(ntt_spec(a), c),
        intt_spec(poly_add_spec(a, b)) == poly_add_spec(intt_spec(a), intt_spec(b)),
        intt_spec(poly_sub_spec(a, b)) == poly_sub_spec(intt_spec(a), intt_spec(b)),
{
    lemma_ntt_layers_linear(a, b, c, 128);
    lemma_intt_layers_linear(a, b, c, 1);
    lemma_intt_layers_linear(b, a, c, 1);
    lemma_scale_add(intt_layers(a, 1), intt_layers(b, 1), N_INV as int);
}

} // verus!
