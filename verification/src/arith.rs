use vstd::prelude::*;
use crate::params::Q;
use crate::params::ml_dsa_44::GAMMA2;

verus! {

/// The representative of `r` modulo `m` that lies in (-m/2, m/2] ("mod ±").
pub open spec fn mod_pm(r: int, m: int) -> int {
    let r0 = r % m;
    if r0 > m / 2 {
        r0 - m
    } else {
        r0
    }
}

/// The representative in [-(q-1)/2, (q-1)/2] of a residue given in [0, q).
pub open spec fn centered(a: int) -> int {
    if a > (Q - 1) / 2 {
        a - Q
    } else {
        a
    }
}

/// Absolute value.
pub open spec fn abs(x: int) -> int {
    if x < 0 {
        -x
    } else {
        x
    }
}

/// The infinity norm |a mod± q| of one coefficient.
pub open spec fn coeff_norm(a: int) -> int {
    abs(centered(a))
}

/// Addition in Z_q of two canonical residues.
pub fn add_mod(a: u32, b: u32) -> (r: u32)
    requires
        a < Q,
        b < Q,
    ensures
        r == (a + b) % (Q as int),
{
    let s = a + b;
    if s >= Q {
        s - Q
    } else {
        s
    }
}

/// Subtraction in Z_q of two canonical residues.
pub fn sub_mod(a: u32, b: u32) -> (r: u32)
    requires
        a < Q,
        b < Q,
    ensures
        r == (a - b) % (Q as int),
{
    if a >= b {
        a - b
    } else {
        a + Q - b
    }
}

/// Multiplication in Z_q of any 32-bit value by a canonical residue.
pub fn mul_mod(a: u32, b: u32) -> (r: u32)
    requires
        b < Q,
    ensures
        r == (a * b) % (Q as int),
{
    let x: u64 = a as u64;
    let y: u64 = b as u64;
    assert(x * y < 0x1_0000_0000_0000_0000) by (nonlinear_arith)
        requires
            x < 0x1_0000_0000,
            y < 8380417,
    ;
    ((x * y) % (Q as u64)) as u32
}

/// (base - v) mod q for a canonical `base` and any 32-bit `v`.
pub fn sub_from_mod(base: u32, v: u32) -> (r: u32)
    requires
        base < Q,
    ensures
        r == (base - v) % (Q as int),
        r < Q,
{
    if v <= base {
        base - v
    } else {
        let e = (v - base) % Q;
        proof {
            vstd::arithmetic::div_mod::lemma_fundamental_div_mod((v - base) as int, Q as int);
            vstd::arithmetic::div_mod::lemma_mod_multiples_vanish(
                ((v - base) as int) / (Q as int) + 1,
                (Q - e) as int,
                Q as int,
            );
        }
        if e == 0 {
            0
        } else {
            Q - e
        }
    }
}

/// The canonical residue in [0, q) of a small signed integer.
pub fn from_signed(x: i32) -> (r: u32)
    requires
        -(Q as int) < x < Q,
    ensures
        r == (x as int) % (Q as int),
{
    if x < 0 {
        (x + Q as i32) as u32
    } else {
        x as u32
    }
}

/// The centered representative of a canonical residue, as a machine integer.
pub fn to_signed(a: u32) -> (r: i32)
    requires
        a < Q,
    ensures
        r == centered(a as int),
{
    if a > (Q - 1) / 2 {
        (a as i32) - (Q as i32)
    } else {
        a as i32
    }
}

/// Power2Round: r = r1 * 2^13 + r0 with r0 = r mod± 2^13, for r in [0, q).
pub open spec fn power2round_spec(r: int) -> (int, int) {
    let r0 = mod_pm(r, 8192);
    ((r - r0) / 8192, r0)
}

/// Splits a canonical residue into its high part and its low part, the low
/// part returned as a canonical residue.
pub fn power2round(r: u32) -> (res: (u32, u32))
    requires
        r < Q,
    ensures
        res.0 == power2round_spec(r as int).0,
        res.1 == power2round_spec(r as int).1 % (Q as int),
        res.0 < 1024,
{
    let r1 = (r + 4095) / 8192;
    let r0: i32 = (r as i32) - (r1 as i32) * 8192;
    (r1, from_signed(r0))
}

/// Decompose for 2 * gamma2 = (q - 1) / 44: r = r1 * 2 * gamma2 + r0,
/// with the special case r - r0 = q - 1 mapped to r1 = 0, r0 - 1.
pub open spec fn decompose_spec(r: int) -> (int, int) {
    let r0 = mod_pm(r, 2 * GAMMA2);
    if r - r0 == Q - 1 {
        (0, r0 - 1)
    } else {
        ((r - r0) / (2 * GAMMA2 as int), r0)
    }
}

/// Decompose of a canonical residue: the high part in [0, 43] and the signed low part.
pub fn decompose(r: u32) -> (res: (u32, i32))
    requires
        r < Q,
    ensures
        res.0 == decompose_spec(r as int).0,
        res.1 == decompose_spec(r as int).1,
        res.0 < 44,
        -(GAMMA2 as int) <= res.1 <= GAMMA2,
{
    let r1 = (r + (GAMMA2 - 1)) / (2 * GAMMA2);
    let r0: i32 = (r as i32) - (r1 as i32) * (2 * GAMMA2 as i32);
    if r1 == 44 {
        (0, r0 - 1)
    } else {
        (r1, r0)
    }
}

/// HighBits of a canonical residue.
pub open spec fn high_bits_spec(r: int) -> int {
    decompose_spec(r).0
}

/// LowBits of a canonical residue.
pub open spec fn low_bits_spec(r: int) -> int {
    decompose_spec(r).1
}

/// Whether a hint bit is needed for low part a0 (a canonical residue) and high part a1.
pub open spec fn make_hint_spec(a0: int, a1: int) -> bool {
    let c = centered(a0);
    c > GAMMA2 || c < -(GAMMA2 as int) || (c == -(GAMMA2 as int) && a1 != 0)
}

/// Computes the hint bit for low part `a0` and high part `a1`.
pub fn make_hint(a0: u32, a1: u32) -> (h: bool)
    requires
        a0 < Q,
    ensures
        h == make_hint_spec(a0 as int, a1 as int),
{
    let c = to_signed(a0);
    c > GAMMA2 as i32 || c < -(GAMMA2 as i32) || (c == -(GAMMA2 as i32) && a1 != 0)
}

/// UseHint: the high part of r, moved by one (modulo 44) when the hint is set.
pub open spec fn use_hint_spec(r: int, h: bool) -> int {
    let (r1, r0) = decompose_spec(r);
    if h && r0 > 0 {
        (r1 + 1) % 44
    } else if h && r0 <= 0 {
        (r1 - 1) % 44
    } else {
        r1
    }
}

/// Recovers the high part of r corrected by the hint bit `h`.
pub fn use_hint(r: u32, h: bool) -> (r1: u32)
    requires
        r < Q,
    ensures
        r1 == use_hint_spec(r as int, h),
        r1 < 44,
{
    let (a1, a0) = decompose(r);
    if !h {
        a1
    } else if a0 > 0 {
        if a1 == 43 {
            0
        } else {
            a1 + 1
        }
    } else {
        if a1 == 0 {
            43
        } else {
            a1 - 1
        }
    }
}

} // verus!
