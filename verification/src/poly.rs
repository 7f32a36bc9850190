use vstd::prelude::*;
use crate::params::Q;
use crate::arith::{
    add_mod, sub_mod, mul_mod, from_signed, to_signed, sub_from_mod, power2round, decompose,
    make_hint, use_hint, power2round_spec, decompose_spec, make_hint_spec, use_hint_spec,
    coeff_norm, centered,
};
use crate::ntt::is_poly;

verus! {

/// Coefficient-wise sum modulo q.
pub open spec fn poly_add_spec(a: Seq<u32>, b: Seq<u32>) -> Seq<u32> {
    Seq::new(256, |i: int| ((a[i] + b[i]) % (Q as int)) as u32)
}

/// Coefficient-wise difference modulo q.
pub open spec fn poly_sub_spec(a: Seq<u32>, b: Seq<u32>) -> Seq<u32> {
    Seq::new(256, |i: int| ((a[i] - b[i]) % (Q as int)) as u32)
}

/// Every coefficient multiplied by 2^13 modulo q.
pub open spec fn shiftl_spec(a: Seq<u32>) -> Seq<u32> {
    Seq::new(256, |i: int| ((a[i] * 8192) % (Q as int)) as u32)
}

/// High parts of Power2Round, coefficient-wise.
pub open spec fn p2r_high_spec(a: Seq<u32>) -> Seq<u32> {
    Seq::new(256, |i: int| power2round_spec(a[i] as int).0 as u32)
}

/// Low parts of Power2Round, coefficient-wise, as residues modulo q.
pub open spec fn p2r_low_spec(a: Seq<u32>) -> Seq<u32> {
    Seq::new(256, |i: int| (power2round_spec(a[i] as int).1 % (Q as int)) as u32)
}

/// High parts of Decompose, coefficient-wise.
pub open spec fn high_spec(a: Seq<u32>) -> Seq<u32> {
    Seq::new(256, |i: int| decompose_spec(a[i] as int).0 as u32)
}

/// Low parts of Decompose, coefficient-wise, as residues modulo q.
pub open spec fn low_spec(a: Seq<u32>) -> Seq<u32> {
    Seq::new(256, |i: int| (decompose_spec(a[i] as int).1 % (Q as int)) as u32)
}

/// Hint bits (0 or 1) for low parts `a0` and high parts `a1`.
pub open spec fn make_hint_poly_spec(a0: Seq<u32>, a1: Seq<u32>) -> Seq<u32> {
    Seq::new(256, |i: int| if make_hint_spec(a0[i] as int, a1[i] as int) { 1u32 } else { 0u32 })
}

/// High parts of `a` corrected by the hint `h` (nonzero meaning set), coefficient-wise.
pub open spec fn use_hint_poly_spec(a: Seq<u32>, h: Seq<u32>) -> Seq<u32> {
    Seq::new(256, |i: int| use_hint_spec(a[i] as int, h[i] != 0) as u32)
}

/// Whether some coefficient has norm at least `bound`.
pub open spec fn norm_ge_spec(a: Seq<u32>, bound: int) -> bool {
    exists|i: int| 0 <= i < 256 && coeff_norm(#[trigger] a[i] as int) >= bound
}

/// Number of nonzero coefficients among the first `n`.
pub open spec fn count_nonzero(a: Seq<u32>, n: nat) -> nat
    decreases n,
{
    if n == 0 {
        0
    } else {
        count_nonzero(a, (n - 1) as nat) + if a[n - 1] != 0 {
            1nat
        } else {
            0nat
        }
    }
}

/// Coefficient-wise map x -> (base - centered(x)), wrapped to 32 bits: the value
/// that BitPack stores for a coefficient in [-(2^b - 1 - base), base].
pub open spec fn offset_spec(a: Seq<u32>, base: int) -> Seq<u32> {
    Seq::new(256, |i: int| (base - centered(a[i] as int)) as u32)
}

/// Coefficient-wise map z -> (base - z) mod q, inverse of `offset_spec` on its range.
pub open spec fn unoffset_spec(raw: Seq<u32>, base: int) -> Seq<u32> {
    Seq::new(256, |i: int| ((base - raw[i]) % (Q as int)) as u32)
}

/// Coefficient-wise sum modulo q.
pub fn poly_add(a: &Vec<u32>, b: &Vec<u32>) -> (c: Vec<u32>)
    requires
        is_poly(a@),
        is_poly(b@),
    ensures
        c@ == poly_add_spec(a@, b@),
        is_poly(c@),
{
    let mut c: Vec<u32> = Vec::new();
    let mut i: usize = 0;
    while i < 256
        invariant
            is_poly(a@),
            is_poly(b@),
            i <= 256,
            c.len() == i,
            forall|j: int| 0 <= j < i ==> #[trigger] c@[j] == poly_add_spec(a@, b@)[j],
            forall|j: int| 0 <= j < i ==> #[trigger] c@[j] < Q,
        decreases 256 - i,
    {
        c.push(add_mod(a[i], b[i]));
        i += 1;
    }
    assert(c@ =~= poly_add_spec(a@, b@));
    c
}

/// Coefficient-wise difference modulo q.
pub fn poly_sub(a: &Vec<u32>, b: &Vec<u32>) -> (c: Vec<u32>)
    requires
        is_poly(a@),
        is_poly(b@),
    ensures
        c@ == poly_sub_spec(a@, b@),
        is_poly(c@),
{
    let mut c: Vec<u32> = Vec::new();
    let mut i: usize = 0;
    while i < 256
        invariant
            is_poly(a@),
            is_poly(b@),
            i <= 256,
            c.len() == i,
            forall|j: int| 0 <= j < i ==> #[trigger] c@[j] == poly_sub_spec(a@, b@)[j],
            forall|j: int| 0 <= j < i ==> #[trigger] c@[j] < Q,
        decreases 256 - i,
    {
        c.push(sub_mod(a[i], b[i]));
        i += 1;
    }
    assert(c@ =~= poly_sub_spec(a@, b@));
    c
}

/// Multiplies every coefficient by 2^13 modulo q.
pub fn poly_shiftl(a: &Vec<u32>) -> (c: Vec<u32>)
    requires
        is_poly(a@),
    ensures
        c@ == shiftl_spec(a@),
        is_poly(c@),
{
    let mut c: Vec<u32> = Vec::new();
    let mut i: usize = 0;
    while i < 256
        invariant
            is_poly(a@),
            i <= 256,
            c.len() == i,
            forall|j: int| 0 <= j < i ==> #[trigger] c@[j] == shiftl_spec(a@)[j],
            forall|j: int| 0 <= j < i ==> #[trigger] c@[j] < Q,
        decreases 256 - i,
    {
        c.push(mul_mod(8192, a[i]));
        i += 1;
    }
    assert(c@ =~= shiftl_spec(a@));
    c
}

/// Power2Round of every coefficient: (high parts, low parts modulo q).
pub fn poly_power2round(a: &Vec<u32>) -> (res: (Vec<u32>, Vec<u32>))
    requires
        is_poly(a@),
    ensures
        res.0@ == p2r_high_spec(a@),
        res.1@ == p2r_low_spec(a@),
        is_poly(res.0@),
        is_poly(res.1@),
{
    let mut hi: Vec<u32> = Vec::new();
    let mut lo: Vec<u32> = Vec::new();
    let mut i: usize = 0;
    while i < 256
        invariant
            is_poly(a@),
            i <= 256,
            hi.len() == i,
            lo.len() == i,
            forall|j: int| 0 <= j < i ==> #[trigger] hi@[j] == p2r_high_spec(a@)[j],
            forall|j: int| 0 <= j < i ==> #[trigger] lo@[j] == p2r_low_spec(a@)[j],
            forall|j: int| 0 <= j < i ==> #[trigger] hi@[j] < Q,
            forall|j: int| 0 <= j < i ==> #[trigger] lo@[j] < Q,
        decreases 256 - i,
    {
        let (h, l) = power2round(a[i]);
        hi.push(h);
        lo.push(l);
        i += 1;
    }
    assert(hi@ =~= p2r_high_spec(a@));
    assert(lo@ =~= p2r_low_spec(a@));
    (hi, lo)
}

/// Decompose of every coefficient: (high parts, low parts modulo q).
pub fn poly_decompose(a: &Vec<u32>) -> (res: (Vec<u32>, Vec<u32>))
    requires
        is_poly(a@),
    ensures
        res.0@ == high_spec(a@),
        res.1@ == low_spec(a@),
        is_poly(res.0@),
        is_poly(res.1@),
{
    let mut hi: Vec<u32> = Vec::new();
    let mut lo: Vec<u32> = Vec::new();
    let mut i: usize = 0;
    while i < 256
        invariant
            is_poly(a@),
            i <= 256,
            hi.len() == i,
            lo.len() == i,
            forall|j: int| 0 <= j < i ==> #[trigger] hi@[j] == high_spec(a@)[j],
            forall|j: int| 0 <= j < i ==> #[trigger] lo@[j] == low_spec(a@)[j],
            forall|j: int| 0 <= j < i ==> #[trigger] hi@[j] < Q,
            forall|j: int| 0 <= j < i ==> #[trigger] lo@[j] < Q,
        decreases 256 - i,
    {
        let (h, l) = decompose(a[i]);
        hi.push(h);
        lo.push(from_signed(l));
        i += 1;
    }
    assert(hi@ =~= high_spec(a@));
    assert(lo@ =~= low_spec(a@));
    (hi, lo)
}

/// Hint bits for low parts `a0` and high parts `a1`, with their number.
pub fn poly_make_hint(a0: &Vec<u32>, a1: &Vec<u32>) -> (res: (Vec<u32>, usize))
    requires
        is_poly(a0@),
        is_poly(a1@),
    ensures
        res.0@ == make_hint_poly_spec(a0@, a1@),
        is_poly(res.0@),
        res.1 == count_nonzero(res.0@, 256),
{
    let mut h: Vec<u32> = Vec::new();
    let mut n: usize = 0;
    let mut i: usize = 0;
    while i < 256
        invariant
            is_poly(a0@),
            is_poly(a1@),
            i <= 256,
            h.len() == i,
            n <= i,
            n == count_nonzero(h@, i as nat),
            forall|j: int| 0 <= j < i ==> #[trigger] h@[j] == make_hint_poly_spec(a0@, a1@)[j],
            forall|j: int| 0 <= j < i ==> #[trigger] h@[j] < 2,
        decreases 256 - i,
    {
        let b = make_hint(a0[i], a1[i]);
        let ghost h0 = h@;
        if b {
            h.push(1);
            n += 1;
        } else {
            h.push(0);
        }
        proof {
            lemma_count_prefix(h0, h@, i as nat);
        }
        i += 1;
    }
    assert(h@ =~= make_hint_poly_spec(a0@, a1@));
    (h, n)
}

/// Counting over a prefix only looks at the prefix.
pub proof fn lemma_count_prefix(a: Seq<u32>, b: Seq<u32>, n: nat)
    requires
        n <= a.len(),
        n <= b.len(),
        forall|j: int| 0 <= j < n ==> a[j] == b[j],
    ensures
        count_nonzero(a, n) == count_nonzero(b, n),
    decreases n,
{
    if n > 0 {
        lemma_count_prefix(a, b, (n - 1) as nat);
    }
}

/// High parts of `a` corrected by the hint `h`.
pub fn poly_use_hint(a: &Vec<u32>, h: &Vec<u32>) -> (c: Vec<u32>)
    requires
        is_poly(a@),
        h@.len() == 256,
    ensures
        c@ == use_hint_poly_spec(a@, h@),
        is_poly(c@),
{
    let mut c: Vec<u32> = Vec::new();
    let mut i: usize = 0;
    while i < 256
        invariant
            is_poly(a@),
            h@.len() == 256,
            i <= 256,
            c.len() == i,
            forall|j: int| 0 <= j < i ==> #[trigger] c@[j] == use_hint_poly_spec(a@, h@)[j],
            forall|j: int| 0 <= j < i ==> #[trigger] c@[j] < Q,
        decreases 256 - i,
    {
        c.push(use_hint(a[i], h[i] != 0));
        i += 1;
    }
    assert(c@ =~= use_hint_poly_spec(a@, h@));
    c
}

/// Whether some coefficient of `a` has norm at least `bound`.
pub fn poly_chknorm(a: &Vec<u32>, bound: u32) -> (r: bool)
    requires
        is_poly(a@),
    ensures
        r == norm_ge_spec(a@, bound as int),
{
    let mut i: usize = 0;
    while i < 256
        invariant
            is_poly(a@),
            i <= 256,
            forall|j: int| 0 <= j < i ==> coeff_norm(#[trigger] a@[j] as int) < bound,
        decreases 256 - i,
    {
        let c = to_signed(a[i]);
        let m: i32 = if c < 0 {
            -c
        } else {
            c
        };
        if (m as u32) >= bound {
            assert(coeff_norm(a@[i as int] as int) >= bound);
            return true;
        }
        i += 1;
    }
    false
}

/// The BitPack values base - centered(x) of a polynomial.
pub fn poly_offset(a: &Vec<u32>, base: u32) -> (c: Vec<u32>)
    requires
        is_poly(a@),
        base < Q,
    ensures
        c@ == offset_spec(a@, base as int),
{
    let mut c: Vec<u32> = Vec::new();
    let mut i: usize = 0;
    while i < 256
        invariant
            is_poly(a@),
            base < Q,
            i <= 256,
            c.len() == i,
            forall|j: int| 0 <= j < i ==> #[trigger] c@[j] == offset_spec(a@, base as int)[j],
        decreases 256 - i,
    {
        let v: i32 = (base as i32) - to_signed(a[i]);
        c.push(v as u32);
        i += 1;
    }
    assert(c@ =~= offset_spec(a@, base as int));
    c
}

/// The residues (base - z) mod q of unpacked BitPack values z.
pub fn poly_unoffset(raw: &Vec<u32>, base: u32) -> (c: Vec<u32>)
    requires
        raw@.len() == 256,
        base < Q,
    ensures
        c@ == unoffset_spec(raw@, base as int),
        is_poly(c@),
{
    let mut c: Vec<u32> = Vec::new();
    let mut i: usize = 0;
    while i < 256
        invariant
            raw@.len() == 256,
            base < Q,
            i <= 256,
            c.len() == i,
            forall|j: int| 0 <= j < i ==> #[trigger] c@[j] == unoffset_spec(raw@, base as int)[j],
            forall|j: int| 0 <= j < i ==> #[trigger] c@[j] < Q,
        decreases 256 - i,
    {
        c.push(sub_from_mod(base, raw[i]));
        i += 1;
    }
    assert(c@ =~= unoffset_spec(raw@, base as int));
    c
}

} // verus!
