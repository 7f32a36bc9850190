use vstd::prelude::*;
use crate::ntt::{is_poly, ntt, intt, pointwise, ntt_spec, intt_spec, pointwise_spec};
use crate::poly::{
    poly_add, poly_sub, poly_shiftl, poly_power2round, poly_decompose, poly_make_hint,
    poly_use_hint, poly_chknorm, poly_add_spec, poly_sub_spec, shiftl_spec, p2r_high_spec,
    p2r_low_spec, high_spec, low_spec, make_hint_poly_spec, use_hint_poly_spec, norm_ge_spec,
    count_nonzero,
};
use crate::sample::zero_poly;

verus! {

/// The coefficient sequences of a vector of polynomials.
pub open spec fn pv(v: Seq<Vec<u32>>) -> Seq<Seq<u32>> {
    Seq::new(v.len(), |i: int| v[i]@)
}

/// A vector of `n` polynomials with canonical coefficients.
pub open spec fn is_polyvec(v: Seq<Seq<u32>>, n: int) -> bool {
    v.len() == n && forall|i: int| 0 <= i < n ==> #[trigger] is_poly(v[i])
}

/// The coefficient sequences of a matrix of polynomials.
pub open spec fn pm(m: Seq<Vec<Vec<u32>>>) -> Seq<Seq<Seq<u32>>> {
    Seq::new(m.len(), |r: int| pv(m[r]@))
}

/// Sum over s < n of row[s] * v[s] in the NTT domain.
pub open spec fn dot_spec(row: Seq<Seq<u32>>, v: Seq<Seq<u32>>, n: nat) -> Seq<u32>
    decreases n,
{
    if n == 0 {
        zero_poly()
    } else {
        poly_add_spec(dot_spec(row, v, (n - 1) as nat), pointwise_spec(row[n - 1], v[n - 1]))
    }
}

/// Matrix-vector product in the NTT domain.
pub open spec fn mat_vec_spec(m: Seq<Seq<Seq<u32>>>, v: Seq<Seq<u32>>) -> Seq<Seq<u32>> {
    Seq::new(m.len(), |r: int| dot_spec(m[r], v, v.len()))
}

/// Total number of nonzero coefficients of the first `n` polynomials.
pub open spec fn vec_count(v: Seq<Seq<u32>>, n: nat) -> nat
    decreases n,
{
    if n == 0 {
        0
    } else {
        vec_count(v, (n - 1) as nat) + count_nonzero(v[n - 1], 256)
    }
}

/// Whether some coefficient of some polynomial has norm at least `bound`.
pub open spec fn vec_norm_ge(v: Seq<Seq<u32>>, bound: int) -> bool {
    exists|i: int| 0 <= i < v.len() && norm_ge_spec(#[trigger] v[i], bound)
}

/// Forward NTT of every polynomial.
pub open spec fn vec_ntt_spec(a: Seq<Seq<u32>>) -> Seq<Seq<u32>> {
    Seq::new(a.len(), |i: int| ntt_spec(a[i]))
}

/// Forward NTT of every polynomial.
pub fn vec_ntt(a: &Vec<Vec<u32>>) -> (c: Vec<Vec<u32>>)
    requires
        is_polyvec(pv(a@), a@.len() as int),
    ensures
        pv(c@) == vec_ntt_spec(pv(a@)),
        is_polyvec(pv(c@), a@.len() as int),
{
    let mut c: Vec<Vec<u32>> = Vec::new();
    let mut i: usize = 0;
    while i < a.len()
        invariant
            is_polyvec(pv(a@), a@.len() as int),
            i <= a@.len(),
            c@.len() == i,
            forall|j: int| 0 <= j < i ==> #[trigger] c@[j]@ == vec_ntt_spec(pv(a@))[j],
            forall|j: int| 0 <= j < i ==> is_poly(#[trigger] c@[j]@),
        decreases a@.len() - i,
    {
        assert(is_poly(pv(a@)[i as int]));
        let mut p = a[i].clone();
        assert(p@ =~= a@[i as int]@);
        ntt(&mut p);
        c.push(p);
        i += 1;
    }
    assert(pv(c@) =~= vec_ntt_spec(pv(a@)));
    c
}

/// Inverse NTT of every polynomial.
pub open spec fn vec_intt_spec(a: Seq<Seq<u32>>) -> Seq<Seq<u32>> {
    Seq::new(a.len(), |i: int| intt_spec(a[i]))
}

/// Inverse NTT of every polynomial.
pub fn vec_intt(a: &Vec<Vec<u32>>) -> (c: Vec<Vec<u32>>)
    requires
        is_polyvec(pv(a@), a@.len() as int),
    ensures
        pv(c@) == vec_intt_spec(pv(a@)),
        is_polyvec(pv(c@), a@.len() as int),
{
    let mut c: Vec<Vec<u32>> = Vec::new();
    let mut i: usize = 0;
    while i < a.len()
        invariant
            is_polyvec(pv(a@), a@.len() as int),
            i <= a@.len(),
            c@.len() == i,
            forall|j: int| 0 <= j < i ==> #[trigger] c@[j]@ == vec_intt_spec(pv(a@))[j],
            forall|j: int| 0 <= j < i ==> is_poly(#[trigger] c@[j]@),
        decreases a@.len() - i,
    {
        assert(is_poly(pv(a@)[i as int]));
        let mut p = a[i].clone();
        assert(p@ =~= a@[i as int]@);
        intt(&mut p);
        c.push(p);
        i += 1;
    }
    assert(pv(c@) =~= vec_intt_spec(pv(a@)));
    c
}

/// Multiplication of every coefficient by 2^13.
pub open spec fn vec_shiftl_spec(a: Seq<Seq<u32>>) -> Seq<Seq<u32>> {
    Seq::new(a.len(), |i: int| shiftl_spec(a[i]))
}

/// Multiplication of every coefficient by 2^13.
pub fn vec_shiftl(a: &Vec<Vec<u32>>) -> (c: Vec<Vec<u32>>)
    requires
        is_polyvec(pv(a@), a@.len() as int),
    ensures
        pv(c@) == vec_shiftl_spec(pv(a@)),
        is_polyvec(pv(c@), a@.len() as int),
{
    let mut c: Vec<Vec<u32>> = Vec::new();
    let mut i: usize = 0;
    while i < a.len()
        invariant
            is_polyvec(pv(a@), a@.len() as int),
            i <= a@.len(),
            c@.len() == i,
            forall|j: int| 0 <= j < i ==> #[trigger] c@[j]@ == vec_shiftl_spec(pv(a@))[j],
            forall|j: int| 0 <= j < i ==> is_poly(#[trigger] c@[j]@),
        decreases a@.len() - i,
    {
        assert(is_poly(pv(a@)[i as int]));
        let p = poly_shiftl(&a[i]);
        c.push(p);
        i += 1;
    }
    assert(pv(c@) =~= vec_shiftl_spec(pv(a@)));
    c
}

/// Polynomial-wise sum.
pub open spec fn vec_add_spec(a: Seq<Seq<u32>>, b: Seq<Seq<u32>>) -> Seq<Seq<u32>> {
    Seq::new(a.len(), |i: int| poly_add_spec(a[i], b[i]))
}

/// Polynomial-wise sum.
pub fn vec_add(a: &Vec<Vec<u32>>, b: &Vec<Vec<u32>>) -> (c: Vec<Vec<u32>>)
    requires
        is_polyvec(pv(a@), a@.len() as int),
        is_polyvec(pv(b@), a@.len() as int),
    ensures
        pv(c@) == vec_add_spec(pv(a@), pv(b@)),
        is_polyvec(pv(c@), a@.len() as int),
{
    let mut c: Vec<Vec<u32>> = Vec::new();
    let mut i: usize = 0;
    while i < a.len()
        invariant
            is_polyvec(pv(a@), a@.len() as int),
            is_polyvec(pv(b@), a@.len() as int),
            i <= a@.len(),
            c@.len() == i,
            forall|j: int| 0 <= j < i ==> #[trigger] c@[j]@ == vec_add_spec(pv(a@), pv(b@))[j],
            forall|j: int| 0 <= j < i ==> is_poly(#[trigger] c@[j]@),
        decreases a@.len() - i,
    {
        assert(is_poly(pv(a@)[i as int]));
        assert(is_poly(pv(b@)[i as int]));
        let p = poly_add(&a[i], &b[i]);
        c.push(p);
        i += 1;
    }
    assert(pv(c@) =~= vec_add_spec(pv(a@), pv(b@)));
    c
}

/// Polynomial-wise difference.
pub open spec fn vec_sub_spec(a: Seq<Seq<u32>>, b: Seq<Seq<u32>>) -> Seq<Seq<u32>> {
    Seq::new(a.len(), |i: int| poly_sub_spec(a[i], b[i]))
}

/// Polynomial-wise difference.
pub fn vec_sub(a: &Vec<Vec<u32>>, b: &Vec<Vec<u32>>) -> (c: Vec<Vec<u32>>)
    requires
        is_polyvec(pv(a@), a@.len() as int),
        is_polyvec(pv(b@), a@.len() as int),
    ensures
        pv(c@) == vec_sub_spec(pv(a@), pv(b@)),
        is_polyvec(pv(c@), a@.len() as int),
{
    let mut c: Vec<Vec<u32>> = Vec::new();
    let mut i: usize = 0;
    while i < a.len()
        invariant
            is_polyvec(pv(a@), a@.len() as int),
            is_polyvec(pv(b@), a@.len() as int),
            i <= a@.len(),
            c@.len() == i,
            forall|j: int| 0 <= j < i ==> #[trigger] c@[j]@ == vec_sub_spec(pv(a@), pv(b@))[j],
            forall|j: int| 0 <= j < i ==> is_poly(#[trigger] c@[j]@),
        decreases a@.len() - i,
    {
        assert(is_poly(pv(a@)[i as int]));
        assert(is_poly(pv(b@)[i as int]));
        let p = poly_sub(&a[i], &b[i]);
        c.push(p);
        i += 1;
    }
    assert(pv(c@) =~= vec_sub_spec(pv(a@), pv(b@)));
    c
}

/// High parts corrected by the hints, polynomial-wise.
pub open spec fn vec_use_hint_spec(a: Seq<Seq<u32>>, b: Seq<Seq<u32>>) -> Seq<Seq<u32>> {
    Seq::new(a.len(), |i: int| use_hint_poly_spec(a[i], b[i]))
}

/// High parts corrected by the hints, polynomial-wise.
pub fn vec_use_hint(a: &Vec<Vec<u32>>, b: &Vec<Vec<u32>>) -> (c: Vec<Vec<u32>>)
    requires
        is_polyvec(pv(a@), a@.len() as int),
        is_polyvec(pv(b@), a@.len() as int),
    ensures
        pv(c@) == vec_use_hint_spec(pv(a@), pv(b@)),
        is_polyvec(pv(c@), a@.len() as int),
{
    let mut c: Vec<Vec<u32>> = Vec::new();
    let mut i: usize = 0;
    while i < a.len()
        invariant
            is_polyvec(pv(a@), a@.len() as int),
            is_polyvec(pv(b@), a@.len() as int),
            i <= a@.len(),
            c@.len() == i,
            forall|j: int| 0 <= j < i ==> #[trigger] c@[j]@ == vec_use_hint_spec(pv(a@), pv(b@))[j],
            forall|j: int| 0 <= j < i ==> is_poly(#[trigger] c@[j]@),
        decreases a@.len() - i,
    {
        assert(is_poly(pv(a@)[i as int]));
        assert(is_poly(pv(b@)[i as int]));
        let p = poly_use_hint(&a[i], &b[i]);
        c.push(p);
        i += 1;
    }
    assert(pv(c@) =~= vec_use_hint_spec(pv(a@), pv(b@)));
    c
}

/// Product of one polynomial with every polynomial of a vector, in the NTT domain.
pub open spec fn vec_scale_spec(c: Seq<u32>, v: Seq<Seq<u32>>) -> Seq<Seq<u32>> {
    Seq::new(v.len(), |i: int| pointwise_spec(c, v[i]))
}

/// Product of one polynomial with every polynomial of a vector, in the NTT domain.
pub fn vec_scale(c: &Vec<u32>, v: &Vec<Vec<u32>>) -> (r: Vec<Vec<u32>>)
    requires
        is_poly(c@),
        is_polyvec(pv(v@), v@.len() as int),
    ensures
        pv(r@) == vec_scale_spec(c@, pv(v@)),
        is_polyvec(pv(r@), v@.len() as int),
{
    let mut r: Vec<Vec<u32>> = Vec::new();
    let mut i: usize = 0;
    while i < v.len()
        invariant
            is_poly(c@),
            is_polyvec(pv(v@), v@.len() as int),
            i <= v@.len(),
            r@.len() == i,
            forall|j: int| 0 <= j < i ==> #[trigger] r@[j]@ == vec_scale_spec(c@, pv(v@))[j],
            forall|j: int| 0 <= j < i ==> is_poly(#[trigger] r@[j]@),
        decreases v@.len() - i,
    {
        assert(is_poly(pv(v@)[i as int]));
        let p = pointwise(c, &v[i]);
        r.push(p);
        i += 1;
    }
    assert(pv(r@) =~= vec_scale_spec(c@, pv(v@)));
    r
}

/// Sum over s of row[s] * v[s] in the NTT domain.
pub fn dot(row: &Vec<Vec<u32>>, v: &Vec<Vec<u32>>) -> (r: Vec<u32>)
    requires
        is_polyvec(pv(row@), v@.len() as int),
        is_polyvec(pv(v@), v@.len() as int),
    ensures
        r@ == dot_spec(pv(row@), pv(v@), v@.len() as nat),
        is_poly(r@),
{
    let mut acc: Vec<u32> = vec![0u32; 256];
    assert(acc@ =~= zero_poly());
    let mut s: usize = 0;
    while s < v.len()
        invariant
            is_polyvec(pv(row@), v@.len() as int),
            is_polyvec(pv(v@), v@.len() as int),
            s <= v@.len(),
            acc@ == dot_spec(pv(row@), pv(v@), s as nat),
            is_poly(acc@),
        decreases v@.len() - s,
    {
        assert(is_poly(pv(row@)[s as int]));
        assert(is_poly(pv(v@)[s as int]));
        let t = pointwise(&row[s], &v[s]);
        acc = poly_add(&acc, &t);
        s += 1;
    }
    acc
}

/// Matrix-vector product in the NTT domain.
pub fn mat_vec(m: &Vec<Vec<Vec<u32>>>, v: &Vec<Vec<u32>>) -> (r: Vec<Vec<u32>>)
    requires
        forall|i: int| 0 <= i < m@.len() ==> is_polyvec(#[trigger] pm(m@)[i], v@.len() as int),
        is_polyvec(pv(v@), v@.len() as int),
    ensures
        pv(r@) == mat_vec_spec(pm(m@), pv(v@)),
        is_polyvec(pv(r@), m@.len() as int),
{
    let mut r: Vec<Vec<u32>> = Vec::new();
    let mut i: usize = 0;
    while i < m.len()
        invariant
            forall|k: int| 0 <= k < m@.len() ==> is_polyvec(#[trigger] pm(m@)[k], v@.len() as int),
            is_polyvec(pv(v@), v@.len() as int),
            i <= m@.len(),
            r@.len() == i,
            forall|j: int| 0 <= j < i ==> #[trigger] r@[j]@ == mat_vec_spec(pm(m@), pv(v@))[j],
            forall|j: int| 0 <= j < i ==> is_poly(#[trigger] r@[j]@),
        decreases m@.len() - i,
    {
        assert(is_polyvec(pm(m@)[i as int], v@.len() as int));
        assert(pm(m@)[i as int] == pv(m@[i as int]@));
        let p = dot(&m[i], v);
        r.push(p);
        i += 1;
    }
    assert(pv(r@) =~= mat_vec_spec(pm(m@), pv(v@)));
    r
}

/// Power2Round of every coefficient: (high parts, low parts modulo q).
pub fn vec_power2round(a: &Vec<Vec<u32>>) -> (res: (Vec<Vec<u32>>, Vec<Vec<u32>>))
    requires
        is_polyvec(pv(a@), a@.len() as int),
    ensures
        pv(res.0@) == Seq::new(a@.len(), |i: int| p2r_high_spec(a@[i]@)),
        pv(res.1@) == Seq::new(a@.len(), |i: int| p2r_low_spec(a@[i]@)),
        is_polyvec(pv(res.0@), a@.len() as int),
        is_polyvec(pv(res.1@), a@.len() as int),
{
    let mut hi: Vec<Vec<u32>> = Vec::new();
    let mut lo: Vec<Vec<u32>> = Vec::new();
    let mut i: usize = 0;
    while i < a.len()
        invariant
            is_polyvec(pv(a@), a@.len() as int),
            i <= a@.len(),
            hi@.len() == i,
            lo@.len() == i,
            forall|j: int| 0 <= j < i ==> #[trigger] hi@[j]@ == p2r_high_spec(a@[j]@),
            forall|j: int| 0 <= j < i ==> #[trigger] lo@[j]@ == p2r_low_spec(a@[j]@),
            forall|j: int| 0 <= j < i ==> is_poly(#[trigger] hi@[j]@),
            forall|j: int| 0 <= j < i ==> is_poly(#[trigger] lo@[j]@),
        decreases a@.len() - i,
    {
        assert(is_poly(pv(a@)[i as int]));
        let (h, l) = poly_power2round(&a[i]);
        hi.push(h);
        lo.push(l);
        i += 1;
    }
    assert(pv(hi@) =~= Seq::new(a@.len(), |i: int| p2r_high_spec(a@[i]@)));
    assert(pv(lo@) =~= Seq::new(a@.len(), |i: int| p2r_low_spec(a@[i]@)));
    (hi, lo)
}

/// Decompose of every coefficient: (high parts, low parts modulo q).
pub fn vec_decompose(a: &Vec<Vec<u32>>) -> (res: (Vec<Vec<u32>>, Vec<Vec<u32>>))
    requires
        is_polyvec(pv(a@), a@.len() as int),
    ensures
        pv(res.0@) == Seq::new(a@.len(), |i: int| high_spec(a@[i]@)),
        pv(res.1@) == Seq::new(a@.len(), |i: int| low_spec(a@[i]@)),
        is_polyvec(pv(res.0@), a@.len() as int),
        is_polyvec(pv(res.1@), a@.len() as int),
{
    let mut hi: Vec<Vec<u32>> = Vec::new();
    let mut lo: Vec<Vec<u32>> = Vec::new();
    let mut i: usize = 0;
    while i < a.len()
        invariant
            is_polyvec(pv(a@), a@.len() as int),
            i <= a@.len(),
            hi@.len() == i,
            lo@.len() == i,
            forall|j: int| 0 <= j < i ==> #[trigger] hi@[j]@ == high_spec(a@[j]@),
            forall|j: int| 0 <= j < i ==> #[trigger] lo@[j]@ == low_spec(a@[j]@),
            forall|j: int| 0 <= j < i ==> is_poly(#[trigger] hi@[j]@),
            forall|j: int| 0 <= j < i ==> is_poly(#[trigger] lo@[j]@),
        decreases a@.len() - i,
    {
        assert(is_poly(pv(a@)[i as int]));
        let (h, l) = poly_decompose(&a[i]);
        hi.push(h);
        lo.push(l);
        i += 1;
    }
    assert(pv(hi@) =~= Seq::new(a@.len(), |i: int| high_spec(a@[i]@)));
    assert(pv(lo@) =~= Seq::new(a@.len(), |i: int| low_spec(a@[i]@)));
    (hi, lo)
}

/// Hint bits for every polynomial, with their total number.
pub fn vec_make_hint(a0: &Vec<Vec<u32>>, a1: &Vec<Vec<u32>>) -> (res: (Vec<Vec<u32>>, usize))
    requires
        is_polyvec(pv(a0@), a0@.len() as int),
        is_polyvec(pv(a1@), a0@.len() as int),
        a0@.len() <= 16,
    ensures
        pv(res.0@) == Seq::new(a0@.len(), |i: int| make_hint_poly_spec(a0@[i]@, a1@[i]@)),
        is_polyvec(pv(res.0@), a0@.len() as int),
        res.1 == vec_count(pv(res.0@), a0@.len() as nat),
{
    let mut h: Vec<Vec<u32>> = Vec::new();
    let mut n: usize = 0;
    let mut i: usize = 0;
    while i < a0.len()
        invariant
            is_polyvec(pv(a0@), a0@.len() as int),
            is_polyvec(pv(a1@), a0@.len() as int),
            a0@.len() <= 16,
            i <= a0@.len(),
            h@.len() == i,
            n <= 256 * i,
            n == vec_count(pv(h@), i as nat),
            forall|j: int| 0 <= j < i ==> #[trigger] h@[j]@ == make_hint_poly_spec(a0@[j]@, a1@[j]@),
            forall|j: int| 0 <= j < i ==> is_poly(#[trigger] h@[j]@),
        decreases a0@.len() - i,
    {
        assert(is_poly(pv(a0@)[i as int]));
        assert(is_poly(pv(a1@)[i as int]));
        let (p, c) = poly_make_hint(&a0[i], &a1[i]);
        proof {
            lemma_count_le(p@, 256);
        }
        let ghost h0 = pv(h@);
        h.push(p);
        proof {
            lemma_vec_count_prefix(h0, pv(h@), i as nat);
        }
        n = n + c;
        i += 1;
    }
    assert(pv(h@) =~= Seq::new(a0@.len(), |i: int| make_hint_poly_spec(a0@[i]@, a1@[i]@)));
    (h, n)
}

/// A count of nonzero coefficients is at most the number counted.
pub proof fn lemma_count_le(a: Seq<u32>, n: nat)
    ensures
        count_nonzero(a, n) <= n,
    decreases n,
{
    if n > 0 {
        lemma_count_le(a, (n - 1) as nat);
    }
}

/// Counting over the first polynomials only looks at them.
pub proof fn lemma_vec_count_prefix(a: Seq<Seq<u32>>, b: Seq<Seq<u32>>, n: nat)
    requires
        n <= a.len(),
        n <= b.len(),
        forall|j: int| 0 <= j < n ==> a[j] == b[j],
    ensures
        vec_count(a, n) == vec_count(b, n),
    decreases n,
{
    if n > 0 {
        lemma_vec_count_prefix(a, b, (n - 1) as nat);
    }
}

/// Whether some coefficient of some polynomial has norm at least `bound`.
pub fn vec_chknorm(v: &Vec<Vec<u32>>, bound: u32) -> (r: bool)
    requires
        is_polyvec(pv(v@), v@.len() as int),
    ensures
        r == vec_norm_ge(pv(v@), bound as int),
{
    let mut i: usize = 0;
    while i < v.len()
        invariant
            is_polyvec(pv(v@), v@.len() as int),
            i <= v@.len(),
            forall|j: int| 0 <= j < i ==> !norm_ge_spec(#[trigger] pv(v@)[j], bound as int),
        decreases v@.len() - i,
    {
        assert(is_poly(pv(v@)[i as int]));
        if poly_chknorm(&v[i], bound) {
            assert(norm_ge_spec(pv(v@)[i as int], bound as int));
            return true;
        }
        i += 1;
    }
    false
}

} // verus!
