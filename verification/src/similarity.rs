use vstd::prelude::*;

use crate::vector::spec_tdiv;
use crate::vector::spec_vec_in_range;
use crate::vector::tdiv_i128;
use crate::vector::DIM_LIMIT;

verus! {

/// The fixed-point scale: a similarity of `SIM_SCALE` stands for 1.0.
pub const SIM_SCALE: i64 = 1000;

// ---------------------------------------------------------------------------
// Integer square root
// ---------------------------------------------------------------------------

/// The integer square root: the largest `r` with `r * r <= n`.
pub open spec fn spec_isqrt(n: nat) -> nat
    decreases n,
{
    if n == 0 {
        0
    } else {
        let r = spec_isqrt((n - 1) as nat);
        if (r + 1) * (r + 1) <= n {
            r + 1
        } else {
            r
        }
    }
}

pub proof fn lemma_isqrt_bounds(n: nat)
    ensures
        spec_isqrt(n) * spec_isqrt(n) <= n,
        n < (spec_isqrt(n) + 1) * (spec_isqrt(n) + 1),
    decreases n,
{
    if n == 0 {
        assert(spec_isqrt(n) == 0);
        assert(spec_isqrt(n) * spec_isqrt(n) <= n && n < (spec_isqrt(n) + 1) * (spec_isqrt(n)
            + 1)) by (nonlinear_arith)
            requires
                n == 0nat,
                spec_isqrt(n) == 0nat,
        ;
    } else {
        lemma_isqrt_bounds((n - 1) as nat);
        let r = spec_isqrt((n - 1) as nat);
        let ri = r as int;
        let ni = n as int;
        if (r + 1) * (r + 1) <= n {
            assert(spec_isqrt(n) == r + 1);
            assert(spec_isqrt(n) * spec_isqrt(n) <= n);
            assert(ni < (ri + 2) * (ri + 2)) by (nonlinear_arith)
                requires
                    ri >= 0,
                    ni - 1 < (ri + 1) * (ri + 1),
            ;
            assert(n < (spec_isqrt(n) + 1) * (spec_isqrt(n) + 1));
        } else {
            assert(spec_isqrt(n) == r);
            assert(spec_isqrt(n) * spec_isqrt(n) <= n);
            assert(n < (spec_isqrt(n) + 1) * (spec_isqrt(n) + 1));
        }
    }
}

pub proof fn lemma_isqrt_unique(n: nat, r: nat)
    requires
        r * r <= n,
        n < (r + 1) * (r + 1),
    ensures
        r == spec_isqrt(n),
{
    lemma_isqrt_bounds(n);
    let s = spec_isqrt(n);
    if r < s {
        assert((r + 1) * (r + 1) <= s * s) by (nonlinear_arith)
            requires
                r + 1 <= s,
        ;
    }
    if s < r {
        assert((s + 1) * (s + 1) <= r * r) by (nonlinear_arith)
            requires
                s + 1 <= r,
        ;
    }
}

/// The integer square root, by binary search.
pub fn isqrt_u128(n: u128) -> (r: u128)
    requires
        n < (1u128 << 126u32),
    ensures
        r == spec_isqrt(n as nat),
        r * r <= n,
        n < (r + 1) * (r + 1),
{
    assert((1u128 << 126u32) == 0x4000_0000_0000_0000_0000_0000_0000_0000u128) by (bit_vector);
    assert((1u128 << 63u32) == 0x8000_0000_0000_0000u128) by (bit_vector);
    let mut lo: u128 = 0;
    let mut hi: u128 = 1u128 << 63u32;
    assert(hi * hi > n) by (nonlinear_arith)
        requires
            hi == 0x8000_0000_0000_0000u128,
            n < 0x4000_0000_0000_0000_0000_0000_0000_0000u128,
    ;
    while lo + 1 < hi
        invariant
            lo < hi <= 0x8000_0000_0000_0000u128,
            lo * lo <= n,
            n < hi * hi,
        decreases hi - lo,
    {
        let mid = lo + (hi - lo) / 2;
        assert(lo < mid < hi);
        assert(mid * mid < 0x4000_0000_0000_0000_0000_0000_0000_0000u128) by (nonlinear_arith)
            requires
                mid < 0x8000_0000_0000_0000u128,
        ;
        if mid * mid <= n {
            lo = mid;
        } else {
            hi = mid;
        }
    }
    proof {
        lemma_isqrt_unique(n as nat, lo as nat);
    }
    lo
}

// ---------------------------------------------------------------------------
// Cosine similarity
// ---------------------------------------------------------------------------

/// The dot product of two equal-length vectors.
pub open spec fn spec_dot(a: Seq<i64>, b: Seq<i64>) -> int
    decreases a.len(),
{
    if a.len() == 0 || b.len() == 0 {
        0
    } else {
        spec_dot(a.drop_last(), b.drop_last()) + (a.last() as int) * (b.last() as int)
    }
}

/// The all-zero vector.
pub open spec fn spec_zero_vec(v: Seq<i64>) -> bool {
    forall|k: int| 0 <= k < v.len() ==> #[trigger] v[k] == 0
}

pub open spec fn spec_clamp(x: int) -> int {
    if x > 1000 {
        1000
    } else if x < -1000 {
        -1000
    } else {
        x
    }
}

/// Cosine similarity in thousandths: `dot(a,b) * 1000` divided by the
/// integer square root of `dot(a,a) * dot(b,b)`, truncated toward zero;
/// zero when either vector has zero magnitude.
pub open spec fn spec_cosine(a: Seq<i64>, b: Seq<i64>) -> int {
    let na = spec_dot(a, a);
    let nb = spec_dot(b, b);
    if na == 0 || nb == 0 {
        0
    } else {
        spec_clamp(spec_tdiv(spec_dot(a, b) * 1000, spec_isqrt((na * nb) as nat) as int))
    }
}

pub proof fn lemma_dot_self_nonneg(v: Seq<i64>)
    ensures
        spec_dot(v, v) >= 0,
    decreases v.len(),
{
    if v.len() > 0 {
        lemma_dot_self_nonneg(v.drop_last());
        assert((v.last() as int) * (v.last() as int) >= 0) by (nonlinear_arith);
    }
}

proof fn lemma_dot_self_pos(v: Seq<i64>, k: int)
    requires
        0 <= k < v.len(),
        v[k] != 0,
    ensures
        spec_dot(v, v) > 0,
    decreases v.len(),
{
    lemma_dot_self_nonneg(v.drop_last());
    if k == v.len() - 1 {
        assert((v.last() as int) * (v.last() as int) > 0) by (nonlinear_arith)
            requires
                v.last() != 0,
        ;
    } else {
        lemma_dot_self_pos(v.drop_last(), k);
        assert((v.last() as int) * (v.last() as int) >= 0) by (nonlinear_arith);
    }
}

proof fn lemma_dot_zero_left(z: Seq<i64>, v: Seq<i64>)
    requires
        spec_zero_vec(z),
    ensures
        spec_dot(z, z) == 0,
        spec_dot(z, v) == 0,
        spec_dot(v, z) == 0,
    decreases z.len(), v.len(),
{
    if z.len() > 0 {
        assert(spec_zero_vec(z.drop_last()));
        if v.len() > 0 {
            lemma_dot_zero_left(z.drop_last(), v.drop_last());
        } else {
            lemma_dot_zero_left(z.drop_last(), v);
        }
        assert(z.last() == 0);
    }
}

/// Similarity identity: a vector with any nonzero component has cosine
/// similarity exactly 1.0 (one whole scale unit) with itself.
pub proof fn lemma_cosine_self_identity(v: Seq<i64>)
    requires
        !spec_zero_vec(v),
    ensures
        spec_cosine(v, v) == 1000,
{
    let k = choose|k: int| 0 <= k < v.len() && #[trigger] v[k] != 0;
    lemma_dot_self_pos(v, k);
    let n = spec_dot(v, v);
    assert(n * n <= n * n);
    assert(n * n < (n + 1) * (n + 1)) by (nonlinear_arith)
        requires
            n > 0,
    ;
    assert(n * n >= 0) by (nonlinear_arith);
    lemma_isqrt_unique((n * n) as nat, n as nat);
    assert(spec_isqrt((n * n) as nat) as int == n);
    assert(n * 1000 >= 0) by (nonlinear_arith)
        requires
            n > 0,
    ;
    assert((n * 1000) / n == 1000) by (nonlinear_arith)
        requires
            n > 0,
    ;
    assert(spec_tdiv(spec_dot(v, v) * 1000, n) == 1000);
}

/// A zero-magnitude vector has similarity 0 with everything.
pub proof fn lemma_cosine_zero(z: Seq<i64>, v: Seq<i64>)
    requires
        spec_zero_vec(z),
    ensures
        spec_cosine(z, v) == 0,
        spec_cosine(v, z) == 0,
{
    lemma_dot_zero_left(z, v);
}

/// Cosine similarity of two equal-length vectors whose components are in
/// range, in thousandths, clamped to `[-1000, 1000]`.
pub fn cosine_similarity(a: &Vec<i64>, b: &Vec<i64>) -> (r: i64)
    requires
        a@.len() == b@.len(),
        a@.len() <= DIM_LIMIT,
        spec_vec_in_range(a@),
        spec_vec_in_range(b@),
    ensures
        r as int == spec_cosine(a@, b@),
        -1000 <= r <= 1000,
{
    let n = a.len();
    let mut dot: i128 = 0;
    let mut na: i128 = 0;
    let mut nb: i128 = 0;
    let mut i: usize = 0;
    while i < n
        invariant
            n == a@.len() == b@.len(),
            n <= DIM_LIMIT,
            i <= n,
            spec_vec_in_range(a@),
            spec_vec_in_range(b@),
            dot == spec_dot(a@.take(i as int), b@.take(i as int)),
            na == spec_dot(a@.take(i as int), a@.take(i as int)),
            nb == spec_dot(b@.take(i as int), b@.take(i as int)),
            -0x10000000 * (i as int) <= dot <= 0x10000000 * (i as int),
            0 <= na <= 0x10000000 * (i as int),
            0 <= nb <= 0x10000000 * (i as int),
        decreases n - i,
    {
        let x = a[i] as i128;
        let y = b[i] as i128;
        proof {
            assert(a@.take(i + 1).drop_last() =~= a@.take(i as int));
            assert(b@.take(i + 1).drop_last() =~= b@.take(i as int));
            assert(-16384 <= x <= 16383 && -16384 <= y <= 16383);
            assert(-0x10000000 <= x * y <= 0x10000000) by (nonlinear_arith)
                requires
                    -16384 <= x <= 16383,
                    -16384 <= y <= 16383,
            ;
            assert(0 <= x * x <= 0x10000000) by (nonlinear_arith)
                requires
                    -16384 <= x <= 16383,
            ;
            assert(0 <= y * y <= 0x10000000) by (nonlinear_arith)
                requires
                    -16384 <= y <= 16383,
            ;
        }
        dot = dot + x * y;
        na = na + x * x;
        nb = nb + y * y;
        i = i + 1;
    }
    proof {
        assert(a@.take(n as int) =~= a@);
        assert(b@.take(n as int) =~= b@);
    }
    if na == 0 || nb == 0 {
        return 0;
    }
    proof {
        assert((1u128 << 126u32) == 0x4000_0000_0000_0000_0000_0000_0000_0000u128) by (bit_vector);
        assert(0 < na <= 0x4000000000000000int && 0 < nb <= 0x4000000000000000int);
        assert((na as u128) * (nb as u128) < 0x4000_0000_0000_0000_0000_0000_0000_0000u128
            && (na as u128) * (nb as u128) >= 1) by (nonlinear_arith)
            requires
                1 <= (na as u128) <= 0x4000000000000000u128,
                1 <= (nb as u128) <= 0x4000000000000000u128,
        ;
    }
    let p = (na as u128) * (nb as u128);
    let d = isqrt_u128(p);
    proof {
        if d == 0 {
            assert(p < (d + 1) * (d + 1));
            assert((d + 1) * (d + 1) == 1) by (nonlinear_arith)
                requires
                    d == 0u128,
            ;
            assert(false);
        }
        assert(d * d <= p < 0x4000_0000_0000_0000_0000_0000_0000_0000u128);
        assert(d < 0x8000_0000_0000_0000u128) by (nonlinear_arith)
            requires
                d * d < 0x4000_0000_0000_0000_0000_0000_0000_0000u128,
        ;
    }
    let num = dot * (SIM_SCALE as i128);
    let q = tdiv_i128(num, d as i128);
    let c = if q > SIM_SCALE as i128 {
        SIM_SCALE as i128
    } else if q < -(SIM_SCALE as i128) {
        -(SIM_SCALE as i128)
    } else {
        q
    };
    proof {
        assert(c == spec_clamp(spec_tdiv(spec_dot(a@, b@) * 1000, d as int)));
    }
    c as i64
}

} // verus!
