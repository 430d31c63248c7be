use vstd::prelude::*;

use crate::normalize::spec_str_views;
use crate::normalize::spec_tokens;
use crate::normalize::tokenize;
use crate::text::to_chars;

verus! {

/// Largest admissible vector dimension.  It keeps every intermediate
/// product of the similarity computation inside 128-bit integers.
pub const DIM_LIMIT: usize = 0x4000_0000;

/// Vector components lie in `[-COMP_BOUND, COMP_BOUND - 1]`.
pub const COMP_BOUND: i64 = 16384;

// ---------------------------------------------------------------------------
// The deterministic pseudo-embedding
// ---------------------------------------------------------------------------

/// One FNV-1a step: fold a character's code point into the accumulator.
pub open spec fn spec_fnv_step(h: u32, c: char) -> u32 {
    vstd::wrapping::u32_specs::wrapping_mul(h ^ (c as u32), 16777619)
}

/// FNV-1a over the code points of a token, left to right.
pub open spec fn spec_fnv1a(s: Seq<char>) -> u32
    decreases s.len(),
{
    if s.len() == 0 {
        2166136261u32
    } else {
        spec_fnv_step(spec_fnv1a(s.drop_last()), s.last())
    }
}

/// One xorshift round on 32 bits.
pub open spec fn spec_xorshift(x: u32) -> u32 {
    let a = x ^ (x << 13u32);
    let b = a ^ (a >> 17u32);
    b ^ (b << 5u32)
}

/// The generator state that produces draw `k`: the seed advanced by
/// `k + 1` double rounds.
pub open spec fn spec_state(seed: u32, k: nat) -> u32
    decreases k,
{
    if k == 0 {
        spec_xorshift(spec_xorshift(seed))
    } else {
        spec_xorshift(spec_xorshift(spec_state(seed, (k - 1) as nat)))
    }
}

/// Maps one raw draw to a component: 15 bits, centered on zero.
pub open spec fn spec_comp(x: u32) -> i64 {
    ((((x >> 10u32) & 0x7fffu32) as int) - 16384) as i64
}

/// The word vector of a token: `dim` successive draws seeded by the
/// token's hash.
pub open spec fn spec_word_vec(tok: Seq<char>, dim: nat) -> Seq<i64> {
    Seq::new(dim, |k: int| spec_comp(spec_state(spec_fnv1a(tok), k as nat)))
}

/// Every component lies in `[-COMP_BOUND, COMP_BOUND - 1]`.
pub open spec fn spec_vec_in_range(v: Seq<i64>) -> bool {
    forall|k: int| 0 <= k < v.len() ==> -16384 <= #[trigger] v[k] <= 16383
}

proof fn lemma_comp_range(x: u32)
    ensures
        -16384 <= spec_comp(x) <= 16383,
{
    assert(((x >> 10u32) & 0x7fffu32) <= 0x7fff) by (bit_vector);
}

pub proof fn lemma_word_vec_in_range(tok: Seq<char>, dim: nat)
    ensures
        spec_word_vec(tok, dim).len() == dim,
        spec_vec_in_range(spec_word_vec(tok, dim)),
{
    assert forall|k: int| 0 <= k < dim implies -16384 <= #[trigger] spec_word_vec(tok, dim)[k]
        <= 16383 by {
        lemma_comp_range(spec_state(spec_fnv1a(tok), k as nat));
    }
}

// ---------------------------------------------------------------------------
// Sentence vectors
// ---------------------------------------------------------------------------

/// Truncating division, rounding toward zero, for a positive divisor.
pub open spec fn spec_tdiv(a: int, b: int) -> int {
    if a >= 0 {
        a / b
    } else {
        -((-a) / b)
    }
}

/// The elementwise sum of the word vectors of `toks`.
pub open spec fn spec_vec_sum(toks: Seq<Seq<char>>, dim: nat) -> Seq<int>
    decreases toks.len(),
{
    if toks.len() == 0 {
        Seq::new(dim, |k: int| 0int)
    } else {
        let rest = spec_vec_sum(toks.drop_last(), dim);
        let last = spec_word_vec(toks.last(), dim);
        Seq::new(dim, |k: int| rest[k] + last[k])
    }
}

/// The sentence vector of a text: the truncated elementwise mean of its
/// token vectors, or the zero vector when there are no tokens.
pub open spec fn spec_sentence_vec(text: Seq<char>, dim: nat) -> Seq<i64> {
    let toks = spec_tokens(text);
    if toks.len() == 0 {
        Seq::new(dim, |k: int| 0i64)
    } else {
        Seq::new(dim, |k: int| spec_tdiv(spec_vec_sum(toks, dim)[k], toks.len() as int) as i64)
    }
}

proof fn lemma_vec_sum_bound(toks: Seq<Seq<char>>, dim: nat, k: int)
    requires
        0 <= k < dim,
    ensures
        -16384 * toks.len() <= spec_vec_sum(toks, dim)[k] <= 16383 * toks.len(),
    decreases toks.len(),
{
    if toks.len() > 0 {
        lemma_vec_sum_bound(toks.drop_last(), dim, k);
        lemma_word_vec_in_range(toks.last(), dim);
        assert(-16384 <= spec_word_vec(toks.last(), dim)[k] <= 16383);
    }
}

pub proof fn lemma_sentence_vec_props(text: Seq<char>, dim: nat)
    ensures
        spec_sentence_vec(text, dim).len() == dim,
        spec_vec_in_range(spec_sentence_vec(text, dim)),
{
    let toks = spec_tokens(text);
    if toks.len() > 0 {
        assert forall|k: int| 0 <= k < dim implies -16384 <= #[trigger] spec_sentence_vec(
            text,
            dim,
        )[k] <= 16383 by {
            lemma_vec_sum_bound(toks, dim, k);
            let s = spec_vec_sum(toks, dim)[k];
            let n = toks.len() as int;
            if s >= 0 {
                vstd::arithmetic::div_mod::lemma_div_is_ordered(s, 16383 * n, n);
                vstd::arithmetic::div_mod::lemma_div_by_multiple(16383, n);
            } else {
                vstd::arithmetic::div_mod::lemma_div_is_ordered(-s, 16384 * n, n);
                vstd::arithmetic::div_mod::lemma_div_by_multiple(16384, n);
                vstd::arithmetic::div_mod::lemma_div_is_ordered(0, -s, n);
            }
        }
    }
}

// ---------------------------------------------------------------------------
// The memoizing embedder
// ---------------------------------------------------------------------------

/// The embedder: a fixed dimension and a cache of word vectors.
///
/// The cache is a pure memoization layer; every cached vector equals the
/// vector that `spec_word_vec` assigns to its token, so looking a token
/// up and recomputing it give the same result.
pub struct Vocab {
    vectors: Vec<(String, Vec<i64>)>,
    dim: usize,
}

impl Vocab {
    /// The fixed dimension of every vector this embedder produces.
    pub closed spec fn spec_dim(&self) -> nat {
        self.dim as nat
    }

    /// Cache consistency: every cached entry holds exactly the vector
    /// of its token.
    pub closed spec fn wf(&self) -> bool {
        &&& self.dim <= DIM_LIMIT
        &&& forall|k: int|
            0 <= k < self.vectors@.len() ==> (#[trigger] self.vectors@[k].1)@ == spec_word_vec(
                self.vectors@[k].0@,
                self.dim as nat,
            )
    }

    pub fn new(dim: usize) -> (r: Vocab)
        requires
            dim <= DIM_LIMIT,
        ensures
            r.wf(),
            r.spec_dim() == dim,
    {
        Vocab { vectors: Vec::new(), dim }
    }

    /// The dimension as a value.
    pub fn dimension(&self) -> (r: usize)
        ensures
            r == self.spec_dim(),
    {
        self.dim
    }

    /// Computes the vector of a token from its hash, ignoring the cache.
    fn random_vec(&self, word: &str) -> (v: Vec<i64>)
        ensures
            v@ == spec_word_vec(word@, self.spec_dim()),
    {
        let cs = to_chars(word);
        let mut h: u32 = 2166136261;
        let mut i: usize = 0;
        while i < cs.len()
            invariant
                i <= cs@.len(),
                h == spec_fnv1a(cs@.take(i as int)),
            decreases cs@.len() - i,
        {
            proof {
                assert(cs@.take(i + 1).drop_last() =~= cs@.take(i as int));
            }
            h = (h ^ (cs[i] as u32)).wrapping_mul(16777619);
            i = i + 1;
        }
        proof {
            assert(cs@.take(cs@.len() as int) =~= cs@);
        }
        let mut v: Vec<i64> = Vec::new();
        let mut x: u32 = h;
        let mut k: usize = 0;
        while k < self.dim
            invariant
                k <= self.dim,
                v@.len() == k,
                x == if k == 0 {
                    h
                } else {
                    spec_state(h, (k - 1) as nat)
                },
                forall|m: int|
                    0 <= m < k ==> #[trigger] v@[m] == spec_comp(spec_state(h, m as nat)),
                h == spec_fnv1a(word@),
            decreases self.dim - k,
        {
            let mut y = x;
            y = y ^ (y << 13u32);
            y = y ^ (y >> 17u32);
            y = y ^ (y << 5u32);
            y = y ^ (y << 13u32);
            y = y ^ (y >> 17u32);
            y = y ^ (y << 5u32);
            assert(y == spec_state(h, k as nat));
            assert((y >> 10u32) & 0x7fffu32 <= 0x7fff) by (bit_vector);
            let top = (y >> 10u32) & 0x7fffu32;
            let c: i64 = (top as i64) - COMP_BOUND;
            v.push(c);
            x = y;
            k = k + 1;
        }
        proof {
            assert(v@ =~= spec_word_vec(word@, self.spec_dim()));
        }
        v
    }

    /// The vector of one token: returns the cached vector when the token
    /// is known, otherwise computes and caches it.  Either way the result
    /// is the token's one deterministic vector.
    pub fn word_vec(&mut self, word: &str) -> (v: Vec<i64>)
        requires
            old(self).wf(),
        ensures
            final(self).wf(),
            final(self).spec_dim() == old(self).spec_dim(),
            v@ == spec_word_vec(word@, old(self).spec_dim()),
    {
        let w: String = word.to_owned();
        let mut i: usize = 0;
        while i < self.vectors.len()
            invariant
                self.wf(),
                i <= self.vectors@.len(),
                w@ == word@,
            decreases self.vectors@.len() - i,
        {
            if self.vectors[i].0 == w {
                return copy_vec_i64(&self.vectors[i].1);
            }
            i = i + 1;
        }
        let v = self.random_vec(word);
        let copy = copy_vec_i64(&v);
        self.vectors.push((w, copy));
        v
    }

    /// The sentence vector of a text: the truncated elementwise mean of
    /// its token vectors; the zero vector when the text has no tokens.
    pub fn sentence_vec(&mut self, text: &str) -> (v: Vec<i64>)
        requires
            old(self).wf(),
        ensures
            final(self).wf(),
            final(self).spec_dim() == old(self).spec_dim(),
            v@ == spec_sentence_vec(text@, old(self).spec_dim()),
    {
        let toks = tokenize(text);
        let ghost views = spec_tokens(text@);
        let dim = self.dim;
        if toks.len() == 0 {
            let mut v: Vec<i64> = Vec::new();
            let mut k: usize = 0;
            while k < dim
                invariant
                    k <= dim,
                    v@.len() == k,
                    forall|m: int| 0 <= m < k ==> #[trigger] v@[m] == 0i64,
                decreases dim - k,
            {
                v.push(0);
                k = k + 1;
            }
            proof {
                assert(v@ =~= spec_sentence_vec(text@, old(self).spec_dim()));
            }
            return v;
        }
        let n = toks.len();
        let mut sums: Vec<i128> = Vec::new();
        let mut k: usize = 0;
        while k < dim
            invariant
                k <= dim,
                sums@.len() == k,
                forall|m: int| 0 <= m < k ==> #[trigger] sums@[m] == 0int,
            decreases dim - k,
        {
            sums.push(0);
            k = k + 1;
        }
        let mut t: usize = 0;
        proof {
            assert(views.take(0) =~= Seq::<Seq<char>>::empty());
            assert(forall|m: int|
                0 <= m < dim ==> #[trigger] spec_vec_sum(views.take(0), dim as nat)[m] == 0int);
        }
        while t < n
            invariant
                self.wf(),
                self.spec_dim() == dim,
                dim <= DIM_LIMIT,
                n == toks@.len(),
                t <= n,
                spec_str_views(toks@) == views,
                sums@.len() == dim,
                forall|m: int|
                    0 <= m < dim ==> #[trigger] sums@[m] == spec_vec_sum(
                        views.take(t as int),
                        dim as nat,
                    )[m],
                forall|m: int|
                    0 <= m < dim ==> -16384 * (t as int) <= #[trigger] sums@[m] <= 16383 * (
                    t as int),
            decreases n - t,
        {
            let wv = self.word_vec(toks[t].as_str());
            proof {
                lemma_word_vec_in_range(views[t as int], dim as nat);
                assert(views.take(t + 1).drop_last() =~= views.take(t as int));
                assert(views.take(t + 1).last() == views[t as int]);
            }
            let mut m: usize = 0;
            while m < dim
                invariant
                    m <= dim,
                    sums@.len() == dim,
                    wv@.len() == dim,
                    t < n == views.len(),
                    views.take(t + 1).drop_last() == views.take(t as int),
                    views.take(t + 1).last() == views[t as int],
                    wv@ == spec_word_vec(views[t as int], dim as nat),
                    spec_vec_in_range(wv@),
                    forall|q: int|
                        m <= q < dim ==> #[trigger] sums@[q] == spec_vec_sum(
                            views.take(t as int),
                            dim as nat,
                        )[q],
                    forall|q: int|
                        0 <= q < m ==> #[trigger] sums@[q] == spec_vec_sum(
                            views.take(t + 1),
                            dim as nat,
                        )[q],
                    forall|q: int|
                        m <= q < dim ==> -16384 * (t as int) <= #[trigger] sums@[q] <= 16383 * (
                        t as int),
                    forall|q: int|
                        0 <= q < m ==> -16384 * (t as int + 1) <= #[trigger] sums@[q] <= 16383 * (
                        t as int + 1),
                decreases dim - m,
            {
                let s = sums[m];
                let add = wv[m] as i128;
                assert(-16384 <= add <= 16383);
                let s2 = s + add;
                sums.set(m, s2);
                m = m + 1;
            }
            t = t + 1;
        }
        proof {
            assert(views.take(n as int) =~= views);
        }
        let mut v: Vec<i64> = Vec::new();
        let mut m: usize = 0;
        while m < dim
            invariant
                m <= dim,
                v@.len() == m,
                sums@.len() == dim,
                n >= 1,
                n <= usize::MAX,
                forall|q: int|
                    0 <= q < dim ==> #[trigger] sums@[q] == spec_vec_sum(views, dim as nat)[q],
                forall|q: int|
                    0 <= q < dim ==> -16384 * (n as int) <= #[trigger] sums@[q] <= 16383 * (
                    n as int),
                forall|q: int|
                    0 <= q < m ==> #[trigger] v@[q] == spec_tdiv(
                        spec_vec_sum(views, dim as nat)[q],
                        n as int,
                    ) as i64,
            decreases dim - m,
        {
            let s = sums[m];
            let q = tdiv_i128(s, n as i128);
            proof {
                let nn = n as int;
                if s >= 0 {
                    vstd::arithmetic::div_mod::lemma_div_is_ordered(s as int, 16383 * nn, nn);
                    vstd::arithmetic::div_mod::lemma_div_by_multiple(16383, nn);
                    vstd::arithmetic::div_mod::lemma_div_is_ordered(0, s as int, nn);
                } else {
                    vstd::arithmetic::div_mod::lemma_div_is_ordered(-(s as int), 16384 * nn, nn);
                    vstd::arithmetic::div_mod::lemma_div_by_multiple(16384, nn);
                    vstd::arithmetic::div_mod::lemma_div_is_ordered(0, -(s as int), nn);
                }
            }
            v.push(q as i64);
            m = m + 1;
        }
        proof {
            assert(v@ =~= spec_sentence_vec(text@, old(self).spec_dim()));
        }
        v
    }
}

/// Copies a vector of components.
pub fn copy_vec_i64(v: &Vec<i64>) -> (r: Vec<i64>)
    ensures
        r@ == v@,
{
    let mut r: Vec<i64> = Vec::new();
    let mut i: usize = 0;
    while i < v.len()
        invariant
            i <= v@.len(),
            r@ == v@.take(i as int),
        decreases v@.len() - i,
    {
        r.push(v[i]);
        i = i + 1;
        assert(r@ =~= v@.take(i as int));
    }
    assert(r@ =~= v@);
    r
}

/// Truncating division on 128-bit integers, positive divisor.
pub fn tdiv_i128(a: i128, b: i128) -> (r: i128)
    requires
        b > 0,
        a > i128::MIN,
    ensures
        r == spec_tdiv(a as int, b as int),
{
    if a >= 0 {
        proof {
            vstd::arithmetic::div_mod::lemma_div_nonincreasing(a as int, b as int);
            vstd::arithmetic::div_mod::lemma_div_pos_is_pos(a as int, b as int);
        }
        let q = (a as u128) / (b as u128);
        q as i128
    } else {
        proof {
            vstd::arithmetic::div_mod::lemma_div_nonincreasing(-(a as int), b as int);
            vstd::arithmetic::div_mod::lemma_div_pos_is_pos(-(a as int), b as int);
        }
        let q = ((-a) as u128) / (b as u128);
        -(q as i128)
    }
}

} // verus!
