use vstd::prelude::*;

use crate::classifier::spec_sample_wf;
use crate::classifier::IntentSample;
use crate::intent::Intent;
use crate::vector::spec_sentence_vec;
use crate::vector::lemma_sentence_vec_props;
use crate::vector::Vocab;

verus! {

/// The weight of a freshly learned sample, in thousandths (2.0).
pub const LEARNED_WEIGHT: u64 = 2000;

/// The floor below which decay never pushes a weight (0.5).
pub const WEIGHT_FLOOR: u64 = 500;

/// One decay step on a weight in thousandths: multiply by 0.995,
/// truncate, and clamp to the floor.
pub open spec fn spec_decay_w(w: int) -> int {
    let d = (w * 995) / 1000;
    if d < 500 {
        500
    } else {
        d
    }
}

/// The weight after `n` decay steps.
pub open spec fn spec_decay_iter(w: int, n: nat) -> int
    decreases n,
{
    if n == 0 {
        w
    } else {
        spec_decay_iter(spec_decay_w(w), (n - 1) as nat)
    }
}

/// Decay monotonicity and floor: one step never increases a weight that
/// is at or above the floor, never pushes it below the floor, and
/// strictly shrinks any weight above the floor.
pub proof fn lemma_decay_monotone(w: int)
    requires
        w >= 500,
    ensures
        500 <= spec_decay_w(w) <= w,
        w > 500 ==> spec_decay_w(w) < w,
{
    let d = (w * 995) / 1000;
    vstd::arithmetic::div_mod::lemma_div_is_ordered(w * 995, (w - 2) * 1000, 1000);
    vstd::arithmetic::div_mod::lemma_div_by_multiple(w - 2, 1000);
    assert(d <= w - 2);
}

proof fn lemma_decay_iter_at_floor(n: nat)
    ensures
        spec_decay_iter(500, n) == 500,
    decreases n,
{
    if n > 0 {
        lemma_decay_iter_at_floor((n - 1) as nat);
    }
}

proof fn lemma_decay_iter_add(w: int, a: nat, b: nat)
    ensures
        spec_decay_iter(w, a + b) == spec_decay_iter(spec_decay_iter(w, a), b),
    decreases a,
{
    if a > 0 {
        lemma_decay_iter_add(spec_decay_w(w), (a - 1) as nat, b);
    }
}

/// Decay convergence: from any weight at or above the floor, at most
/// `w - 500` decay steps reach the floor exactly, and the sequence of
/// iterates is non-increasing and never below the floor.
pub proof fn lemma_decay_converges(w: int)
    requires
        w >= 500,
    ensures
        spec_decay_iter(w, (w - 500) as nat) == 500,
    decreases w,
{
    if w == 500 {
    } else {
        let w1 = spec_decay_w(w);
        lemma_decay_monotone(w);
        lemma_decay_converges(w1);
        let extra = (w - 1 - w1) as nat;
        lemma_decay_iter_add(w1, (w1 - 500) as nat, extra);
        lemma_decay_iter_at_floor(extra);
        assert((w1 - 500) as nat + extra == (w - 501) as nat);
        assert(spec_decay_iter(w1, (w - 501) as nat) == 500);
    }
}

/// The learned-sample store: an append-only sequence of samples born
/// from user corrections.
pub struct LearningStore {
    pub samples: Vec<IntentSample>,
}

/// Every sample is fit for dimension `dim`.
pub open spec fn spec_store_wf(s: LearningStore, dim: nat) -> bool {
    forall|k: int| 0 <= k < s.samples@.len() ==> spec_sample_wf(#[trigger] s.samples@[k], dim)
}

impl LearningStore {
    /// An empty store.
    pub fn new() -> (r: LearningStore)
        ensures
            r.samples@.len() == 0,
    {
        LearningStore { samples: Vec::new() }
    }

    /// Records a correction: embeds the phrase and appends a sample of
    /// the corrected intent with the initial learned weight.
    pub fn add_phrase(&mut self, vocab: &mut Vocab, intent: Intent, phrase: &str)
        requires
            old(vocab).wf(),
            intent != Intent::Unknown,
        ensures
            final(vocab).wf(),
            final(vocab).spec_dim() == old(vocab).spec_dim(),
            final(self).samples@.len() == old(self).samples@.len() + 1,
            forall|k: int|
                0 <= k < old(self).samples@.len() ==> #[trigger] final(self).samples@[k]
                    == old(self).samples@[k],
            final(self).samples@.last().intent == intent,
            final(self).samples@.last().vector@ == spec_sentence_vec(
                phrase@,
                old(vocab).spec_dim(),
            ),
            final(self).samples@.last().weight == LEARNED_WEIGHT,
    {
        let vec = vocab.sentence_vec(phrase);
        self.samples.push(IntentSample { intent, vector: vec, weight: LEARNED_WEIGHT });
    }

    /// One decay cycle: every weight shrinks by a factor 0.995,
    /// truncated, but never below the floor.  Called once per incoming
    /// utterance.
    pub fn decay(&mut self)
        requires
            forall|k: int|
                0 <= k < old(self).samples@.len() ==> (#[trigger] old(self).samples@[k]).weight
                    <= 2000,
        ensures
            final(self).samples@.len() == old(self).samples@.len(),
            forall|k: int|
                0 <= k < old(self).samples@.len() ==> {
                    let o = old(self).samples@[k];
                    let s = #[trigger] final(self).samples@[k];
                    s.intent == o.intent && s.vector@ == o.vector@ && s.weight as int
                        == spec_decay_w(o.weight as int)
                },
    {
        let n = self.samples.len();
        let mut i: usize = 0;
        while i < n
            invariant
                n == self.samples@.len(),
                i <= n,
                forall|k: int|
                    0 <= k < n ==> (#[trigger] old(self).samples@[k]).weight <= 2000,
                forall|k: int|
                    i <= k < n ==> #[trigger] self.samples@[k] == old(self).samples@[k],
                forall|k: int|
                    0 <= k < i ==> {
                        let o = old(self).samples@[k];
                        let s = #[trigger] self.samples@[k];
                        s.intent == o.intent && s.vector@ == o.vector@ && s.weight as int
                            == spec_decay_w(o.weight as int)
                    },
            decreases n - i,
        {
            let w = self.samples[i].weight;
            let d = (w * 995) / 1000;
            let nw = if d < WEIGHT_FLOOR {
                WEIGHT_FLOOR
            } else {
                d
            };
            let s = &self.samples[i];
            let replaced = IntentSample {
                intent: s.intent,
                vector: crate::vector::copy_vec_i64(&s.vector),
                weight: nw,
            };
            self.samples.set(i, replaced);
            i = i + 1;
        }
    }
}

/// An appended correction is fit for classification: `add_phrase` keeps
/// a well-formed store well-formed for the embedder's dimension.
pub proof fn lemma_store_wf_after_add(
    old_store: LearningStore,
    new_store: LearningStore,
    intent: Intent,
    phrase: Seq<char>,
    dim: nat,
)
    requires
        spec_store_wf(old_store, dim),
        intent != Intent::Unknown,
        new_store.samples@.len() == old_store.samples@.len() + 1,
        forall|k: int|
            0 <= k < old_store.samples@.len() ==> #[trigger] new_store.samples@[k]
                == old_store.samples@[k],
        new_store.samples@.last().intent == intent,
        new_store.samples@.last().vector@ == spec_sentence_vec(phrase, dim),
        new_store.samples@.last().weight == LEARNED_WEIGHT,
    ensures
        spec_store_wf(new_store, dim),
{
    lemma_sentence_vec_props(phrase, dim);
}

} // verus!
