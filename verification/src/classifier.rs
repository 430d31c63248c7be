use vstd::prelude::*;

use crate::boost::intent_boost;
use crate::boost::spec_boost;
use crate::intent::Intent;
use crate::similarity::cosine_similarity;
use crate::similarity::spec_cosine;
use crate::vector::copy_vec_i64;
use crate::vector::spec_vec_in_range;
use crate::vector::DIM_LIMIT;

verus! {

/// The score every candidate must beat; scores start at `-1.0`.
pub const INITIAL_SCORE: i64 = -1_000_000_000;

/// The decision threshold: a best score below `0.5` yields `Unknown`.
pub const SCORE_THRESHOLD: i64 = 500_000_000;

/// One classification reference point: an intent label, a sentence
/// vector, and a positive weight in thousandths.
#[derive(Clone, Debug)]
pub struct IntentSample {
    pub intent: Intent,
    pub vector: Vec<i64>,
    pub weight: u64,
}

/// A sample fit for classification against vectors of length `dim`.
pub open spec fn spec_sample_wf(s: IntentSample, dim: nat) -> bool {
    &&& s.vector@.len() == dim
    &&& spec_vec_in_range(s.vector@)
    &&& 1 <= s.weight <= 2000
    &&& s.intent != Intent::Unknown
}

/// The score of one sample: similarity times weight times boost.
/// Similarity, weight and boost are all in thousandths, so a score of
/// 1_000_000_000 stands for 1.0.
pub open spec fn spec_score(s: IntentSample, input: Seq<i64>, text: Seq<char>) -> int {
    spec_cosine(input, s.vector@) * (s.weight as int) * spec_boost(s.intent, text)
}

/// Runs the best-score scan from index `i` with the accumulator
/// `(best, bi)`; a sample wins only with a strictly greater score.
pub open spec fn spec_best_from(
    samples: Seq<IntentSample>,
    input: Seq<i64>,
    text: Seq<char>,
    i: int,
    best: int,
    bi: Intent,
) -> (int, Intent)
    decreases samples.len() - i,
{
    if i < 0 || i >= samples.len() {
        (best, bi)
    } else {
        let sc = spec_score(samples[i], input, text);
        if sc > best {
            spec_best_from(samples, input, text, i + 1, sc, samples[i].intent)
        } else {
            spec_best_from(samples, input, text, i + 1, best, bi)
        }
    }
}

/// The classification decision: scan all samples in order, then apply
/// the decision threshold.
pub open spec fn spec_classify(samples: Seq<IntentSample>, input: Seq<i64>, text: Seq<char>) -> Intent {
    let r = spec_best_from(samples, input, text, 0, INITIAL_SCORE as int, Intent::Unknown);
    if r.0 < SCORE_THRESHOLD as int {
        Intent::Unknown
    } else {
        r.1
    }
}

/// Scores the input vector against every sample, in order, and returns
/// the intent of the first sample with the maximal score, or `Unknown`
/// when no score reaches the threshold.
pub fn classify(input_vec: &Vec<i64>, original_text: &str, samples: &Vec<IntentSample>) -> (r:
    Intent)
    requires
        input_vec@.len() <= DIM_LIMIT,
        spec_vec_in_range(input_vec@),
        forall|k: int|
            0 <= k < samples@.len() ==> (#[trigger] samples@[k]).vector@.len() == input_vec@.len()
                && spec_vec_in_range(samples@[k].vector@),
    ensures
        r == spec_classify(samples@, input_vec@, original_text@),
{
    let mut best: i128 = INITIAL_SCORE as i128;
    let mut best_intent = Intent::Unknown;
    let n = samples.len();
    let mut i: usize = 0;
    while i < n
        invariant
            n == samples@.len(),
            i <= n,
            input_vec@.len() <= DIM_LIMIT,
            spec_vec_in_range(input_vec@),
            forall|k: int|
                0 <= k < samples@.len() ==> (#[trigger] samples@[k]).vector@.len()
                    == input_vec@.len() && spec_vec_in_range(samples@[k].vector@),
            -0x8000000000000000000000i128 <= best <= 0x8000000000000000000000i128,
            spec_best_from(samples@, input_vec@, original_text@, 0, INITIAL_SCORE as int,
                Intent::Unknown) == spec_best_from(samples@, input_vec@, original_text@,
                i as int, best as int, best_intent),
        decreases n - i,
    {
        let s = &samples[i];
        let sim = cosine_similarity(input_vec, &s.vector);
        let b = intent_boost(&s.intent, original_text);
        let w = s.weight;
        proof {
            assert(-1000 * 2500 * 0x10000000000000000i128 <= (sim as i128) * (w as i128) * (
            b as i128) <= 1000 * 2500 * 0x10000000000000000i128) by (nonlinear_arith)
                requires
                    -1000 <= (sim as i128) && (sim as i128) <= 1000,
                    0 <= (w as i128) && (w as i128) < 0x10000000000000000i128,
                    300 <= (b as i128) && (b as i128) <= 2500,
            ;
        }
        let score = (sim as i128) * (w as i128) * (b as i128);
        if score > best {
            best = score;
            best_intent = s.intent;
        }
        i = i + 1;
    }
    if best < SCORE_THRESHOLD as i128 {
        Intent::Unknown
    } else {
        best_intent
    }
}

// ---------------------------------------------------------------------------
// The threshold law
// ---------------------------------------------------------------------------

proof fn lemma_best_from_below(
    samples: Seq<IntentSample>,
    input: Seq<i64>,
    text: Seq<char>,
    i: int,
    best: int,
    bi: Intent,
)
    requires
        0 <= i <= samples.len(),
        best < SCORE_THRESHOLD as int,
        forall|k: int|
            i <= k < samples.len() ==> #[trigger] spec_score(samples[k], input, text)
                < SCORE_THRESHOLD as int,
    ensures
        spec_best_from(samples, input, text, i, best, bi).0 < SCORE_THRESHOLD as int,
    decreases samples.len() - i,
{
    if i < samples.len() {
        let sc = spec_score(samples[i], input, text);
        if sc > best {
            lemma_best_from_below(samples, input, text, i + 1, sc, samples[i].intent);
        } else {
            lemma_best_from_below(samples, input, text, i + 1, best, bi);
        }
    }
}

/// Threshold law, first half: when every candidate score is below the
/// threshold, the classification is `Unknown`.
pub proof fn lemma_classify_all_below(samples: Seq<IntentSample>, input: Seq<i64>, text: Seq<char>)
    requires
        forall|k: int|
            0 <= k < samples.len() ==> #[trigger] spec_score(samples[k], input, text)
                < SCORE_THRESHOLD as int,
    ensures
        spec_classify(samples, input, text) == Intent::Unknown,
{
    lemma_best_from_below(samples, input, text, 0, INITIAL_SCORE as int, Intent::Unknown);
}

proof fn lemma_best_from_keep(
    samples: Seq<IntentSample>,
    input: Seq<i64>,
    text: Seq<char>,
    i: int,
    best: int,
    bi: Intent,
)
    requires
        0 <= i <= samples.len(),
        forall|k: int| i <= k < samples.len() ==> #[trigger] spec_score(samples[k], input, text) <= best,
    ensures
        spec_best_from(samples, input, text, i, best, bi) == (best, bi),
    decreases samples.len() - i,
{
    if i < samples.len() {
        lemma_best_from_keep(samples, input, text, i + 1, best, bi);
    }
}

proof fn lemma_best_from_wins(
    samples: Seq<IntentSample>,
    input: Seq<i64>,
    text: Seq<char>,
    i: int,
    best: int,
    bi: Intent,
    m: int,
)
    requires
        0 <= i <= m < samples.len(),
        best < spec_score(samples[m], input, text),
        forall|k: int|
            i <= k < m ==> #[trigger] spec_score(samples[k], input, text) < spec_score(
                samples[m],
                input,
                text,
            ),
        forall|k: int|
            m < k < samples.len() ==> #[trigger] spec_score(samples[k], input, text) <= spec_score(
                samples[m],
                input,
                text,
            ),
    ensures
        spec_best_from(samples, input, text, i, best, bi) == (spec_score(samples[m], input, text),
        samples[m].intent),
    decreases samples.len() - i,
{
    let top = spec_score(samples[m], input, text);
    if i == m {
        lemma_best_from_keep(samples, input, text, m + 1, top, samples[m].intent);
    } else {
        let sc = spec_score(samples[i], input, text);
        if sc > best {
            lemma_best_from_wins(samples, input, text, i + 1, sc, samples[i].intent, m);
        } else {
            lemma_best_from_wins(samples, input, text, i + 1, best, bi, m);
        }
    }
}

/// Threshold law, second half: when sample `m` is the first sample with
/// the maximal score and that score reaches the threshold, the
/// classification is exactly `m`'s intent.
pub proof fn lemma_classify_first_max(
    samples: Seq<IntentSample>,
    input: Seq<i64>,
    text: Seq<char>,
    m: int,
)
    requires
        0 <= m < samples.len(),
        spec_score(samples[m], input, text) >= SCORE_THRESHOLD as int,
        forall|k: int|
            0 <= k < m ==> #[trigger] spec_score(samples[k], input, text) < spec_score(
                samples[m],
                input,
                text,
            ),
        forall|k: int|
            m < k < samples.len() ==> #[trigger] spec_score(samples[k], input, text) <= spec_score(
                samples[m],
                input,
                text,
            ),
    ensures
        spec_classify(samples, input, text) == samples[m].intent,
{
    lemma_best_from_wins(samples, input, text, 0, INITIAL_SCORE as int, Intent::Unknown, m);
}

/// Two sample sequences that agree on intent, vector contents and
/// weight at every index.
pub open spec fn spec_same_sample_views(a: Seq<IntentSample>, b: Seq<IntentSample>) -> bool {
    &&& a.len() == b.len()
    &&& forall|k: int|
        0 <= k < a.len() ==> (#[trigger] a[k]).intent == b[k].intent && a[k].vector@
            == b[k].vector@ && a[k].weight == b[k].weight
}

proof fn lemma_best_from_views(
    a: Seq<IntentSample>,
    b: Seq<IntentSample>,
    input: Seq<i64>,
    text: Seq<char>,
    i: int,
    best: int,
    bi: Intent,
)
    requires
        spec_same_sample_views(a, b),
        0 <= i,
    ensures
        spec_best_from(a, input, text, i, best, bi) == spec_best_from(b, input, text, i, best, bi),
    decreases a.len() - i,
{
    if i < a.len() {
        assert(spec_score(a[i], input, text) == spec_score(b[i], input, text));
        let sc = spec_score(a[i], input, text);
        if sc > best {
            lemma_best_from_views(a, b, input, text, i + 1, sc, a[i].intent);
        } else {
            lemma_best_from_views(a, b, input, text, i + 1, best, bi);
        }
    }
}

/// The classification depends only on the samples' intents, vector
/// contents and weights, never on their identity.
pub proof fn lemma_classify_views(
    a: Seq<IntentSample>,
    b: Seq<IntentSample>,
    input: Seq<i64>,
    text: Seq<char>,
)
    requires
        spec_same_sample_views(a, b),
    ensures
        spec_classify(a, input, text) == spec_classify(b, input, text),
{
    lemma_best_from_views(a, b, input, text, 0, INITIAL_SCORE as int, Intent::Unknown);
}

/// Copies a sample.
pub fn copy_sample(s: &IntentSample) -> (r: IntentSample)
    ensures
        r.intent == s.intent,
        r.vector@ == s.vector@,
        r.weight == s.weight,
{
    IntentSample { intent: s.intent, vector: copy_vec_i64(&s.vector), weight: s.weight }
}

} // verus!
