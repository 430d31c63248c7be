use vstd::prelude::*;

use crate::classifier::classify;
use crate::classifier::copy_sample;
use crate::classifier::lemma_classify_views;
use crate::classifier::spec_classify;
use crate::classifier::spec_sample_wf;
use crate::classifier::spec_same_sample_views;
use crate::classifier::IntentSample;
use crate::codec::encode_store;
use crate::codec::spec_decode_store;
use crate::codec::spec_encode_store;
use crate::codec::spec_sample_views;
use crate::codec::store_from_text;
use crate::intent::Intent;
use crate::learning::lemma_store_wf_after_add;
use crate::learning::spec_decay_w;
use crate::learning::spec_store_wf;
use crate::learning::LearningStore;
use crate::learning::LEARNED_WEIGHT;
use crate::vector::lemma_sentence_vec_props;
use crate::vector::spec_sentence_vec;
use crate::vector::Vocab;

verus! {

/// The fixed vector dimension of the assistant's embedder.
pub const ENGINE_DIM: usize = 32;

/// The seed phrase of static sample `k`.
pub open spec fn spec_seed_phrase(k: int) -> Seq<char> {
    if k == 0 {
        "hallo hi hey guten tag morgen servus gr\u{fc}\u{df}"@
    } else if k == 1 {
        "wetter temperatur grad celsius vorhersage klima regnet schneit scheint sonne"@
    } else if k == 2 {
        "suche finde informationen recherchiere was ist erkl\u{e4}re \u{fc}ber wiki wissen"@
    } else if k == 3 {
        "\u{f6}ffne starte start \u{f6}ffnen datei programm anwendung app ausf\u{fc}hren"@
    } else if k == 4 {
        "zeige zeig anzeigen wo ist finde datei ordner mir"@
    } else if k == 5 {
        "tsch\u{fc}ss danke bis sp\u{e4}ter wiedersehen auf wiedersehen"@
    } else {
        "sch\u{f6}nen tag noch abmelden beenden ausschalten ende"@
    }
}

/// The intent of static sample `k`.
pub open spec fn spec_seed_intent(k: int) -> Intent {
    if k == 0 {
        Intent::Greeting
    } else if k == 1 {
        Intent::Weather
    } else if k == 2 {
        Intent::Search
    } else if k == 3 {
        Intent::FileOpen
    } else if k == 4 {
        Intent::FileShow
    } else if k == 5 {
        Intent::Goodbye
    } else {
        Intent::Shutdown
    }
}

/// The weight of static sample `k`, in thousandths.
pub open spec fn spec_seed_weight(k: int) -> u64 {
    if k == 2 || k == 4 {
        1200
    } else {
        1000
    }
}

/// The classification engine: a memoizing embedder, the static seed
/// samples built once at startup, and the learned-sample store.
pub struct Assistant {
    pub vocab: Vocab,
    pub statics: Vec<IntentSample>,
    pub store: LearningStore,
}

impl Assistant {
    /// The engine invariant: the embedder is consistent and sized for
    /// this engine, the seven static samples carry exactly the seed
    /// phrases' sentence vectors, and every learned sample fits.
    pub open spec fn wf(&self) -> bool {
        &&& self.vocab.wf()
        &&& self.vocab.spec_dim() == ENGINE_DIM
        &&& self.statics@.len() == 7
        &&& forall|k: int|
            0 <= k < 7 ==> (#[trigger] self.statics@[k]).intent == spec_seed_intent(k)
                && self.statics@[k].vector@ == spec_sentence_vec(
                spec_seed_phrase(k),
                ENGINE_DIM as nat,
            ) && self.statics@[k].weight == spec_seed_weight(k)
        &&& spec_store_wf(self.store, ENGINE_DIM as nat)
    }

    /// All samples in scoring order: static samples first, then the
    /// learned samples in store order.
    pub open spec fn spec_all_samples(&self) -> Seq<IntentSample> {
        self.statics@ + self.store.samples@
    }

    /// A fresh engine: the standard seed set and an empty store.
    pub fn new() -> (r: Assistant)
        ensures
            r.wf(),
            r.store.samples@.len() == 0,
    {
        let mut vocab = Vocab::new(ENGINE_DIM);
        let mut statics: Vec<IntentSample> = Vec::new();
        let v0 = vocab.sentence_vec("hallo hi hey guten tag morgen servus gr\u{fc}\u{df}");
        statics.push(IntentSample { intent: Intent::Greeting, vector: v0, weight: 1000 });
        let v1 = vocab.sentence_vec(
            "wetter temperatur grad celsius vorhersage klima regnet schneit scheint sonne",
        );
        statics.push(IntentSample { intent: Intent::Weather, vector: v1, weight: 1000 });
        let v2 = vocab.sentence_vec(
            "suche finde informationen recherchiere was ist erkl\u{e4}re \u{fc}ber wiki wissen",
        );
        statics.push(IntentSample { intent: Intent::Search, vector: v2, weight: 1200 });
        let v3 = vocab.sentence_vec(
            "\u{f6}ffne starte start \u{f6}ffnen datei programm anwendung app ausf\u{fc}hren",
        );
        statics.push(IntentSample { intent: Intent::FileOpen, vector: v3, weight: 1000 });
        let v4 = vocab.sentence_vec("zeige zeig anzeigen wo ist finde datei ordner mir");
        statics.push(IntentSample { intent: Intent::FileShow, vector: v4, weight: 1200 });
        let v5 = vocab.sentence_vec("tsch\u{fc}ss danke bis sp\u{e4}ter wiedersehen auf wiedersehen");
        statics.push(IntentSample { intent: Intent::Goodbye, vector: v5, weight: 1000 });
        let v6 = vocab.sentence_vec("sch\u{f6}nen tag noch abmelden beenden ausschalten ende");
        statics.push(IntentSample { intent: Intent::Shutdown, vector: v6, weight: 1000 });
        Assistant { vocab, statics, store: LearningStore::new() }
    }

    /// Classifies one utterance against all samples and then runs one
    /// decay cycle on the learned store, as every incoming utterance
    /// does, whatever the outcome.
    pub fn classify_text(&mut self, text: &str) -> (r: Intent)
        requires
            old(self).wf(),
        ensures
            final(self).wf(),
            r == spec_classify(
                old(self).spec_all_samples(),
                spec_sentence_vec(text@, ENGINE_DIM as nat),
                text@,
            ),
            final(self).statics == old(self).statics,
            final(self).store.samples@.len() == old(self).store.samples@.len(),
            forall|k: int|
                0 <= k < old(self).store.samples@.len() ==> {
                    let o = old(self).store.samples@[k];
                    let s = #[trigger] final(self).store.samples@[k];
                    s.intent == o.intent && s.vector@ == o.vector@ && s.weight as int
                        == spec_decay_w(o.weight as int)
                },
    {
        let iv = self.vocab.sentence_vec(text);
        proof {
            lemma_sentence_vec_props(text@, ENGINE_DIM as nat);
        }
        let mut all: Vec<IntentSample> = Vec::new();
        let ns = self.statics.len();
        let mut k: usize = 0;
        while k < ns
            invariant
                ns == self.statics@.len(),
                k <= ns,
                self.wf(),
                all@.len() == k,
                forall|m: int|
                    0 <= m < k ==> (#[trigger] all@[m]).intent == self.statics@[m].intent
                        && all@[m].vector@ == self.statics@[m].vector@ && all@[m].weight
                        == self.statics@[m].weight,
            decreases ns - k,
        {
            all.push(copy_sample(&self.statics[k]));
            k = k + 1;
        }
        let nl = self.store.samples.len();
        let mut k: usize = 0;
        while k < nl
            invariant
                ns == self.statics@.len(),
                nl == self.store.samples@.len(),
                k <= nl,
                self.wf(),
                all@.len() == ns + k,
                forall|m: int|
                    0 <= m < ns ==> (#[trigger] all@[m]).intent == self.statics@[m].intent
                        && all@[m].vector@ == self.statics@[m].vector@ && all@[m].weight
                        == self.statics@[m].weight,
                forall|m: int|
                    0 <= m < k ==> (#[trigger] all@[ns + m]).intent
                        == self.store.samples@[m].intent && all@[ns + m].vector@
                        == self.store.samples@[m].vector@ && all@[ns + m].weight
                        == self.store.samples@[m].weight,
            decreases nl - k,
        {
            all.push(copy_sample(&self.store.samples[k]));
            k = k + 1;
        }
        proof {
            assert(all@.len() == self.spec_all_samples().len());
            assert forall|m: int| 0 <= m < all@.len() implies (#[trigger] all@[m]).intent
                == self.spec_all_samples()[m].intent && all@[m].vector@
                == self.spec_all_samples()[m].vector@ && all@[m].weight
                == self.spec_all_samples()[m].weight by {
                if m < ns {
                    assert(self.spec_all_samples()[m] == self.statics@[m]);
                } else {
                    let j = m - ns;
                    assert(all@[ns + j].intent == self.store.samples@[j].intent && all@[ns
                        + j].vector@ == self.store.samples@[j].vector@ && all@[ns + j].weight
                        == self.store.samples@[j].weight);
                    assert(ns + j == m);
                    assert(self.spec_all_samples()[m] == self.store.samples@[j]);
                }
            }
            assert(spec_same_sample_views(all@, self.spec_all_samples()));
            assert forall|m: int| 0 <= m < all@.len() implies (#[trigger] all@[m]).vector@.len()
                == iv@.len() && crate::vector::spec_vec_in_range(all@[m].vector@) by {
                if m < 7 {
                    lemma_sentence_vec_props(spec_seed_phrase(m), ENGINE_DIM as nat);
                } else {
                    assert(spec_sample_wf(self.store.samples@[m - 7], ENGINE_DIM as nat));
                }
            }
        }
        let r = classify(&iv, text, &all);
        proof {
            lemma_classify_views(all@, self.spec_all_samples(), iv@, text@);
        }
        self.store.decay();
        r
    }

    /// Records a user correction: embeds the phrase and appends it to
    /// the learned store with the initial learned weight.
    pub fn record_correction(&mut self, intent: Intent, phrase: &str)
        requires
            old(self).wf(),
            intent != Intent::Unknown,
        ensures
            final(self).wf(),
            final(self).statics == old(self).statics,
            final(self).store.samples@.len() == old(self).store.samples@.len() + 1,
            forall|k: int|
                0 <= k < old(self).store.samples@.len()
                    ==> (#[trigger] final(self).store.samples@[k]) == old(self).store.samples@[k],
            final(self).store.samples@.last().intent == intent,
            final(self).store.samples@.last().vector@ == spec_sentence_vec(
                phrase@,
                ENGINE_DIM as nat,
            ),
            final(self).store.samples@.last().weight == LEARNED_WEIGHT,
    {
        let ghost old_store = self.store;
        self.store.add_phrase(&mut self.vocab, intent, phrase);
        proof {
            lemma_store_wf_after_add(old_store, self.store, intent, phrase@, ENGINE_DIM as nat);
        }
    }

    /// The persisted form of the learned store.
    pub fn store_text(&self) -> (r: String)
        requires
            self.wf(),
        ensures
            r@ == spec_encode_store(self.store, ENGINE_DIM as nat),
    {
        encode_store(&self.store, ENGINE_DIM)
    }

    /// Replaces the learned store with one loaded from persisted text;
    /// a malformed text silently yields an empty store.
    pub fn load_store_text(&mut self, text: &str)
        requires
            old(self).wf(),
        ensures
            final(self).wf(),
            final(self).statics == old(self).statics,
            final(self).vocab == old(self).vocab,
            match spec_decode_store(text@, ENGINE_DIM as nat) {
                Some(views) => spec_sample_views(final(self).store.samples@) == views,
                None => final(self).store.samples@.len() == 0,
            },
    {
        self.store = store_from_text(text, ENGINE_DIM);
    }
}

} // verus!
