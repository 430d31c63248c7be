//! A small intent-classification engine for short German utterances.
//!
//! Free-form text is normalized and stemmed, embedded into a fixed-width
//! integer vector by a deterministic hash-seeded generator, and scored
//! against a set of weighted samples by cosine similarity with a
//! keyword-driven boost.  The best-scoring sample wins if its score
//! reaches the decision threshold; otherwise the result is `Unknown`.
//!
//! All fractional quantities (similarities, weights, boosts, scores) are
//! fixed-point integers in thousandths, so the whole engine is exact
//! integer arithmetic.

pub mod backend;
pub mod boost;
pub mod classifier;
pub mod codec;
pub mod engine;
pub mod extract;
pub mod intent;
pub mod learning;
pub mod normalize;
pub mod parser;
pub mod similarity;
pub mod stopwords;
pub mod text;
pub mod vector;
pub mod weather;
