//! A streaming enrichment pipeline: records are pulled from an input topic,
//! augmented with derived text-analysis fields (sentiment, keywords, named
//! entities), and republished to an output topic.  This crate holds the
//! verified core: the record model and its wire codec, the enrichment stage,
//! the ingestion state machine with its offset-commit discipline, and the
//! instrumentation arithmetic.  Broker and model I/O live outside the crate
//! and hand plain values in.

pub mod codec;
pub mod config;
pub mod enrich;
pub mod ingest;
pub mod metrics;
pub mod record;

use vstd::prelude::*;

verus! {

/// Minimum confidence score, in ten-thousandths, that a keyword candidate
/// must reach to be kept.  Scores are fixed-point: a score of `4000`
/// stands for a confidence of 0.4000.
pub const KEYWORD_SCORE_MIN: i64 = 3999;

} // verus!
