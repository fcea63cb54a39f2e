//! Statistical natural-language identification.
//!
//! The crate combines script-based elimination with character n-gram
//! frequency scoring: candidate languages are first narrowed by the writing
//! systems present in the input, then each survivor is scored against
//! per-language frequency models by summing scaled log-probabilities of the
//! n-grams (orders one to five) extracted from the text.  Raw scores are
//! ranked deterministically, normalised into a confidence distribution, and
//! turned into a single decision gated by a configurable confidence margin.
//!
//! All probabilities are held in fixed-point form: model entries carry
//! scaled logarithms of relative frequencies, and confidence values are
//! reported in parts per million, so every step of the pipeline is exact
//! integer arithmetic.

pub mod builder;
pub mod detector;
pub mod language;
pub mod laws;
pub mod model;
pub mod models;
pub mod ngram;
pub mod script;

pub use builder::LanguageDetectorBuilder;
pub use detector::LanguageDetector;
pub use language::Language;
pub use language::IsoCode639_1;
pub use language::IsoCode639_3;
pub use script::Script;
