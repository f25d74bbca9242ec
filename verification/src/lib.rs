//! A verified core for a batch asset-bundle extractor.
//!
//! The library covers the logic of the pipeline: classifying archive entries,
//! building the per-archive container index, deriving output paths from
//! template/regex rules, the resumable progress store, and the batch driver's
//! decisions. Reading archives, decoding their entries and all filesystem
//! work are left to the surrounding application.

pub mod classify;
pub mod container;
pub mod driver;
pub mod progress;
pub mod rules;
pub mod strtools;
