//! Batch engine for normalizing French customer records and collapsing
//! duplicate rows into clusters.
//!
//! The crate is organised after the stages of the pipeline:
//! - [`chars`], [`seqops`], [`numtext`]: character- and sequence-level
//!   helpers shared by every field transform;
//! - [`fold`]: diacritic folding and case mapping for Latin-1 letters;
//! - [`transforms`]: the per-field canonicalizers;
//! - [`schemas`]: the logical fields and their physical column labels
//!   in the two datasets;
//! - [`frame`]: records and frames, the unit every stage works on;
//! - [`pipeline`]: column-wise normalization, the deduplication run
//!   and the cancellation checkpoints;
//! - [`dedup`]: candidate pairs, cluster construction and subset
//!   pruning;
//! - [`partition`]: sharding of candidate rows by their name;
//! - [`reconcile`]: merging cluster rows back into the frame;
//! - [`config`], [`ctx`], [`error`]: the run's options, the caller's
//!   context and the error taxonomy.

pub mod chars;
pub mod config;
pub mod ctx;
pub mod dedup;
pub mod error;
pub mod fold;
pub mod frame;
pub mod numtext;
pub mod partition;
pub mod pipeline;
pub mod reconcile;
pub mod schemas;
pub mod seqops;
pub mod transforms;
