//! Core logic of a clip-export pipeline for long-form video: segmentation of a
//! timeline into clip intervals, classification of a transcoder's diagnostic
//! stream, selection of a rendering pipeline from caption content, and
//! bookkeeping for batch exports.
//!
//! All times are carried as whole milliseconds, which makes every timestamp
//! comparison exact. The external tools themselves (transcoder, prober,
//! fetcher, speech-to-text) run outside this crate; this crate computes what
//! to ask them and what their answers mean.

pub mod batch;
pub mod captions;
pub mod clip;
pub mod fetch;
pub mod invocations;
pub mod numbers;
pub mod outcome;
pub mod probe;
pub mod segment;
pub mod setup;
pub mod stream;
pub mod text;
