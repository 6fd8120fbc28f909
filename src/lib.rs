//! Composes remote calendar feeds into filtered, rewritten, merged feeds.
//!
//! The library holds the configuration model and its load-time validation,
//! the per-event step pipeline, the merge of a calendar's sources and the
//! store that swaps configuration snapshots on reload.

pub mod case;
pub mod config;
pub mod error;
pub mod fetcher;
pub mod ical;
pub mod merge;
pub mod parser;
pub mod pattern;
pub mod steps;
pub mod store;
pub mod text;
