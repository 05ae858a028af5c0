//! A podcast fetch-dedup-download pipeline.
//!
//! The library plans and tracks the work of downloading new podcast
//! episodes: it derives target paths, selects and bounds feed entries,
//! keeps a persistent idempotency log of claimed episodes (backed by
//! SQLite), and drives the claim-then-download dispatch over a flat
//! work list. Network and filesystem effects are left to the caller;
//! the library decides what to do and records what happened.

pub mod downloader;
pub mod errors;
pub mod logger;
pub mod pipeline;
pub mod paths;
