//! A personal command-line time tracker's core: named tasks with running
//! timers, duration arithmetic, a token codec for durations, and an
//! id-keyed task store with archiving.
//!
//! The crate holds the verified logic alone; reading the clock and the
//! local-time rendering of timestamps are trusted calls into `chrono`,
//! and persistence and the command line live outside the library.

pub mod clock;
pub mod codec;
pub mod errors;
pub mod task;
pub mod store;
