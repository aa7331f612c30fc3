//! A personal time clock: sessions of work on a named project are recorded
//! in an append-only, line-based log, and summarized into all-time, weekly
//! and daily totals.
//!
//! A log line is `"<start>,<end>"` for a closed session or `"<start>,"`
//! for the one still open, timestamps in Unix epoch seconds. The weekly
//! and daily windows are calendar-aligned: they open at local midnight of
//! the day six days ago and of today (see `sys::local_window_starts`).
//! One invocation performs one action; nothing guards the log against
//! concurrent writers, which a single-user local tool accepts.

pub mod laws;
pub mod num;
pub mod record;
pub mod store;
pub mod summary;
pub mod sys;
pub mod text;
