//! A verified core for a personal time tracker.
//!
//! Tasks are started, paused, resumed and stopped; each carries the
//! intervals of active work it has accumulated. Tasks are grouped into
//! categories derived from a `#tag` token in their description, and a
//! summary engine aggregates durations and status counts per category
//! over an optional lookback window.

pub mod categorization;
pub mod config;
pub mod data;
pub mod digits;
pub mod lifecycle;
pub mod summary;
