//! Core engine of a terminal dashboard that tails several remote log files at
//! once: bounded per-source history, scroll/viewport reconciliation,
//! Unicode-aware line wrapping, ordered-regex highlighting, grid layout, and
//! the per-source connection state machine.

pub mod config;
pub mod dashboard;
pub mod highlight;
pub mod history;
pub mod layout;
pub mod session;
pub mod viewport;
pub mod wrap;
