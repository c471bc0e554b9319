//! Extraction of numeric time series from semi-structured text logs.
//!
//! The crate parses two families of log lines (resource-usage logs and
//! benchmark-stage logs), normalizes their textual timestamps to
//! epoch-seconds integers, extracts ordered sample sequences, and aligns
//! two independently timestamped series onto a common axis. Rendering and
//! file I/O live outside the library.

pub mod align;
pub mod calendar;
pub mod extract;
pub mod paths;
pub mod timestamp;
pub mod tokenize;
