//! A foreground-activity time tracker: the sampling and aggregation engine.
//!
//! Each tick, the active-window probe (run by the host program) yields the
//! focused application and window, or nothing. The tracker attributes one
//! period of time to that (application, window) pair; the summary groups the
//! accumulated time by application for display.
use vstd::prelude::*;

pub mod probe;
pub mod scheduler;
pub mod summary;
pub mod tracker;

verus! {

} // verus!
