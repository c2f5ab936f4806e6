//! Capture and storage of span lifecycles and events.
//!
//! The crate tracks named units of work ("spans") through their
//! enter/exit/close lifecycle, computes per-span busy and idle time, and
//! keeps the resulting records in an insertion-ordered store with
//! time-bounded eviction of finished work.

pub mod storage;
pub mod timing_layer;

pub use storage::{EventRecord, Level, SpanRecord, TraceStore};
pub use timing_layer::{State, Timing, TimingLayer};
