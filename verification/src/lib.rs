//! Sampling-delta engine for CPU and block-device activity counters.
//!
//! The library models one point-in-time reading of cumulative kernel
//! counters, computes per-field deltas between consecutive readings
//! (saturating subtraction for cumulative fields, pass-through for the
//! single gauge field), classifies block devices into whole disks and
//! partitions, and derives reportable rates and percentages as exact
//! rational numbers. Reading the counter sources and rendering the
//! report are left to the surrounding program.

pub mod classify;
pub mod cycle;
pub mod devices;
pub mod metrics;
pub mod parse;
pub mod stats;
pub mod text;
