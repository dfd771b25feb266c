//! Aggregation of readings of a host into a store of labelled metric series,
//! and the life cycle of the collection loop that feeds the store.
//!
//! - [`model`] is the mathematical model of the store and of the rules by
//!   which an observation is folded into a family; [`store`] is the store.
//! - [`sample`] holds a reading of the host as plain values; [`catalog`]
//!   lists the families that are kept; [`aggregate`] says what a reading
//!   does to each of them, and [`metrics`] does it.
//! - [`state`] is the life cycle of the loop: started, asked to stop, seen
//!   at the top of an iteration, stopped.
//! - [`laws`] and [`cycle`] prove what holds of the families after a cycle:
//!   which names they hold, the sums, the earliest start and the longest
//!   run, and that counters do not fall.
//!
//! Every value is an unsigned 64-bit integer. Sums stay at `u64::MAX` once
//! they would pass it, and a usage is counted in thousandths of a percent.

pub mod aggregate;
pub mod catalog;
pub mod cycle;
pub mod decimal;
pub mod laws;
pub mod metrics;
pub mod model;
pub mod sample;
pub mod state;
pub mod store;
