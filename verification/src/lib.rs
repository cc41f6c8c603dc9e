//! Statistical summary reports for completed benchmark runs.
//!
//! A run is a sequence of outcomes: each request attempt either succeeded,
//! with a measured duration (in nanoseconds), a response byte length and a
//! status code, or failed with an error text. From such a sequence and the
//! total wall-clock duration of the run, this crate computes aggregate
//! statistics, a duration histogram, nearest-rank tail percentiles and
//! status/error distributions, and renders them as deterministic,
//! fixed-format text.

pub mod bytesize;
pub mod distribution;
pub mod histogram;
pub mod percentile;
pub mod render;
pub mod sortseq;
pub mod stats;
pub mod textfmt;
