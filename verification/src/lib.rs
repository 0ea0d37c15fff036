//! Guide star selection for the acquisition, guiding and wavefront sensing
//! (AGWS) probes of a segmented telescope.
//!
//! The library holds the bookkeeping and the decisions of the selection:
//! which stars each probe arm can reach, which star serves the tip-tilt (TT7)
//! sensor, which triplet of stars serves the Shack-Hartmann (SH) sensors, how
//! the triplet is spread over the probes, and how configuration units and
//! catalog dispositions are read.  Every figure of merit that the selection
//! compares (errors, distances, azimuth mismatches, wavefront estimates)
//! reaches the library as an order key: an integer that orders exactly as the
//! physical quantity does.

pub mod catalog;
pub mod errors;
pub mod models;
pub mod monte_carlo;
pub mod probe;
pub mod selection;
pub mod text;
pub mod time;
pub mod units;
