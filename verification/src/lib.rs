//! Optimal transport between agent distributions: the integer core.
//!
//! The numerical transport algorithms (Sinkhorn, Earth Mover's Distance,
//! JKO steps, barycenters) work on floating-point data and live in the
//! application crate. This library holds the parts of those algorithms that
//! are pure integer logic, each with a contract proved by Verus:
//!
//! - [`distribution`] — the deterministic linear congruential generator used
//!   for sampling, the stream of draws it produces, and the choice of a
//!   support index from a cumulative-distribution search.
//! - [`jko`] — the JKO trajectory: repeated application of a step.
//! - [`barycenter`] — the digits that place a point of the uniform reference
//!   grid.

pub mod barycenter;
pub mod distribution;
pub mod jko;

pub use barycenter::reference_grid_digits;
pub use distribution::SimpleRng;
pub use jko::jko_flow;
