//! Reports the runtime state of service-manager units: how unit names are
//! normalised, which transition timestamp belongs to each coarse state, how
//! per-unit lookups proceed and fail, and how the collected results are
//! ordered for presentation.

pub mod unit;
pub mod results;
pub mod fetch;
pub mod json;
pub mod printer;
