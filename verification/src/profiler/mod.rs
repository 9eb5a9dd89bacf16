//! Profiling: targets, capture plans, captures and the agents of the profiler.

pub mod agent;
pub mod capture;
pub mod plan;
pub mod target;
