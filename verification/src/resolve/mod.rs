//! Resolution: from definitions, bindings and an integration's plan to the
//! processes that are launched.

pub mod allocation;
pub mod composition;
pub mod effective;
pub mod execution;
pub mod hierarchy;
pub mod integration;
pub mod planning;
pub mod realization;
pub mod rendering;
pub mod requirements;
pub mod selection;
pub mod synthetic_acceptance;
pub mod topology;
pub mod workflow;
