//! Control-plane logic of an inference laboratory: configuration composition,
//! topology planning, process allocation, readiness, cleanup and recording.

pub mod calendar;
pub mod dict;
pub mod digest;
pub mod error;
pub mod json_value;
pub mod paths;
pub mod process_group;
pub mod profiler;
pub mod progress;
pub mod protocol;
pub mod recipe;
pub mod record;
pub mod resolve;
pub mod scratchpad;
pub mod search;
pub mod server;
pub mod shell;
pub mod ssh;
pub mod text;
pub mod time_bound;
pub mod toml_override;
pub mod toml_value;
pub mod workspace;
