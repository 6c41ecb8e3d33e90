//! Log deduplication, IP masking and alert decisions for the telemetry shrinker.

pub mod json;
pub mod pattern;
pub mod text;
pub mod message;
pub mod config;
pub mod dedup;
pub mod output;
pub mod alert;
pub mod processor;
