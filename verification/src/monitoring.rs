//! What the engine counts and measures about itself.

pub mod metrics;
