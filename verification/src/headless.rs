//! The fixed headless experiment: projection records, the clean-rebuild
//! oracle's comparison, the bounded headless trace, synthetic platform and
//! renderer adapters, and verification of stored headless artifacts.

pub mod geometry;
pub mod oracle;
pub mod trace;
pub mod platform;
pub mod renderer;
pub mod runner;
pub mod artifact;
