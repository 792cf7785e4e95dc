//! Deterministic, bounded test support for the Fenestra UI runtime: replay
//! validation, identity ledgers, observation limits, failure reduction and the
//! headless projection oracle, stated and proved over plain values.

pub mod case;
pub mod error;
pub mod semantic;
pub mod failure;
pub mod fingerprint;
pub mod fixture;
pub mod replay;
pub mod trace;
pub mod identity;
pub mod scheduler;
pub mod observe;
pub mod reducer;
pub mod model;
pub mod headless;
