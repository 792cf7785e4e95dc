//! Stored evidence of one headless run, and its verification against a fresh
//! replay of the registered fixture.

pub mod compare;
pub mod model;
pub mod verify;
