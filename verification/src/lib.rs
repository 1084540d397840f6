//! An in-memory counting service: how many times has a key been seen recently?
//!
//! The cache counts the touches of each key and forgets a key once it has been
//! idle for the configured window. Time is always handed in as milliseconds
//! since the epoch, so every rule about expiry is a statement about integers.

pub mod cache;
pub mod clock;
pub mod entry;
pub mod laws;
pub mod model;
pub mod service;
pub mod settings;
