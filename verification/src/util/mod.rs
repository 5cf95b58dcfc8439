//! The web client interface, the configuration, and timing.
pub mod client;
pub mod config;
pub mod timer;
