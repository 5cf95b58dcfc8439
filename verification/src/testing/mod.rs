//! Helpers that let a script run without a terminal or a network.
pub mod util;
