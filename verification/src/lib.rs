//! ChimeraScript: a small language for writing tests against HTTP services.
//!
//! The library holds the language itself: its grammar and parser, the syntax
//! tree, the run-time data model, the commands, and the test runner that
//! turns a parsed script into test results.
pub mod text;
pub mod err_handle;
pub mod float;
pub mod literal;
pub mod frontend;
pub mod abstract_syntax_tree;
pub mod variable_map;
pub mod util;
pub mod commands;
pub mod testing;
pub mod grammar;
pub mod properties;
