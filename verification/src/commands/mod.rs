//! The commands a statement runs.
pub mod expression;
pub mod assertion;
pub mod assignment;
pub mod print;
