//! The semantic model: types, expressions, and the facts that the stages of the compiler read.
pub mod db;
pub mod diagnostic;
pub mod expr;
pub mod imp;
pub mod impl_function;
pub mod laws;
pub mod program;
pub mod syntax;
pub mod types;
