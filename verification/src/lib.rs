//! Two stages of the Cairo compiler: the semantic model of `impl` items, and the lowering of
//! function bodies to blocks of simple statements.
pub mod collections;
pub mod diagnostics;
pub mod ids;
pub mod interner;
pub mod lowering;
pub mod outside;
pub mod semantic;
