//! The lowering of function bodies to blocks of simple statements.
pub mod arms;
pub mod bind;
pub mod binding;
pub mod branching;
pub mod calls;
pub mod context;
pub mod defined_once;
pub mod every_step;
pub mod expressions;
pub mod external;
pub mod function;
pub mod functions;
pub mod generators;
pub mod keeps;
pub mod laws;
pub mod leave;
pub mod lower;
pub mod lowered_expr;
pub mod merge;
pub mod merging;
pub mod model;
pub mod objects;
pub mod pattern;
pub mod propagate;
pub mod returning;
pub mod scope;
pub mod steps;
pub mod waiting;
