//! Name resolution for a small language whose function calls are conjugated
//! for tense: the scope stack, the tense-aware resolver, the binder that ties
//! every identifier of a syntax tree to its declaration, and the diagnostic
//! trace in which failures are reported. With it comes the step before: how
//! the syntax tree is built from the matches of the grammar's rules.

pub mod binding;
pub mod error;
pub mod number;
pub mod parsing;
pub mod scope;
pub mod semantics;
pub mod tense;
pub mod text;
