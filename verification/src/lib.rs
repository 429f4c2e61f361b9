//! Lowering of structural pattern matching with boolean guards into an
//! if/else-if chain of an imperative target language, together with the
//! dependency-manifest records that the surrounding build tooling serialises.

pub mod ast;
pub mod format;
pub mod target;
pub mod env;
pub mod matcher;
pub mod guard;
pub mod lower;
pub mod printer;
pub mod manifest;
pub mod semantics;
