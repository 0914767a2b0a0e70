//! Verified core of a binding library for the clingo answer set solver.
//!
//! Symbols are values (terms of a logic program) whose meaning is a
//! [`Term`]; they can be built, taken apart, printed and read into typed
//! Rust values ([`Symbolic`], [`SymbolicArgs`], [`Fun`]). The decisions
//! around clingo's C interface live here too: the codes of its enums and
//! bitsets, error checking, the outcome of a solve call that reports models
//! to a callback, configuration paths, the ground program seen by an
//! observer, snapshots of models grouped by predicate, and the `Symbolic`
//! impl derived from the shape of a type.

pub mod cache;
pub mod config;
pub mod control;
pub mod deriving;
pub mod error;
pub mod fun;
pub mod naming;
pub mod observer;
pub mod solve;
pub mod symbol;
pub mod text;

pub use cache::ModelCache;
pub use config::{parse_path, value_text, PathSegment};
pub use control::{TruthValue, Warning};
pub use deriving::{derive_text, enum_variant, struct_arguments, Fields, Shape};
pub use error::{check, ClingoError, ClingoErrorCode, Error};
pub use fun::{atoms_named, f0, Fun, Symbolic, SymbolicArgs, SymbolicFun, F0};
pub use naming::{snake_case_from, to_snake_case};
pub use observer::{Atom, ExternalType, GroundStatement, Literal, ObserverState, RawStatement, Sign};
pub use solve::{CallbackState, ShowType, SolveResult};
pub use symbol::{Symbol, SymbolType, SymbolValue, Term};
