//! Incremental query core for a SQL model project.
//!
//! A set of files ("models") reference each other through `{{ ref('name') }}`
//! markers. This crate answers derived questions about those files — does a
//! file define a model, what does it reference, what diagnostics apply —
//! cheaply and correctly as file contents change one file at a time, through
//! a dependency-tracked memoization engine. Every derived query records
//! which input cells and which other queries it read; a cached result is
//! reused when every recorded dependency still has the value it was read
//! with, even when an upstream input changed in between (early cutoff).
//!
//! The public face is three capability traits layered on one engine type:
//! [`Inputs`] (writing and reading input cells), [`Syntax`] (model and
//! reference extraction, the model registry) and [`Semantic`] (reference
//! resolution and diagnostics), all implemented by [`Database`], an explicit
//! owned value with no global state.

mod api;
mod data;
mod engine;
mod queries;
mod text;
mod values;

pub use api::{Inputs, Semantic, Syntax};
pub use data::{DbError, Diagnostic, DiagnosticSeverity, DiagnosticView, Model, ModelView};
pub use engine::Database;
pub use queries::{QueryKeyView, StoreView};
pub use values::QueryKey;
