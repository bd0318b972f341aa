//! Position-mapping and source-span query engine backing an editor
//! integration (hover, completion, diagnostics) for a small expression
//! language.
//!
//! Document text is handled as UTF-8 bytes throughout: offsets are byte
//! offsets, while the `character` component of a [`position::Position`]
//! counts Unicode scalar values.

pub mod ast;
pub mod bytes;
pub mod cli;
pub mod config;
pub mod errors;
pub mod handlers;
pub mod position;
pub mod repl;
pub mod store;
pub mod workbench;
