//! Core of a Liquid-compatible template engine.
//!
//! The crate turns textual templates into an executable representation and
//! renders them against a dynamically typed data tree:
//!
//! - [`value`] holds the data model: scalars, arrays, objects, and the
//!   truthiness and state-query rules of the Liquid dialect.
//! - [`object`] is the insertion-ordered string-keyed map used for data.
//! - [`num`] renders and parses decimal integers.
//! - [`array`] gives arrays their Liquid view: signed indexing and
//!   first / last access.
//! - [`find`] resolves a path of scalar keys inside a value tree.
//! - [`cmp`] decides equality, ordering and containment of values.
//! - [`stack`] is the lexically scoped variable stack of a render.
//! - [`runtime`] carries the stack, the interrupt state, the plugin
//!   registers and the partial store through a render.
//! - [`ast`] is the executable representation of a parsed template.
//! - [`interp`] renders nodes, pinned to a ghost interpreter.
//! - [`literal`] recognizes the lexical tokens of the language.
//! - [`expr`] parses expressions and conditions inside markup.
//! - [`tags`] is the language registry and the bundled tags.
//! - [`parser`] scans a source into segments and builds the nodes.
//! - [`laws`] states and proves the engine's cross-cutting laws.
//! - [`error`] is the structured error value used by parse and render.

pub mod array;
pub mod ast;
pub mod cmp;
pub mod error;
pub mod expr;
pub mod find;
pub mod interp;
pub mod laws;
pub mod literal;
pub mod num;
pub mod object;
pub mod parser;
pub mod runtime;
pub mod stack;
pub mod tags;
pub mod value;
