//! WebAssembly interpreter: binary format parser, validator and side-table, with proofs.
use vstd::prelude::*;

pub mod applet;
pub mod bit_field;
pub mod cursor;
pub mod error;
pub mod exec;
pub mod format;
pub mod module;
pub mod numeric;
pub mod parser;
pub mod runtime;
pub mod side_table;
pub mod syntax;
pub mod valid;

verus! {

} // verus!
