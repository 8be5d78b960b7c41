//! The front end of a C compiler: source positions and the registry of source files,
//! diagnostics, a bump arena, and the lexer for preprocessing tokens.

use vstd::prelude::*;

pub mod align;
pub mod arena;
pub mod ascii;
pub mod boxed;
pub mod cli;
pub mod cursor;
pub mod diag;
pub mod grammar;
pub mod lexer;
pub mod prelude;
pub mod source;
pub mod span;
pub mod token;

verus! {

/// Byte offset into the content of one source file. Files are limited to 4 GiB.
pub type BytePos = u32;

} // verus!
