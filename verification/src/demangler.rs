//! A bounded recursive-descent demangler.
//!
//! Mangled bytes go through a [`cursor::Cursor`] into the productions of
//! [`parser`], which fill a fixed-capacity arena of [`ast`] nodes; the
//! renderer in [`render`] turns the arena into display text on demand.
//! [`grammar`] states, as mathematical functions on byte sequences, what
//! every production accepts and builds.

pub mod ast;
pub mod cursor;
pub mod error;
pub mod grammar;
pub mod number;
pub mod parser;
pub mod primitive;
pub mod render;
pub mod symbol;
pub mod text;
pub mod theorems;
pub mod wellformed;

pub use ast::Path;
pub use error::Error;
pub use symbol::Symbol;
