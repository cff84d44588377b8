//! Valve KeyValues (VDF) text: the document tree, its parser, its writer and
//! path-based reading and writing of nested values.

pub mod crud;
pub mod laws;
pub mod parse;
pub mod unique;
pub mod value;

pub use value::VdfValue;
