//! Reflection of a relational database's schema: assembly of a normalized
//! in-memory model from raw catalog query results, validated construction of
//! the catalog query text, and deterministic serialization of the model as a
//! versioned TOML document. The catalog queries themselves are I/O and are
//! issued by the surrounding program, which feeds their rows to the assembler
//! here as plain values.

pub mod assemble;
pub mod model;
pub mod parse;
pub mod queries;
pub mod render;
pub mod text;

pub use model::{Schema, Table, Column, ForeignKey, Index, TableEntry};
