//! A single TIS-100 style processing node: an assembler for its line-oriented
//! language and a fetch-decode-execute engine for the assembled program.
pub mod instructions;
pub mod text;
pub mod labels;
pub mod assembler;
pub mod node;
pub mod laws;
