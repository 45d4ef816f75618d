//! Conversion of interactive-shell command history between two shells'
//! history formats.
//!
//! The library is the whole transform pipeline: parsing history lines into
//! (timestamp, command) entries, translating control-flow operators between
//! the two shells' syntaxes by ordered substring substitution, and rendering
//! destination-format records.  Reading the source shell's history (a
//! subprocess) and writing the output file are left to the surrounding
//! program.
#![verifier::loop_isolation(false)]

pub mod errors;
pub mod pipeline;
pub mod reader;
pub mod text;
pub mod translate;
