//! A verified interpreter for a minimal instruction-tape language.
//!
//! Eight single-character operations manipulate a pointer into a
//! fixed-size array of byte cells; bracket pairs form loops keyed on the
//! current cell's value. The pipeline has three stages: the [`lexer`]
//! classifies every character of the source into a token, the [`parser`]
//! builds a nested program tree by recursive descent, and the
//! [`interp`] module walks that tree against a mutable tape, producing
//! an output byte sequence and consuming input bytes on demand.
//!
//! Every stage carries a full functional contract: the token stream, the
//! program tree and the evaluation outcome are each pinned down by spec
//! functions, and the executable code is proved to match them.

pub mod ast;
pub mod interp;
pub mod lexer;
pub mod parser;
pub mod semantics;

pub use interp::run;
