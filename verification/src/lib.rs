//! A parser for the scripting dialect that drives conformance tests of a
//! WebAssembly engine: source text mixing binary module payloads, quoted and
//! inline module definitions, invocations, and assertions about returned
//! values, traps, and malformed or invalid modules.
//!
//! The lexer and the inline-module grammar come from the wain crates and are
//! trusted at their interface (see `lex`); everything above them — the
//! lookahead discipline, the integer and float constant decoders, the escape
//! decoder, and the directive grammar with its one speculative rollback — is
//! verified against the reference grammar in `parser`.

pub mod ast;
pub mod error;
pub mod escape;
pub mod fp;
pub mod lex;
pub mod num;
pub mod parser;
pub mod token;
pub mod util;
