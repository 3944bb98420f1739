//! A compiler from a small expression language to assembly text for a
//! machine with one accumulator and a stack of word-sized slots.
//!
//! The language has 32-bit integer literals, names, `let` with one or more
//! bindings, `add1` and `sub1`, and the binary operators `+`, `-` and `*`,
//! written in parenthesized prefix form.
//!
//! The way from text to program:
//!
//! - [`reader`] reads text into a token tree ([`token`]);
//! - [`parse`] builds the expression ([`ast`]) that a token tree denotes;
//! - [`codegen`] resolves names to stack slots ([`env`]) and emits
//!   instructions ([`instr`]), which [`instr`] also renders as text;
//! - [`program`] puts the steps together and frames the listing.
//!
//! What the result means:
//!
//! - [`machine`] is a model of the target machine, [`eval`] the meaning of
//!   the language;
//! - [`correct`] proves that compiled code computes the value of its
//!   expression and keeps clear of every slot in use;
//! - [`scope`] proves which expressions compile;
//! - [`emulate`] runs instructions as the model says.
//!
//! Failures are values ([`error`]); nothing here panics.

pub mod ast;
pub mod codegen;
pub mod correct;
pub mod emulate;
pub mod env;
pub mod error;
pub mod eval;
pub mod instr;
pub mod machine;
pub mod parse;
pub mod program;
pub mod reader;
pub mod scope;
pub mod token;
