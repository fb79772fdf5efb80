//! Small arithmetic expressions: text to tokens, tokens to an arena of nodes,
//! and an arena to values, one at a time or for a batch of sweep values.
//!
//! A number is carried through the library as the 64 bits of its IEEE 754
//! binary64 pattern, in an unsigned integer. The callers turn their numbers
//! into patterns and back; the library does its arithmetic in the four lanes
//! of `wide`, and every result that is not a number comes out as the one
//! pattern `arith::NAN`.
//!
//! Policies that the grammar leaves to the implementation:
//! - a name without value evaluates to zero;
//! - `-` is always an operator and never part of a literal;
//! - a character that belongs to no token becomes `Token::Unknown`, which
//!   the tokenizer hands on and the parser answers with a fault.

pub mod arith;
pub mod interpreter;
pub mod jit_gate;
pub mod lexer;
pub mod parser;
pub mod text;
pub mod theory;

pub use jit_gate::{health_fields, is_valid_key, jit_available, jit_enabled, jit_reason, license_valid, JitConfig};
