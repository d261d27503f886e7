//! A two-pass assembler for a 16-bit-instruction virtual machine with
//! sixteen 8-bit general-purpose registers and one 16-bit index register.
//!
//! The pipeline turns mnemonic source text into a flat stream of 2-byte
//! big-endian instruction words: the parser splits the text into label
//! definitions and instruction statements, the operand classifier turns each
//! operand token into a typed value, the instruction model builds one
//! instruction variant per statement, and the assembler collects label
//! addresses in a first pass and rewrites symbolic address operands in a
//! second pass before encoding.

pub mod address;
pub mod assembler;
pub mod argument;
pub mod error;
pub mod instruction;
pub mod parser;
pub mod register;
