//! An interpreter for a whitespace-encoded, stack-based esoteric language.
//!
//! Programs are sequences of space, tab and linefeed characters; every other
//! character is discarded before decoding. The [`parser::Parser`] turns the
//! filtered text into a sequence of typed instructions ([`token::Token`]),
//! and the [`virtual_machine::VirtualMachine`] executes them against an
//! evaluation stack, a sparse heap and a call stack.

pub mod numbers;
pub mod parser;
pub mod parser_error;
pub mod token;
pub mod virtual_machine;
pub mod vm_error;
