//! A two-pass assembler for the Hack machine language.
//!
//! The library turns assembly source text into its 16-bit binary machine
//! code, one instruction per output line.  Labels are resolved in a first
//! pass over the source, variables are allocated in the second, and every
//! stage is specified and verified against a mathematical model of the
//! translation.

pub mod assembler;
pub mod chars;
pub mod encode;
pub mod instruction;
pub mod normalize;
pub mod parser;
pub mod pipeline;
pub mod symbols;
