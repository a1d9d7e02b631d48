//! A two-pass assembler for the Hack machine language.
//!
//! A source text becomes machine code in three steps. The [`parser`] keeps
//! the instruction lines of the text and tells each line's kind and fields.
//! A first pass binds every label to the position of the instruction behind
//! it; a second pass encodes the instructions, with the bit patterns of
//! [`code`], and gives each new name a variable's address. Both passes, and
//! [`assemble`], which runs them, are in [`assembler`].
//!
//! What the machine code of a text is, is said once, in [`program`], over
//! sequences of characters; the executable functions are proved to compute
//! exactly that. [`laws`] holds what follows for every program.

pub mod assembler;
pub mod code;
pub mod config;
pub mod error;
pub mod laws;
pub mod parser;
pub mod program;
pub mod symbols;
pub mod text;

pub use assembler::{assemble, first_pass, second_pass, HackAssembler};
pub use code::Code;
pub use config::Config;
pub use error::AssembleError;
pub use parser::{Instruction, Parser};
pub use symbols::SymbolTable;
