//! Execution core of a small dynamically typed scripting language:
//! a scanner that turns source text into tokens, a bytecode chunk
//! format with a constant pool and a line table, a disassembler that
//! renders chunks as text, and a stack virtual machine that executes
//! chunks.

pub mod value;
pub mod chunk;
pub mod scanner;
pub mod text;
pub mod disassembler;
pub mod vm;
pub mod compiler;
