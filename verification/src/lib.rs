//! A small language of boolean invariants over transaction parameters:
//! its value model, binary format, opcodes, compiler and interpreter.

pub mod compiler;
pub mod interpreter;
pub mod parser;
pub mod types;
