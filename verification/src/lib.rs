//! An expression language for templating: a lexer, a parser, a bytecode
//! compiler, a stack based virtual machine and a disassembler.
pub mod span;
pub mod text;
pub mod types;
pub mod errors;
pub mod value;
pub mod builtins;
pub mod ast;
pub mod opcode;
pub mod lookup;
pub mod compiler;
pub mod vm;
pub mod semantics;
pub mod lexer;
pub mod parser;
pub mod disassembler;
pub mod diagnostics;
pub mod cli;
pub mod cliutil;
pub mod prelude;
