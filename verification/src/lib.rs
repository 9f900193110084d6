//! A bytecode compiler and a stack virtual machine for the Monkey language.
//!
//! The crate is organised leaves first:
//!
//! - [`text`] builds the decimal numbers of listings and messages;
//! - [`code`] defines the instruction encoding: the opcodes, `make`,
//!   `read_operands` and the disassembler;
//! - [`error`] holds the errors of the virtual machine;
//! - [`object`] defines the run-time values, the heap of arrays and hash
//!   maps that they refer to, and the builtin functions;
//! - [`ast`] is the syntax tree that the compiler consumes;
//! - [`compiler`] turns a tree into bytecode, with its symbol tables;
//! - [`vm`] executes bytecode;
//! - [`repl`] says what a read-evaluate-print loop does with a program.
//!
//! Every function states what it computes over mathematical models of its
//! arguments: `compiler::compile::compile_node` is what the compiler emits
//! for a node, `vm::run::step` what one instruction does to the machine.
//! The machine itself neither prints nor sleeps: where a program asks for
//! either, `VM::run` returns and the host finds what to do in
//! `VM::take_effect`.
pub mod text;
pub mod code;
pub mod error;
pub mod object;
pub mod ast;
pub mod compiler;
pub mod vm;
pub mod repl;
