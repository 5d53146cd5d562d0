//! A compile-and-execute pipeline for a small, statically scoped,
//! expression-oriented language: a bytecode compiler over its syntax
//! trees, a self-describing binary module format with a verified codec,
//! and a stack-based virtual machine over arbitrary-precision decimals.

pub mod ast;
pub mod checker;
pub mod codec;
pub mod compiler;
pub mod decoder;
pub mod instruction;
pub mod module;
pub mod number;
pub mod stack;
pub mod strings;
pub mod value;
pub mod vm;
