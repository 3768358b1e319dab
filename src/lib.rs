//! A bytecode compiler for a small imperative scripting language: it turns a
//! parsed syntax tree into a flat byte stream and a deduplicated constant table
//! for a stack-based virtual machine.
//!
//! Operands (constant addresses, slots) and jump distances are written as
//! 64-bit little-endian words on every platform.
use vstd::prelude::*;

pub mod compiler;
pub mod laws;
pub mod scheme;
pub mod syntax;
pub mod vm;

