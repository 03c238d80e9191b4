//! An adaptive execution engine for a small expression language.
//!
//! Expressions are interpreted by default. The dispatcher counts how often each distinct
//! expression is submitted and, once one becomes hot, asks the code generator for a
//! native instruction sequence and records it in a bounded cache.
//!
//! - `ast`, `env`: expressions and the bindings they are evaluated under.
//! - `lexer`, `grammar`, `parser`: from a source text to an expression.
//! - `interpreter`: the reference semantics.
//! - `layout`, `codegen`, `stack`, `order`, `machine`, `decode`, `memory`: generated
//!   code, its stack discipline, why the order of operands is free, what the code
//!   computes, how its bytes are read back, and the region that holds it.
//! - `fingerprint`, `cache`, `jit`: the key of an expression, the hotspot cache and the
//!   dispatcher.
//! - `laws`, `structure`: what holds over any sequence of submissions, and what depends on
//!   the structure of an expression alone.
//! - `dump`, `report`, `api`, `text`, `clock`: reports, the transport layer's
//!   computations, and helpers.

pub mod api;
pub mod ast;
pub mod cache;
pub mod clock;
pub mod codegen;
pub mod decode;
pub mod dump;
pub mod env;
pub mod fingerprint;
pub mod grammar;
pub mod interpreter;
pub mod jit;
pub mod laws;
pub mod layout;
pub mod lexer;
pub mod machine;
pub mod memory;
pub mod order;
pub mod parser;
pub mod report;
pub mod stack;
pub mod structure;
pub mod text;
