//! A Lox implementation whose front end, tree-walking evaluator and bytecode
//! machine are proved against their contracts.
//!
//! The front end turns source text into tokens ([`scanner`]), tokens into a
//! syntax tree in an arena ([`parser`], against the grammar in [`grammar`]),
//! and notes for each use of a variable how far out its binding lies
//! ([`resolver`]). The evaluator ([`interpreter`]) walks the tree; the
//! bytecode machine ([`vm`]) runs chunks of instructions ([`chunk`],
//! [`opcode`]).
//!
//! The library never touches floating-point hardware, the clock or standard
//! output: the evaluator and the bytecode machine hand such work to their host
//! as requests and take the answers back as plain values.

pub mod error;
pub mod reporter;
pub mod span;
pub mod text;

pub mod scanner;
pub mod tokens;

pub mod ast;
pub mod expr;
pub mod grammar;
pub mod parser;
pub mod resolver;

pub mod chain;
pub mod environment;
pub mod interpreter;
pub mod object;

pub mod chunk;
pub mod debug;
pub mod encoding;
pub mod opcode;
pub mod vm;
