//! A compiler for a small dynamically typed language of expressions in
//! prefix syntax. It reads a parse tree, checks it, and emits x86-64
//! assembly text that computes the value of the program's main expression
//! in `rax`, with inline type checks and overflow checks.
//!
//! The front end is in `reader`, `syntax` and `parser`, the emitted code in
//! `layout`, `codegen`, `compiler` and `program`, its text in `printer`, and
//! the whole way from source text to assembly text in `driver`. What the
//! emitted code does when it runs is stated over a model of the processor in
//! `machine` and a reference meaning of expressions in `semantics`, and
//! proved in `induction`, `calling`, `looping` and `laws`.

pub mod calling;
pub mod codegen;
pub mod compiler;
pub mod driver;
pub mod env;
pub mod error;
pub mod induction;
pub mod labelling;
pub mod labels;
pub mod laws;
pub mod layout;
pub mod legality;
pub mod limits;
pub mod looping;
pub mod machine;
pub mod parser;
pub mod printer;
pub mod program;
pub mod reader;
pub mod scoping;
pub mod semantics;
pub mod soundness;
pub mod syntax;
pub mod text;
pub mod types;
