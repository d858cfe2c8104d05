//! An interpreter core for a small stack-oriented, statically typed language.
//!
//! Source text is tokenized (`lexer`), parsed into statements (`parser`), checked by
//! abstract interpretation of the operand stack's types (`type_check`, `statement`),
//! and run against an operand stack and a table of bindings (`exec`, `runtime`).
//! Each stage is specified by spec functions: `lexer::lex`, `parser::spec_program`,
//! `statement::check_seq`; the executor is proved to agree with the checker, so an
//! accepted program never underflows the stack nor meets a value of the wrong type.
pub mod exec;
pub mod flow;
pub mod keyword;
pub mod lexer;
pub mod loc;
pub mod object;
pub mod parser;
pub mod runtime;
pub mod statement;
mod text;
pub mod type_check;
