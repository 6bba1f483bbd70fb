//! Banish: a small language of rule-based state machines.
//!
//! A program is an ordered list of states, each an ordered list of rules.
//! The library parses the surface syntax from a token sequence, checks its
//! structure, resolves transitions to state indices, and runs the result as an
//! explicit step machine whose host work (conditions, statements) is done by
//! the caller.
pub mod ast;
pub mod engine;
mod host;
pub mod parse;
pub mod token;
pub mod validate;

pub use ast::{BanishStmt, Context, HostCode, Rule, State};
pub use engine::{Action, Machine, Phase, Program, Reply, RuleShape};
pub use parse::ParseError;
pub use token::{Delim, Tok};
pub use validate::{check, ValidateError};
