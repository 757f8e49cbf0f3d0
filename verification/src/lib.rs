//! A small expression language for dated cash-flow scripts: a lexer, a
//! recursive-descent parser, an indexing pass that resolves variables and
//! market lookups to dense slots, and a stack-machine evaluator that runs the
//! resulting tree against market scenarios.
//!
//! Numbers are carried as the bit patterns of IEEE-754 doubles (`u64`); the
//! library itself never computes on them.  Wherever the evaluator needs an
//! arithmetic result, a market quote or a numeraire, it stops and hands the
//! caller a [`evaluator::Request`]; the caller computes the answer and runs
//! the evaluation again with the answer appended to its tape.  Everything
//! else - tokenizing, parsing, slot resolution, the evaluation order, the
//! typed stacks and the variable vector - is specified and verified here.

pub mod errors;
pub mod strutil;
pub mod market;
pub mod nodes;
pub mod lexer;
pub mod parser;
pub mod indexer;
pub mod events;
pub mod evaluator;
pub mod stream;

pub use errors::ScriptingError;
pub use errors::ScriptingResult;
