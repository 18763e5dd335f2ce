//! Pieces of an e-graph prelude with their contracts: the rational-number
//! sort and its primitives, query results, literal conversions, expression
//! builders, and the decisions behind rules written in Rust (which tables
//! they use, and what a lookup from them does next).

pub mod bignum;
pub mod bigrat;
pub mod query;
pub mod literal;
pub mod exprs;
pub mod wiring;
pub mod rule_lookup;
