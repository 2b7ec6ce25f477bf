//! Fact-extraction front end for a Polonius-style borrow-checking analyzer.
//!
//! The crate models a small mid-level intermediate representation (a
//! control-flow graph of basic blocks whose statements use named origins on
//! reference types), resolves projected places to their types and origin
//! sets, indexes the loans created by borrow expressions, and emits the
//! relational facts that a downstream Datalog solver consumes.

pub mod ast;
pub mod fact_emitter;
pub mod fact_table;
pub mod facts;
pub mod invalidates;
pub mod laws;
pub mod loans;
pub mod render;
pub mod resolve;
pub mod span;
pub mod subsets;
