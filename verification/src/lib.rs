//! Static type-checking core for a small block-structured imperative language
//! with records, arrays, named type aliases, integers, strings, a unit value,
//! and a `nil` literal assignable to record-typed storage.
//!
//! The crate represents types ([`ty`]), owns their identities in a scoped
//! table ([`table`]), resolves mutually recursive declaration batches while
//! detecting illegal pure-alias cycles ([`resolve`]), decides compatibility of
//! two resolved types ([`unify`]), and accumulates diagnostics ([`diag`]).

pub mod diag;
pub mod operation;
pub mod resolve;
pub mod table;
pub mod tok;
pub mod ty;
pub mod unify;
