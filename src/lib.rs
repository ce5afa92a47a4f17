//! Configuration-driven cascading deletion of hierarchical records, with
//! identifier validation, a path sandbox and a schema fingerprint that gates
//! destructive work.

pub mod ident;
pub mod sandbox;
pub mod error;
pub mod fingerprint;
pub mod graph;
pub mod store;
pub mod cascade;
