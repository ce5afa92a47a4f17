use vstd::prelude::*;

verus! {

/// Failures that abort a run.
#[derive(Debug)]
pub enum CascadeError {
    /// A table, column or predicate name failed the identifier check.
    InvalidIdentifier(String),
    /// The store's schema fingerprint differs from the configured one.
    SchemaMismatch { expected: String, actual: String },
    /// No workflow node has an empty parent.
    NoRootFound,
    /// More than one workflow node has an empty parent.
    AmbiguousRoot,
    /// The relational store refused a query or a statement.
    Store(rusqlite::Error),
}

} // verus!
