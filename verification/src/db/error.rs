use vstd::prelude::*;

verus! {

/// Errors of the in-memory database.
#[derive(Debug, PartialEq)]
pub enum DbError {
    TableNotFound(String),
    ColumnNotFound { table: String, column: String },
    ColumnCountMismatch { expected: usize, found: usize },
    ConstraintAlreadyExists { table: String, constraint: String },
}

} // verus!
