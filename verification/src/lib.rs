//! An interpreter for a PL/SQL-like block language over an in-memory database.

pub mod ast;
pub mod cursors;
pub mod db;
pub mod expr;
pub mod laws;
pub mod parser;
pub mod routines;
pub mod runtime;
pub mod triggers;
pub mod tx;
