pub mod error;
pub mod row;
pub mod table;

pub use error::DbError;
pub use row::{Column, Row};
pub use table::{Table, TableConstraint};
pub mod catalog;
pub mod database;

pub use database::Database;
