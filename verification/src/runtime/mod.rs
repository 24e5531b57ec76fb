pub mod dml;
pub mod env;
pub mod exec;
pub mod names;
pub mod query;
pub mod routine;
pub mod semantics;

pub use env::Environment;
pub use exec::{eval, execute_block, execute_block_collect_values, ExecFlow};
pub use dml::{execute_delete, execute_insert, execute_select_into, execute_update};
