pub mod eval;
pub mod fields;
pub mod number;
pub mod time;
pub mod value;

pub use crate::runtime::exec::eval;
pub use eval::EvalError;
pub use fields::Fields;
pub use number::Number;
pub use value::{DataType, Date, DateTime, Timestamp, Value};
