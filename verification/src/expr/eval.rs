use vstd::prelude::*;

use super::fields::{field_entries, fields_eq, records_agree};
use super::number::{fits_i64, Number};
use super::value::{chars_of, type_name_spec, type_of, DataType, Value};
use crate::ast::{BinaryOp, UnaryOp};

verus! {

/// Errors raised while running a block.
#[derive(Debug, PartialEq)]
pub enum EvalError {
    UndefinedVariable(String),
    UnhandledException(String),
    TableNotFound(String),
    ColumnNotFound { table: String, column: String },
    ColumnCountMismatch { expected: usize, found: usize },
    NoDataFound,
    TooManyRows,
    CursorAlreadyDeclared(String),
    CursorNotDeclared(String),
    CursorAlreadyOpen(String),
    CursorNotOpen(String),
    TriggerAlreadyDeclared(String),
    ConstraintAlreadyExists { table: String, constraint: String },
    RoutineAlreadyDeclared(String),
    RoutineNotDeclared(String),
    RoutineArgumentCountMismatch { routine: String, expected: usize, found: usize },
    AmbiguousColumn(String),
    QueryQualifierAlreadyDeclared(String),
    ExitOutsideLoop,
    ReturnOutsideRoutine,
    TypeError(String),
    DivisionByZero,
    NumericOverflow,
    StepLimitExceeded,
}

/// `a@ + b@`, as a new string.
pub fn concat2(a: &str, b: &str) -> (r: String)
    ensures
        r@ == a@ + b@,
{
    let mut s = a.to_owned();
    s.append(b);
    s
}

/// `a@ + b@ + c@ + d@`, as a new string.
pub fn concat4(a: &str, b: &str, c: &str, d: &str) -> (r: String)
    ensures
        r@ == a@ + b@ + c@ + d@,
{
    let mut s = a.to_owned();
    s.append(b);
    s.append(c);
    s.append(d);
    s
}

/// The message of a type error about one operand.
pub open spec fn message1(prefix: Seq<char>, v: Value) -> Seq<char> {
    prefix + type_name_spec(type_of(v))
}

/// The message of a type error about two operands.
pub open spec fn message2(prefix: Seq<char>, a: Value, middle: Seq<char>, b: Value) -> Seq<char> {
    prefix + type_name_spec(type_of(a)) + middle + type_name_spec(type_of(b))
}

/// `r` is a type error with message `m`.
pub open spec fn is_type_error(r: Result<Value, EvalError>, m: Seq<char>) -> bool {
    r matches Err(EvalError::TypeError(s)) && s@ == m
}

/// `r` holds a number denoting `n / d`, or is an overflow that happens only
/// when `n` or `d` does not fit in `i64`.
pub open spec fn number_outcome(r: Result<Value, EvalError>, n: int, d: int) -> bool {
    match r {
        Ok(Value::Number(x)) => x.denotes(n, d),
        Err(EvalError::NumericOverflow) => !(fits_i64(n) && fits_i64(d)),
        _ => false,
    }
}

/// Lexicographic order on character sequences (by code point).
pub open spec fn seq_less(a: Seq<char>, b: Seq<char>) -> bool
    decreases a.len(),
{
    if a.len() == 0 {
        b.len() > 0
    } else if b.len() == 0 {
        false
    } else if a[0] != b[0] {
        (a[0] as u32) < (b[0] as u32)
    } else {
        seq_less(a.drop_first(), b.drop_first())
    }
}

/// Equality of two values as the `=` operator sees it. Records are compared
/// by `fields_eq`, of which only part is stated, so for two records this
/// holds only when their entries are identical.
pub open spec fn values_equal_spec(a: Value, b: Value) -> bool {
    match (a, b) {
        (Value::Null, Value::Null) => true,
        (Value::Number(x), Value::Number(y)) => x.numer() * y.denom() == y.numer() * x.denom(),
        (Value::Text(x), Value::Text(y)) => x@ == y@,
        (Value::Bool(x), Value::Bool(y)) => x == y,
        (Value::Date(x), Value::Date(y)) => x == y,
        (Value::Timestamp(x), Value::Timestamp(y)) => x == y,
        (Value::DateTime(x), Value::DateTime(y)) => x.utc == y.utc,
        _ => false,
    }
}

/// `a` and `b` are records that agree field by field (see `records_agree`).
pub open spec fn records_equal(a: Value, b: Value) -> bool {
    match (a, b) {
        (Value::Record(x), Value::Record(y)) => records_agree(x, y),
        _ => false,
    }
}

/// What the unary operator `op` gives on `v`.
pub open spec fn unary_outcome(op: UnaryOp, v: Value, r: Result<Value, EvalError>) -> bool {
    match op {
        UnaryOp::Neg => match v {
            Value::Number(n) => if n.numer() == i64::MIN {
                r matches Err(EvalError::NumericOverflow)
            } else {
                r matches Ok(Value::Number(x)) && x.numer() == -n.numer() && x.denom() == n.denom()
            },
            Value::Null => r == Ok::<Value, EvalError>(Value::Null),
            _ => is_type_error(r, message1("cannot negate value of type "@, v)),
        },
        UnaryOp::Not => match v {
            Value::Bool(b) => r == Ok::<Value, EvalError>(Value::Bool(!b)),
            Value::Null => r == Ok::<Value, EvalError>(Value::Null),
            _ => is_type_error(r, message1("cannot apply NOT to value of type "@, v)),
        },
    }
}

/// What the binary operator `op` gives on `a` and `b`.
pub open spec fn binary_outcome(op: BinaryOp, a: Value, b: Value, r: Result<Value, EvalError>) -> bool {
    match op {
        BinaryOp::Add => match (a, b) {
            (Value::Number(x), Value::Number(y)) => number_outcome(
                r,
                x.numer() * y.denom() + y.numer() * x.denom(),
                x.denom() * y.denom(),
            ),
            (Value::Text(x), Value::Text(y)) => r matches Ok(Value::Text(s)) && s@ == x@ + y@,
            (Value::Null, _) | (_, Value::Null) => r == Ok::<Value, EvalError>(Value::Null),
            _ => is_type_error(r, message2("cannot add "@, a, " and "@, b)),
        },
        BinaryOp::Sub => match (a, b) {
            (Value::Number(x), Value::Number(y)) => number_outcome(
                r,
                x.numer() * y.denom() - y.numer() * x.denom(),
                x.denom() * y.denom(),
            ),
            (Value::Null, _) | (_, Value::Null) => r == Ok::<Value, EvalError>(Value::Null),
            _ => is_type_error(r, message2("expected numbers, got "@, a, " and "@, b)),
        },
        BinaryOp::Mul => match (a, b) {
            (Value::Number(x), Value::Number(y)) => number_outcome(
                r,
                x.numer() * y.numer(),
                x.denom() * y.denom(),
            ),
            (Value::Null, _) | (_, Value::Null) => r == Ok::<Value, EvalError>(Value::Null),
            _ => is_type_error(r, message2("expected numbers, got "@, a, " and "@, b)),
        },
        BinaryOp::Div => match (a, b) {
            (Value::Number(x), Value::Number(y)) => if y.numer() == 0 {
                r matches Err(EvalError::DivisionByZero)
            } else {
                match r {
                    Ok(Value::Number(q)) => q.denotes(
                        x.numer() * y.denom(),
                        x.denom() * y.numer(),
                    ),
                    Err(EvalError::NumericOverflow) => {
                        let n = x.numer() * y.denom();
                        let d = x.denom() * y.numer();
                        if d < 0 {
                            !(fits_i64(-n) && fits_i64(-d))
                        } else {
                            !(fits_i64(n) && fits_i64(d))
                        }
                    },
                    _ => false,
                }
            },
            (Value::Null, _) | (_, Value::Null) => r == Ok::<Value, EvalError>(Value::Null),
            _ => is_type_error(r, message2("cannot divide "@, a, " by "@, b)),
        },
        BinaryOp::Eq => match r {
            Ok(Value::Bool(t)) => (values_equal_spec(a, b) ==> t) && (t ==> (records_equal(a, b) || values_equal_spec(a, b))),
            _ => false,
        },
        BinaryOp::Neq => match r {
            Ok(Value::Bool(t)) => (values_equal_spec(a, b) ==> !t) && (!t ==> (records_equal(a, b) || values_equal_spec(a, b))),
            _ => false,
        },
        BinaryOp::Lt | BinaryOp::Lte | BinaryOp::Gt | BinaryOp::Gte => match (a, b) {
            (Value::Number(x), Value::Number(y)) => r == Ok::<Value, EvalError>(
                Value::Bool(
                    compare_holds(
                        op,
                        x.numer() * y.denom() < y.numer() * x.denom(),
                        x.numer() * y.denom() == y.numer() * x.denom(),
                    ),
                ),
            ),
            (Value::Text(x), Value::Text(y)) => r == Ok::<Value, EvalError>(
                Value::Bool(compare_holds(op, seq_less(x@, y@), x@ == y@)),
            ),
            (Value::Null, _) | (_, Value::Null) => r == Ok::<Value, EvalError>(Value::Null),
            _ => is_type_error(r, message2("cannot compare "@, a, " and "@, b)),
        },
        BinaryOp::And => match (a, b) {
            (Value::Bool(x), Value::Bool(y)) => r == Ok::<Value, EvalError>(Value::Bool(x && y)),
            (Value::Null, _) | (_, Value::Null) => r == Ok::<Value, EvalError>(Value::Null),
            _ => is_type_error(r, message2("cannot apply AND to "@, a, " and "@, b)),
        },
        BinaryOp::Or => match (a, b) {
            (Value::Bool(x), Value::Bool(y)) => r == Ok::<Value, EvalError>(Value::Bool(x || y)),
            (Value::Null, _) | (_, Value::Null) => r == Ok::<Value, EvalError>(Value::Null),
            _ => is_type_error(r, message2("cannot apply OR to "@, a, " and "@, b)),
        },
    }
}

/// The truth of an ordering operator given "less" and "equal".
pub open spec fn compare_holds(op: BinaryOp, less: bool, equal: bool) -> bool {
    match op {
        BinaryOp::Lt => less,
        BinaryOp::Lte => less || equal,
        BinaryOp::Gt => !less && !equal,
        _ => !less,
    }
}

/// Lexicographic comparison of two strings: (less, equal).
pub fn compare_text(a: &String, b: &String) -> (r: (bool, bool))
    ensures
        r.0 == seq_less(a@, b@),
        r.1 == (a@ == b@),
{
    let x = chars_of(a.as_str());
    let y = chars_of(b.as_str());
    let mut i: usize = 0;
    assert(x@.skip(0) =~= x@);
    assert(y@.skip(0) =~= y@);
    while i < x.len() && i < y.len() && x[i] == y[i]
        invariant
            i <= x@.len(),
            i <= y@.len(),
            x@.subrange(0, i as int) == y@.subrange(0, i as int),
            seq_less(x@, y@) == seq_less(x@.skip(i as int), y@.skip(i as int)),
        decreases x@.len() - i,
    {
        proof {
            assert(x@.skip(i as int).drop_first() =~= x@.skip(i + 1));
            assert(y@.skip(i as int).drop_first() =~= y@.skip(i + 1));
            assert(x@.subrange(0, i + 1) =~= x@.subrange(0, i as int).push(x@[i as int]));
            assert(y@.subrange(0, i + 1) =~= y@.subrange(0, i as int).push(y@[i as int]));
        }
        i += 1;
    }
    if i == x.len() && i == y.len() {
        assert(x@ =~= x@.subrange(0, i as int));
        assert(y@ =~= y@.subrange(0, i as int));
        assert(x@.skip(i as int).len() == 0);
        (false, true)
    } else if i == x.len() {
        assert(x@.skip(i as int).len() == 0);
        assert(x@ != y@ ==> true) by {
            assert(x@.len() != y@.len());
        }
        (true, false)
    } else if i == y.len() {
        assert(y@.skip(i as int).len() == 0);
        assert(x@.len() != y@.len());
        (false, false)
    } else {
        assert(x@.skip(i as int)[0] == x@[i as int]);
        assert(y@.skip(i as int)[0] == y@[i as int]);
        assert(x@[i as int] != y@[i as int]);
        assert(x@ != y@);
        ((x[i] as u32) < (y[i] as u32), false)
    }
}

/// Equality as the `=` operator sees it.
pub fn values_equal(a: &Value, b: &Value) -> (r: bool)
    ensures
        values_equal_spec(*a, *b) ==> r,
        r ==> ((*a matches Value::Record(_) && *b matches Value::Record(_)) || values_equal_spec(*a, *b)),
        r ==> type_of(*a) == type_of(*b),
        r ==> match (*a, *b) {
            (Value::Record(x), Value::Record(y)) => records_agree(x, y),
            _ => true,
        },
{
    match (a, b) {
        (Value::Null, Value::Null) => true,
        (Value::Number(x), Value::Number(y)) => x.same_value(y),
        (Value::Text(x), Value::Text(y)) => *x == *y,
        (Value::Bool(x), Value::Bool(y)) => *x == *y,
        (Value::Date(x), Value::Date(y)) => *x == *y,
        (Value::Timestamp(x), Value::Timestamp(y)) => *x == *y,
        (Value::DateTime(x), Value::DateTime(y)) => x.utc == y.utc,
        (Value::Record(x), Value::Record(y)) => fields_eq(x, y),
        _ => false,
    }
}

/// Applies a unary operator.
pub fn eval_unary(op: &UnaryOp, value: Value) -> (r: Result<Value, EvalError>)
    ensures
        unary_outcome(*op, value, r),
{
    match op {
        UnaryOp::Neg => match value {
            Value::Number(n) => match n.checked_neg() {
                Some(m) => Ok(Value::Number(m)),
                None => Err(EvalError::NumericOverflow),
            },
            Value::Null => Ok(Value::Null),
            other => Err(EvalError::TypeError(concat2("cannot negate value of type ", other.type_label()))),
        },
        UnaryOp::Not => match value {
            Value::Bool(b) => Ok(Value::Bool(!b)),
            Value::Null => Ok(Value::Null),
            other => Err(
                EvalError::TypeError(concat2("cannot apply NOT to value of type ", other.type_label())),
            ),
        },
    }
}

fn number_result(r: Option<Number>) -> (out: Result<Value, EvalError>)
    ensures
        r matches Some(x) ==> out == Ok::<Value, EvalError>(Value::Number(x)),
        r is None ==> out matches Err(EvalError::NumericOverflow),
{
    match r {
        Some(x) => Ok(Value::Number(x)),
        None => Err(EvalError::NumericOverflow),
    }
}

fn type_error2(prefix: &str, a: &Value, middle: &str, b: &Value) -> (r: Result<Value, EvalError>)
    ensures
        is_type_error(r, message2(prefix@, *a, middle@, *b)),
{
    Err(EvalError::TypeError(concat4(prefix, a.type_label(), middle, b.type_label())))
}

/// Applies a binary operator.
pub fn eval_binary(op: &BinaryOp, lhs: Value, rhs: Value) -> (r: Result<Value, EvalError>)
    ensures
        binary_outcome(*op, lhs, rhs, r),
{
    match op {
        BinaryOp::Add => match (&lhs, &rhs) {
            (Value::Number(a), Value::Number(b)) => number_result(a.checked_add(b)),
            (Value::Text(a), Value::Text(b)) => Ok(Value::Text(concat2(a.as_str(), b.as_str()))),
            (Value::Null, _) | (_, Value::Null) => Ok(Value::Null),
            _ => type_error2("cannot add ", &lhs, " and ", &rhs),
        },
        BinaryOp::Sub => match (&lhs, &rhs) {
            (Value::Number(a), Value::Number(b)) => number_result(a.checked_sub(b)),
            (Value::Null, _) | (_, Value::Null) => Ok(Value::Null),
            _ => type_error2("expected numbers, got ", &lhs, " and ", &rhs),
        },
        BinaryOp::Mul => match (&lhs, &rhs) {
            (Value::Number(a), Value::Number(b)) => number_result(a.checked_mul(b)),
            (Value::Null, _) | (_, Value::Null) => Ok(Value::Null),
            _ => type_error2("expected numbers, got ", &lhs, " and ", &rhs),
        },
        BinaryOp::Div => match (&lhs, &rhs) {
            (Value::Number(a), Value::Number(b)) => {
                if b.is_zero() {
                    Err(EvalError::DivisionByZero)
                } else {
                    number_result(a.checked_div(b))
                }
            },
            (Value::Null, _) | (_, Value::Null) => Ok(Value::Null),
            _ => type_error2("cannot divide ", &lhs, " by ", &rhs),
        },
        BinaryOp::Eq => Ok(Value::Bool(values_equal(&lhs, &rhs))),
        BinaryOp::Neq => Ok(Value::Bool(!values_equal(&lhs, &rhs))),
        BinaryOp::Lt | BinaryOp::Lte | BinaryOp::Gt | BinaryOp::Gte => compare_binary(op, &lhs, &rhs),
        BinaryOp::And => match (&lhs, &rhs) {
            (Value::Bool(a), Value::Bool(b)) => Ok(Value::Bool(*a && *b)),
            (Value::Null, _) | (_, Value::Null) => Ok(Value::Null),
            _ => type_error2("cannot apply AND to ", &lhs, " and ", &rhs),
        },
        BinaryOp::Or => match (&lhs, &rhs) {
            (Value::Bool(a), Value::Bool(b)) => Ok(Value::Bool(*a || *b)),
            (Value::Null, _) | (_, Value::Null) => Ok(Value::Null),
            _ => type_error2("cannot apply OR to ", &lhs, " and ", &rhs),
        },
    }
}

fn compare_binary(op: &BinaryOp, lhs: &Value, rhs: &Value) -> (r: Result<Value, EvalError>)
    requires
        *op is Lt || *op is Lte || *op is Gt || *op is Gte,
    ensures
        binary_outcome(*op, *lhs, *rhs, r),
{
    match (lhs, rhs) {
        (Value::Number(a), Value::Number(b)) => {
            let less = a.less_than(b);
            let equal = a.same_value(b);
            Ok(Value::Bool(holds(op, less, equal)))
        },
        (Value::Text(a), Value::Text(b)) => {
            let (less, equal) = compare_text(a, b);
            Ok(Value::Bool(holds(op, less, equal)))
        },
        (Value::Null, _) | (_, Value::Null) => Ok(Value::Null),
        _ => type_error2("cannot compare ", lhs, " and ", rhs),
    }
}

fn holds(op: &BinaryOp, less: bool, equal: bool) -> (r: bool)
    ensures
        r == compare_holds(*op, less, equal),
{
    match op {
        BinaryOp::Lt => less,
        BinaryOp::Lte => less || equal,
        BinaryOp::Gt => !less && !equal,
        _ => !less,
    }
}

} // verus!
