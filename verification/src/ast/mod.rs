use vstd::prelude::*;

use std::rc::Rc;

use crate::expr::value::Value;

verus! {

/// Binary operators, from loosest to tightest binding: `OR`, `AND`,
/// `=`/`!=`, `<`/`<=`/`>`/`>=`, `+`/`-`, `*`/`/`.
#[derive(Clone, Copy, Debug, PartialEq, Eq, Structural)]
pub enum BinaryOp {
    Or,
    And,
    Eq,
    Neq,
    Lt,
    Lte,
    Gt,
    Gte,
    Add,
    Sub,
    Mul,
    Div,
}

/// Prefix operators: `-` and `NOT`.
#[derive(Clone, Copy, Debug, PartialEq, Eq, Structural)]
pub enum UnaryOp {
    Neg,
    Not,
}

/// An expression.
#[derive(Debug, PartialEq)]
pub enum Expr {
    Literal(Value),
    Var(String),
    Unary { op: UnaryOp, expr: Box<Expr> },
    Binary { left: Box<Expr>, op: BinaryOp, right: Box<Expr> },
    Sysdate,
    Call { name: String, args: Vec<Expr> },
}

/// The kind of a join.
#[derive(Clone, Copy, Debug, PartialEq, Eq, Structural)]
pub enum JoinKind {
    Inner,
    Left,
    Right,
    Outer,
}

/// A table named in a query, with an optional alias.
#[derive(Clone, Debug, PartialEq)]
pub struct QuerySource {
    pub table: String,
    pub alias: Option<String>,
}

/// `[kind] JOIN source ON condition`.
#[derive(Debug, PartialEq)]
pub struct JoinClause {
    pub kind: JoinKind,
    pub source: QuerySource,
    pub on: Expr,
}

/// `SELECT list FROM source [joins] [WHERE condition]`.
#[derive(Debug, PartialEq)]
pub struct CursorQuery {
    pub select_list: Vec<Expr>,
    pub from: QuerySource,
    pub joins: Vec<JoinClause>,
    pub where_clause: Option<Expr>,
}

/// `CREATE TABLE table (columns)`.
#[derive(Debug, PartialEq)]
pub struct CreateTableStatement {
    pub table: String,
    pub columns: Vec<String>,
}

/// `ALTER TABLE table action`.
#[derive(Debug, PartialEq)]
pub struct AlterTableStatement {
    pub table: String,
    pub action: AlterTableAction,
}

/// The change an `ALTER TABLE` makes.
#[derive(Debug, PartialEq)]
pub enum AlterTableAction {
    AddConstraint { name: String, columns: Vec<String> },
}

/// `DROP TABLE table`.
#[derive(Debug, PartialEq)]
pub struct DropTableStatement {
    pub table: String,
}

/// `SELECT list INTO targets FROM ...`.
#[derive(Debug, PartialEq)]
pub struct SelectIntoTarget {
    pub targets: Vec<String>,
    pub query: CursorQuery,
}

/// `INSERT INTO table [(columns)] VALUES (values)`.
#[derive(Debug, PartialEq)]
pub struct InsertStatement {
    pub table: String,
    pub columns: Option<Vec<String>>,
    pub values: Vec<Expr>,
}

/// `column = value` in an `UPDATE`.
#[derive(Debug, PartialEq)]
pub struct UpdateAssignment {
    pub column: String,
    pub value: Expr,
}

/// `UPDATE table SET assignments [WHERE condition]`.
#[derive(Debug, PartialEq)]
pub struct UpdateStatement {
    pub table: String,
    pub assignments: Vec<UpdateAssignment>,
    pub where_clause: Option<Expr>,
}

/// `DELETE FROM table [WHERE condition]`.
#[derive(Debug, PartialEq)]
pub struct DeleteStatement {
    pub table: String,
    pub where_clause: Option<Expr>,
}

/// Which exceptions a handler catches.
#[derive(Debug, PartialEq)]
pub enum ExceptionCondition {
    Named(String),
    Others,
}

/// `WHEN condition THEN statements`.
#[derive(Debug, PartialEq)]
pub struct ExceptionHandler {
    pub condition: ExceptionCondition,
    pub statements: Vec<Statement>,
}

/// One `ELSIF condition THEN statements` branch.
#[derive(Debug, PartialEq)]
pub struct IfBranch {
    pub condition: Expr,
    pub statements: Vec<Statement>,
}

/// Procedure or function.
#[derive(Clone, Copy, Debug, PartialEq, Eq, Structural)]
pub enum RoutineKind {
    Procedure,
    Function,
}

/// A routine parameter and its declared type.
#[derive(Clone, Debug, PartialEq, Eq)]
pub struct RoutineParameter {
    pub name: String,
    pub declared_type: String,
}

/// A procedure or function declaration.
#[derive(Debug, PartialEq)]
pub struct RoutineDeclaration {
    pub kind: RoutineKind,
    pub name: String,
    pub parameters: Vec<RoutineParameter>,
    pub return_type: Option<String>,
    pub body: Box<Block>,
}

/// When a row trigger runs.
#[derive(Clone, Copy, Debug, PartialEq, Eq, Structural)]
pub enum TriggerTiming {
    Before,
    After,
}

/// The statement kind a row trigger reacts to.
#[derive(Clone, Copy, Debug, PartialEq, Eq, Structural)]
pub enum TriggerEvent {
    Insert,
    Update,
    Delete,
}

/// `TRIGGER name timing event ON table body`.
#[derive(Debug, PartialEq)]
pub struct TriggerDeclaration {
    pub name: String,
    pub timing: TriggerTiming,
    pub event: TriggerEvent,
    pub table: String,
    pub body: Block,
}

/// One item of a `DECLARE` section: a variable (with its declared type), an
/// exception, a cursor, a trigger or a routine.
#[derive(Debug, PartialEq)]
pub struct Declaration {
    pub name: String,
    pub declared_type: String,
    pub init_value: Option<Expr>,
    pub cursor_query: Option<Rc<CursorQuery>>,
    pub trigger: Option<Rc<TriggerDeclaration>>,
    pub routine: Option<Rc<RoutineDeclaration>>,
}

/// `[DECLARE ...] BEGIN ... [EXCEPTION ...] END;`
#[derive(Debug, PartialEq)]
pub struct Block {
    pub declarations: Vec<Declaration>,
    pub statements: Vec<Statement>,
    pub exception_handlers: Vec<ExceptionHandler>,
}

/// A statement.
#[derive(Debug, PartialEq)]
pub enum Statement {
    Block(Box<Block>),
    If {
        condition: Expr,
        then_branch: Vec<Statement>,
        elsif_branches: Vec<IfBranch>,
        else_branch: Option<Vec<Statement>>,
    },
    While { condition: Expr, body: Vec<Statement> },
    Loop { body: Vec<Statement> },
    For { variable: String, start: Expr, end: Expr, body: Vec<Statement> },
    Exit { condition: Option<Expr> },
    Raise { name: String },
    Commit,
    Rollback,
    OpenCursor { name: String },
    FetchCursor { name: String, targets: Vec<String> },
    CloseCursor { name: String },
    CursorFor { targets: Vec<String>, cursor: String, body: Vec<Statement> },
    SelectInto(SelectIntoTarget),
    Insert(InsertStatement),
    Update(UpdateStatement),
    Delete(DeleteStatement),
    CreateTable(CreateTableStatement),
    AlterTable(AlterTableStatement),
    DropTable(DropTableStatement),
    Call { name: String, args: Vec<Expr> },
    Return(Option<Expr>),
    Expression(Expr),
    Assignment { name: String, value: Expr },
}

/// Another handle to the same shared declaration (`Rc::clone`).
#[verifier::external_body]
pub fn share<T>(rc: &Rc<T>) -> (r: Rc<T>)
    ensures
        r == *rc,
{
    Rc::clone(rc)
}

} // verus!
