use vstd::prelude::*;

use super::expr::{args_at, expr_at, list_at};
use super::lexer::{Sym, Token, TokenKind};
use super::stream::{is_name, is_word, name_at, names_at, sym_is, word_is};
use crate::ast::{
    AlterTableAction, Block, CursorQuery, Declaration, ExceptionCondition, ExceptionHandler, Expr, IfBranch,
    JoinClause, JoinKind, QuerySource, RoutineKind, RoutineParameter, Statement, TriggerEvent,
    TriggerTiming, UpdateAssignment,
};

verus! {

// The grammar of blocks, as relations between a token span `[i, j)` and
// the syntax it spells. Each relation is stated for spans inside the
// tokens; where a part of a span has no fixed length, an `exists` names
// the position where it ends.

/// `k` is a position between tokens (or at either end).
pub open spec fn position(toks: Seq<Token>, k: int) -> bool {
    0 <= k <= toks.len()
}

/// The token at `k` is the word `w`, as written.
pub open spec fn any_word_at(toks: Seq<Token>, k: int, w: String) -> bool {
    0 <= k < toks.len() && toks[k].kind == TokenKind::Word(w)
}

/// `[i, j)` spells the parameters `ps` as `name type` pairs separated by
/// commas.
pub open spec fn param_list_at(toks: Seq<Token>, i: int, ps: Seq<RoutineParameter>, j: int) -> bool
    decreases ps.len(),
{
    if ps.len() == 0 {
        false
    } else {
        &&& name_at(toks, j - 2, ps.last().name)
        &&& any_word_at(toks, j - 1, ps.last().declared_type)
        &&& if ps.len() == 1 {
            j == i + 2
        } else {
            sym_is(toks, j - 3, Sym::Comma) && param_list_at(toks, i, ps.drop_last(), j - 3)
        }
    }
}

/// `[i, j)` spells `( parameters )`, possibly with no parameter.
pub open spec fn params_at(toks: Seq<Token>, i: int, ps: Seq<RoutineParameter>, j: int) -> bool {
    &&& sym_is(toks, i, Sym::LParen)
    &&& sym_is(toks, j - 1, Sym::RParen)
    &&& if ps.len() == 0 {
        j == i + 2
    } else {
        param_list_at(toks, i + 1, ps, j - 1)
    }
}

/// `[i, j)` spells the query source `s`: a table name and an optional
/// alias, which is taken whenever a name follows.
pub open spec fn source_at(toks: Seq<Token>, i: int, s: QuerySource, j: int) -> bool {
    &&& name_at(toks, i, s.table)
    &&& match s.alias {
        Some(a) => j == i + 2 && name_at(toks, i + 1, a),
        None => j == i + 1 && !is_name(toks, i + 1),
    }
}

/// `[i, j)` spells the words of a join of kind `kind`, up to and with
/// `JOIN`.
pub open spec fn join_kind_at(toks: Seq<Token>, i: int, kind: JoinKind, j: int) -> bool {
    if word_is(toks, i, "JOIN"@) {
        kind == JoinKind::Inner && j == i + 1
    } else if word_is(toks, i, "INNER"@) {
        kind == JoinKind::Inner && word_is(toks, i + 1, "JOIN"@) && j == i + 2
    } else if word_is(toks, i, "LEFT"@) || word_is(toks, i, "RIGHT"@) {
        &&& kind == (if word_is(toks, i, "LEFT"@) {
            JoinKind::Left
        } else {
            JoinKind::Right
        })
        &&& if word_is(toks, i + 1, "OUTER"@) {
            word_is(toks, i + 2, "JOIN"@) && j == i + 3
        } else {
            word_is(toks, i + 1, "JOIN"@) && j == i + 2
        }
    } else {
        word_is(toks, i, "OUTER"@) && kind == JoinKind::Outer && word_is(toks, i + 1, "JOIN"@) && j == i + 2
    }
}

/// `[i, j)` spells the join `c`: its kind, its source, `ON` and its
/// condition.
pub open spec fn join_at(toks: Seq<Token>, i: int, c: JoinClause, j: int) -> bool {
    exists|k1: int, k2: int|
        #![trigger join_kind_at(toks, i, c.kind, k1), word_is(toks, k2, "ON"@)]
        i < k1 < k2 < j && join_kind_at(toks, i, c.kind, k1) && source_at(toks, k1, c.source, k2) && word_is(
            toks,
            k2,
            "ON"@,
        ) && expr_at(toks, 7, k2 + 1, c.on, j)
}

/// `[i, j)` spells the joins `cs`, one after the other.
pub open spec fn joins_at(toks: Seq<Token>, i: int, cs: Seq<JoinClause>, j: int) -> bool
    decreases cs.len(),
{
    if cs.len() == 0 {
        j == i
    } else {
        exists|k: int| #[trigger] position(toks, k) && i <= k < j && joins_at(toks, i, cs.drop_last(), k) && join_at(toks, k, cs.last(), j)
    }
}

/// `[i, j)` spells the optional `WHERE` condition `w`; none is read when
/// no `WHERE` follows.
pub open spec fn where_at(toks: Seq<Token>, i: int, w: Option<Expr>, j: int) -> bool {
    match w {
        Some(e) => word_is(toks, i, "WHERE"@) && expr_at(toks, 7, i + 1, e, j),
        None => j == i && !word_is(toks, i, "WHERE"@),
    }
}

/// `[i, j)` spells the optional `INTO` list `targets`.
pub open spec fn into_at(toks: Seq<Token>, i: int, targets: Seq<String>, j: int) -> bool {
    if word_is(toks, i, "INTO"@) {
        names_at(toks, i + 1, targets, j)
    } else {
        targets.len() == 0 && j == i
    }
}

/// `[i, j)` spells, after `SELECT`, the query `q` with the `INTO` list
/// `targets`: the select list, the `INTO` list, `FROM`, the source, the
/// joins and the `WHERE` condition.
pub open spec fn query_at(toks: Seq<Token>, i: int, q: CursorQuery, targets: Seq<String>, j: int) -> bool {
    exists|k1: int, k2: int|
        #![trigger position(toks, k1), word_is(toks, k2, "FROM"@)]
        i < k1 <= k2 < j && list_at(toks, i, q.select_list@, k1) && into_at(toks, k1, targets, k2) && word_is(
            toks,
            k2,
            "FROM"@,
        ) && from_at(toks, k2 + 1, q, j)
}

/// `[i, j)` spells the source, joins and `WHERE` condition of `q`.
pub open spec fn from_at(toks: Seq<Token>, i: int, q: CursorQuery, j: int) -> bool {
    exists|k1: int, k2: int|
        #![trigger position(toks, k1), position(toks, k2)]
        i < k1 <= k2 <= j && source_at(toks, i, q.from, k1) && joins_at(toks, k1, q.joins@, k2) && where_at(
            toks,
            k2,
            q.where_clause,
            j,
        )
}

/// `[i, j)` spells the optional column list `cols` of an `INSERT`.
pub open spec fn columns_at(toks: Seq<Token>, i: int, cols: Option<Vec<String>>, j: int) -> bool {
    match cols {
        Some(c) => sym_is(toks, i, Sym::LParen) && sym_is(toks, j - 1, Sym::RParen) && names_at(
            toks,
            i + 1,
            c@,
            j - 1,
        ),
        None => j == i && !sym_is(toks, i, Sym::LParen),
    }
}

/// `[i, j)` spells the assignments `as_` of an `UPDATE`, separated by
/// commas.
pub open spec fn assignments_at(toks: Seq<Token>, i: int, as_: Seq<UpdateAssignment>, j: int) -> bool
    decreases as_.len(),
{
    if as_.len() == 0 {
        false
    } else {
        exists|k: int|
            #[trigger] sym_is(toks, k + 1, Sym::Eq) && name_at(toks, k, as_.last().column) && expr_at(
                toks,
                7,
                k + 2,
                as_.last().value,
                j,
            ) && if as_.len() == 1 {
                k == i
            } else {
                sym_is(toks, k - 1, Sym::Comma) && assignments_at(toks, i, as_.drop_last(), k - 1)
            }
    }
}

/// `[i, j)` spells the timing of a trigger.
pub open spec fn timing_at(toks: Seq<Token>, i: int, t: TriggerTiming) -> bool {
    match t {
        TriggerTiming::Before => word_is(toks, i, "BEFORE"@),
        TriggerTiming::After => word_is(toks, i, "AFTER"@),
    }
}

/// The token at `i` names the event of a trigger.
pub open spec fn event_at(toks: Seq<Token>, i: int, e: TriggerEvent) -> bool {
    match e {
        TriggerEvent::Insert => word_is(toks, i, "INSERT"@),
        TriggerEvent::Update => word_is(toks, i, "UPDATE"@),
        TriggerEvent::Delete => word_is(toks, i, "DELETE"@),
    }
}

/// `[i, j)` spells the block `b`:
/// `[DECLARE declarations] BEGIN statements [EXCEPTION handlers] END [;]`.
pub open spec fn block_at(toks: Seq<Token>, i: int, b: Block, j: int) -> bool
    decreases j - i, 1int,
{
    if !(0 <= i <= j <= toks.len()) {
        false
    } else {
        exists|k1: int, k2: int|
            #![trigger word_is(toks, k1, "BEGIN"@), word_is(toks, k2, "END"@)]
            i <= k1 < k2 < j && word_is(toks, k1, "BEGIN"@) && word_is(toks, k2, "END"@) && (if word_is(
                toks,
                i,
                "DECLARE"@,
            ) {
                i < k1 && decls_at(toks, i + 1, b.declarations@, k1)
            } else {
                k1 == i && b.declarations@.len() == 0
            }) && body_at(toks, k1 + 1, b.statements@, b.exception_handlers@, k2) && if sym_is(
                toks,
                k2 + 1,
                Sym::Semicolon,
            ) {
                j == k2 + 2
            } else {
                j == k2 + 1
            }
    }
}

/// `[i, j)` spells the statements and exception handlers of a block.
pub open spec fn body_at(toks: Seq<Token>, i: int, ss: Seq<Statement>, hs: Seq<ExceptionHandler>, j: int) -> bool
    decreases j - i, 4int,
{
    if !(0 <= i <= j <= toks.len()) {
        false
    } else {
        exists|k: int|
            #[trigger] position(toks, k) && i <= k <= j && stmts_at(toks, i, ss, k) && if word_is(
                toks,
                k,
                "EXCEPTION"@,
            ) {
                k < j && handlers_at(toks, k + 1, hs, j)
            } else {
                j == k && hs.len() == 0
            }
    }
}

/// `[i, j)` spells the declarations `ds`, one after the other.
pub open spec fn decls_at(toks: Seq<Token>, i: int, ds: Seq<Declaration>, j: int) -> bool
    decreases j - i, 5int,
{
    if !(0 <= i <= j <= toks.len()) {
        false
    } else if ds.len() == 0 {
        j == i
    } else {
        exists|k: int|
            #[trigger] position(toks, k) && i <= k < j && decls_at(toks, i, ds.drop_last(), k) && decl_at(
                toks,
                k,
                ds.last(),
                j,
            )
    }
}

/// `d` has no initial value, cursor, trigger or routine.
pub open spec fn plain(d: Declaration) -> bool {
    d.init_value is None && d.cursor_query is None && d.trigger is None && d.routine is None
}

/// `[i, j)` spells the declaration `d`: `CURSOR name IS SELECT query;`, a
/// trigger, a function or procedure, `name EXCEPTION;` or
/// `name type [:= expression];`.
pub open spec fn decl_at(toks: Seq<Token>, i: int, d: Declaration, j: int) -> bool
    decreases j - i, 4int,
{
    if !(0 <= i < j <= toks.len()) {
        false
    } else if word_is(toks, i, "CURSOR"@) {
        &&& name_at(toks, i + 1, d.name)
        &&& word_is(toks, i + 2, "IS"@)
        &&& word_is(toks, i + 3, "SELECT"@)
        &&& d.declared_type@ == "CURSOR"@
        &&& d.init_value is None && d.trigger is None && d.routine is None
        &&& d.cursor_query matches Some(q) && exists|targets: Seq<String>|
            #[trigger] query_at(toks, i + 4, *q, targets, j - 1) && sym_is(toks, j - 1, Sym::Semicolon)
    } else if word_is(toks, i, "TRIGGER"@) {
        &&& d.declared_type@ == "TRIGGER"@
        &&& d.init_value is None && d.cursor_query is None && d.routine is None
        &&& d.trigger matches Some(t) && {
            &&& d.name@ == t.name@
            &&& name_at(toks, i + 1, t.name)
            &&& timing_at(toks, i + 2, t.timing)
            &&& event_at(toks, i + 3, t.event)
            &&& word_is(toks, i + 4, "ON"@)
            &&& name_at(toks, i + 5, t.table)
            &&& i + 6 < j && block_at(toks, i + 6, t.body, j)
        }
    } else if word_is(toks, i, "FUNCTION"@) || word_is(toks, i, "PROCEDURE"@) {
        &&& d.init_value is None && d.cursor_query is None && d.trigger is None
        &&& d.routine matches Some(r) && {
            &&& r.kind == (if word_is(toks, i, "FUNCTION"@) {
                RoutineKind::Function
            } else {
                RoutineKind::Procedure
            })
            &&& d.declared_type@ == (if r.kind == RoutineKind::Function {
                "FUNCTION"@
            } else {
                "PROCEDURE"@
            })
            &&& d.name@ == r.name@
            &&& name_at(toks, i + 1, r.name)
            &&& exists|k: int| #[trigger] position(toks, k) && i + 2 <= k < j && routine_rest_at(toks, i + 2, *r, k, j)
        }
    } else {
        &&& name_at(toks, i, d.name)
        &&& if word_is(toks, i + 1, "EXCEPTION"@) {
            d.declared_type@ == "EXCEPTION"@ && plain(d) && sym_is(toks, i + 2, Sym::Semicolon) && j == i + 3
        } else {
            &&& any_word_at(toks, i + 1, d.declared_type)
            &&& d.cursor_query is None && d.trigger is None && d.routine is None
            &&& sym_is(toks, j - 1, Sym::Semicolon)
            &&& match d.init_value {
                Some(e) => sym_is(toks, i + 2, Sym::Assign) && expr_at(toks, 7, i + 3, e, j - 1),
                None => !sym_is(toks, i + 2, Sym::Assign) && j == i + 3,
            }
        }
    }
}

/// `[i, j)` spells what follows a routine's name: its parameters (ending
/// at `k`), its `RETURN` type for a function, `IS` or `AS`, and its body.
pub open spec fn routine_rest_at(
    toks: Seq<Token>,
    i: int,
    r: crate::ast::RoutineDeclaration,
    k: int,
    j: int,
) -> bool
    decreases j - i, 3int,
{
    let after = if r.kind == RoutineKind::Function {
        k + 2
    } else {
        k
    };
    &&& 0 <= i <= k <= after < j <= toks.len()
    &&& if sym_is(toks, i, Sym::LParen) {
        params_at(toks, i, r.parameters@, k)
    } else {
        k == i && r.parameters@.len() == 0
    }
    &&& match r.kind {
        RoutineKind::Function => word_is(toks, k, "RETURN"@) && (r.return_type matches Some(t) && any_word_at(
            toks,
            k + 1,
            t,
        )),
        RoutineKind::Procedure => r.return_type is None,
    }
    &&& word_is(toks, after, "AS"@) || word_is(toks, after, "IS"@)
    &&& block_at(toks, after + 1, *r.body, j)
}

/// `[i, j)` spells the exception handlers `hs`, one after the other.
pub open spec fn handlers_at(toks: Seq<Token>, i: int, hs: Seq<ExceptionHandler>, j: int) -> bool
    decreases j - i, 5int,
{
    if !(0 <= i <= j <= toks.len()) {
        false
    } else if hs.len() == 0 {
        j == i
    } else {
        exists|k: int|
            #[trigger] position(toks, k) && i <= k < j && handlers_at(toks, i, hs.drop_last(), k) && handler_at(
                toks,
                k,
                hs.last(),
                j,
            )
    }
}

/// `[i, j)` spells `WHEN (OTHERS | name) THEN statements`.
pub open spec fn handler_at(toks: Seq<Token>, i: int, h: ExceptionHandler, j: int) -> bool
    decreases j - i, 4int,
{
    &&& 0 <= i && i + 3 <= j <= toks.len()
    &&& word_is(toks, i, "WHEN"@)
    &&& match h.condition {
        ExceptionCondition::Others => word_is(toks, i + 1, "OTHERS"@),
        ExceptionCondition::Named(n) => !word_is(toks, i + 1, "OTHERS"@) && name_at(toks, i + 1, n),
    }
    &&& word_is(toks, i + 2, "THEN"@)
    &&& stmts_at(toks, i + 3, h.statements@, j)
}

/// `[i, j)` spells the statements `ss`, one after the other.
pub open spec fn stmts_at(toks: Seq<Token>, i: int, ss: Seq<Statement>, j: int) -> bool
    decreases j - i, 3int,
{
    if !(0 <= i <= j <= toks.len()) {
        false
    } else if ss.len() == 0 {
        j == i
    } else {
        exists|k: int|
            #[trigger] position(toks, k) && i <= k < j && stmts_at(toks, i, ss.drop_last(), k) && stmt_at(
                toks,
                k,
                ss.last(),
                j,
            )
    }
}

/// `[i, j)` spells `LOOP statements END LOOP;`.
pub open spec fn loop_body_at(toks: Seq<Token>, i: int, body: Seq<Statement>, j: int) -> bool
    decreases j - i, 1int,
{
    &&& 0 <= i && i + 4 <= j <= toks.len()
    &&& word_is(toks, i, "LOOP"@)
    &&& word_is(toks, j - 3, "END"@)
    &&& word_is(toks, j - 2, "LOOP"@)
    &&& sym_is(toks, j - 1, Sym::Semicolon)
    &&& stmts_at(toks, i + 1, body, j - 3)
}

/// `[i, j)` spells `ELSIF condition THEN statements`.
pub open spec fn elsif_at(toks: Seq<Token>, i: int, b: IfBranch, j: int) -> bool
    decreases j - i, 3int,
{
    &&& 0 <= i < j <= toks.len()
    &&& word_is(toks, i, "ELSIF"@)
    &&& exists|k: int|
        #[trigger] word_is(toks, k, "THEN"@) && i + 1 < k < j && expr_at(toks, 7, i + 1, b.condition, k) && stmts_at(
            toks,
            k + 1,
            b.statements@,
            j,
        )
}

/// `[i, j)` spells the `ELSIF` branches `bs`, one after the other.
pub open spec fn elsifs_at(toks: Seq<Token>, i: int, bs: Seq<IfBranch>, j: int) -> bool
    decreases j - i, 4int,
{
    if !(0 <= i <= j <= toks.len()) {
        false
    } else if bs.len() == 0 {
        j == i
    } else {
        exists|k: int|
            #[trigger] position(toks, k) && i <= k < j && elsifs_at(toks, i, bs.drop_last(), k) && elsif_at(
                toks,
                k,
                bs.last(),
                j,
            )
    }
}

/// `[i, j)` spells the optional `ELSE statements`.
pub open spec fn else_at(toks: Seq<Token>, i: int, els: Option<Vec<Statement>>, j: int) -> bool
    decreases j - i, 4int,
{
    &&& 0 <= i <= j <= toks.len()
    &&& match els {
        Some(ss) => word_is(toks, i, "ELSE"@) && i < j && stmts_at(toks, i + 1, ss@, j),
        None => j == i && !word_is(toks, i, "ELSE"@),
    }
}

/// `[i, j)` spells the branches of an `IF` after its first `THEN`: the
/// statements, the `ELSIF` branches and the optional `ELSE`.
pub open spec fn if_body_at(
    toks: Seq<Token>,
    i: int,
    then_branch: Seq<Statement>,
    elsifs: Seq<IfBranch>,
    els: Option<Vec<Statement>>,
    j: int,
) -> bool
    decreases j - i, 5int,
{
    &&& 0 <= i <= j <= toks.len()
    &&& exists|k1: int, k2: int|
        #![trigger position(toks, k1), position(toks, k2)]
        i <= k1 <= k2 <= j && stmts_at(toks, i, then_branch, k1) && elsifs_at(toks, k1, elsifs, k2) && else_at(
            toks,
            k2,
            els,
            j,
        )
}

/// `[i, j)` spells an expression followed by `;`.
pub open spec fn expr_then_semicolon(toks: Seq<Token>, i: int, e: Expr, j: int) -> bool {
    sym_is(toks, j - 1, Sym::Semicolon) && expr_at(toks, 7, i, e, j - 1)
}

/// `[i, j)` spells the statement `s`.
pub open spec fn stmt_at(toks: Seq<Token>, i: int, s: Statement, j: int) -> bool
    decreases j - i, 2int,
{
    if !(0 <= i < j <= toks.len()) {
        false
    } else {
        match s {
            Statement::Block(b) => (word_is(toks, i, "DECLARE"@) || word_is(toks, i, "BEGIN"@)) && block_at(
                toks,
                i,
                *b,
                j,
            ),
            Statement::If { condition, then_branch, elsif_branches, else_branch } => {
                &&& word_is(toks, i, "IF"@)
                &&& i + 3 <= j && word_is(toks, j - 3, "END"@) && word_is(toks, j - 2, "IF"@) && sym_is(
                    toks,
                    j - 1,
                    Sym::Semicolon,
                )
                &&& exists|k: int|
                    #[trigger] word_is(toks, k, "THEN"@) && i + 1 < k < j - 3 && expr_at(toks, 7, i + 1, condition, k)
                        && if_body_at(toks, k + 1, then_branch@, elsif_branches@, else_branch, j - 3)
            },
            Statement::While { condition, body } => word_is(toks, i, "WHILE"@) && exists|k: int|
                #[trigger] word_is(toks, k, "LOOP"@) && i + 1 < k < j && expr_at(toks, 7, i + 1, condition, k)
                    && loop_body_at(toks, k, body@, j),
            Statement::Loop { body } => loop_body_at(toks, i, body@, j),
            Statement::For { variable, start, end, body } => {
                &&& word_is(toks, i, "FOR"@)
                &&& name_at(toks, i + 1, variable)
                &&& word_is(toks, i + 2, "IN"@)
                &&& !(is_word(toks, i + 3) && word_is(toks, i + 4, "LOOP"@))
                &&& exists|k1: int, k2: int|
                    #![trigger sym_is(toks, k1, Sym::DotDot), word_is(toks, k2, "LOOP"@)]
                    i + 3 < k1 < k2 < j && expr_at(toks, 7, i + 3, start, k1) && sym_is(toks, k1, Sym::DotDot)
                        && expr_at(toks, 7, k1 + 1, end, k2) && loop_body_at(toks, k2, body@, j)
            },
            Statement::CursorFor { targets, cursor, body } => word_is(toks, i, "FOR"@) && exists|k: int|
                #[trigger] word_is(toks, k, "IN"@) && i + 1 < k && k + 2 < j && names_at(toks, i + 1, targets@, k)
                    && name_at(toks, k + 1, cursor) && loop_body_at(toks, k + 2, body@, j),
            Statement::SelectInto(s) => {
                &&& word_is(toks, i, "SELECT"@)
                &&& s.targets@.len() > 0
                &&& i + 1 < j - 1 && query_at(toks, i + 1, s.query, s.targets@, j - 1)
                &&& sym_is(toks, j - 1, Sym::Semicolon)
            },
            Statement::Insert(s) => {
                &&& word_is(toks, i, "INSERT"@)
                &&& word_is(toks, i + 1, "INTO"@)
                &&& name_at(toks, i + 2, s.table)
                &&& sym_is(toks, j - 2, Sym::RParen)
                &&& sym_is(toks, j - 1, Sym::Semicolon)
                &&& exists|k: int|
                    #[trigger] word_is(toks, k, "VALUES"@) && i + 3 <= k && k + 2 < j - 2 && columns_at(
                        toks,
                        i + 3,
                        s.columns,
                        k,
                    ) && sym_is(toks, k + 1, Sym::LParen) && list_at(toks, k + 2, s.values@, j - 2)
            },
            Statement::Update(s) => {
                &&& word_is(toks, i, "UPDATE"@)
                &&& name_at(toks, i + 1, s.table)
                &&& word_is(toks, i + 2, "SET"@)
                &&& sym_is(toks, j - 1, Sym::Semicolon)
                &&& exists|k: int|
                    #[trigger] position(toks, k) && i + 3 < k < j && assignments_at(toks, i + 3, s.assignments@, k)
                        && where_at(toks, k, s.where_clause, j - 1)
            },
            Statement::Delete(s) => {
                &&& word_is(toks, i, "DELETE"@)
                &&& word_is(toks, i + 1, "FROM"@)
                &&& name_at(toks, i + 2, s.table)
                &&& sym_is(toks, j - 1, Sym::Semicolon)
                &&& where_at(toks, i + 3, s.where_clause, j - 1)
            },
            Statement::CreateTable(s) => {
                &&& word_is(toks, i, "CREATE"@)
                &&& word_is(toks, i + 1, "TABLE"@)
                &&& name_at(toks, i + 2, s.table)
                &&& sym_is(toks, i + 3, Sym::LParen)
                &&& names_at(toks, i + 4, s.columns@, j - 2)
                &&& sym_is(toks, j - 2, Sym::RParen)
                &&& sym_is(toks, j - 1, Sym::Semicolon)
            },
            Statement::AlterTable(s) => {
                &&& word_is(toks, i, "ALTER"@)
                &&& word_is(toks, i + 1, "TABLE"@)
                &&& name_at(toks, i + 2, s.table)
                &&& word_is(toks, i + 3, "ADD"@)
                &&& word_is(toks, i + 4, "CONSTRAINT"@)
                &&& s.action matches AlterTableAction::AddConstraint { name, columns } && {
                    &&& name_at(toks, i + 5, name)
                    &&& sym_is(toks, i + 6, Sym::LParen)
                    &&& names_at(toks, i + 7, columns@, j - 2)
                }
                &&& sym_is(toks, j - 2, Sym::RParen)
                &&& sym_is(toks, j - 1, Sym::Semicolon)
            },
            Statement::DropTable(s) => {
                &&& word_is(toks, i, "DROP"@)
                &&& word_is(toks, i + 1, "TABLE"@)
                &&& name_at(toks, i + 2, s.table)
                &&& sym_is(toks, i + 3, Sym::Semicolon)
                &&& j == i + 4
            },
            Statement::Exit { condition } => {
                &&& word_is(toks, i, "EXIT"@)
                &&& match condition {
                    Some(e) => word_is(toks, i + 1, "WHEN"@) && expr_then_semicolon(toks, i + 2, e, j),
                    None => !word_is(toks, i + 1, "WHEN"@) && sym_is(toks, i + 1, Sym::Semicolon) && j == i + 2,
                }
            },
            Statement::Raise { name } => word_is(toks, i, "RAISE"@) && name_at(toks, i + 1, name) && sym_is(
                toks,
                i + 2,
                Sym::Semicolon,
            ) && j == i + 3,
            Statement::Commit => word_is(toks, i, "COMMIT"@) && sym_is(toks, i + 1, Sym::Semicolon) && j == i + 2,
            Statement::Rollback => word_is(toks, i, "ROLLBACK"@) && sym_is(toks, i + 1, Sym::Semicolon) && j == i
                + 2,
            Statement::OpenCursor { name } => word_is(toks, i, "OPEN"@) && name_at(toks, i + 1, name) && sym_is(
                toks,
                i + 2,
                Sym::Semicolon,
            ) && j == i + 3,
            Statement::FetchCursor { name, targets } => {
                &&& word_is(toks, i, "FETCH"@)
                &&& name_at(toks, i + 1, name)
                &&& word_is(toks, i + 2, "INTO"@)
                &&& names_at(toks, i + 3, targets@, j - 1)
                &&& sym_is(toks, j - 1, Sym::Semicolon)
            },
            Statement::CloseCursor { name } => word_is(toks, i, "CLOSE"@) && name_at(toks, i + 1, name) && sym_is(
                toks,
                i + 2,
                Sym::Semicolon,
            ) && j == i + 3,
            Statement::Return(v) => {
                &&& word_is(toks, i, "RETURN"@)
                &&& match v {
                    Some(e) => !sym_is(toks, i + 1, Sym::Semicolon) && expr_then_semicolon(toks, i + 1, e, j),
                    None => sym_is(toks, i + 1, Sym::Semicolon) && j == i + 2,
                }
            },
            Statement::Assignment { name, value } => name_at(toks, i, name) && sym_is(toks, i + 1, Sym::Assign)
                && expr_then_semicolon(toks, i + 2, value, j),
            Statement::Call { name, args } => {
                &&& name_at(toks, i, name)
                &&& args_at(toks, i + 1, args@, j - 1)
                &&& sym_is(toks, j - 1, Sym::Semicolon)
            },
            Statement::Expression(e) => expr_then_semicolon(toks, i, e, j),
        }
    }
}

} // verus!
