use vstd::prelude::*;

use std::rc::Rc;

use super::expr::{
    lemma_ends_operand, parse_arguments, parse_expression_list, parse_level, single_token_primary, EXPR_LEVEL,
};
use super::lexer::{Sym, Token, TokenKind};
use super::stream::{
    at_sym, at_word, at_word_token, expect_name, expect_sym, expect_word, expected, parse_name_list, sym_is,
};
use super::grammar::{
    any_word_at, assignments_at, block_at, body_at, decl_at, decls_at, else_at, elsif_at, elsifs_at, from_at,
    handler_at, handlers_at, if_body_at, into_at, join_at, join_kind_at, joins_at, loop_body_at, param_list_at,
    params_at, position, query_at, routine_rest_at, source_at, stmt_at, stmts_at, where_at,
};
use super::stream::{is_name, names_at, word_is};
use super::ParseError;
use crate::ast::{
    AlterTableAction, AlterTableStatement, Block, CreateTableStatement, CursorQuery, Declaration,
    DeleteStatement, DropTableStatement, ExceptionCondition, ExceptionHandler, Expr, IfBranch,
    InsertStatement, JoinClause, JoinKind, QuerySource, RoutineDeclaration, RoutineKind,
    RoutineParameter, SelectIntoTarget, Statement, TriggerDeclaration, TriggerEvent, TriggerTiming,
    UpdateAssignment, UpdateStatement,
};

verus! {

/// A statement read from `pos`: the tokens up to where reading stopped
/// spell it.
pub open spec fn stmt_parsed(r: Result<(Statement, usize), ParseError>, toks: Seq<Token>, pos: usize) -> bool {
    r matches Ok((s, p)) ==> pos < p <= toks.len() && stmt_at(toks, pos as int, s, p as int)
}

/// The letters of the keywords that the parser tells apart.
proof fn reveal_keywords()
    ensures
        "EXIT"@ == seq!['E', 'X', 'I', 'T'],
        "COMMIT"@ == seq!['C', 'O', 'M', 'M', 'I', 'T'],
        "ROLLBACK"@ == seq!['R', 'O', 'L', 'L', 'B', 'A', 'C', 'K'],
        "RETURN"@ == seq!['R', 'E', 'T', 'U', 'R', 'N'],
        "RAISE"@ == seq!['R', 'A', 'I', 'S', 'E'],
        "OPEN"@ == seq!['O', 'P', 'E', 'N'],
        "FETCH"@ == seq!['F', 'E', 'T', 'C', 'H'],
        "CLOSE"@ == seq!['C', 'L', 'O', 'S', 'E'],
        "END"@ == seq!['E', 'N', 'D'],
        "ELSIF"@ == seq!['E', 'L', 'S', 'I', 'F'],
        "ELSE"@ == seq!['E', 'L', 'S', 'E'],
        "EXCEPTION"@ == seq!['E', 'X', 'C', 'E', 'P', 'T', 'I', 'O', 'N'],
        "WHEN"@ == seq!['W', 'H', 'E', 'N'],
        "DECLARE"@ == seq!['D', 'E', 'C', 'L', 'A', 'R', 'E'],
        "BEGIN"@ == seq!['B', 'E', 'G', 'I', 'N'],
        "IF"@ == seq!['I', 'F'],
        "WHILE"@ == seq!['W', 'H', 'I', 'L', 'E'],
        "LOOP"@ == seq!['L', 'O', 'O', 'P'],
        "FOR"@ == seq!['F', 'O', 'R'],
        "SELECT"@ == seq!['S', 'E', 'L', 'E', 'C', 'T'],
        "INSERT"@ == seq!['I', 'N', 'S', 'E', 'R', 'T'],
        "UPDATE"@ == seq!['U', 'P', 'D', 'A', 'T', 'E'],
        "DELETE"@ == seq!['D', 'E', 'L', 'E', 'T', 'E'],
        "CREATE"@ == seq!['C', 'R', 'E', 'A', 'T', 'E'],
        "ALTER"@ == seq!['A', 'L', 'T', 'E', 'R'],
        "DROP"@ == seq!['D', 'R', 'O', 'P'],
        "TABLE"@ == seq!['T', 'A', 'B', 'L', 'E'],
        "FROM"@ == seq!['F', 'R', 'O', 'M'],
        "INTO"@ == seq!['I', 'N', 'T', 'O'],
        "TRIGGER"@ == seq!['T', 'R', 'I', 'G', 'G', 'E', 'R'],
        "BEFORE"@ == seq!['B', 'E', 'F', 'O', 'R', 'E'],
        "AFTER"@ == seq!['A', 'F', 'T', 'E', 'R'],
        "FUNCTION"@ == seq!['F', 'U', 'N', 'C', 'T', 'I', 'O', 'N'],
        "PROCEDURE"@ == seq!['P', 'R', 'O', 'C', 'E', 'D', 'U', 'R', 'E'],
        "IS"@ == seq!['I', 'S'],
        "AS"@ == seq!['A', 'S'],
        "THEN"@ == seq!['T', 'H', 'E', 'N'],
        "OTHERS"@ == seq!['O', 'T', 'H', 'E', 'R', 'S'],
        "WHERE"@ == seq!['W', 'H', 'E', 'R', 'E'],
        "JOIN"@ == seq!['J', 'O', 'I', 'N'],
        "INNER"@ == seq!['I', 'N', 'N', 'E', 'R'],
        "LEFT"@ == seq!['L', 'E', 'F', 'T'],
        "RIGHT"@ == seq!['R', 'I', 'G', 'H', 'T'],
        "OUTER"@ == seq!['O', 'U', 'T', 'E', 'R'],
        "ON"@ == seq!['O', 'N'],
        "OR"@ == seq!['O', 'R'],
        "AND"@ == seq!['A', 'N', 'D'],
{
    reveal_strlit("EXIT");
    reveal_strlit("COMMIT");
    reveal_strlit("ROLLBACK");
    reveal_strlit("RETURN");
    reveal_strlit("RAISE");
    reveal_strlit("OPEN");
    reveal_strlit("FETCH");
    reveal_strlit("CLOSE");
    reveal_strlit("END");
    reveal_strlit("ELSIF");
    reveal_strlit("ELSE");
    reveal_strlit("EXCEPTION");
    reveal_strlit("WHEN");
    reveal_strlit("DECLARE");
    reveal_strlit("BEGIN");
    reveal_strlit("IF");
    reveal_strlit("WHILE");
    reveal_strlit("LOOP");
    reveal_strlit("FOR");
    reveal_strlit("SELECT");
    reveal_strlit("INSERT");
    reveal_strlit("UPDATE");
    reveal_strlit("DELETE");
    reveal_strlit("CREATE");
    reveal_strlit("ALTER");
    reveal_strlit("DROP");
    assert("EXIT"@ =~= seq!['E', 'X', 'I', 'T']);
    assert("COMMIT"@ =~= seq!['C', 'O', 'M', 'M', 'I', 'T']);
    assert("ROLLBACK"@ =~= seq!['R', 'O', 'L', 'L', 'B', 'A', 'C', 'K']);
    assert("RETURN"@ =~= seq!['R', 'E', 'T', 'U', 'R', 'N']);
    assert("RAISE"@ =~= seq!['R', 'A', 'I', 'S', 'E']);
    assert("OPEN"@ =~= seq!['O', 'P', 'E', 'N']);
    assert("FETCH"@ =~= seq!['F', 'E', 'T', 'C', 'H']);
    assert("CLOSE"@ =~= seq!['C', 'L', 'O', 'S', 'E']);
    assert("END"@ =~= seq!['E', 'N', 'D']);
    assert("ELSIF"@ =~= seq!['E', 'L', 'S', 'I', 'F']);
    assert("ELSE"@ =~= seq!['E', 'L', 'S', 'E']);
    assert("EXCEPTION"@ =~= seq!['E', 'X', 'C', 'E', 'P', 'T', 'I', 'O', 'N']);
    assert("WHEN"@ =~= seq!['W', 'H', 'E', 'N']);
    assert("DECLARE"@ =~= seq!['D', 'E', 'C', 'L', 'A', 'R', 'E']);
    assert("BEGIN"@ =~= seq!['B', 'E', 'G', 'I', 'N']);
    assert("IF"@ =~= seq!['I', 'F']);
    assert("WHILE"@ =~= seq!['W', 'H', 'I', 'L', 'E']);
    assert("LOOP"@ =~= seq!['L', 'O', 'O', 'P']);
    assert("FOR"@ =~= seq!['F', 'O', 'R']);
    assert("SELECT"@ =~= seq!['S', 'E', 'L', 'E', 'C', 'T']);
    assert("INSERT"@ =~= seq!['I', 'N', 'S', 'E', 'R', 'T']);
    assert("UPDATE"@ =~= seq!['U', 'P', 'D', 'A', 'T', 'E']);
    assert("DELETE"@ =~= seq!['D', 'E', 'L', 'E', 'T', 'E']);
    assert("CREATE"@ =~= seq!['C', 'R', 'E', 'A', 'T', 'E']);
    assert("ALTER"@ =~= seq!['A', 'L', 'T', 'E', 'R']);
    assert("DROP"@ =~= seq!['D', 'R', 'O', 'P']);
    reveal_strlit("TABLE");
    reveal_strlit("FROM");
    reveal_strlit("INTO");
    reveal_strlit("TRIGGER");
    reveal_strlit("BEFORE");
    reveal_strlit("AFTER");
    reveal_strlit("FUNCTION");
    reveal_strlit("PROCEDURE");
    reveal_strlit("IS");
    reveal_strlit("AS");
    reveal_strlit("THEN");
    reveal_strlit("OTHERS");
    reveal_strlit("WHERE");
    reveal_strlit("JOIN");
    reveal_strlit("INNER");
    reveal_strlit("LEFT");
    reveal_strlit("RIGHT");
    reveal_strlit("OUTER");
    reveal_strlit("ON");
    assert("TABLE"@ =~= seq!['T', 'A', 'B', 'L', 'E']);
    assert("FROM"@ =~= seq!['F', 'R', 'O', 'M']);
    assert("INTO"@ =~= seq!['I', 'N', 'T', 'O']);
    assert("TRIGGER"@ =~= seq!['T', 'R', 'I', 'G', 'G', 'E', 'R']);
    assert("BEFORE"@ =~= seq!['B', 'E', 'F', 'O', 'R', 'E']);
    assert("AFTER"@ =~= seq!['A', 'F', 'T', 'E', 'R']);
    assert("FUNCTION"@ =~= seq!['F', 'U', 'N', 'C', 'T', 'I', 'O', 'N']);
    assert("PROCEDURE"@ =~= seq!['P', 'R', 'O', 'C', 'E', 'D', 'U', 'R', 'E']);
    assert("IS"@ =~= seq!['I', 'S']);
    assert("AS"@ =~= seq!['A', 'S']);
    assert("THEN"@ =~= seq!['T', 'H', 'E', 'N']);
    assert("OTHERS"@ =~= seq!['O', 'T', 'H', 'E', 'R', 'S']);
    assert("WHERE"@ =~= seq!['W', 'H', 'E', 'R', 'E']);
    assert("JOIN"@ =~= seq!['J', 'O', 'I', 'N']);
    assert("INNER"@ =~= seq!['I', 'N', 'N', 'E', 'R']);
    assert("LEFT"@ =~= seq!['L', 'E', 'F', 'T']);
    assert("RIGHT"@ =~= seq!['R', 'I', 'G', 'H', 'T']);
    assert("OUTER"@ =~= seq!['O', 'U', 'T', 'E', 'R']);
    assert("ON"@ =~= seq!['O', 'N']);
    reveal_strlit("OR");
    reveal_strlit("AND");
    assert("OR"@ =~= seq!['O', 'R']);
    assert("AND"@ =~= seq!['A', 'N', 'D']);
}

/// Consumes any word (a type name).
fn expect_any_word(toks: &Vec<Token>, pos: usize) -> (r: Result<(String, usize), ParseError>)
    ensures
        r matches Ok((w, p)) ==> p == pos + 1 && any_word_at(toks@, pos as int, w),
        pos < toks@.len() && toks@[pos as int].kind is Word ==> r is Ok,
        !(pos < toks@.len() && toks@[pos as int].kind is Word) ==> (r matches Err(ParseError::Syntax(m)) && m@
            == "expected a type name"@),
{
    if pos < toks.len() {
        match &toks[pos].kind {
            TokenKind::Word(w) => {
                return Ok((w.clone(), pos + 1));
            },
            _ => {},
        }
    }
    Err(ParseError::Syntax("expected a type name".to_owned()))
}

/// Consumes the `;` that ends a statement or declaration.
fn end_of_statement(toks: &Vec<Token>, pos: usize) -> (r: Result<usize, ParseError>)
    ensures
        r matches Ok(p) ==> p == pos + 1 && p <= toks@.len() && sym_is(toks@, pos as int, Sym::Semicolon),
        sym_is(toks@, pos as int, Sym::Semicolon) ==> r is Ok,
        !sym_is(toks@, pos as int, Sym::Semicolon) ==> (r matches Err(ParseError::Syntax(m)) && m@ == "expected `"@
            + ";"@ + "`"@),
{
    expect_sym(toks, pos, Sym::Semicolon, ";")
}

/// `[DECLARE declarations] BEGIN statements [EXCEPTION handlers] END [;]`.
pub fn parse_block_at(toks: &Vec<Token>, pos: usize) -> (r: Result<(Block, usize), ParseError>)
    requires
        pos <= toks@.len(),
    ensures
        r matches Ok((b, p)) ==> pos < p <= toks@.len() && block_at(toks@, pos as int, b, p as int),
        !word_is(toks@, pos as int, "DECLARE"@) && !word_is(toks@, pos as int, "BEGIN"@) ==> (r matches Err(
            ParseError::Syntax(m),
        ) && m@ == "expected `"@ + "BEGIN"@ + "`"@),
        word_is(toks@, pos as int, "BEGIN"@) && word_is(toks@, pos + 1, "END"@) ==> (r matches Ok((b, p))
            && b.declarations@.len() == 0 && b.statements@.len() == 0 && b.exception_handlers@.len() == 0 && p == if sym_is(
            toks@,
            pos + 2,
            Sym::Semicolon,
        ) {
            pos + 3
        } else {
            pos + 2
        }),
    decreases toks@.len() - pos, 15int,
{
    proof {
        reveal_keywords();
    }
    let n = toks.len();
    let mut p = pos;
    let mut declarations: Vec<Declaration> = Vec::new();
    if at_word(toks, p, "DECLARE") {
        let (d, q) = parse_declarations(toks, p + 1)?;
        declarations = d;
        p = q;
    }
    let k1 = p;
    p = expect_word(toks, p, "BEGIN")?;
    let (statements, q) = parse_statements(toks, p)?;
    let k = q;
    p = q;
    let mut exception_handlers: Vec<ExceptionHandler> = Vec::new();
    if at_word(toks, p, "EXCEPTION") {
        p = p + 1;
        while at_word(toks, p, "WHEN")
            invariant
                n == toks@.len(),
                pos < k < p <= toks@.len(),
                handlers_at(toks@, k + 1, exception_handlers@, p as int),
                word_is(toks@, pos as int, "DECLARE"@) || word_is(toks@, pos as int, "BEGIN"@),
                !(word_is(toks@, pos as int, "BEGIN"@) && word_is(toks@, pos + 1, "END"@)),
            decreases toks@.len() - p,
        {
            let (h, q) = parse_handler(toks, p)?;
            let ghost before = exception_handlers@;
            exception_handlers.push(h);
            proof {
                assert(exception_handlers@.drop_last() =~= before);
                assert(position(toks@, p as int));
            }
            p = q;
        }
    }
    let k2 = p;
    p = expect_word(toks, p, "END")?;
    if at_sym(toks, p, Sym::Semicolon) {
        p = p + 1;
    }
    let b = Block { declarations, statements, exception_handlers };
    proof {
        assert(position(toks@, k as int));
        assert(body_at(toks@, k1 + 1, b.statements@, b.exception_handlers@, k2 as int));
        assert(block_at(toks@, pos as int, b, p as int));
    }
    Ok((b, p))
}

/// `WHEN (OTHERS | name) THEN statements`.
fn parse_handler(toks: &Vec<Token>, pos: usize) -> (r: Result<(ExceptionHandler, usize), ParseError>)
    requires
        pos <= toks@.len(),
    ensures
        r matches Ok((h, p)) ==> pos < p <= toks@.len() && handler_at(toks@, pos as int, h, p as int),
        !word_is(toks@, pos as int, "WHEN"@) ==> (r matches Err(ParseError::Syntax(m)) && m@ == "expected `"@
            + "WHEN"@ + "`"@),
        word_is(toks@, pos as int, "WHEN"@) && word_is(toks@, pos + 1, "OTHERS"@) && word_is(toks@, pos + 2, "THEN"@)
            && list_end_at(toks@, pos + 3) ==> (r matches Ok((h, p)) && h.condition is Others && h.statements@.len()
            == 0 && p == pos + 3),
    decreases toks@.len() - pos, 14int,
{
    proof {
        reveal_keywords();
    }
    let p = expect_word(toks, pos, "WHEN")?;
    let (condition, p) = if at_word(toks, p, "OTHERS") {
        (ExceptionCondition::Others, p + 1)
    } else {
        let (name, q) = expect_name(toks, p)?;
        (ExceptionCondition::Named(name), q)
    };
    let p = expect_word(toks, p, "THEN")?;
    let (statements, p) = parse_statements(toks, p)?;
    Ok((ExceptionHandler { condition, statements }, p))
}

/// Declarations up to `BEGIN`.
fn parse_declarations(toks: &Vec<Token>, pos: usize) -> (r: Result<(Vec<Declaration>, usize), ParseError>)
    requires
        pos <= toks@.len(),
    ensures
        r matches Ok((ds, p)) ==> pos <= p <= toks@.len() && decls_at(toks@, pos as int, ds@, p as int),
        pos >= toks@.len() || word_is(toks@, pos as int, "BEGIN"@) ==> (r matches Ok((ds, p)) && ds@.len() == 0 && p
            == pos),
    decreases toks@.len() - pos, 14int,
{
    proof {
        reveal_keywords();
    }
    let n = toks.len();
    let mut p = pos;
    let mut out: Vec<Declaration> = Vec::new();
    while p < n && !at_word(toks, p, "BEGIN")
        invariant
            n == toks@.len(),
            pos <= p <= toks@.len(),
            decls_at(toks@, pos as int, out@, p as int),
            pos >= toks@.len() || word_is(toks@, pos as int, "BEGIN"@) ==> out@.len() == 0 && p == pos,
        decreases toks@.len() - p,
    {
        let (d, q) = parse_declaration(toks, p)?;
        let ghost before = out@;
        out.push(d);
        proof {
            assert(out@.drop_last() =~= before);
            assert(position(toks@, p as int));
        }
        p = q;
    }
    Ok((out, p))
}

/// One declaration: a cursor, a trigger, a function or procedure, an
/// exception, or a variable with its type and optional initial value.
fn parse_declaration(toks: &Vec<Token>, pos: usize) -> (r: Result<(Declaration, usize), ParseError>)
    requires
        pos <= toks@.len(),
    ensures
        r matches Ok((d, p)) ==> pos < p <= toks@.len() && decl_at(toks@, pos as int, d, p as int),
        is_name(toks@, pos as int) && pos + 1 < toks@.len() && toks@[pos + 1].kind is Word && sym_is(
            toks@,
            pos + 2,
            Sym::Semicolon,
        ) ==> (r matches Ok((d, p)) && p == pos + 3 && d.init_value is None && d.cursor_query is None
            && d.trigger is None && d.routine is None),
    decreases toks@.len() - pos, 13int,
{
    proof {
        reveal_keywords();
    }
    if at_word(toks, pos, "CURSOR") {
        let (name, p) = expect_name(toks, pos + 1)?;
        let p = expect_word(toks, p, "IS")?;
        let p = expect_word(toks, p, "SELECT")?;
        let (query, targets, p) = parse_query(toks, p, false)?;
        let p = end_of_statement(toks, p)?;
        let d = Declaration {
            name,
            declared_type: "CURSOR".to_owned(),
            init_value: None,
            cursor_query: Some(Rc::new(query)),
            trigger: None,
            routine: None,
        };
        assert(query_at(toks@, pos + 4, query, targets@, p - 1));
        assert(decl_at(toks@, pos as int, d, p as int));
        return Ok((d, p));
    }
    if at_word(toks, pos, "TRIGGER") {
        return parse_trigger(toks, pos);
    }
    if at_word(toks, pos, "FUNCTION") || at_word(toks, pos, "PROCEDURE") {
        return parse_routine(toks, pos);
    }
    let (name, p) = expect_name(toks, pos)?;
    if at_word(toks, p, "EXCEPTION") {
        let p = end_of_statement(toks, p + 1)?;
        return Ok((
            Declaration {
                name,
                declared_type: "EXCEPTION".to_owned(),
                init_value: None,
                cursor_query: None,
                trigger: None,
                routine: None,
            },
            p,
        ));
    }
    let (declared_type, p) = expect_any_word(toks, p)?;
    let (init_value, p) = if at_sym(toks, p, Sym::Assign) {
        let (e, q) = parse_level(toks, p + 1, EXPR_LEVEL)?;
        (Some(e), q)
    } else {
        (None, p)
    };
    let p = end_of_statement(toks, p)?;
    Ok((
        Declaration { name, declared_type, init_value, cursor_query: None, trigger: None, routine: None },
        p,
    ))
}

/// `TRIGGER name (BEFORE | AFTER) (INSERT | UPDATE | DELETE) ON table block`.
fn parse_trigger(toks: &Vec<Token>, pos: usize) -> (r: Result<(Declaration, usize), ParseError>)
    requires
        pos <= toks@.len(),
        !word_is(toks@, pos as int, "CURSOR"@),
    ensures
        r matches Ok((d, p)) ==> pos < p <= toks@.len() && decl_at(toks@, pos as int, d, p as int),
        !word_is(toks@, pos as int, "TRIGGER"@) ==> (r matches Err(ParseError::Syntax(m)) && m@ == "expected `"@
            + "TRIGGER"@ + "`"@),
        word_is(toks@, pos as int, "TRIGGER"@) && is_name(toks@, pos + 1) && !word_is(toks@, pos + 2, "BEFORE"@)
            && !word_is(toks@, pos + 2, "AFTER"@) ==> (r matches Err(ParseError::Syntax(m)) && m@
            == "expected `BEFORE` or `AFTER`"@),
    decreases toks@.len() - pos, 12int,
{
    proof {
        reveal_keywords();
    }
    let p = expect_word(toks, pos, "TRIGGER")?;
    let (name, p) = expect_name(toks, p)?;
    let timing = if at_word(toks, p, "BEFORE") {
        TriggerTiming::Before
    } else if at_word(toks, p, "AFTER") {
        TriggerTiming::After
    } else {
        return Err(ParseError::Syntax("expected `BEFORE` or `AFTER`".to_owned()));
    };
    let p = p + 1;
    let event = if at_word(toks, p, "INSERT") {
        TriggerEvent::Insert
    } else if at_word(toks, p, "UPDATE") {
        TriggerEvent::Update
    } else if at_word(toks, p, "DELETE") {
        TriggerEvent::Delete
    } else {
        return Err(ParseError::Syntax("expected `INSERT`, `UPDATE` or `DELETE`".to_owned()));
    };
    let p = expect_word(toks, p + 1, "ON")?;
    let (table, p) = expect_name(toks, p)?;
    let (body, p) = parse_block_at(toks, p)?;
    let declared_name = name.clone();
    Ok((
        Declaration {
            name: declared_name,
            declared_type: "TRIGGER".to_owned(),
            init_value: None,
            cursor_query: None,
            trigger: Some(Rc::new(TriggerDeclaration { name, timing, event, table, body })),
            routine: None,
        },
        p,
    ))
}

/// `FUNCTION name (params) RETURN type IS block` or
/// `PROCEDURE name [(params)] IS block`.
fn parse_routine(toks: &Vec<Token>, pos: usize) -> (r: Result<(Declaration, usize), ParseError>)
    requires
        pos <= toks@.len(),
        !word_is(toks@, pos as int, "CURSOR"@),
        !word_is(toks@, pos as int, "TRIGGER"@),
    ensures
        r matches Ok((d, p)) ==> pos < p <= toks@.len() && decl_at(toks@, pos as int, d, p as int),
        !word_is(toks@, pos as int, "FUNCTION"@) && !word_is(toks@, pos as int, "PROCEDURE"@) ==> (r matches Err(
            ParseError::Syntax(m),
        ) && m@ == "expected `FUNCTION` or `PROCEDURE`"@),
        word_is(toks@, pos as int, "PROCEDURE"@) && is_name(toks@, pos + 1) && word_is(toks@, pos + 2, "IS"@)
            && word_is(toks@, pos + 3, "BEGIN"@) && word_is(toks@, pos + 4, "END"@) && sym_is(toks@, pos + 5, Sym::Semicolon)
            ==> (r matches Ok((d, p)) && p == pos + 6 && (d.routine matches Some(rt) && rt.parameters@.len() == 0
            && rt.kind == RoutineKind::Procedure)),
    decreases toks@.len() - pos, 12int,
{
    proof {
        reveal_keywords();
    }
    let kind = if at_word(toks, pos, "FUNCTION") {
        RoutineKind::Function
    } else if at_word(toks, pos, "PROCEDURE") {
        RoutineKind::Procedure
    } else {
        return Err(ParseError::Syntax("expected `FUNCTION` or `PROCEDURE`".to_owned()));
    };
    let (name, p) = expect_name(toks, pos + 1)?;
    let (parameters, k) = if at_sym(toks, p, Sym::LParen) {
        parse_parameters(toks, p)?
    } else {
        (Vec::new(), p)
    };
    let (return_type, p) = match kind {
        RoutineKind::Function => {
            let p = expect_word(toks, k, "RETURN")?;
            let (t, q) = expect_any_word(toks, p)?;
            (Some(t), q)
        },
        RoutineKind::Procedure => (None, k),
    };
    let after = p;
    let p = if at_word(toks, p, "AS") {
        p + 1
    } else {
        expect_word(toks, p, "IS")?
    };
    let (body, p) = parse_block_at(toks, p)?;
    let declared_type = match kind {
        RoutineKind::Function => "FUNCTION".to_owned(),
        RoutineKind::Procedure => "PROCEDURE".to_owned(),
    };
    let declared_name = name.clone();
    let routine = RoutineDeclaration { kind, name, parameters, return_type, body: Box::new(body) };
    proof {
        assert(routine_rest_at(toks@, pos + 2, routine, k as int, p as int));
        assert(position(toks@, k as int));
    }
    let d = Declaration {
        name: declared_name,
        declared_type,
        init_value: None,
        cursor_query: None,
        trigger: None,
        routine: Some(Rc::new(routine)),
    };
    assert(decl_at(toks@, pos as int, d, p as int));
    Ok((d, p))
}

/// `( [name type {, name type}] )`, starting at the `(`.
fn parse_parameters(toks: &Vec<Token>, pos: usize) -> (r: Result<(Vec<RoutineParameter>, usize), ParseError>)
    requires
        pos <= toks@.len(),
    ensures
        r matches Ok((ps, p)) ==> pos < p <= toks@.len() && params_at(toks@, pos as int, ps@, p as int),
        !sym_is(toks@, pos as int, Sym::LParen) ==> (r matches Err(ParseError::Syntax(m)) && m@ == "expected `"@
            + "("@ + "`"@),
        sym_is(toks@, pos as int, Sym::LParen) && sym_is(toks@, pos + 1, Sym::RParen) ==> (r matches Ok((ps, p))
            && ps@.len() == 0 && p == pos + 2),
{
    proof {
        reveal_keywords();
    }
    let n = toks.len();
    let mut p = expect_sym(toks, pos, Sym::LParen, "(")?;
    let mut out: Vec<RoutineParameter> = Vec::new();
    if at_sym(toks, p, Sym::RParen) {
        return Ok((out, p + 1));
    }
    loop
        invariant
            n == toks@.len(),
            pos < p <= toks@.len(),
            sym_is(toks@, pos as int, Sym::LParen),
            !sym_is(toks@, pos + 1, Sym::RParen),
            out@.len() == 0 ==> p == pos + 1,
            out@.len() > 0 ==> pos + 1 < p - 1 && sym_is(toks@, p - 1, Sym::Comma) && param_list_at(
                toks@,
                pos + 1,
                out@,
                p - 1,
            ),
        decreases toks@.len() - p,
    {
        let (name, q) = expect_name(toks, p)?;
        let (declared_type, q) = expect_any_word(toks, q)?;
        let ghost before = out@;
        out.push(RoutineParameter { name, declared_type });
        proof {
            assert(out@.drop_last() =~= before);
            assert(param_list_at(toks@, pos + 1, out@, q as int));
        }
        if at_sym(toks, q, Sym::Comma) {
            p = q + 1;
        } else {
            let q = expect_sym(toks, q, Sym::RParen, ")")?;
            return Ok((out, q));
        }
    }
}

/// A statement list ends at `pos`: the tokens end, or `END`, `ELSIF`,
/// `ELSE`, `EXCEPTION` or `WHEN` stands there.
pub open spec fn list_end_at(toks: Seq<Token>, pos: int) -> bool {
    pos >= toks.len() || word_is(toks, pos, "END"@) || word_is(toks, pos, "ELSIF"@) || word_is(toks, pos, "ELSE"@)
        || word_is(toks, pos, "EXCEPTION"@) || word_is(toks, pos, "WHEN"@)
}

/// A statement of a keyword and `;` stands at `pos`: `EXIT;`, `COMMIT;`,
/// `ROLLBACK;`, `RETURN;` or `RAISE name;`.
pub open spec fn keyword_stmt(toks: Seq<Token>, pos: int) -> bool {
    ||| (word_is(toks, pos, "EXIT"@) || word_is(toks, pos, "COMMIT"@) || word_is(toks, pos, "ROLLBACK"@) || word_is(
        toks,
        pos,
        "RETURN"@,
    )) && sym_is(toks, pos + 1, Sym::Semicolon)
    ||| word_is(toks, pos, "RAISE"@) && is_name(toks, pos + 1) && sym_is(toks, pos + 2, Sym::Semicolon)
}

/// Where the keyword statement at `pos` ends.
pub open spec fn keyword_end(toks: Seq<Token>, pos: int) -> int {
    if word_is(toks, pos, "RAISE"@) {
        pos + 3
    } else {
        pos + 2
    }
}

/// The words that end a statement list.
fn at_list_end(toks: &Vec<Token>, pos: usize) -> (r: bool)
    ensures
        r == list_end_at(toks@, pos as int),
{
    pos >= toks.len() || at_word(toks, pos, "END") || at_word(toks, pos, "ELSIF") || at_word(
        toks,
        pos,
        "ELSE",
    ) || at_word(toks, pos, "EXCEPTION") || at_word(toks, pos, "WHEN")
}

/// Statements up to `END`, `ELSIF`, `ELSE`, `EXCEPTION` or `WHEN`.
pub fn parse_statements(toks: &Vec<Token>, pos: usize) -> (r: Result<(Vec<Statement>, usize), ParseError>)
    requires
        pos <= toks@.len(),
    ensures
        r matches Ok((ss, p)) ==> pos <= p <= toks@.len() && stmts_at(toks@, pos as int, ss@, p as int),
        list_end_at(toks@, pos as int) ==> (r matches Ok((ss, p)) && ss@.len() == 0 && p == pos),
        keyword_stmt(toks@, pos as int) && list_end_at(toks@, keyword_end(toks@, pos as int)) ==> (r matches Ok(
            (ss, p),
        ) && ss@.len() == 1 && p == keyword_end(toks@, pos as int)),
    decreases toks@.len() - pos, 25int,
{
    let n = toks.len();
    let mut p = pos;
    let mut out: Vec<Statement> = Vec::new();
    proof {
        reveal_keywords();
    }
    while !at_list_end(toks, p)
        invariant
            n == toks@.len(),
            pos <= p <= toks@.len(),
            stmts_at(toks@, pos as int, out@, p as int),
            out@.len() == 0 ==> p == pos,
            list_end_at(toks@, pos as int) ==> out@.len() == 0,
            keyword_stmt(toks@, pos as int) && list_end_at(toks@, keyword_end(toks@, pos as int)) ==> (out@.len()
                == 0 || (out@.len() == 1 && p == keyword_end(toks@, pos as int))),
        decreases toks@.len() - p,
    {
        let (s, q) = parse_statement(toks, p)?;
        let ghost before = out@;
        out.push(s);
        proof {
            assert(out@.drop_last() =~= before);
            assert(position(toks@, p as int));
        }
        p = q;
    }
    Ok((out, p))
}

/// One statement.
pub fn parse_statement(toks: &Vec<Token>, pos: usize) -> (r: Result<(Statement, usize), ParseError>)
    requires
        pos <= toks@.len(),
    ensures
        stmt_parsed(r, toks@, pos),
        keyword_stmt(toks@, pos as int) ==> (r matches Ok((_, p)) && p == keyword_end(toks@, pos as int)),
    decreases toks@.len() - pos, 20int,
{
    proof {
        reveal_keywords();
    }
    if at_word(toks, pos, "DECLARE") || at_word(toks, pos, "BEGIN") {
        let (b, p) = parse_block_at(toks, pos)?;
        return Ok((Statement::Block(Box::new(b)), p));
    }
    if at_word(toks, pos, "IF") {
        return parse_if(toks, pos);
    }
    if at_word(toks, pos, "WHILE") || at_word(toks, pos, "LOOP") || at_word(toks, pos, "FOR") {
        return parse_loop(toks, pos);
    }
    if at_word(toks, pos, "SELECT") || at_word(toks, pos, "INSERT") || at_word(toks, pos, "UPDATE")
        || at_word(toks, pos, "DELETE") {
        return parse_dml(toks, pos);
    }
    if at_word(toks, pos, "CREATE") || at_word(toks, pos, "ALTER") || at_word(toks, pos, "DROP") {
        return parse_ddl(toks, pos);
    }
    parse_simple(toks, pos)
}

/// `IF cond THEN statements {ELSIF cond THEN statements} [ELSE statements] END IF;`
fn parse_if(toks: &Vec<Token>, pos: usize) -> (r: Result<(Statement, usize), ParseError>)
    requires
        pos <= toks@.len(),
    ensures
        stmt_parsed(r, toks@, pos),
        !word_is(toks@, pos as int, "IF"@) ==> (r matches Err(ParseError::Syntax(m)) && m@ == "expected `"@ + "IF"@
            + "`"@),
        word_is(toks@, pos as int, "IF"@) && single_token_primary(toks@, pos + 1) && word_is(toks@, pos + 2, "THEN"@)
            && word_is(toks@, pos + 3, "END"@) && word_is(toks@, pos + 4, "IF"@) && sym_is(toks@, pos + 5, Sym::Semicolon)
            ==> (r matches Ok((s, p)) && p == pos + 6),
    decreases toks@.len() - pos, 18int,
{
    proof {
        reveal_keywords();
        if word_is(toks@, pos + 2, "THEN"@) {
            lemma_ends_operand(toks@, pos + 2);
        }
    }
    let n = toks.len();
    let p = expect_word(toks, pos, "IF")?;
    let (condition, k) = parse_level(toks, p, EXPR_LEVEL)?;
    let p = expect_word(toks, k, "THEN")?;
    let (then_branch, k1) = parse_statements(toks, p)?;
    let mut p = k1;
    let mut elsif_branches: Vec<IfBranch> = Vec::new();
    while at_word(toks, p, "ELSIF")
        invariant
            n == toks@.len(),
            pos < k1 <= p <= toks@.len(),
            elsifs_at(toks@, k1 as int, elsif_branches@, p as int),
            word_is(toks@, pos as int, "IF"@),
            word_is(toks@, pos as int, "IF"@) && single_token_primary(toks@, pos + 1) && word_is(toks@, pos + 2, "THEN"@)
                && word_is(toks@, pos + 3, "END"@) && word_is(toks@, pos + 4, "IF"@) && sym_is(toks@, pos + 5, Sym::Semicolon)
                ==> p == pos + 3 && elsif_branches@.len() == 0 && !word_is(toks@, pos + 3, "ELSIF"@),
        decreases toks@.len() - p,
    {
        let (c, q) = parse_level(toks, p + 1, EXPR_LEVEL)?;
        let q2 = expect_word(toks, q, "THEN")?;
        let (stmts, q3) = parse_statements(toks, q2)?;
        let b = IfBranch { condition: c, statements: stmts };
        assert(elsif_at(toks@, p as int, b, q3 as int));
        let ghost before = elsif_branches@;
        elsif_branches.push(b);
        proof {
            assert(elsif_branches@.drop_last() =~= before);
            assert(position(toks@, p as int));
        }
        p = q3;
    }
    let k2 = p;
    let (else_branch, p) = if at_word(toks, p, "ELSE") {
        let (stmts, q) = parse_statements(toks, p + 1)?;
        (Some(stmts), q)
    } else {
        (None, p)
    };
    let k3 = p;
    let p = expect_word(toks, p, "END")?;
    let p = expect_word(toks, p, "IF")?;
    let p = end_of_statement(toks, p)?;
    proof {
        assert(else_at(toks@, k2 as int, else_branch, k3 as int));
        assert(position(toks@, k1 as int));
        assert(position(toks@, k2 as int));
        assert(if_body_at(toks@, k + 1, then_branch@, elsif_branches@, else_branch, k3 as int));
    }
    let stmt = Statement::If { condition, then_branch, elsif_branches, else_branch };
    assert(stmt_at(toks@, pos as int, stmt, p as int));
    Ok((stmt, p))
}

/// `... LOOP statements END LOOP;`, starting at `LOOP`.
fn parse_loop_body(toks: &Vec<Token>, pos: usize) -> (r: Result<(Vec<Statement>, usize), ParseError>)
    requires
        pos <= toks@.len(),
    ensures
        r matches Ok((body, p)) ==> pos < p <= toks@.len() && loop_body_at(toks@, pos as int, body@, p as int),
        !word_is(toks@, pos as int, "LOOP"@) ==> (r matches Err(ParseError::Syntax(m)) && m@ == "expected `"@
            + "LOOP"@ + "`"@),
        word_is(toks@, pos as int, "LOOP"@) && word_is(toks@, pos + 1, "END"@) && word_is(toks@, pos + 2, "LOOP"@)
            && sym_is(toks@, pos + 3, Sym::Semicolon) ==> (r matches Ok((body, p)) && body@.len() == 0 && p == pos + 4),
    decreases toks@.len() - pos, 17int,
{
    proof {
        reveal_keywords();
    }
    let p = expect_word(toks, pos, "LOOP")?;
    let (body, p) = parse_statements(toks, p)?;
    let p = expect_word(toks, p, "END")?;
    let p = expect_word(toks, p, "LOOP")?;
    let p = end_of_statement(toks, p)?;
    assert(loop_body_at(toks@, pos as int, body@, p as int));
    Ok((body, p))
}

/// `WHILE cond LOOP ... END LOOP;`, `LOOP ... END LOOP;`,
/// `FOR i IN a..b LOOP ... END LOOP;` or `FOR names IN cursor LOOP ... END LOOP;`.
fn parse_loop(toks: &Vec<Token>, pos: usize) -> (r: Result<(Statement, usize), ParseError>)
    requires
        pos <= toks@.len(),
    ensures
        stmt_parsed(r, toks@, pos),
        !word_is(toks@, pos as int, "WHILE"@) && !word_is(toks@, pos as int, "LOOP"@) && !word_is(toks@, pos as int, "FOR"@)
            ==> (r matches Err(ParseError::Syntax(m)) && m@ == "expected `"@ + "FOR"@ + "`"@),
        word_is(toks@, pos as int, "LOOP"@) && word_is(toks@, pos + 1, "END"@) && word_is(toks@, pos + 2, "LOOP"@)
            && sym_is(toks@, pos + 3, Sym::Semicolon) ==> (r matches Ok((s, p)) && (s matches Statement::Loop { body }
            && body@.len() == 0) && p == pos + 4),
    decreases toks@.len() - pos, 18int,
{
    proof {
        reveal_keywords();
    }
    if at_word(toks, pos, "WHILE") {
        let (condition, p) = parse_level(toks, pos + 1, EXPR_LEVEL)?;
        let (body, p) = parse_loop_body(toks, p)?;
        return Ok((Statement::While { condition, body }, p));
    }
    if at_word(toks, pos, "LOOP") {
        let (body, p) = parse_loop_body(toks, pos)?;
        return Ok((Statement::Loop { body }, p));
    }
    let p = expect_word(toks, pos, "FOR")?;
    let (mut targets, p) = parse_name_list(toks, p)?;
    let p = expect_word(toks, p, "IN")?;
    if at_word_token(toks, p) && at_word(toks, p + 1, "LOOP") {
        let (cursor, q) = expect_name(toks, p)?;
        let (body, q) = parse_loop_body(toks, q)?;
        return Ok((Statement::CursorFor { targets, cursor, body }, q));
    }
    if targets.len() != 1 {
        return Err(ParseError::Syntax("expected one loop variable".to_owned()));
    }
    let variable = targets.remove(0);
    let (start, p) = parse_level(toks, p, EXPR_LEVEL)?;
    let p = expect_sym(toks, p, Sym::DotDot, "..")?;
    let (end, p) = parse_level(toks, p, EXPR_LEVEL)?;
    let (body, p) = parse_loop_body(toks, p)?;
    Ok((Statement::For { variable, start, end, body }, p))
}

/// A query of one single-token expression and a table, with nothing after
/// it but a `;` or the end: `x FROM t`.
pub open spec fn simple_query(toks: Seq<Token>, pos: int) -> bool {
    &&& single_token_primary(toks, pos)
    &&& word_is(toks, pos + 1, "FROM"@)
    &&& is_name(toks, pos + 2)
    &&& (pos + 3 >= toks.len() || sym_is(toks, pos + 3, Sym::Semicolon))
}

/// `SELECT list [INTO names] FROM source {join} [WHERE cond]`, starting
/// after `SELECT`; the `INTO` list is required when `needs_into`.
fn parse_query(toks: &Vec<Token>, pos: usize, needs_into: bool) -> (r: Result<
    (CursorQuery, Vec<String>, usize),
    ParseError,
>)
    requires
        pos <= toks@.len(),
    ensures
        r matches Ok((q, targets, p)) ==> pos < p <= toks@.len() && query_at(toks@, pos as int, q, targets@, p as int)
            && (needs_into ==> targets@.len() > 0),
        needs_into && single_token_primary(toks@, pos as int) && word_is(toks@, pos + 1, "FROM"@) ==> (r matches Err(
            ParseError::Syntax(m),
        ) && m@ == "expected `"@ + "INTO"@ + "`"@),
        !needs_into && simple_query(toks@, pos as int) ==> (r matches Ok((q, targets, p)) && p == pos + 3
            && targets@.len() == 0 && q.select_list@.len() == 1 && q.joins@.len() == 0 && q.where_clause is None),
    decreases toks@.len() - pos, 16int,
{
    proof {
        reveal_keywords();
        if word_is(toks@, pos + 1, "FROM"@) {
            lemma_ends_operand(toks@, pos + 1);
        }
    }
    let ghost simple = !needs_into && simple_query(toks@, pos as int);
    let n = toks.len();
    let (select_list, p1) = parse_expression_list(toks, pos)?;
    let (targets, p2) = if at_word(toks, p1, "INTO") {
        parse_name_list(toks, p1 + 1)?
    } else if needs_into {
        return Err(expected("INTO"));
    } else {
        (Vec::new(), p1)
    };
    assert(into_at(toks@, p1 as int, targets@, p2 as int));
    let p3 = expect_word(toks, p2, "FROM")?;
    let (from, p4) = parse_source(toks, p3)?;
    let mut p = p4;
    let mut joins: Vec<JoinClause> = Vec::new();
    loop
        invariant
            n == toks@.len(),
            pos < p4 <= p <= toks@.len(),
            joins_at(toks@, p4 as int, joins@, p as int),
            simple == (!needs_into && simple_query(toks@, pos as int)),
            !(needs_into && single_token_primary(toks@, pos as int) && word_is(toks@, pos + 1, "FROM"@)),
            simple ==> p == pos + 3 && joins@.len() == 0 && (pos + 3 >= toks@.len() || sym_is(
                toks@,
                pos + 3,
                Sym::Semicolon,
            )),
        decreases toks@.len() - p,
    {
        if !(at_word(toks, p, "JOIN") || at_word(toks, p, "INNER") || at_word(toks, p, "LEFT") || at_word(
            toks,
            p,
            "RIGHT",
        ) || at_word(toks, p, "OUTER")) {
            break;
        }
        let (kind, q) = if at_word(toks, p, "JOIN") {
            (JoinKind::Inner, p)
        } else if at_word(toks, p, "INNER") {
            (JoinKind::Inner, p + 1)
        } else if at_word(toks, p, "LEFT") {
            (JoinKind::Left, if at_word(toks, p + 1, "OUTER") {
                p + 2
            } else {
                p + 1
            })
        } else if at_word(toks, p, "RIGHT") {
            (JoinKind::Right, if at_word(toks, p + 1, "OUTER") {
                p + 2
            } else {
                p + 1
            })
        } else {
            (JoinKind::Outer, p + 1)
        };
        let q = expect_word(toks, q, "JOIN")?;
        assert(join_kind_at(toks@, p as int, kind, q as int));
        let (source, q2) = parse_source(toks, q)?;
        let q3 = expect_word(toks, q2, "ON")?;
        let (on, q4) = parse_level(toks, q3, EXPR_LEVEL)?;
        let ghost before = joins@;
        let jc = JoinClause { kind, source, on };
        assert(join_at(toks@, p as int, jc, q4 as int));
        joins.push(jc);
        proof {
            assert(joins@.drop_last() =~= before);
            assert(position(toks@, p as int));
        }
        p = q4;
    }
    let (where_clause, p5) = if at_word(toks, p, "WHERE") {
        let (e, q) = parse_level(toks, p + 1, EXPR_LEVEL)?;
        (Some(e), q)
    } else {
        (None, p)
    };
    let query = CursorQuery { select_list, from, joins, where_clause };
    proof {
        assert(position(toks@, p4 as int));
        assert(position(toks@, p as int));
        assert(from_at(toks@, p3 as int, query, p5 as int));
        assert(position(toks@, p1 as int));
        assert(query_at(toks@, pos as int, query, targets@, p5 as int));
    }
    Ok((query, targets, p5))
}

/// `table [alias]`.
fn parse_source(toks: &Vec<Token>, pos: usize) -> (r: Result<(QuerySource, usize), ParseError>)
    ensures
        r matches Ok((s, p)) ==> pos < p <= toks@.len() && source_at(toks@, pos as int, s, p as int),
        r is Ok <==> is_name(toks@, pos as int),
        is_name(toks@, pos as int) && !is_name(toks@, pos + 1) ==> (r matches Ok((s, p)) && s.alias is None && p
            == pos + 1),
{
    let (table, p) = expect_name(toks, pos)?;
    match expect_name(toks, p) {
        Ok((alias, q)) => Ok((QuerySource { table, alias: Some(alias) }, q)),
        Err(_) => Ok((QuerySource { table, alias: None }, p)),
    }
}

/// `[WHERE cond]`.
fn parse_where(toks: &Vec<Token>, pos: usize) -> (r: Result<(Option<Expr>, usize), ParseError>)
    requires
        pos <= toks@.len(),
    ensures
        r matches Ok((w, p)) ==> pos <= p <= toks@.len() && where_at(toks@, pos as int, w, p as int),
        !word_is(toks@, pos as int, "WHERE"@) ==> r == Ok::<(Option<Expr>, usize), ParseError>((None, pos)),
    decreases toks@.len() - pos, 16int,
{
    if at_word(toks, pos, "WHERE") {
        let (e, q) = parse_level(toks, pos + 1, EXPR_LEVEL)?;
        Ok((Some(e), q))
    } else {
        Ok((None, pos))
    }
}

/// `SELECT ... INTO ...;`, `INSERT INTO t [(cols)] VALUES (exprs);`,
/// `UPDATE t SET col = expr {, col = expr} [WHERE cond];` or
/// `DELETE FROM t [WHERE cond];`.
fn parse_dml(toks: &Vec<Token>, pos: usize) -> (r: Result<(Statement, usize), ParseError>)
    requires
        pos <= toks@.len(),
    ensures
        stmt_parsed(r, toks@, pos),
        !word_is(toks@, pos as int, "SELECT"@) && !word_is(toks@, pos as int, "INSERT"@) && !word_is(
            toks@,
            pos as int,
            "UPDATE"@,
        ) && !word_is(toks@, pos as int, "DELETE"@) ==> (r matches Err(ParseError::Syntax(m)) && m@ == "expected `"@
            + "DELETE"@ + "`"@),
        word_is(toks@, pos as int, "DELETE"@) && word_is(toks@, pos + 1, "FROM"@) && is_name(toks@, pos + 2) && sym_is(
            toks@,
            pos + 3,
            Sym::Semicolon,
        ) ==> (r matches Ok((s, p)) && (s matches Statement::Delete(d) && d.where_clause is None) && p == pos + 4),
    decreases toks@.len() - pos, 18int,
{
    proof {
        reveal_keywords();
    }
    let n = toks.len();
    if at_word(toks, pos, "SELECT") {
        let (query, targets, p) = parse_query(toks, pos + 1, true)?;
        let p = end_of_statement(toks, p)?;
        return Ok((Statement::SelectInto(SelectIntoTarget { targets, query }), p));
    }
    if at_word(toks, pos, "INSERT") {
        let p = expect_word(toks, pos + 1, "INTO")?;
        let (table, p) = expect_name(toks, p)?;
        let (columns, p) = if at_sym(toks, p, Sym::LParen) {
            let (cols, q) = parse_name_list(toks, p + 1)?;
            let q = expect_sym(toks, q, Sym::RParen, ")")?;
            (Some(cols), q)
        } else {
            (None, p)
        };
        let p = expect_word(toks, p, "VALUES")?;
        let p = expect_sym(toks, p, Sym::LParen, "(")?;
        let (values, p) = parse_expression_list(toks, p)?;
        let p = expect_sym(toks, p, Sym::RParen, ")")?;
        let p = end_of_statement(toks, p)?;
        return Ok((Statement::Insert(InsertStatement { table, columns, values }), p));
    }
    if at_word(toks, pos, "UPDATE") {
        let (table, p) = expect_name(toks, pos + 1)?;
        let start = expect_word(toks, p, "SET")?;
        let mut p = start;
        let mut assignments: Vec<UpdateAssignment> = Vec::new();
        loop
            invariant_except_break
                assignments@.len() == 0 ==> p == start,
                assignments@.len() > 0 ==> start < p - 1 && sym_is(toks@, p - 1, Sym::Comma) && assignments_at(
                    toks@,
                    start as int,
                    assignments@,
                    p - 1,
                ),
            invariant
                n == toks@.len(),
                start == pos + 3,
                start <= p <= toks@.len(),
                word_is(toks@, pos as int, "UPDATE"@),
                !word_is(toks@, pos as int, "DELETE"@),
            ensures
                start < p <= toks@.len(),
                assignments_at(toks@, start as int, assignments@, p as int),
            decreases toks@.len() - p,
        {
            let (column, q) = expect_name(toks, p)?;
            let q = expect_sym(toks, q, Sym::Eq, "=")?;
            let (value, q) = parse_level(toks, q, EXPR_LEVEL)?;
            let ghost before = assignments@;
            assignments.push(UpdateAssignment { column, value });
            proof {
                assert(assignments@.drop_last() =~= before);
                assert(sym_is(toks@, p + 1, Sym::Eq));
                assert(assignments_at(toks@, start as int, assignments@, q as int));
            }
            p = q;
            if at_sym(toks, p, Sym::Comma) {
                p = p + 1;
            } else {
                break;
            }
        }
        let (where_clause, p2) = parse_where(toks, p)?;
        let p3 = end_of_statement(toks, p2)?;
        let stmt = Statement::Update(UpdateStatement { table, assignments, where_clause });
        proof {
            assert(position(toks@, p as int));
            assert(stmt_at(toks@, pos as int, stmt, p3 as int));
        }
        return Ok((stmt, p3));
    }
    let p = expect_word(toks, pos, "DELETE")?;
    let p = expect_word(toks, p, "FROM")?;
    let (table, p) = expect_name(toks, p)?;
    let (where_clause, p) = parse_where(toks, p)?;
    let p = end_of_statement(toks, p)?;
    Ok((Statement::Delete(DeleteStatement { table, where_clause }), p))
}

/// `(name {, name})`, starting at the `(`.
fn parse_column_list(toks: &Vec<Token>, pos: usize) -> (r: Result<(Vec<String>, usize), ParseError>)
    ensures
        r matches Ok((cols, p)) ==> pos + 2 < p <= toks@.len() && sym_is(toks@, pos as int, Sym::LParen)
            && names_at(toks@, pos + 1, cols@, p - 1) && sym_is(toks@, p - 1, Sym::RParen),
        forall|ns: Seq<String>, k: int|
            #![trigger names_at(toks@, pos + 1, ns, k)]
            sym_is(toks@, pos as int, Sym::LParen) && names_at(toks@, pos + 1, ns, k) && sym_is(toks@, k, Sym::RParen)
                ==> (r matches Ok((cols, p)) && cols@ == ns && p == k + 1),
{
    let p = expect_sym(toks, pos, Sym::LParen, "(")?;
    let (cols, p) = parse_name_list(toks, p)?;
    let p = expect_sym(toks, p, Sym::RParen, ")")?;
    Ok((cols, p))
}

/// `CREATE TABLE t (cols);`, `ALTER TABLE t ADD CONSTRAINT name (cols);` or
/// `DROP TABLE t;`.
fn parse_ddl(toks: &Vec<Token>, pos: usize) -> (r: Result<(Statement, usize), ParseError>)
    requires
        pos <= toks@.len(),
    ensures
        stmt_parsed(r, toks@, pos),
        !word_is(toks@, pos as int, "CREATE"@) && !word_is(toks@, pos as int, "ALTER"@) && !word_is(
            toks@,
            pos as int,
            "DROP"@,
        ) ==> (r matches Err(ParseError::Syntax(m)) && m@ == "expected `"@ + "DROP"@ + "`"@),
        word_is(toks@, pos as int, "DROP"@) && word_is(toks@, pos + 1, "TABLE"@) && is_name(toks@, pos + 2) && sym_is(
            toks@,
            pos + 3,
            Sym::Semicolon,
        ) ==> (r matches Ok((s, p)) && s is DropTable && p == pos + 4),
{
    proof {
        reveal_keywords();
    }
    if at_word(toks, pos, "CREATE") {
        let p = expect_word(toks, pos + 1, "TABLE")?;
        let (table, p) = expect_name(toks, p)?;
        let (columns, p) = parse_column_list(toks, p)?;
        let p = end_of_statement(toks, p)?;
        return Ok((Statement::CreateTable(CreateTableStatement { table, columns }), p));
    }
    if at_word(toks, pos, "ALTER") {
        let p = expect_word(toks, pos + 1, "TABLE")?;
        let (table, p) = expect_name(toks, p)?;
        let p = expect_word(toks, p, "ADD")?;
        let p = expect_word(toks, p, "CONSTRAINT")?;
        let (name, p) = expect_name(toks, p)?;
        let (columns, p) = parse_column_list(toks, p)?;
        let p = end_of_statement(toks, p)?;
        return Ok((
            Statement::AlterTable(
                AlterTableStatement { table, action: AlterTableAction::AddConstraint { name, columns } },
            ),
            p,
        ));
    }
    let p = expect_word(toks, pos, "DROP")?;
    let p = expect_word(toks, p, "TABLE")?;
    let (table, p) = expect_name(toks, p)?;
    let p = end_of_statement(toks, p)?;
    Ok((Statement::DropTable(DropTableStatement { table }), p))
}

/// `EXIT [WHEN cond];`, `RAISE name;`, `COMMIT;`, `ROLLBACK;`,
/// `OPEN c;`, `FETCH c INTO names;`, `CLOSE c;`, `RETURN [expr];`,
/// `name := expr;`, `name(args);` or `expr;`.
fn parse_simple(toks: &Vec<Token>, pos: usize) -> (r: Result<(Statement, usize), ParseError>)
    requires
        pos <= toks@.len(),
    ensures
        stmt_parsed(r, toks@, pos),
        keyword_stmt(toks@, pos as int) ==> (r matches Ok((_, p)) && p == keyword_end(toks@, pos as int)),
    decreases toks@.len() - pos, 18int,
{
    proof {
        reveal_keywords();
    }
    if at_word(toks, pos, "EXIT") {
        let (condition, p) = if at_word(toks, pos + 1, "WHEN") {
            let (e, q) = parse_level(toks, pos + 2, EXPR_LEVEL)?;
            (Some(e), q)
        } else {
            (None, pos + 1)
        };
        let p = end_of_statement(toks, p)?;
        return Ok((Statement::Exit { condition }, p));
    }
    if at_word(toks, pos, "RAISE") {
        let (name, p) = expect_name(toks, pos + 1)?;
        let p = end_of_statement(toks, p)?;
        return Ok((Statement::Raise { name }, p));
    }
    if at_word(toks, pos, "COMMIT") {
        let p = end_of_statement(toks, pos + 1)?;
        return Ok((Statement::Commit, p));
    }
    if at_word(toks, pos, "ROLLBACK") {
        let p = end_of_statement(toks, pos + 1)?;
        return Ok((Statement::Rollback, p));
    }
    if at_word(toks, pos, "OPEN") {
        let (name, p) = expect_name(toks, pos + 1)?;
        let p = end_of_statement(toks, p)?;
        return Ok((Statement::OpenCursor { name }, p));
    }
    if at_word(toks, pos, "FETCH") {
        let (name, p) = expect_name(toks, pos + 1)?;
        let p = expect_word(toks, p, "INTO")?;
        let (targets, p) = parse_name_list(toks, p)?;
        let p = end_of_statement(toks, p)?;
        return Ok((Statement::FetchCursor { name, targets }, p));
    }
    if at_word(toks, pos, "CLOSE") {
        let (name, p) = expect_name(toks, pos + 1)?;
        let p = end_of_statement(toks, p)?;
        return Ok((Statement::CloseCursor { name }, p));
    }
    if at_word(toks, pos, "RETURN") {
        if at_sym(toks, pos + 1, Sym::Semicolon) {
            return Ok((Statement::Return(None), pos + 2));
        }
        let (e, p) = parse_level(toks, pos + 1, EXPR_LEVEL)?;
        let p = end_of_statement(toks, p)?;
        return Ok((Statement::Return(Some(e)), p));
    }
    if pos < toks.len() && at_word_token(toks, pos) && at_sym(toks, pos + 1, Sym::Assign) {
        let (name, p) = expect_name(toks, pos)?;
        let (value, p) = parse_level(toks, p + 1, EXPR_LEVEL)?;
        let p = end_of_statement(toks, p)?;
        return Ok((Statement::Assignment { name, value }, p));
    }
    if pos < toks.len() && at_word_token(toks, pos) && at_sym(toks, pos + 1, Sym::LParen) {
        let (name, p) = expect_name(toks, pos)?;
        let (args, p) = parse_arguments(toks, p)?;
        if at_sym(toks, p, Sym::Semicolon) {
            return Ok((Statement::Call { name, args }, p + 1));
        }
    }
    let (e, p) = parse_level(toks, pos, EXPR_LEVEL)?;
    let p = end_of_statement(toks, p)?;
    Ok((Statement::Expression(e), p))
}

} // verus!
