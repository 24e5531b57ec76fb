use vstd::prelude::*;

use super::lexer::{Sym, Token, TokenKind};
use super::stream::{at_sym, at_word, expect_sym, is_reserved, reserved_word, sym_is, word_is};
use super::ParseError;
use crate::ast::{BinaryOp, Expr, UnaryOp};
use crate::expr::time::{parse_iso_date, parsed_iso_date};
use crate::expr::value::{upper, Date, Value};

verus! {

/// The binding level of a whole expression (`OR`).
pub const EXPR_LEVEL: u32 = 7;

/// The binary operator at `pos` that binds at `level`: `OR` (7), `AND` (6),
/// `=`/`!=` (5), `<`/`<=`/`>`/`>=` (4), `+`/`-` (3), `*`/`/` (2).
pub open spec fn operator_at(toks: Seq<Token>, pos: int, level: u32) -> Option<BinaryOp> {
    if level == 7 && word_is(toks, pos, seq!['O', 'R']) {
        Some(BinaryOp::Or)
    } else if level == 6 && word_is(toks, pos, seq!['A', 'N', 'D']) {
        Some(BinaryOp::And)
    } else if level == 5 && sym_is(toks, pos, Sym::Eq) {
        Some(BinaryOp::Eq)
    } else if level == 5 && sym_is(toks, pos, Sym::Neq) {
        Some(BinaryOp::Neq)
    } else if level == 4 && sym_is(toks, pos, Sym::Lt) {
        Some(BinaryOp::Lt)
    } else if level == 4 && sym_is(toks, pos, Sym::Lte) {
        Some(BinaryOp::Lte)
    } else if level == 4 && sym_is(toks, pos, Sym::Gt) {
        Some(BinaryOp::Gt)
    } else if level == 4 && sym_is(toks, pos, Sym::Gte) {
        Some(BinaryOp::Gte)
    } else if level == 3 && sym_is(toks, pos, Sym::Plus) {
        Some(BinaryOp::Add)
    } else if level == 3 && sym_is(toks, pos, Sym::Minus) {
        Some(BinaryOp::Sub)
    } else if level == 2 && sym_is(toks, pos, Sym::Star) {
        Some(BinaryOp::Mul)
    } else if level == 2 && sym_is(toks, pos, Sym::Slash) {
        Some(BinaryOp::Div)
    } else {
        None
    }
}

/// The tokens `[i, j)` spell `e` as an expression binding at `level` or
/// tighter: at levels 2 to 7 a left-associated chain of operators of that
/// level over operands of the level below; at level 1 a prefix `-` or
/// `NOT`; at level 0 a primary.
pub open spec fn expr_at(toks: Seq<Token>, level: int, i: int, e: Expr, j: int) -> bool
    decreases j - i, level + 1,
{
    if !(0 <= i < j <= toks.len()) || level < 0 || level > 7 {
        false
    } else if level == 0 {
        primary_at(toks, i, e, j)
    } else if level == 1 {
        if sym_is(toks, i, Sym::Minus) {
            e matches Expr::Unary { op: UnaryOp::Neg, expr } && expr_at(toks, 1, i + 1, *expr, j)
        } else if word_is(toks, i, "NOT"@) {
            e matches Expr::Unary { op: UnaryOp::Not, expr } && expr_at(toks, 1, i + 1, *expr, j)
        } else {
            expr_at(toks, 0, i, e, j)
        }
    } else {
        ||| expr_at(toks, level - 1, i, e, j)
        ||| e matches Expr::Binary { left, op, right } && exists|k: int|
            i < k < j - 1 && expr_at(toks, level, i, *left, k) && #[trigger] operator_at(toks, k, level as u32)
                == Some(op) && expr_at(toks, level - 1, k + 1, *right, j)
    }
}

/// The tokens `[i, j)` spell the primary expression `e`: a number or
/// string literal, `( expression )`, `TRUE`, `FALSE`, `SYSDATE`,
/// `DATE 'yyyy-mm-dd'`, a call `name(arguments)` or a name; a reserved word
/// is no name.
pub open spec fn primary_at(toks: Seq<Token>, i: int, e: Expr, j: int) -> bool
    decreases j - i, 0int,
{
    if !(0 <= i < j <= toks.len()) {
        false
    } else {
        match toks[i].kind {
            TokenKind::Num(n) => j == i + 1 && e == Expr::Literal(Value::Number(n)),
            TokenKind::Str(s) => j == i + 1 && (e matches Expr::Literal(Value::Text(t)) && t@ == s@),
            TokenKind::Sym(x) => x == Sym::LParen && i + 2 < j && sym_is(toks, j - 1, Sym::RParen) && expr_at(
                toks,
                7,
                i + 1,
                e,
                j - 1,
            ),
            TokenKind::Word(w) => if word_is(toks, i, "TRUE"@) {
                j == i + 1 && e == Expr::Literal(Value::Bool(true))
            } else if word_is(toks, i, "FALSE"@) {
                j == i + 1 && e == Expr::Literal(Value::Bool(false))
            } else if word_is(toks, i, "SYSDATE"@) {
                j == i + 1 && e == Expr::Sysdate
            } else if word_is(toks, i, "DATE"@) && i + 1 < toks.len() && toks[i + 1].kind is Str {
                j == i + 2 && (toks[i + 1].kind matches TokenKind::Str(text) && (parsed_iso_date(text@) matches Some(
                    d,
                ) && e == Expr::Literal(Value::Date(d))))
            } else if reserved_word(w@) {
                false
            } else if sym_is(toks, i + 1, Sym::LParen) {
                e matches Expr::Call { name, args } && name@ == w@ && args_at(toks, i + 1, args@, j)
            } else {
                j == i + 1 && (e matches Expr::Var(n) && n@ == w@)
            },
        }
    }
}

/// The tokens `[i, j)` spell `( arguments )`: the arguments separated by
/// commas, or none.
pub open spec fn args_at(toks: Seq<Token>, i: int, args: Seq<Expr>, j: int) -> bool
    decreases j - i, 10int,
{
    if !(0 <= i < j <= toks.len()) {
        false
    } else if args.len() == 0 {
        j == i + 2 && sym_is(toks, i, Sym::LParen) && sym_is(toks, i + 1, Sym::RParen)
    } else {
        sym_is(toks, i, Sym::LParen) && i + 2 < j && sym_is(toks, j - 1, Sym::RParen) && list_at(
            toks,
            i + 1,
            args,
            j - 1,
        )
    }
}

/// The tokens `[i, j)` spell the expressions `list`, separated by commas.
pub open spec fn list_at(toks: Seq<Token>, i: int, list: Seq<Expr>, j: int) -> bool
    decreases j - i, 9int,
{
    if !(0 <= i < j <= toks.len()) || list.len() == 0 {
        false
    } else if list.len() == 1 {
        expr_at(toks, 7, i, list[0], j)
    } else {
        exists|k: int|
            i < k < j - 1 && list_at(toks, i, list.drop_last(), k) && #[trigger] sym_is(toks, k, Sym::Comma)
                && expr_at(toks, 7, k + 1, list.last(), j)
    }
}

/// The token at `i` alone is a primary expression: a number or string
/// literal, `TRUE`, `FALSE`, `SYSDATE`, or a name that is not called and
/// does not start a `DATE` literal.
pub open spec fn single_token_primary(toks: Seq<Token>, i: int) -> bool {
    &&& 0 <= i < toks.len()
    &&& match toks[i].kind {
        TokenKind::Num(_) => true,
        TokenKind::Str(_) => true,
        TokenKind::Sym(_) => false,
        TokenKind::Word(w) => {
            ||| word_is(toks, i, "TRUE"@)
            ||| word_is(toks, i, "FALSE"@)
            ||| word_is(toks, i, "SYSDATE"@)
            ||| !reserved_word(w@) && !sym_is(toks, i + 1, Sym::LParen) && !(word_is(toks, i, "DATE"@) && i + 1
                < toks.len() && toks[i + 1].kind is Str)
        },
    }
}

/// No binary operator, of any level, stands at `j`.
pub open spec fn ends_operand(toks: Seq<Token>, j: int) -> bool {
    forall|l: u32| #[trigger] operator_at(toks, j, l) is None
}

/// A word other than `OR` and `AND`, a symbol that is no operator, or the
/// end of the tokens ends an operand.
pub proof fn lemma_ends_operand(toks: Seq<Token>, j: int)
    requires
        j >= toks.len() || (toks[j].kind matches TokenKind::Word(w) && upper(w@) != "OR"@ && upper(w@) != "AND"@)
            || sym_is(toks, j, Sym::RParen) || sym_is(toks, j, Sym::Comma) || sym_is(toks, j, Sym::Semicolon)
            || sym_is(toks, j, Sym::DotDot),
    ensures
        ends_operand(toks, j),
{
    reveal_strlit("OR");
    reveal_strlit("AND");
    assert("OR"@ =~= seq!['O', 'R']);
    assert("AND"@ =~= seq!['A', 'N', 'D']);
}

proof fn lemma_binary_at(toks: Seq<Token>, level: int, i: int, l: Expr, op: BinaryOp, r: Expr, k: int, j: int)
    requires
        2 <= level <= 7,
        0 <= i < k < j - 1,
        j <= toks.len(),
        expr_at(toks, level, i, l, k),
        operator_at(toks, k, level as u32) == Some(op),
        expr_at(toks, level - 1, k + 1, r, j),
    ensures
        expr_at(toks, level, i, Expr::Binary { left: Box::new(l), op, right: Box::new(r) }, j),
{
}

/// Extending a list spelled by `[i, k)` with a comma at `k` and an
/// expression spelled by `[k + 1, j)`.
proof fn lemma_list_push(toks: Seq<Token>, i: int, list: Seq<Expr>, k: int, e: Expr, j: int)
    requires
        0 <= i < k < j - 1,
        j <= toks.len(),
        list_at(toks, i, list, k),
        sym_is(toks, k, Sym::Comma),
        expr_at(toks, 7, k + 1, e, j),
    ensures
        list_at(toks, i, list.push(e), j),
{
    assert(list.push(e).drop_last() =~= list);
    assert(list_at(toks, i, list.push(e).drop_last(), k));
}

/// `operator_at`, computed.
pub fn binary_operator(toks: &Vec<Token>, pos: usize, level: u32) -> (r: Option<BinaryOp>)
    ensures
        r == operator_at(toks@, pos as int, level),
        r is Some ==> pos < toks.len(),
        r == Some(BinaryOp::Or) ==> level == 7,
        r == Some(BinaryOp::And) ==> level == 6,
        r matches Some(op) && op != BinaryOp::Or && op != BinaryOp::And ==> level <= 5,
{
    proof {
        reveal_strlit("OR");
        reveal_strlit("AND");
        assert("OR"@ =~= seq!['O', 'R']);
        assert("AND"@ =~= seq!['A', 'N', 'D']);
    }
    if level == 7 && at_word(toks, pos, "OR") {
        Some(BinaryOp::Or)
    } else if level == 6 && at_word(toks, pos, "AND") {
        Some(BinaryOp::And)
    } else if level == 5 && at_sym(toks, pos, Sym::Eq) {
        Some(BinaryOp::Eq)
    } else if level == 5 && at_sym(toks, pos, Sym::Neq) {
        Some(BinaryOp::Neq)
    } else if level == 4 && at_sym(toks, pos, Sym::Lt) {
        Some(BinaryOp::Lt)
    } else if level == 4 && at_sym(toks, pos, Sym::Lte) {
        Some(BinaryOp::Lte)
    } else if level == 4 && at_sym(toks, pos, Sym::Gt) {
        Some(BinaryOp::Gt)
    } else if level == 4 && at_sym(toks, pos, Sym::Gte) {
        Some(BinaryOp::Gte)
    } else if level == 3 && at_sym(toks, pos, Sym::Plus) {
        Some(BinaryOp::Add)
    } else if level == 3 && at_sym(toks, pos, Sym::Minus) {
        Some(BinaryOp::Sub)
    } else if level == 2 && at_sym(toks, pos, Sym::Star) {
        Some(BinaryOp::Mul)
    } else if level == 2 && at_sym(toks, pos, Sym::Slash) {
        Some(BinaryOp::Div)
    } else {
        None
    }
}

/// Reads an expression binding at `level` or tighter: operators of one
/// level associate to the left; `-` and `NOT` prefix a primary (level 1);
/// a primary (level 0) is a literal, `SYSDATE`, `DATE 'yyyy-mm-dd'`, a call,
/// a name or a parenthesized expression.
pub fn parse_level(toks: &Vec<Token>, pos: usize, level: u32) -> (r: Result<(Expr, usize), ParseError>)
    requires
        pos <= toks@.len(),
        level <= EXPR_LEVEL,
    ensures
        r matches Ok((e, p)) ==> pos < p <= toks@.len() && expr_at(toks@, level as int, pos as int, e, p as int),
        single_token_primary(toks@, pos as int) && ends_operand(toks@, pos + 1) ==> (r matches Ok((_, p)) && p == pos
            + 1),
        pos >= toks@.len() ==> (r matches Err(ParseError::Syntax(m)) && m@ == "expected an expression"@),
    decreases toks@.len() - pos, level + 1,
{
    if level == 0 {
        let (e, p) = parse_primary(toks, pos)?;
        assert(expr_at(toks@, 0, pos as int, e, p as int));
        return Ok((e, p));
    }
    let n = toks.len();
    proof {
        reveal_strlit("NOT");
        reveal_strlit("TRUE");
        reveal_strlit("FALSE");
        reveal_strlit("SYSDATE");
    }
    if level == 1 {
        if at_sym(toks, pos, Sym::Minus) {
            let (e, p) = parse_level(toks, pos + 1, 1)?;
            return Ok((Expr::Unary { op: UnaryOp::Neg, expr: Box::new(e) }, p));
        }
        if at_word(toks, pos, "NOT") {
            proof {
                assert("NOT"@.len() != "TRUE"@.len() && "NOT"@.len() != "FALSE"@.len() && "NOT"@.len()
                    != "SYSDATE"@.len());
                assert(!single_token_primary(toks@, pos as int));
            }
            let (e, p) = parse_level(toks, pos + 1, 1)?;
            return Ok((Expr::Unary { op: UnaryOp::Not, expr: Box::new(e) }, p));
        }
        return parse_level(toks, pos, 0);
    }
    let n = toks.len();
    let (mut left, mut p) = parse_level(toks, pos, level - 1)?;
    assert(expr_at(toks@, level as int, pos as int, left, p as int));
    loop
        invariant
            n == toks@.len(),
            pos < p <= toks@.len(),
            1 < level <= EXPR_LEVEL,
            expr_at(toks@, level as int, pos as int, left, p as int),
            single_token_primary(toks@, pos as int) && ends_operand(toks@, pos + 1) ==> p == pos + 1,
        decreases toks@.len() - p,
    {
        match binary_operator(toks, p, level) {
            Some(op) => {
                let (right, q) = parse_level(toks, p + 1, level - 1)?;
                proof {
                    lemma_binary_at(toks@, level as int, pos as int, left, op, right, p as int, q as int);
                }
                left = Expr::Binary { left: Box::new(left), op, right: Box::new(right) };
                p = q;
            },
            None => {
                break;
            },
        }
    }
    Ok((left, p))
}

/// Reads a primary expression.
fn parse_primary(toks: &Vec<Token>, pos: usize) -> (r: Result<(Expr, usize), ParseError>)
    requires
        pos <= toks@.len(),
    ensures
        r matches Ok((e, p)) ==> pos < p <= toks@.len() && primary_at(toks@, pos as int, e, p as int),
        single_token_primary(toks@, pos as int) ==> (r matches Ok((_, p)) && p == pos + 1),
        pos >= toks@.len() || (toks@[pos as int].kind matches TokenKind::Sym(x) && x != Sym::LParen) ==> (r matches Err(
            ParseError::Syntax(m),
        ) && m@ == "expected an expression"@),
    decreases toks@.len() - pos, 0int,
{
    if pos >= toks.len() {
        return Err(ParseError::Syntax("expected an expression".to_owned()));
    }
    match &toks[pos].kind {
        TokenKind::Num(n) => Ok((Expr::Literal(Value::Number(*n)), pos + 1)),
        TokenKind::Str(s) => Ok((Expr::Literal(Value::Text(s.clone())), pos + 1)),
        TokenKind::Sym(Sym::LParen) => {
            let (e, p) = parse_level(toks, pos + 1, EXPR_LEVEL)?;
            let p = expect_sym(toks, p, Sym::RParen, ")")?;
            Ok((e, p))
        },
        TokenKind::Sym(_) => Err(ParseError::Syntax("expected an expression".to_owned())),
        TokenKind::Word(w) => {
            if at_word(toks, pos, "TRUE") {
                Ok((Expr::Literal(Value::Bool(true)), pos + 1))
            } else if at_word(toks, pos, "FALSE") {
                Ok((Expr::Literal(Value::Bool(false)), pos + 1))
            } else if at_word(toks, pos, "SYSDATE") {
                Ok((Expr::Sysdate, pos + 1))
            } else {
                if at_word(toks, pos, "DATE") && pos + 1 < toks.len() {
                    match &toks[pos + 1].kind {
                        TokenKind::Str(text) => {
                            let e = date_literal(parse_iso_date(text.as_str()))?;
                            return Ok((e, pos + 2));
                        },
                        _ => {},
                    }
                }
                if is_reserved(w.as_str()) {
                    Err(ParseError::Syntax("expected an expression".to_owned()))
                } else if at_sym(toks, pos + 1, Sym::LParen) {
                    let (args, p) = parse_arguments(toks, pos + 1)?;
                    Ok((Expr::Call { name: w.clone(), args }, p))
                } else {
                    Ok((Expr::Var(w.clone()), pos + 1))
                }
            }
        },
    }
}

/// The expression of a `DATE` literal whose text parsed as `parsed`: the
/// date, or a structure error when the text is not a `yyyy-mm-dd` date.
pub fn date_literal(parsed: Option<Date>) -> (r: Result<Expr, ParseError>)
    ensures
        match parsed {
            Some(d) => r == Ok::<Expr, ParseError>(Expr::Literal(Value::Date(d))),
            None => r == Err::<Expr, ParseError>(ParseError::UnexpectedStructure),
        },
{
    match parsed {
        Some(d) => Ok(Expr::Literal(Value::Date(d))),
        None => Err(ParseError::UnexpectedStructure),
    }
}

/// Reads `( [expr {, expr}] )` starting at the `(`.
pub fn parse_arguments(toks: &Vec<Token>, pos: usize) -> (r: Result<(Vec<Expr>, usize), ParseError>)
    requires
        pos < toks@.len(),
        sym_is(toks@, pos as int, Sym::LParen),
    ensures
        r matches Ok((args, p)) ==> pos < p <= toks@.len() && args_at(toks@, pos as int, args@, p as int),
        sym_is(toks@, pos + 1, Sym::RParen) ==> (r matches Ok((args, p)) && args@.len() == 0 && p == pos + 2),
        single_token_primary(toks@, pos + 1) && sym_is(toks@, pos + 2, Sym::RParen) ==> (r matches Ok((args, p))
            && args@.len() == 1 && p == pos + 3),
    decreases toks@.len() - pos, 0int,
{
    let n = toks.len();
    let mut args: Vec<Expr> = Vec::new();
    let mut p = pos + 1;
    if at_sym(toks, p, Sym::RParen) {
        return Ok((args, p + 1));
    }
    proof {
        if sym_is(toks@, pos + 2, Sym::RParen) {
            lemma_ends_operand(toks@, pos + 2);
        }
    }
    loop
        invariant
            n == toks@.len(),
            pos < p <= toks@.len(),
            sym_is(toks@, pos as int, Sym::LParen),
            args@.len() == 0 ==> p == pos + 1,
            sym_is(toks@, pos + 2, Sym::RParen) ==> ends_operand(toks@, pos + 2),
            !sym_is(toks@, pos + 1, Sym::RParen),
            single_token_primary(toks@, pos + 1) && sym_is(toks@, pos + 2, Sym::RParen) ==> args@.len() == 0,
            args@.len() > 0 ==> pos + 1 < p - 1 && sym_is(toks@, p - 1, Sym::Comma) && list_at(
                toks@,
                pos + 1,
                args@,
                p - 1,
            ),
        decreases toks@.len() - p,
    {
        let (e, q) = parse_level(toks, p, EXPR_LEVEL)?;
        let ghost before = args@;
        args.push(e);
        proof {
            if before.len() > 0 {
                lemma_list_push(toks@, pos + 1, before, p - 1, e, q as int);
            } else {
                assert(args@[0] == e);
            }
            assert(list_at(toks@, pos + 1, args@, q as int));
        }
        if at_sym(toks, q, Sym::Comma) {
            p = q + 1;
        } else {
            let q = expect_sym(toks, q, Sym::RParen, ")")?;
            return Ok((args, q));
        }
    }
}

/// Reads `expr {, expr}`.
pub fn parse_expression_list(toks: &Vec<Token>, pos: usize) -> (r: Result<(Vec<Expr>, usize), ParseError>)
    requires
        pos <= toks@.len(),
    ensures
        r matches Ok((list, p)) ==> pos < p <= toks@.len() && list_at(toks@, pos as int, list@, p as int),
        single_token_primary(toks@, pos as int) && ends_operand(toks@, pos + 1) && !sym_is(toks@, pos + 1, Sym::Comma)
            ==> (r matches Ok((list, p)) && list@.len() == 1 && p == pos + 1),
        pos >= toks@.len() ==> (r matches Err(ParseError::Syntax(m)) && m@ == "expected an expression"@),
    decreases toks@.len() - pos, 9int,
{
    let (first, mut p) = parse_level(toks, pos, EXPR_LEVEL)?;
    let mut list = vec![first];
    assert(list_at(toks@, pos as int, list@, p as int));
    let n = toks.len();
    while at_sym(toks, p, Sym::Comma)
        invariant
            n == toks@.len(),
            pos < p <= toks@.len(),
            list_at(toks@, pos as int, list@, p as int),
            single_token_primary(toks@, pos as int) && ends_operand(toks@, pos + 1) && !sym_is(toks@, pos + 1, Sym::Comma)
                ==> p == pos + 1 && list@.len() == 1,
        decreases toks@.len() - p,
    {
        let (e, q) = parse_level(toks, p + 1, EXPR_LEVEL)?;
        let ghost before = list@;
        list.push(e);
        proof {
            lemma_list_push(toks@, pos as int, before, p as int, e, q as int);
        }
        p = q;
    }
    Ok((list, p))
}

} // verus!
