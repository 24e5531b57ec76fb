use vstd::prelude::*;

use crate::ast::{Block, Expr};
use crate::expr::value::{chars_of, string_from_chars};

pub mod block;
pub mod expr;
pub mod grammar;
pub mod lexer;
pub mod stream;

verus! {

/// Why a text could not be read as an expression or block.
#[derive(Debug, PartialEq)]
pub enum ParseError {
    Syntax(String),
    UnexpectedStructure,
}

/// Reads a whole text as one expression: the text is cut into tokens, with
/// only blanks and comments between them, which must spell the expression
/// from first to last (see `expr_at`).
pub fn parse_expression(input: &str) -> (r: Result<Expr, ParseError>)
    ensures
        r matches Ok(e) ==> exists|toks: Seq<lexer::Token>|
            #[trigger] lexer::tokens_placed(toks, input@) && lexer::gaps_skipped(toks, input@) && expr::expr_at(
                toks,
                7,
                0,
                e,
                toks.len() as int,
            ),
        input@.len() == 0 ==> (r matches Err(ParseError::Syntax(m)) && m@ == "expected an expression"@),
{
    let toks = lexer::tokenize(input)?;
    proof {
        if input@.len() == 0 && toks@.len() > 0 {
            assert(toks@[0].start < toks@[0].end <= input@.len());
        }
    }
    let (e, p) = expr::parse_level(&toks, 0, expr::EXPR_LEVEL)?;
    if p != toks.len() {
        return Err(ParseError::Syntax("unexpected input after the expression".to_owned()));
    }
    assert(lexer::tokens_placed(toks@, input@));
    Ok(e)
}

/// Reads a whole text as one block:
/// `[DECLARE declarations] BEGIN statements [EXCEPTION handlers] END [;]`;
/// the tokens of the text (with only blanks and comments between them) must
/// spell the block from first to last (see `block_at`).
pub fn parse_block(input: &str) -> (r: Result<Block, ParseError>)
    ensures
        r matches Ok(b) ==> exists|toks: Seq<lexer::Token>|
            #[trigger] lexer::tokens_placed(toks, input@) && lexer::gaps_skipped(toks, input@) && grammar::block_at(
                toks,
                0,
                b,
                toks.len() as int,
            ),
        input@.len() == 0 ==> (r matches Err(ParseError::Syntax(m)) && m@ == "expected `"@ + "BEGIN"@ + "`"@),
{
    let toks = lexer::tokenize(input)?;
    proof {
        if input@.len() == 0 && toks@.len() > 0 {
            assert(toks@[0].start < toks@[0].end <= input@.len());
        }
    }
    let (b, p) = block::parse_block_at(&toks, 0)?;
    if p != toks.len() {
        return Err(ParseError::Syntax("unexpected input after the block".to_owned()));
    }
    assert(lexer::tokens_placed(toks@, input@));
    Ok(b)
}

/// `s` with each doubled `q` read as one `q`, scanning left to right.
pub open spec fn collapse_quotes(s: Seq<char>, q: char) -> Seq<char>
    decreases s.len(),
{
    if s.len() == 0 {
        s
    } else if s.len() >= 2 && s[0] == q && s[1] == q {
        seq![q] + collapse_quotes(s.subrange(2, s.len() as int), q)
    } else {
        seq![s[0]] + collapse_quotes(s.drop_first(), q)
    }
}

/// The value of a quoted literal: the text between the first and last
/// character, where a doubled quote of the opening kind stands for one.
pub open spec fn string_literal_value(lit: Seq<char>) -> Seq<char> {
    let inner = lit.subrange(1, lit.len() - 1);
    if lit[0] == '\'' {
        collapse_quotes(inner, '\'')
    } else if lit[0] == '"' {
        collapse_quotes(inner, '"')
    } else {
        inner
    }
}

/// The value of a quoted string literal (see `string_literal_value`). The
/// first and last characters are the quotes, so both are single-byte.
pub fn parse_string_literal(literal: &str) -> (r: String)
    requires
        literal@.len() >= 2,
        literal@[0] <= '\u{7f}',
        literal@.last() <= '\u{7f}',
    ensures
        r@ == string_literal_value(literal@),
{
    let c = chars_of(literal);
    let n = c.len();
    let q = c[0];
    let ghost inner = literal@.subrange(1, n - 1);
    if q != '\'' && q != '"' {
        return string_from_chars(vstd::slice::slice_subrange(c.as_slice(), 1, n - 1));
    }
    let mut out = String::new();
    let mut i: usize = 1;
    while i < n - 1
        invariant
            n == c@.len(),
            c@ == literal@,
            n >= 2,
            1 <= i <= n - 1,
            inner == literal@.subrange(1, n - 1),
            out@ + collapse_quotes(c@.subrange(i as int, n - 1), q) == collapse_quotes(inner, q),
        decreases n - i,
    {
        let ghost rest = c@.subrange(i as int, n - 1);
        if c[i] == q && i + 1 < n - 1 && c[i + 1] == q {
            proof {
                assert(rest.subrange(2, rest.len() as int) =~= c@.subrange(i + 2, n - 1));
                assert(out@.push(q) + collapse_quotes(c@.subrange(i + 2, n - 1), q) =~= out@ + (
                seq![q] + collapse_quotes(c@.subrange(i + 2, n - 1), q)));
            }
            out.push(q);
            i += 2;
        } else {
            proof {
                assert(rest.drop_first() =~= c@.subrange(i + 1, n - 1));
                assert(out@.push(c@[i as int]) + collapse_quotes(c@.subrange(i + 1, n - 1), q) =~= out@
                    + (seq![c@[i as int]] + collapse_quotes(c@.subrange(i + 1, n - 1), q)));
            }
            out.push(c[i]);
            i += 1;
        }
    }
    proof {
        assert(c@.subrange(i as int, n - 1) =~= Seq::<char>::empty());
        assert(out@ + Seq::<char>::empty() =~= out@);
        assert(c@.subrange(1, n - 1) =~= inner);
    }
    out
}

} // verus!
