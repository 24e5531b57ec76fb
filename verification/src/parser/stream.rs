use vstd::prelude::*;

use super::lexer::{Sym, Token, TokenKind};
use super::ParseError;
use crate::expr::value::{chars_of, upper, upper_equals};

verus! {

/// The token at `pos` is the word `kw`, ignoring ASCII case (`kw` is
/// upper-case).
pub open spec fn word_is(toks: Seq<Token>, pos: int, kw: Seq<char>) -> bool {
    &&& 0 <= pos < toks.len()
    &&& toks[pos].kind matches TokenKind::Word(w) && upper(w@) == kw
}

/// The token at `pos` is the symbol `s`.
pub open spec fn sym_is(toks: Seq<Token>, pos: int, s: Sym) -> bool {
    &&& 0 <= pos < toks.len()
    &&& toks[pos].kind matches TokenKind::Sym(x) && x == s
}

/// The token at `pos` is a word.
pub open spec fn is_word(toks: Seq<Token>, pos: int) -> bool {
    0 <= pos < toks.len() && toks[pos].kind is Word
}

/// The token at `k` is a word that is not reserved.
pub open spec fn is_name(toks: Seq<Token>, k: int) -> bool {
    0 <= k < toks.len() && (toks[k].kind matches TokenKind::Word(w) && !reserved_word(w@))
}

/// The token at `pos` is the name `name`: a word that is not reserved.
pub open spec fn name_at(toks: Seq<Token>, pos: int, name: String) -> bool {
    &&& 0 <= pos < toks.len()
    &&& toks[pos].kind == TokenKind::Word(name)
    &&& !reserved_word(name@)
}

/// `names` is spelled by `[i, j)` as names separated by commas.
pub open spec fn names_at(toks: Seq<Token>, i: int, names: Seq<String>, j: int) -> bool
    decreases names.len(),
{
    if names.len() == 0 {
        false
    } else if names.len() == 1 {
        j == i + 1 && name_at(toks, i, names[0])
    } else {
        sym_is(toks, j - 2, Sym::Comma) && name_at(toks, j - 1, names.last()) && names_at(
            toks,
            i,
            names.drop_last(),
            j - 2,
        )
    }
}

/// The layout of a name list: names at every other token, commas between.
pub proof fn lemma_names_shape(toks: Seq<Token>, i: int, ns: Seq<String>, j: int)
    requires
        names_at(toks, i, ns, j),
    ensures
        j == i + 2 * ns.len() - 1,
        forall|m: int| 0 <= m < ns.len() ==> name_at(toks, i + 2 * m, #[trigger] ns[m]),
        forall|m: int| 0 <= m < ns.len() - 1 ==> #[trigger] sym_is(toks, i + 2 * m + 1, Sym::Comma),
    decreases ns.len(),
{
    if ns.len() > 1 {
        let front = ns.drop_last();
        lemma_names_shape(toks, i, front, j - 2);
        assert forall|m: int| 0 <= m < ns.len() implies name_at(toks, i + 2 * m, #[trigger] ns[m]) by {
            if m < ns.len() - 1 {
                assert(ns[m] == front[m]);
            }
        }
        assert forall|m: int| 0 <= m < ns.len() - 1 implies #[trigger] sym_is(toks, i + 2 * m + 1, Sym::Comma) by {
            if m < ns.len() - 2 {
                assert(sym_is(toks, i + 2 * m + 1, Sym::Comma));
            }
        }
    }
}

/// A name list not followed by a comma is the only one that starts at `i`
/// and is not followed by a comma.
pub proof fn lemma_names_unique(toks: Seq<Token>, i: int, a: Seq<String>, ja: int, b: Seq<String>, jb: int)
    requires
        names_at(toks, i, a, ja),
        names_at(toks, i, b, jb),
        !sym_is(toks, ja, Sym::Comma),
        !sym_is(toks, jb, Sym::Comma),
    ensures
        a == b,
        ja == jb,
{
    lemma_names_shape(toks, i, a, ja);
    lemma_names_shape(toks, i, b, jb);
    if a.len() < b.len() {
        assert(sym_is(toks, i + 2 * (a.len() - 1) + 1, Sym::Comma));
    } else if b.len() < a.len() {
        assert(sym_is(toks, i + 2 * (b.len() - 1) + 1, Sym::Comma));
    }
    assert forall|m: int| 0 <= m < a.len() implies a[m] == b[m] by {
        assert(name_at(toks, i + 2 * m, a[m]));
        assert(name_at(toks, i + 2 * m, b[m]));
    }
    assert(a =~= b);
}

/// `word_is`, computed.
pub fn at_word(toks: &Vec<Token>, pos: usize, kw: &str) -> (r: bool)
    ensures
        r == word_is(toks@, pos as int, kw@),
        r ==> pos < toks.len(),
{
    if pos >= toks.len() {
        return false;
    }
    match &toks[pos].kind {
        TokenKind::Word(w) => {
            let cs = chars_of(w.as_str());
            upper_equals(cs.as_slice(), kw)
        },
        _ => false,
    }
}

/// `is_word`, computed.
pub fn at_word_token(toks: &Vec<Token>, pos: usize) -> (r: bool)
    ensures
        r == is_word(toks@, pos as int),
        r ==> pos < toks.len(),
{
    pos < toks.len() && match &toks[pos].kind {
        TokenKind::Word(_) => true,
        _ => false,
    }
}

/// `sym_is`, computed.
pub fn at_sym(toks: &Vec<Token>, pos: usize, s: Sym) -> (r: bool)
    ensures
        r == sym_is(toks@, pos as int, s),
        r ==> pos < toks.len(),
{
    if pos >= toks.len() {
        return false;
    }
    match &toks[pos].kind {
        TokenKind::Sym(x) => *x == s,
        _ => false,
    }
}

/// `expected `what``.
pub fn expected(what: &str) -> (r: ParseError)
    ensures
        r matches ParseError::Syntax(m) && m@ == "expected `"@ + what@ + "`"@,
{
    let mut m = "expected `".to_owned();
    m.append(what);
    m.append("`");
    ParseError::Syntax(m)
}

/// Consumes the word `kw`.
pub fn expect_word(toks: &Vec<Token>, pos: usize, kw: &str) -> (r: Result<usize, ParseError>)
    ensures
        r matches Ok(p) ==> p == pos + 1 && word_is(toks@, pos as int, kw@),
        word_is(toks@, pos as int, kw@) ==> r is Ok,
        !word_is(toks@, pos as int, kw@) ==> (r matches Err(ParseError::Syntax(m)) && m@ == "expected `"@ + kw@
            + "`"@),
{
    if at_word(toks, pos, kw) {
        Ok(pos + 1)
    } else {
        Err(expected(kw))
    }
}

/// Consumes the symbol `s`, called `what` in the error.
pub fn expect_sym(toks: &Vec<Token>, pos: usize, s: Sym, what: &str) -> (r: Result<usize, ParseError>)
    ensures
        r matches Ok(p) ==> p == pos + 1 && sym_is(toks@, pos as int, s),
        sym_is(toks@, pos as int, s) ==> r is Ok,
        !sym_is(toks@, pos as int, s) ==> (r matches Err(ParseError::Syntax(m)) && m@ == "expected `"@ + what@
            + "`"@),
{
    if at_sym(toks, pos, s) {
        Ok(pos + 1)
    } else {
        Err(expected(what))
    }
}

/// The reserved words (see `is_reserved`), compared in upper case.
pub open spec fn reserved_word(w: Seq<char>) -> bool {
    let u = upper(w);
    u == "BEGIN"@
    || u == "END"@
    || u == "DECLARE"@
    || u == "EXCEPTION"@
    || u == "IF"@
    || u == "THEN"@
    || u == "ELSIF"@
    || u == "ELSE"@
    || u == "WHILE"@
    || u == "LOOP"@
    || u == "FOR"@
    || u == "IN"@
    || u == "EXIT"@
    || u == "WHEN"@
    || u == "RAISE"@
    || u == "COMMIT"@
    || u == "ROLLBACK"@
    || u == "OPEN"@
    || u == "FETCH"@
    || u == "CLOSE"@
    || u == "INTO"@
    || u == "SELECT"@
    || u == "FROM"@
    || u == "WHERE"@
    || u == "INSERT"@
    || u == "VALUES"@
    || u == "UPDATE"@
    || u == "SET"@
    || u == "DELETE"@
    || u == "CREATE"@
    || u == "ALTER"@
    || u == "DROP"@
    || u == "TABLE"@
    || u == "RETURN"@
    || u == "AND"@
    || u == "OR"@
    || u == "NOT"@
    || u == "JOIN"@
    || u == "INNER"@
    || u == "LEFT"@
    || u == "RIGHT"@
    || u == "OUTER"@
    || u == "ON"@
    || u == "IS"@
    || u == "CURSOR"@
    || u == "TRIGGER"@
    || u == "FUNCTION"@
    || u == "PROCEDURE"@
    || u == "OTHERS"@
    || u == "TRUE"@
    || u == "FALSE"@
    || u == "SYSDATE"@
}

/// The words that begin or close statements and clauses; they are never
/// read as names.
pub fn is_reserved(w: &str) -> (r: bool)
    ensures
        r == reserved_word(w@),
{
    let cs = chars_of(w);
    let c = cs.as_slice();
    upper_equals(c, "BEGIN") || upper_equals(c, "END") || upper_equals(c, "DECLARE")
        || upper_equals(c, "EXCEPTION") || upper_equals(c, "IF") || upper_equals(c, "THEN")
        || upper_equals(c, "ELSIF") || upper_equals(c, "ELSE") || upper_equals(c, "WHILE")
        || upper_equals(c, "LOOP") || upper_equals(c, "FOR") || upper_equals(c, "IN")
        || upper_equals(c, "EXIT") || upper_equals(c, "WHEN") || upper_equals(c, "RAISE")
        || upper_equals(c, "COMMIT") || upper_equals(c, "ROLLBACK") || upper_equals(c, "OPEN")
        || upper_equals(c, "FETCH") || upper_equals(c, "CLOSE") || upper_equals(c, "INTO")
        || upper_equals(c, "SELECT") || upper_equals(c, "FROM") || upper_equals(c, "WHERE")
        || upper_equals(c, "INSERT") || upper_equals(c, "VALUES") || upper_equals(c, "UPDATE")
        || upper_equals(c, "SET") || upper_equals(c, "DELETE") || upper_equals(c, "CREATE")
        || upper_equals(c, "ALTER") || upper_equals(c, "DROP") || upper_equals(c, "TABLE")
        || upper_equals(c, "RETURN") || upper_equals(c, "AND") || upper_equals(c, "OR")
        || upper_equals(c, "NOT") || upper_equals(c, "JOIN") || upper_equals(c, "INNER")
        || upper_equals(c, "LEFT") || upper_equals(c, "RIGHT") || upper_equals(c, "OUTER")
        || upper_equals(c, "ON") || upper_equals(c, "IS") || upper_equals(c, "CURSOR")
        || upper_equals(c, "TRIGGER") || upper_equals(c, "FUNCTION") || upper_equals(c, "PROCEDURE")
        || upper_equals(c, "OTHERS") || upper_equals(c, "TRUE") || upper_equals(c, "FALSE")
        || upper_equals(c, "SYSDATE")
}

/// Consumes a name: a word that is not reserved.
pub fn expect_name(toks: &Vec<Token>, pos: usize) -> (r: Result<(String, usize), ParseError>)
    ensures
        r matches Ok((name, p)) ==> name_at(toks@, pos as int, name) && p == pos + 1,
        r is Err ==> !is_name(toks@, pos as int),
{
    if pos < toks.len() {
        match &toks[pos].kind {
            TokenKind::Word(w) => {
                if !is_reserved(w.as_str()) {
                    return Ok((w.clone(), pos + 1));
                }
            },
            _ => {},
        }
    }
    Err(ParseError::Syntax("expected a name".to_owned()))
}

/// Consumes a comma-separated list of names.
pub fn parse_name_list(toks: &Vec<Token>, pos: usize) -> (r: Result<(Vec<String>, usize), ParseError>)
    ensures
        r matches Ok((names, p)) ==> pos < p <= toks@.len() && names_at(toks@, pos as int, names@, p as int),
        forall|ns: Seq<String>, k: int|
            #![trigger names_at(toks@, pos as int, ns, k)]
            names_at(toks@, pos as int, ns, k) && !sym_is(toks@, k, Sym::Comma) ==> (r matches Ok((names, p))
                && names@ == ns && p == k),
{
    let (first, mut p) = match expect_name(toks, pos) {
        Ok(x) => x,
        Err(e) => {
            proof {
                assert forall|ns: Seq<String>, k: int|
                    names_at(toks@, pos as int, ns, k) && !sym_is(toks@, k, Sym::Comma) implies false by {
                    lemma_names_shape(toks@, pos as int, ns, k);
                    assert(name_at(toks@, pos as int, ns[0]));
                }
            }
            return Err(e);
        },
    };
    let mut names = vec![first];
    let n = toks.len();
    while at_sym(toks, p, Sym::Comma)
        invariant
            n == toks@.len(),
            pos < p <= toks@.len(),
            names_at(toks@, pos as int, names@, p as int),
        decreases toks@.len() - p,
    {
        let (next, q) = match expect_name(toks, p + 1) {
            Ok(x) => x,
            Err(e) => {
                proof {
                    lemma_names_shape(toks@, pos as int, names@, p as int);
                    assert forall|ns: Seq<String>, k: int|
                        names_at(toks@, pos as int, ns, k) && !sym_is(toks@, k, Sym::Comma) implies false by {
                        lemma_names_shape(toks@, pos as int, ns, k);
                        if ns.len() <= names@.len() {
                            if k < p {
                                assert(sym_is(toks@, pos + 2 * (ns.len() - 1) + 1, Sym::Comma));
                            }
                        } else {
                            assert(name_at(toks@, pos + 2 * names@.len(), ns[names@.len() as int]));
                        }
                    }
                }
                return Err(e);
            },
        };
        let ghost before = names@;
        names.push(next);
        proof {
            assert(names@.drop_last() =~= before);
        }
        p = q;
    }
    proof {
        assert forall|ns: Seq<String>, k: int|
            names_at(toks@, pos as int, ns, k) && !sym_is(toks@, k, Sym::Comma) implies names@ == ns && p == k by {
            lemma_names_unique(toks@, pos as int, names@, p as int, ns, k);
        }
    }
    Ok((names, p))
}

} // verus!
