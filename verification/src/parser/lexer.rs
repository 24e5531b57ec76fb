use vstd::prelude::*;

use super::{parse_string_literal, string_literal_value, ParseError};
use crate::expr::number::{fits_i64, Number};
use crate::expr::value::{chars_of, string_from_chars};

verus! {

/// Punctuation and operators.
#[derive(Clone, Copy, Debug, PartialEq, Eq, Structural)]
pub enum Sym {
    LParen,
    RParen,
    Comma,
    Semicolon,
    Assign,
    Eq,
    Neq,
    Lt,
    Lte,
    Gt,
    Gte,
    Plus,
    Minus,
    Star,
    Slash,
    DotDot,
}

/// What a token is: a word (keyword or dotted identifier), a number, a
/// string literal (its value), or a symbol.
#[derive(Debug)]
pub enum TokenKind {
    Word(String),
    Num(Number),
    Str(String),
    Sym(Sym),
}

/// A token and the character span `[start, end)` it was read from.
#[derive(Debug)]
pub struct Token {
    pub kind: TokenKind,
    pub start: usize,
    pub end: usize,
}

/// The digits of a number literal read left to right: the digits as one
/// integer (the `.` skipped), the power of ten the fraction digits give,
/// and whether a `.` was seen.
pub open spec fn number_value(s: Seq<char>) -> (int, int, bool)
    decreases s.len(),
{
    if s.len() == 0 {
        (0, 1, false)
    } else {
        let (m, scale, fraction) = number_value(s.drop_last());
        let c = s.last();
        if c == '.' {
            (m, scale, true)
        } else {
            (m * 10 + ((c as u32) - 48), if fraction {
                scale * 10
            } else {
                scale
            }, fraction)
        }
    }
}

/// How a symbol is written.
pub open spec fn sym_spelled(s: Sym, t: Seq<char>) -> bool {
    match s {
        Sym::LParen => t == seq!['('],
        Sym::RParen => t == seq![')'],
        Sym::Comma => t == seq![','],
        Sym::Semicolon => t == seq![';'],
        Sym::Assign => t == seq![':', '='],
        Sym::Eq => t == seq!['='],
        Sym::Neq => t == seq!['!', '='] || t == seq!['<', '>'],
        Sym::Lt => t == seq!['<'],
        Sym::Lte => t == seq!['<', '='],
        Sym::Gt => t == seq!['>'],
        Sym::Gte => t == seq!['>', '='],
        Sym::Plus => t == seq!['+'],
        Sym::Minus => t == seq!['-'],
        Sym::Star => t == seq!['*'],
        Sym::Slash => t == seq!['/'],
        Sym::DotDot => t == seq!['.', '.'],
    }
}

/// A word token is the text of its span; a symbol token is spelled by it;
/// a number token denotes the value
/// of the literal in its span; a string token is the value of the literal
/// in its span.
pub open spec fn token_text_ok(t: Token, text: Seq<char>) -> bool {
    match t.kind {
        TokenKind::Word(w) => w@ == text.subrange(t.start as int, t.end as int),
        TokenKind::Num(n) => {
            let v = number_value(text.subrange(t.start as int, t.end as int));
            n.denotes(v.0, v.1)
        },
        TokenKind::Str(s) => s@ == string_literal_value(text.subrange(t.start as int, t.end as int)),
        TokenKind::Sym(x) => sym_spelled(x, text.subrange(t.start as int, t.end as int)),
    }
}

/// The tokens lie in order, without overlap, inside the text.
pub open spec fn tokens_placed(toks: Seq<Token>, text: Seq<char>) -> bool {
    &&& forall|i: int|
        0 <= i < toks.len() ==> (#[trigger] toks[i]).start < toks[i].end <= text.len()
            && token_text_ok(toks[i], text)
    &&& forall|i: int| 0 < i < toks.len() ==> toks[i - 1].end <= (#[trigger] toks[i]).start
}

/// A blank: space, tab, line feed or carriage return.
pub open spec fn is_blank(c: char) -> bool {
    c == ' ' || c == '\t' || c == '\n' || c == '\r'
}

/// The position of the first line feed at or after `i`, or the end of the
/// text.
pub open spec fn line_break_from(text: Seq<char>, i: int) -> int
    decreases text.len() - i,
{
    if i >= text.len() {
        text.len() as int
    } else if text[i] == '\n' {
        i
    } else {
        line_break_from(text, i + 1)
    }
}

/// `[a, b)` holds only blanks and `--` comments, a comment running up to
/// the line feed that ends its line.
pub open spec fn skipped(text: Seq<char>, a: int, b: int) -> bool
    decreases b - a,
{
    if a >= b {
        a == b
    } else if !(0 <= a && b <= text.len()) {
        false
    } else if is_blank(text[a]) {
        skipped(text, a + 1, b)
    } else if text[a] == '-' && a + 1 < text.len() && text[a + 1] == '-' {
        let e = line_break_from(text, a + 1);
        proof {
            lemma_line_break_from(text, a + 1);
        }
        e <= b && skipped(text, e, b)
    } else {
        false
    }
}

/// A line break searched from `i` is found at or after `i`.
pub proof fn lemma_line_break_from(text: Seq<char>, i: int)
    requires
        0 <= i <= text.len(),
    ensures
        i <= line_break_from(text, i) <= text.len(),
    decreases text.len() - i,
{
    if i < text.len() && text[i] != '\n' {
        lemma_line_break_from(text, i + 1);
    }
}

/// Where the last of `toks` ends, or 0.
pub open spec fn last_end(toks: Seq<Token>) -> int {
    if toks.len() == 0 {
        0
    } else {
        toks.last().end as int
    }
}

/// Everything outside the tokens is blanks and comments: before the first,
/// between each two, and after the last.
pub open spec fn gaps_skipped(toks: Seq<Token>, text: Seq<char>) -> bool {
    &&& toks.len() > 0 ==> skipped(text, 0, toks[0].start as int)
    &&& forall|i: int| 0 < i < toks.len() ==> skipped(text, toks[i - 1].end as int, (#[trigger] toks[i]).start as int)
    &&& skipped(text, last_end(toks), text.len() as int)
}

/// Joining two skipped spans gives a skipped span.
proof fn lemma_skipped_join(text: Seq<char>, a: int, m: int, b: int)
    requires
        a <= m <= b,
        skipped(text, a, m),
        skipped(text, m, b),
    ensures
        skipped(text, a, b),
    decreases m - a,
{
    if a < m {
        if is_blank(text[a]) {
            lemma_skipped_join(text, a + 1, m, b);
        } else {
            lemma_line_break_from(text, a + 1);
            lemma_skipped_join(text, line_break_from(text, a + 1), m, b);
        }
    }
}

/// An ASCII letter or `_`.
pub open spec fn is_ident_start(c: char) -> bool {
    ('a' <= c <= 'z') || ('A' <= c <= 'Z') || c == '_'
}

/// An ASCII letter, digit or `_`.
pub open spec fn is_ident_char(c: char) -> bool {
    is_ident_start(c) || ('0' <= c <= '9')
}

fn ident_start(c: char) -> (r: bool)
    ensures
        r == is_ident_start(c),
{
    ('a' <= c && c <= 'z') || ('A' <= c && c <= 'Z') || c == '_'
}

fn ident_char(c: char) -> (r: bool)
    ensures
        r == is_ident_char(c),
{
    ident_start(c) || ('0' <= c && c <= '9')
}

fn digit_value(c: char) -> (r: i128)
    requires
        '0' <= c <= '9',
    ensures
        0 <= r <= 9,
        r == (c as u32) - 48,
{
    if c == '0' {
        0
    } else if c == '1' {
        1
    } else if c == '2' {
        2
    } else if c == '3' {
        3
    } else if c == '4' {
        4
    } else if c == '5' {
        5
    } else if c == '6' {
        6
    } else if c == '7' {
        7
    } else if c == '8' {
        8
    } else {
        9
    }
}

/// The largest mantissa or scale a number literal may build up.
const NUMBER_LIMIT: i128 = 1_000_000_000_000_000_000_000_000_000_000;

/// The end of the word starting at `start`: identifier characters, with a
/// `.` kept when an identifier start follows it.
fn word_end(c: &Vec<char>, start: usize) -> (end: usize)
    requires
        start < c@.len(),
    ensures
        start < end <= c@.len(),
{
    let n = c.len();
    let mut i = start + 1;
    loop
        invariant
            n == c@.len(),
            start < i <= n,
        decreases n - i,
    {
        if i < n && ident_char(c[i]) {
            i += 1;
        } else if i < n && i + 1 < n && c[i] == '.' && ident_start(c[i + 1]) {
            i += 2;
        } else {
            break;
        }
    }
    i
}

/// Reads the number literal starting at `start` (digits with an optional
/// fraction) and its end.
fn lex_number(c: &Vec<char>, start: usize) -> (r: Result<(Number, usize), ParseError>)
    requires
        start < c@.len(),
        '0' <= c@[start as int] <= '9',
    ensures
        r matches Ok((x, end)) ==> start < end <= c@.len() && x.denotes(
            number_value(c@.subrange(start as int, end as int)).0,
            number_value(c@.subrange(start as int, end as int)).1,
        ),
        r is Err ==> number_too_large(c@, start as int),
{
    let n = c.len();
    let mut mantissa: i128 = digit_value(c[start]);
    let mut i = start + 1;
    let mut scale: i128 = 1;
    let mut in_fraction = false;
    proof {
        let sub = c@.subrange(start as int, i as int);
        assert(sub.drop_last() =~= Seq::<char>::empty());
        assert(number_value(Seq::<char>::empty()) == (0int, 1int, false));
        assert(sub.last() == c@[start as int]);
        assert(number_value(sub) == (mantissa as int, 1int, false));
    }
    loop
        invariant
            n == c@.len(),
            start < i <= n,
            0 <= mantissa <= NUMBER_LIMIT,
            1 <= scale <= NUMBER_LIMIT,
            number_value(c@.subrange(start as int, i as int)) == (mantissa as int, scale as int, in_fraction),
        decreases n - i,
    {
        proof {
            if i < n {
                let next = c@.subrange(start as int, i + 1);
                assert(next.drop_last() =~= c@.subrange(start as int, i as int));
                assert(next.last() == c@[i as int]);
            }
        }
        if i < n && '0' <= c[i] && c[i] <= '9' {
            let d = digit_value(c[i]);
            if mantissa > NUMBER_LIMIT / 10 - 1 || (in_fraction && scale > NUMBER_LIMIT / 10) {
                assert(!(fits_i64(number_value(c@.subrange(start as int, i as int)).0) && fits_i64(
                    number_value(c@.subrange(start as int, i as int)).1,
                )));
                return Err(ParseError::Syntax("number literal out of range".to_owned()));
            }
            mantissa = mantissa * 10 + d;
            if in_fraction {
                scale = scale * 10;
            }
            i += 1;
        } else if !in_fraction && i < n && i + 1 < n && c[i] == '.' && '0' <= c[i + 1] && c[i + 1]
            <= '9' {
            in_fraction = true;
            i += 1;
        } else {
            break;
        }
    }
    match Number::from_ratio(mantissa, scale) {
        Some(v) => Ok((v, i)),
        None => {
            assert(!(fits_i64(number_value(c@.subrange(start as int, i as int)).0) && fits_i64(
                number_value(c@.subrange(start as int, i as int)).1,
            )));
            Err(ParseError::Syntax("number literal out of range".to_owned()))
        },
    }
}

/// Where a literal quoted by `q` ends when its text is read from `i`
/// onward: just after the first `q` that is not doubled, a doubled `q`
/// standing for one; `None` when no such quote follows.
pub open spec fn literal_end(text: Seq<char>, q: char, i: int) -> Option<int>
    decreases text.len() - i,
{
    if i < 0 || i >= text.len() {
        None
    } else if text[i] == q {
        if i + 1 < text.len() && text[i + 1] == q {
            literal_end(text, q, i + 2)
        } else {
            Some(i + 1)
        }
    } else {
        literal_end(text, q, i + 1)
    }
}

/// A symbol starts at `i`: one of `( ) , ; = < > + - * /`, or `:=`, `!=`
/// or `..`.
pub open spec fn symbol_start(text: Seq<char>, i: int) -> bool {
    let ch = text[i];
    let next_is = |x: char| i + 1 < text.len() && text[i + 1] == x;
    ||| ch == '(' || ch == ')' || ch == ',' || ch == ';' || ch == '='
    ||| ch == '<' || ch == '>' || ch == '+' || ch == '-' || ch == '*' || ch == '/'
    ||| ch == ':' && next_is('=')
    ||| ch == '!' && next_is('=')
    ||| ch == '.' && next_is('.')
}

/// The digits from `i` to some end read a value or a power of ten that does
/// not fit in `i64`.
pub open spec fn number_too_large(text: Seq<char>, i: int) -> bool {
    exists|e: int|
        i < e <= text.len() && !(fits_i64(#[trigger] number_value(text.subrange(i, e)).0) && fits_i64(
            number_value(text.subrange(i, e)).1,
        ))
}

/// No token can be read at `i`: a number that is too large, a string
/// literal that is not closed, or a character that starts nothing.
pub open spec fn token_error_at(text: Seq<char>, i: int) -> bool {
    let ch = text[i];
    if is_ident_start(ch) {
        false
    } else if '0' <= ch <= '9' {
        number_too_large(text, i)
    } else if ch == '\'' || ch == '"' {
        literal_end(text, ch, i + 1) is None
    } else {
        !symbol_start(text, i)
    }
}

/// The end of the quoted literal starting at `start`; a doubled quote
/// inside it stands for one.
fn string_end(c: &Vec<char>, start: usize) -> (r: Result<usize, ParseError>)
    requires
        start < c@.len(),
    ensures
        r matches Ok(end) ==> start + 2 <= end <= c@.len() && c@[end - 1] == c@[start as int],
        match literal_end(c@, c@[start as int], start + 1) {
            Some(e) => r == Ok::<usize, ParseError>(e as usize),
            None => r is Err,
        },
{
    let n = c.len();
    let q = c[start];
    let mut i = start + 1;
    while i < n
        invariant
            n == c@.len(),
            start < i <= n,
            q == c@[start as int],
            literal_end(c@, q, start + 1) == literal_end(c@, q, i as int),
        decreases n - i,
    {
        if c[i] == q {
            if i + 1 < n && c[i + 1] == q {
                i += 2;
            } else {
                return Ok(i + 1);
            }
        } else {
            i += 1;
        }
    }
    Err(ParseError::Syntax("unterminated string literal".to_owned()))
}

/// Reads the symbol starting at `start` and its length.
fn lex_symbol(c: &Vec<char>, start: usize) -> (r: Result<(Sym, usize), ParseError>)
    requires
        start < c@.len(),
    ensures
        r matches Ok(p) ==> 1 <= p.1 <= 2 && start + p.1 <= c@.len() && sym_spelled(
            p.0,
            c@.subrange(start as int, start + p.1),
        ),
        r is Ok <==> symbol_start(c@, start as int),
        r matches Err(e) ==> e matches ParseError::Syntax(m) && m@ == "unexpected character `"@ + seq![
            c@[start as int],
        ] + "`"@,
{
    let n = c.len();
    let ch = c[start];
    proof {
        assert(c@.subrange(start as int, start + 1) =~= seq![ch]);
        if start + 1 < n {
            assert(c@.subrange(start as int, start + 2) =~= seq![ch, c@[start + 1]]);
        }
    }
    let next_is = |x: char| -> (b: bool)
        ensures
            b == (start + 1 < n && c@[start + 1] == x),
        { start + 1 < n && c[start + 1] == x };
    if ch == '(' {
        Ok((Sym::LParen, 1))
    } else if ch == ')' {
        Ok((Sym::RParen, 1))
    } else if ch == ',' {
        Ok((Sym::Comma, 1))
    } else if ch == ';' {
        Ok((Sym::Semicolon, 1))
    } else if ch == ':' && next_is('=') {
        Ok((Sym::Assign, 2))
    } else if ch == '=' {
        Ok((Sym::Eq, 1))
    } else if ch == '!' && next_is('=') {
        Ok((Sym::Neq, 2))
    } else if ch == '<' && next_is('>') {
        Ok((Sym::Neq, 2))
    } else if ch == '<' && next_is('=') {
        Ok((Sym::Lte, 2))
    } else if ch == '<' {
        Ok((Sym::Lt, 1))
    } else if ch == '>' && next_is('=') {
        Ok((Sym::Gte, 2))
    } else if ch == '>' {
        Ok((Sym::Gt, 1))
    } else if ch == '+' {
        Ok((Sym::Plus, 1))
    } else if ch == '-' {
        Ok((Sym::Minus, 1))
    } else if ch == '*' {
        Ok((Sym::Star, 1))
    } else if ch == '/' {
        Ok((Sym::Slash, 1))
    } else if ch == '.' && next_is('.') {
        Ok((Sym::DotDot, 2))
    } else {
        Err(ParseError::Syntax(unexpected_character(ch)))
    }
}

/// The position of the line break ending the comment at `start`, or the
/// end of the text.
fn line_end(c: &Vec<char>, start: usize) -> (end: usize)
    requires
        start < c@.len(),
    ensures
        start < end <= c@.len(),
        end == line_break_from(c@, start + 1),
{
    let n = c.len();
    let mut i = start + 1;
    while i < n && c[i] != '\n'
        invariant
            n == c@.len(),
            start < i <= n,
            line_break_from(c@, start + 1) == line_break_from(c@, i as int),
        decreases n - i,
    {
        i += 1;
    }
    i
}

/// Reads the word, number, string literal or symbol starting at `start`.
fn next_token(c: &Vec<char>, text: Ghost<Seq<char>>, start: usize) -> (r: Result<Token, ParseError>)
    requires
        start < c@.len(),
        c@ == text@,
    ensures
        r matches Ok(tok) ==> tok.start == start && start < tok.end <= c@.len() && token_text_ok(
            tok,
            text@,
        ),
        r is Err ==> token_error_at(c@, start as int),
{
    let n = c.len();
    let ch = c[start];
    if ident_start(ch) {
        let end = word_end(c, start);
        let w = string_from_chars(vstd::slice::slice_subrange(c.as_slice(), start, end));
        Ok(Token { kind: TokenKind::Word(w), start, end })
    } else if '0' <= ch && ch <= '9' {
        match lex_number(c, start) {
            Ok((value, end)) => Ok(Token { kind: TokenKind::Num(value), start, end }),
            Err(e) => Err(e),
        }
    } else if ch == '\'' || ch == '"' {
        let end = match string_end(c, start) {
            Ok(end) => end,
            Err(e) => {
                return Err(e);
            },
        };
        let raw = string_from_chars(vstd::slice::slice_subrange(c.as_slice(), start, end));
        proof {
            assert(raw@[0] == c@[start as int]);
            assert(raw@.last() == c@[end - 1]);
        }
        let value = parse_string_literal(raw.as_str());
        Ok(Token { kind: TokenKind::Str(value), start, end })
    } else {
        match lex_symbol(c, start) {
            Ok((sym, len)) => Ok(Token { kind: TokenKind::Sym(sym), start, end: start + len }),
            Err(e) => Err(e),
        }
    }
}

/// Splits the text into tokens. Whitespace and `--` comments separate
/// tokens; a dotted identifier such as `e.name` is one word.
pub fn tokenize(input: &str) -> (r: Result<Vec<Token>, ParseError>)
    ensures
        r matches Ok(toks) ==> tokens_placed(toks@, input@) && gaps_skipped(toks@, input@),
        r is Err ==> exists|i: int| 0 <= i < input@.len() && #[trigger] token_error_at(input@, i),
{
    let c = chars_of(input);
    let n = c.len();
    let mut toks: Vec<Token> = Vec::new();
    let mut i: usize = 0;
    while i < n
        invariant
            n == c@.len(),
            c@ == input@,
            i <= n,
            tokens_placed(toks@, input@),
            toks@.len() > 0 ==> toks@.last().end <= i,
            toks@.len() > 0 ==> skipped(input@, 0, toks@[0].start as int),
            forall|k: int|
                0 < k < toks@.len() ==> skipped(input@, toks@[k - 1].end as int, (#[trigger] toks@[k]).start as int),
            last_end(toks@) <= i,
            skipped(input@, last_end(toks@), i as int),
        decreases n - i,
    {
        let ch = c[i];
        if ch == ' ' || ch == '\t' || ch == '\n' || ch == '\r' {
            proof {
                assert(skipped(input@, i + 1, i + 1));
                assert(skipped(input@, i as int, i + 1));
                lemma_skipped_join(input@, last_end(toks@), i as int, i + 1);
            }
            i += 1;
        } else if ch == '-' && i + 1 < n && c[i + 1] == '-' {
            let e = line_end(&c, i);
            proof {
                assert(skipped(input@, e as int, e as int));
                assert(skipped(input@, i as int, e as int));
                lemma_skipped_join(input@, last_end(toks@), i as int, e as int);
            }
            i = e;
        } else {
            let tok = match next_token(&c, Ghost(input@), i) {
                Ok(tok) => tok,
                Err(e) => {
                    assert(token_error_at(input@, i as int));
                    return Err(e);
                },
            };
            i = tok.end;
            let ghost before = toks@;
            toks.push(tok);
            proof {
                lemma_push_placed(before, toks@, input@);
                assert(skipped(input@, i as int, i as int));
                assert forall|k: int|
                    0 < k < toks@.len() implies skipped(input@, toks@[k - 1].end as int, (#[trigger] toks@[k]).start as int) by {
                    if k < before.len() {
                        assert(toks@[k] == before[k]);
                        assert(toks@[k - 1] == before[k - 1]);
                    } else {
                        assert(toks@[k - 1] == before.last());
                    }
                }
                if before.len() > 0 {
                    assert(toks@[0] == before[0]);
                }
            }
        }
    }
    Ok(toks)
}

/// `unexpected character `c``.
fn unexpected_character(c: char) -> (r: String)
    ensures
        r@ == "unexpected character `"@ + seq![c] + "`"@,
{
    let mut s = "unexpected character `".to_owned();
    s.push(c);
    s.push('`');
    proof {
        reveal_strlit("`");
        assert(s@ =~= "unexpected character `"@ + seq![c] + "`"@);
    }
    s
}

/// Pushing a token placed after the last one keeps the tokens placed.
proof fn lemma_push_placed(before: Seq<Token>, after: Seq<Token>, text: Seq<char>)
    requires
        tokens_placed(before, text),
        after.len() == before.len() + 1,
        forall|i: int| 0 <= i < before.len() ==> after[i] == before[i],
        after.last().start < after.last().end <= text.len(),
        token_text_ok(after.last(), text),
        before.len() > 0 ==> before.last().end <= after.last().start,
    ensures
        tokens_placed(after, text),
{
    assert forall|i: int| 0 <= i < after.len() implies (#[trigger] after[i]).start < after[i].end
        <= text.len() && token_text_ok(after[i], text) by {
        if i < before.len() {
            assert(after[i] == before[i]);
        }
    }
    assert forall|i: int| 0 < i < after.len() implies after[i - 1].end <= (#[trigger] after[i]).start by {
        if i < before.len() {
            assert(after[i] == before[i]);
            assert(after[i - 1] == before[i - 1]);
        } else {
            assert(after[i - 1] == before.last());
        }
    }
}

} // verus!
