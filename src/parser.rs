use vstd::prelude::*;

use crate::lexer::{Lexeme, Token, well_ended, MAX_LITERAL};

verus! {

#[derive(Clone, Copy, Debug, PartialEq, Eq, Structural)]
pub enum ArithOp {
    Add,
    Sub,
    Mul,
    Div,
}

/// The syntax tree of one dice expression.
#[derive(Debug, PartialEq, Eq)]
pub enum Expr {
    Number(i64),
    /// Roll `count` dice with `sides` faces each and sum them.
    DiceRoll { count: Box<Expr>, sides: Box<Expr> },
    BinaryOp { op: ArithOp, left: Box<Expr>, right: Box<Expr> },
    UnaryMinus(Box<Expr>),
}

#[derive(Clone, Copy, Debug, PartialEq, Eq, Structural)]
pub enum ParseErrorKind {
    /// A token that the grammar does not allow where it stands.
    UnexpectedToken,
    /// The input ended in the middle of an expression.
    UnexpectedEndOfInput,
}

/// A parse error and the span (offset and length) of the token it was found
/// at.
#[derive(Clone, Copy, Debug, PartialEq, Eq, Structural)]
pub struct ParseError {
    pub kind: ParseErrorKind,
    pub pos: usize,
    pub len: usize,
}

/// What a parsing step gives: the tree and the index of the first token after it.
pub type Parsed = Result<(Expr, usize), ParseError>;

/// The error for a token that cannot continue the production at hand.
pub open spec fn unexpected(l: Lexeme) -> ParseError {
    if l.token == Token::EndOfInput {
        ParseError { kind: ParseErrorKind::UnexpectedEndOfInput, pos: l.pos, len: l.len }
    } else {
        ParseError { kind: ParseErrorKind::UnexpectedToken, pos: l.pos, len: l.len }
    }
}

/// The grammar, read from token `i` on:
///
/// ```text
/// expr    := term (("+" | "-") term)*
/// term    := unary (("*" | "/") unary)*
/// unary   := "-" unary | dice
/// dice    := "d" primary | primary ("d" primary)?
/// primary := INTEGER | "(" expr ")"
/// ```
///
/// A step that returns `Ok((e, j))` has consumed the tokens `i..j`; the guards
/// `i < j < t.len()` below always hold of such results.
pub open spec fn spec_expr(t: Seq<Lexeme>, i: int) -> Parsed
    decreases t.len() - i, 6int,
{
    if i < 0 || i >= t.len() {
        Err(unexpected(t.last()))
    } else {
        match spec_term(t, i) {
            Ok((l, j)) => if i < j && j < t.len() {
                spec_expr_rest(t, l, j as int)
            } else {
                Err(unexpected(t[i]))
            },
            Err(e) => Err(e),
        }
    }
}

/// Zero or more `("+" | "-") term` after `left`, folded to the left.
pub open spec fn spec_expr_rest(t: Seq<Lexeme>, left: Expr, j: int) -> Parsed
    decreases t.len() - j, 5int,
{
    if j < 0 || j >= t.len() {
        Err(unexpected(t.last()))
    } else if t[j].token == Token::Plus || t[j].token == Token::Minus {
        let op = if t[j].token == Token::Plus {
            ArithOp::Add
        } else {
            ArithOp::Sub
        };
        match spec_term(t, j + 1) {
            Ok((r, k)) => if j + 1 < k && k < t.len() {
                spec_expr_rest(
                    t,
                    Expr::BinaryOp { op, left: Box::new(left), right: Box::new(r) },
                    k as int,
                )
            } else {
                Err(unexpected(t[j]))
            },
            Err(e) => Err(e),
        }
    } else {
        Ok((left, j as usize))
    }
}

pub open spec fn spec_term(t: Seq<Lexeme>, i: int) -> Parsed
    decreases t.len() - i, 4int,
{
    if i < 0 || i >= t.len() {
        Err(unexpected(t.last()))
    } else {
        match spec_unary(t, i) {
            Ok((l, j)) => if i < j && j < t.len() {
                spec_term_rest(t, l, j as int)
            } else {
                Err(unexpected(t[i]))
            },
            Err(e) => Err(e),
        }
    }
}

/// Zero or more `("*" | "/") unary` after `left`, folded to the left.
pub open spec fn spec_term_rest(t: Seq<Lexeme>, left: Expr, j: int) -> Parsed
    decreases t.len() - j, 3int,
{
    if j < 0 || j >= t.len() {
        Err(unexpected(t.last()))
    } else if t[j].token == Token::Star || t[j].token == Token::Slash {
        let op = if t[j].token == Token::Star {
            ArithOp::Mul
        } else {
            ArithOp::Div
        };
        match spec_unary(t, j + 1) {
            Ok((r, k)) => if j + 1 < k && k < t.len() {
                spec_term_rest(
                    t,
                    Expr::BinaryOp { op, left: Box::new(left), right: Box::new(r) },
                    k as int,
                )
            } else {
                Err(unexpected(t[j]))
            },
            Err(e) => Err(e),
        }
    } else {
        Ok((left, j as usize))
    }
}

pub open spec fn spec_unary(t: Seq<Lexeme>, i: int) -> Parsed
    decreases t.len() - i, 2int,
{
    if i < 0 || i >= t.len() {
        Err(unexpected(t.last()))
    } else if t[i].token == Token::Minus {
        match spec_unary(t, i + 1) {
            Ok((e, j)) => Ok((Expr::UnaryMinus(Box::new(e)), j)),
            Err(e) => Err(e),
        }
    } else {
        spec_dice(t, i)
    }
}

pub open spec fn spec_dice(t: Seq<Lexeme>, i: int) -> Parsed
    decreases t.len() - i, 1int,
{
    if i < 0 || i >= t.len() {
        Err(unexpected(t.last()))
    } else if t[i].token == Token::DiceOperator {
        match spec_primary(t, i + 1) {
            Ok((s, j)) => Ok(
                (Expr::DiceRoll { count: Box::new(Expr::Number(1)), sides: Box::new(s) }, j),
            ),
            Err(e) => Err(e),
        }
    } else {
        match spec_primary(t, i) {
            Ok((c, j)) => if i < j && j < t.len() {
                if t[j as int].token == Token::DiceOperator {
                    match spec_primary(t, j + 1) {
                        Ok((s, k)) => Ok(
                            (Expr::DiceRoll { count: Box::new(c), sides: Box::new(s) }, k),
                        ),
                        Err(e) => Err(e),
                    }
                } else {
                    Ok((c, j))
                }
            } else {
                Err(unexpected(t[i]))
            },
            Err(e) => Err(e),
        }
    }
}

pub open spec fn spec_primary(t: Seq<Lexeme>, i: int) -> Parsed
    decreases t.len() - i, 0int,
{
    if i < 0 || i >= t.len() {
        Err(unexpected(t.last()))
    } else {
        match t[i].token {
            Token::IntegerLiteral(n) => if n <= MAX_LITERAL {
                Ok((Expr::Number(n as i64), (i + 1) as usize))
            } else {
                Err(unexpected(t[i]))
            },
            Token::LParen => match spec_expr(t, i + 1) {
                Ok((e, j)) => if t[j as int].token == Token::RParen {
                    Ok((e, (j + 1) as usize))
                } else {
                    Err(unexpected(t[j as int]))
                },
                Err(e) => Err(e),
            },
            _ => Err(unexpected(t[i])),
        }
    }
}

/// The tree of a whole token sequence: one expression, then `EndOfInput`.
pub open spec fn parse_tokens(t: Seq<Lexeme>) -> Result<Expr, ParseError> {
    if !well_ended(t) {
        Err(ParseError { kind: ParseErrorKind::UnexpectedEndOfInput, pos: 0, len: 0 })
    } else {
        match spec_expr(t, 0) {
            Ok((e, j)) => if t[j as int].token == Token::EndOfInput {
                Ok(e)
            } else {
                Err(unexpected(t[j as int]))
            },
            Err(e) => Err(e),
        }
    }
}

/// Property of a parsing step's result: the consumed tokens `i..j` leave at
/// least the final token.
pub open spec fn advances(r: Parsed, i: int, n: int) -> bool {
    r is Ok ==> i < r->Ok_0.1 < n
}

fn unexpected_at(l: Lexeme) -> (r: ParseError)
    ensures
        r == unexpected(l),
{
    match l.token {
        Token::EndOfInput => ParseError { kind: ParseErrorKind::UnexpectedEndOfInput, pos: l.pos, len: l.len },
        _ => ParseError { kind: ParseErrorKind::UnexpectedToken, pos: l.pos, len: l.len },
    }
}

fn parse_expr(t: &Vec<Lexeme>, i: usize) -> (r: Parsed)
    requires
        well_ended(t@),
        i < t@.len() <= usize::MAX,
    ensures
        r == spec_expr(t@, i as int),
        advances(r, i as int, t@.len() as int),
    decreases t@.len() - i, 6int,
{
    match parse_term(t, i) {
        Ok((l, j)) => parse_expr_rest(t, l, j),
        Err(e) => Err(e),
    }
}

fn parse_expr_rest(t: &Vec<Lexeme>, left: Expr, j: usize) -> (r: Parsed)
    requires
        well_ended(t@),
        j < t@.len() <= usize::MAX,
    ensures
        r == spec_expr_rest(t@, left, j as int),
        advances(r, j as int - 1, t@.len() as int),
    decreases t@.len() - j, 5int,
{
    let tok = t[j].token;
    if tok == Token::Plus || tok == Token::Minus {
        let op = if tok == Token::Plus {
            ArithOp::Add
        } else {
            ArithOp::Sub
        };
        match parse_term(t, j + 1) {
            Ok((r, k)) => parse_expr_rest(
                t,
                Expr::BinaryOp { op, left: Box::new(left), right: Box::new(r) },
                k,
            ),
            Err(e) => Err(e),
        }
    } else {
        Ok((left, j))
    }
}

fn parse_term(t: &Vec<Lexeme>, i: usize) -> (r: Parsed)
    requires
        well_ended(t@),
        i < t@.len() <= usize::MAX,
    ensures
        r == spec_term(t@, i as int),
        advances(r, i as int, t@.len() as int),
    decreases t@.len() - i, 4int,
{
    match parse_unary(t, i) {
        Ok((l, j)) => parse_term_rest(t, l, j),
        Err(e) => Err(e),
    }
}

fn parse_term_rest(t: &Vec<Lexeme>, left: Expr, j: usize) -> (r: Parsed)
    requires
        well_ended(t@),
        j < t@.len() <= usize::MAX,
    ensures
        r == spec_term_rest(t@, left, j as int),
        advances(r, j as int - 1, t@.len() as int),
    decreases t@.len() - j, 3int,
{
    let tok = t[j].token;
    if tok == Token::Star || tok == Token::Slash {
        let op = if tok == Token::Star {
            ArithOp::Mul
        } else {
            ArithOp::Div
        };
        match parse_unary(t, j + 1) {
            Ok((r, k)) => parse_term_rest(
                t,
                Expr::BinaryOp { op, left: Box::new(left), right: Box::new(r) },
                k,
            ),
            Err(e) => Err(e),
        }
    } else {
        Ok((left, j))
    }
}

fn parse_unary(t: &Vec<Lexeme>, i: usize) -> (r: Parsed)
    requires
        well_ended(t@),
        i < t@.len() <= usize::MAX,
    ensures
        r == spec_unary(t@, i as int),
        advances(r, i as int, t@.len() as int),
    decreases t@.len() - i, 2int,
{
    if t[i].token == Token::Minus {
        match parse_unary(t, i + 1) {
            Ok((e, j)) => Ok((Expr::UnaryMinus(Box::new(e)), j)),
            Err(e) => Err(e),
        }
    } else {
        parse_dice(t, i)
    }
}

fn parse_dice(t: &Vec<Lexeme>, i: usize) -> (r: Parsed)
    requires
        well_ended(t@),
        i < t@.len() <= usize::MAX,
    ensures
        r == spec_dice(t@, i as int),
        advances(r, i as int, t@.len() as int),
    decreases t@.len() - i, 1int,
{
    if t[i].token == Token::DiceOperator {
        match parse_primary(t, i + 1) {
            Ok((s, j)) => Ok(
                (Expr::DiceRoll { count: Box::new(Expr::Number(1)), sides: Box::new(s) }, j),
            ),
            Err(e) => Err(e),
        }
    } else {
        match parse_primary(t, i) {
            Ok((c, j)) => {
                if t[j].token == Token::DiceOperator {
                    match parse_primary(t, j + 1) {
                        Ok((s, k)) => Ok(
                            (Expr::DiceRoll { count: Box::new(c), sides: Box::new(s) }, k),
                        ),
                        Err(e) => Err(e),
                    }
                } else {
                    Ok((c, j))
                }
            },
            Err(e) => Err(e),
        }
    }
}

fn parse_primary(t: &Vec<Lexeme>, i: usize) -> (r: Parsed)
    requires
        well_ended(t@),
        i < t@.len() <= usize::MAX,
    ensures
        r == spec_primary(t@, i as int),
        advances(r, i as int, t@.len() as int),
    decreases t@.len() - i, 0int,
{
    match t[i].token {
        Token::IntegerLiteral(n) => {
            if n <= MAX_LITERAL {
                Ok((Expr::Number(n as i64), i + 1))
            } else {
                Err(unexpected_at(t[i]))
            }
        },
        Token::LParen => match parse_expr(t, i + 1) {
            Ok((e, j)) => {
                if t[j].token == Token::RParen {
                    Ok((e, j + 1))
                } else {
                    Err(unexpected_at(t[j]))
                }
            },
            Err(e) => Err(e),
        },
        _ => Err(unexpected_at(t[i])),
    }
}

fn check_well_ended(t: &Vec<Lexeme>) -> (r: bool)
    ensures
        r == well_ended(t@),
        t@.len() <= usize::MAX,
{
    if t.len() == 0 {
        return false;
    }
    let last = t.len() - 1;
    if t[last].token != Token::EndOfInput {
        return false;
    }
    let mut k: usize = 0;
    while k < last
        invariant
            last == t@.len() - 1,
            t@.len() <= usize::MAX,
            k <= last,
            forall|m: int| 0 <= m < k ==> t@[m].token != Token::EndOfInput,
        decreases last - k,
    {
        if t[k].token == Token::EndOfInput {
            return false;
        }
        k = k + 1;
    }
    true
}

/// Builds the tree of a token sequence that holds one expression followed by
/// `EndOfInput`. Parsing is a function of the tokens alone: the same tokens
/// always give the same tree.
pub fn parse(t: &Vec<Lexeme>) -> (r: Result<Expr, ParseError>)
    ensures
        r == parse_tokens(t@),
{
    if !check_well_ended(t) {
        return Err(ParseError { kind: ParseErrorKind::UnexpectedEndOfInput, pos: 0, len: 0 });
    }
    match parse_expr(t, 0) {
        Ok((e, j)) => {
            if t[j].token == Token::EndOfInput {
                Ok(e)
            } else {
                Err(unexpected_at(t[j]))
            }
        },
        Err(e) => Err(e),
    }
}

/// The token of an arithmetic operator.
pub open spec fn op_token(op: ArithOp) -> Token {
    match op {
        ArithOp::Add => Token::Plus,
        ArithOp::Sub => Token::Minus,
        ArithOp::Mul => Token::Star,
        ArithOp::Div => Token::Slash,
    }
}

pub open spec fn additive(op: ArithOp) -> bool {
    op == ArithOp::Add || op == ArithOp::Sub
}

/// The tokens of `a o1 b o2 c`, one character each apart.
pub open spec fn three_terms(a: u64, o1: ArithOp, b: u64, o2: ArithOp, c: u64) -> Seq<Lexeme> {
    seq![
        Lexeme { token: Token::IntegerLiteral(a), pos: 0, len: 1 },
        Lexeme { token: op_token(o1), pos: 1, len: 1 },
        Lexeme { token: Token::IntegerLiteral(b), pos: 2, len: 1 },
        Lexeme { token: op_token(o2), pos: 3, len: 1 },
        Lexeme { token: Token::IntegerLiteral(c), pos: 4, len: 1 },
        Lexeme { token: Token::EndOfInput, pos: 5, len: 0 },
    ]
}

pub open spec fn bin(op: ArithOp, l: Expr, r: Expr) -> Expr {
    Expr::BinaryOp { op, left: Box::new(l), right: Box::new(r) }
}

/// `*` and `/` bind tighter than `+` and `-`, and operators of one level
/// group to the left: `a + b * c` is `a + (b * c)`, while `a - b - c`,
/// `a * b + c` and `a / b / c` group as `(a o1 b) o2 c`.
pub proof fn lemma_precedence(a: u64, o1: ArithOp, b: u64, o2: ArithOp, c: u64)
    requires
        a <= MAX_LITERAL,
        b <= MAX_LITERAL,
        c <= MAX_LITERAL,
    ensures
        parse_tokens(three_terms(a, o1, b, o2, c)) == Ok::<Expr, ParseError>(
            if additive(o1) && !additive(o2) {
                bin(o1, Expr::Number(a as i64), bin(o2, Expr::Number(b as i64), Expr::Number(c as i64)))
            } else {
                bin(o2, bin(o1, Expr::Number(a as i64), Expr::Number(b as i64)), Expr::Number(c as i64))
            },
        ),
{
    let t = three_terms(a, o1, b, o2, c);
    let na = Expr::Number(a as i64);
    let nb = Expr::Number(b as i64);
    let nc = Expr::Number(c as i64);
    assert(spec_primary(t, 0) == Ok::<(Expr, usize), ParseError>((na, 1usize)));
    assert(spec_unary(t, 0) == Ok::<(Expr, usize), ParseError>((na, 1usize)));
    assert(spec_primary(t, 2) == Ok::<(Expr, usize), ParseError>((nb, 3usize)));
    assert(spec_unary(t, 2) == Ok::<(Expr, usize), ParseError>((nb, 3usize)));
    assert(spec_primary(t, 4) == Ok::<(Expr, usize), ParseError>((nc, 5usize)));
    assert(spec_unary(t, 4) == Ok::<(Expr, usize), ParseError>((nc, 5usize)));
    assert(spec_term_rest(t, nc, 5) == Ok::<(Expr, usize), ParseError>((nc, 5usize)));
    assert(spec_term(t, 4) == Ok::<(Expr, usize), ParseError>((nc, 5usize)));
    if additive(o1) {
        assert(spec_term_rest(t, na, 1) == Ok::<(Expr, usize), ParseError>((na, 1usize)));
        assert(spec_term(t, 0) == Ok::<(Expr, usize), ParseError>((na, 1usize)));
        if additive(o2) {
            let l = bin(o1, na, nb);
            let e = bin(o2, l, nc);
            assert(spec_term_rest(t, nb, 3) == Ok::<(Expr, usize), ParseError>((nb, 3usize)));
            assert(spec_term(t, 2) == Ok::<(Expr, usize), ParseError>((nb, 3usize)));
            assert(spec_expr_rest(t, e, 5) == Ok::<(Expr, usize), ParseError>((e, 5usize)));
            assert(spec_expr_rest(t, l, 3) == Ok::<(Expr, usize), ParseError>((e, 5usize)));
            assert(spec_expr_rest(t, na, 1) == Ok::<(Expr, usize), ParseError>((e, 5usize)));
        } else {
            let r = bin(o2, nb, nc);
            let e = bin(o1, na, r);
            assert(spec_term_rest(t, r, 5) == Ok::<(Expr, usize), ParseError>((r, 5usize)));
            assert(spec_term_rest(t, nb, 3) == Ok::<(Expr, usize), ParseError>((r, 5usize)));
            assert(spec_term(t, 2) == Ok::<(Expr, usize), ParseError>((r, 5usize)));
            assert(spec_expr_rest(t, e, 5) == Ok::<(Expr, usize), ParseError>((e, 5usize)));
            assert(spec_expr_rest(t, na, 1) == Ok::<(Expr, usize), ParseError>((e, 5usize)));
        }
        assert(spec_expr(t, 0) == spec_expr_rest(t, na, 1));
    } else {
        let l = bin(o1, na, nb);
        let e = bin(o2, l, nc);
        if additive(o2) {
            assert(spec_term_rest(t, l, 3) == Ok::<(Expr, usize), ParseError>((l, 3usize)));
            assert(spec_term_rest(t, na, 1) == Ok::<(Expr, usize), ParseError>((l, 3usize)));
            assert(spec_term(t, 0) == Ok::<(Expr, usize), ParseError>((l, 3usize)));
            assert(spec_expr_rest(t, e, 5) == Ok::<(Expr, usize), ParseError>((e, 5usize)));
            assert(spec_expr_rest(t, l, 3) == Ok::<(Expr, usize), ParseError>((e, 5usize)));
        } else {
            assert(spec_term_rest(t, e, 5) == Ok::<(Expr, usize), ParseError>((e, 5usize)));
            assert(spec_term_rest(t, l, 3) == Ok::<(Expr, usize), ParseError>((e, 5usize)));
            assert(spec_term_rest(t, na, 1) == Ok::<(Expr, usize), ParseError>((e, 5usize)));
            assert(spec_term(t, 0) == Ok::<(Expr, usize), ParseError>((e, 5usize)));
            assert(spec_expr_rest(t, e, 5) == Ok::<(Expr, usize), ParseError>((e, 5usize)));
        }
    }
}

} // verus!
