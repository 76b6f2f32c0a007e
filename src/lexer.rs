use vstd::prelude::*;

use crate::text::{chars_of, digit_char, nat_digits};

verus! {

/// The kinds of token of dice notation.
#[derive(Clone, Copy, Debug, PartialEq, Eq, Structural)]
pub enum Token {
    /// A run of decimal digits.
    IntegerLiteral(u64),
    /// `d` or `D`.
    DiceOperator,
    Plus,
    Minus,
    Star,
    Slash,
    LParen,
    RParen,
    /// Placed after the last token of every token sequence.
    EndOfInput,
}

/// A token and its span in the text: the character offset at which it starts
/// and its length in characters (0 for `EndOfInput`).
#[derive(Clone, Copy, Debug, PartialEq, Eq, Structural)]
pub struct Lexeme {
    pub token: Token,
    pub pos: usize,
    pub len: usize,
}

#[derive(Clone, Copy, Debug, PartialEq, Eq, Structural)]
pub enum LexError {
    /// A character outside the alphabet of dice notation, at this offset.
    UnknownCharacter(usize),
    /// An integer literal, starting at this offset, above `i64::MAX`.
    LiteralTooLarge(usize),
}

/// Largest value an integer literal may have.
pub const MAX_LITERAL: u64 = 0x7FFF_FFFF_FFFF_FFFF;

/// The whitespace that the lexer skips: space, tab, line feed, form feed and
/// carriage return.
pub open spec fn is_space(c: char) -> bool {
    c == ' ' || c == '\t' || c == '\n' || c == '\x0C' || c == '\r'
}

pub open spec fn is_digit(c: char) -> bool {
    '0' <= c && c <= '9'
}

pub open spec fn digit_value(c: char) -> int {
    c as int - '0' as int
}

/// The number written by a sequence of decimal digits.
pub open spec fn digits_value(s: Seq<char>) -> int
    decreases s.len(),
{
    if s.len() == 0 {
        0
    } else {
        digits_value(s.drop_last()) * 10 + digit_value(s.last())
    }
}

/// The offset just past the run of digits that starts at `i`.
pub open spec fn digits_end(s: Seq<char>, i: int) -> int
    decreases s.len() - i,
{
    if 0 <= i < s.len() && is_digit(s[i]) {
        digits_end(s, i + 1)
    } else {
        i
    }
}

/// The token that a single character other than a digit or whitespace stands
/// for, if any.
pub open spec fn symbol_token(c: char) -> Option<Token> {
    if c == 'd' || c == 'D' {
        Some(Token::DiceOperator)
    } else if c == '+' {
        Some(Token::Plus)
    } else if c == '-' {
        Some(Token::Minus)
    } else if c == '*' {
        Some(Token::Star)
    } else if c == '/' {
        Some(Token::Slash)
    } else if c == '(' {
        Some(Token::LParen)
    } else if c == ')' {
        Some(Token::RParen)
    } else {
        None
    }
}

/// `prefix` put in front of the tokens of a successful result.
pub open spec fn prepend(prefix: Seq<Lexeme>, r: Result<Seq<Lexeme>, LexError>) -> Result<
    Seq<Lexeme>,
    LexError,
> {
    match r {
        Ok(t) => Ok(prefix + t),
        Err(e) => Err(e),
    }
}

/// The tokens of `s` from offset `i` on, ending in `EndOfInput`.
pub open spec fn lex_from(s: Seq<char>, i: int) -> Result<Seq<Lexeme>, LexError>
    decreases s.len() - i,
{
    if i < 0 || i >= s.len() {
        Ok(seq![Lexeme { token: Token::EndOfInput, pos: s.len() as usize, len: 0 }])
    } else if is_space(s[i]) {
        lex_from(s, i + 1)
    } else if is_digit(s[i]) {
        let j = digits_end(s, i);
        let v = digits_value(s.subrange(i, j));
        if v > MAX_LITERAL {
            Err(LexError::LiteralTooLarge(i as usize))
        } else if !(i < j && j <= s.len()) {
            Err(LexError::UnknownCharacter(i as usize))
        } else {
            prepend(
                seq![Lexeme {
                    token: Token::IntegerLiteral(v as u64),
                    pos: i as usize,
                    len: (j - i) as usize,
                }],
                lex_from(s, j),
            )
        }
    } else {
        match symbol_token(s[i]) {
            Some(t) => prepend(seq![Lexeme { token: t, pos: i as usize, len: 1 }], lex_from(s, i + 1)),
            None => Err(LexError::UnknownCharacter(i as usize)),
        }
    }
}

/// The tokens of a whole text.
pub open spec fn lex(s: Seq<char>) -> Result<Seq<Lexeme>, LexError> {
    lex_from(s, 0)
}

/// A token sequence as the parser expects it: it ends in `EndOfInput`, the only
/// one of its kind.
pub open spec fn well_ended(t: Seq<Lexeme>) -> bool {
    &&& t.len() >= 1
    &&& t.last().token == Token::EndOfInput
    &&& forall|k: int| 0 <= k < t.len() - 1 ==> t[k].token != Token::EndOfInput
}

proof fn lemma_prepend_prepend(a: Seq<Lexeme>, b: Seq<Lexeme>, r: Result<Seq<Lexeme>, LexError>)
    ensures
        prepend(a, prepend(b, r)) == prepend(a + b, r),
{
    if let Ok(t) = r {
        assert(a + (b + t) == (a + b) + t);
    }
}

proof fn lemma_digits_end_bounds(s: Seq<char>, i: int)
    requires
        0 <= i <= s.len(),
    ensures
        i <= digits_end(s, i) <= s.len(),
        forall|k: int| i <= k < digits_end(s, i) ==> is_digit(s[k]),
        digits_end(s, i) < s.len() ==> !is_digit(s[digits_end(s, i)]),
    decreases s.len() - i,
{
    if i < s.len() && is_digit(s[i]) {
        lemma_digits_end_bounds(s, i + 1);
    }
}

proof fn lemma_digits_value_grows(s: Seq<char>, j: int)
    requires
        0 <= j <= s.len(),
        forall|k: int| 0 <= k < s.len() ==> is_digit(s[k]),
    ensures
        0 <= digits_value(s.subrange(0, j)) <= digits_value(s),
    decreases s.len(),
{
    if j < s.len() {
        lemma_digits_value_grows(s.drop_last(), j);
        assert(s.drop_last().subrange(0, j) == s.subrange(0, j));
    } else {
        assert(s.subrange(0, j) == s);
    }
    if s.len() > 0 {
        lemma_digits_value_grows(s.drop_last(), s.len() - 1);
        assert(s.drop_last().subrange(0, s.len() - 1) == s.drop_last());
    }
}

proof fn lemma_lex_well_ended(s: Seq<char>, i: int)
    requires
        0 <= i,
    ensures
        lex_from(s, i) is Ok ==> well_ended(lex_from(s, i)->Ok_0),
    decreases s.len() - i,
{
    if i < 0 || i >= s.len() {
    } else if is_space(s[i]) {
        lemma_lex_well_ended(s, i + 1);
    } else if is_digit(s[i]) {
        let j = digits_end(s, i);
        lemma_digits_end_bounds(s, i);
        lemma_lex_well_ended(s, j);
    } else {
        lemma_lex_well_ended(s, i + 1);
    }
}

/// A run of exactly `len` digits at `i` ends at `i + len`.
proof fn lemma_digits_end_run(s: Seq<char>, i: int, len: int)
    requires
        0 <= i,
        0 <= len,
        i + len <= s.len(),
        forall|k: int| i <= k < i + len ==> is_digit(s[k]),
        i + len == s.len() || !is_digit(s[i + len]),
    ensures
        digits_end(s, i) == i + len,
    decreases len,
{
    if len > 0 {
        lemma_digits_end_run(s, i + 1, len - 1);
    }
}

/// Lexing a run of digits that writes `n` gives one literal `n`, followed by
/// the tokens of what comes after the run.
pub proof fn lemma_lex_number(s: Seq<char>, i: int, n: nat)
    requires
        0 <= i,
        i + nat_digits(n).len() <= s.len(),
        s.subrange(i, i + nat_digits(n).len()) == nat_digits(n),
        i + nat_digits(n).len() == s.len() || !is_digit(s[i + nat_digits(n).len()]),
        n <= MAX_LITERAL,
    ensures
        lex_from(s, i) == prepend(
            seq![Lexeme {
                token: Token::IntegerLiteral(n as u64),
                pos: i as usize,
                len: nat_digits(n).len() as usize,
            }],
            lex_from(s, i + nat_digits(n).len()),
        ),
{
    let d = nat_digits(n);
    lemma_nat_digits(n);
    assert forall|k: int| i <= k < i + d.len() implies is_digit(s[k]) by {
        assert(s[k] == d[k - i]);
    }
    lemma_digits_end_run(s, i, d.len() as int);
    assert(s[i] == d[0]);
}

proof fn lemma_digit_char(d: int)
    requires
        0 <= d < 10,
    ensures
        is_digit(digit_char(d)),
        digit_value(digit_char(d)) == d,
{
}

/// The decimal digits of `n` are digits, at least one, and write `n`.
pub proof fn lemma_nat_digits(n: nat)
    ensures
        nat_digits(n).len() >= 1,
        forall|k: int| 0 <= k < nat_digits(n).len() ==> is_digit(#[trigger] nat_digits(n)[k]),
        digits_value(nat_digits(n)) == n,
    decreases n,
{
    if n < 10 {
        lemma_digit_char(n as int);
        let d = seq![digit_char(n as int)];
        assert(d.drop_last() =~= Seq::<char>::empty());
        assert(digits_value(Seq::<char>::empty()) == 0);
        assert(digits_value(d) == digits_value(d.drop_last()) * 10 + digit_value(d.last()));
    } else {
        lemma_nat_digits(n / 10);
        lemma_digit_char((n % 10) as int);
        let p = nat_digits(n / 10);
        let d = p.push(digit_char((n % 10) as int));
        assert(d.drop_last() == p);
        assert(d.last() == digit_char((n % 10) as int));
        assert(digits_value(d) == digits_value(p) * 10 + (n % 10));
        assert(forall|k: int| 0 <= k < p.len() ==> d[k] == p[k]);
        assert((n / 10) * 10 + n % 10 == n) by (nonlinear_arith);
    }
}

/// Offset just past the run of digits at `i`, and the value of that run
/// (`None` where it is above `MAX_LITERAL`).
fn scan_number(s: &Vec<char>, i: usize) -> (r: (usize, Option<u64>))
    requires
        i < s@.len(),
        is_digit(s@[i as int]),
    ensures
        r.0 == digits_end(s@, i as int),
        r.1 is Some <==> digits_value(s@.subrange(i as int, r.0 as int)) <= MAX_LITERAL,
        r.1 is Some ==> r.1->Some_0 == digits_value(s@.subrange(i as int, r.0 as int)),
{
    proof {
        lemma_digits_end_bounds(s@, i as int);
    }
    let ghost end = digits_end(s@, i as int);
    let mut j: usize = i;
    let mut v: u64 = 0;
    let mut big: bool = false;
    while j < s.len() && '0' <= s[j] && s[j] <= '9'
        invariant
            i <= j <= end,
            end <= s@.len(),
            forall|k: int| i <= k < end ==> is_digit(s@[k]),
            end < s@.len() ==> !is_digit(s@[end]),
            !big ==> v as int == digits_value(s@.subrange(i as int, j as int)),
            !big ==> v <= MAX_LITERAL,
            big ==> digits_value(s@.subrange(i as int, j as int)) > MAX_LITERAL,
        decreases s@.len() - j,
    {
        let d = (s[j] as u32 - '0' as u32) as u64;
        let ghost sub = s@.subrange(i as int, j as int + 1);
        assert(sub.drop_last() == s@.subrange(i as int, j as int));
        assert(digits_value(sub) == digits_value(s@.subrange(i as int, j as int)) * 10
            + digit_value(s@[j as int]));
        if !big {
            if v > (MAX_LITERAL - d) / 10 {
                big = true;
                assert(digits_value(sub) > MAX_LITERAL) by (nonlinear_arith)
                    requires
                        v > (MAX_LITERAL - d) / 10,
                        digits_value(sub) == v * 10 + d,
                        d <= 9,
                ;
            } else {
                assert(v * 10 + d <= MAX_LITERAL) by (nonlinear_arith)
                    requires
                        v <= (MAX_LITERAL - d) / 10,
                        d <= 9,
                ;
                v = v * 10 + d;
            }
        } else {
            proof {
                lemma_digits_value_grows(sub, sub.len() - 1);
                assert(sub.subrange(0, sub.len() - 1) == s@.subrange(i as int, j as int));
            }
        }
        j = j + 1;
    }
    if big {
        (j, None)
    } else {
        (j, Some(v))
    }
}

/// Splits `s` into tokens, skipping whitespace, and ends them with
/// `EndOfInput`.
pub fn tokenize_chars(s: &Vec<char>) -> (r: Result<Vec<Lexeme>, LexError>)
    ensures
        r is Ok <==> lex(s@) is Ok,
        r is Ok ==> r->Ok_0@ == lex(s@)->Ok_0,
        r is Err ==> r->Err_0 == lex(s@)->Err_0,
        r is Ok ==> well_ended(r->Ok_0@),
{
    proof {
        lemma_lex_well_ended(s@, 0);
    }
    let mut out: Vec<Lexeme> = Vec::new();
    let mut i: usize = 0;
    while i < s.len()
        invariant
            i <= s@.len(),
            lex(s@) == prepend(out@, lex_from(s@, i as int)),
        decreases s@.len() - i,
    {
        let c = s[i];
        if c == ' ' || c == '\t' || c == '\n' || c == '\x0C' || c == '\r' {
            i = i + 1;
        } else if '0' <= c && c <= '9' {
            let (j, v) = scan_number(s, i);
            proof {
                lemma_digits_end_bounds(s@, i as int);
            }
            match v {
                None => {
                    return Err(LexError::LiteralTooLarge(i));
                },
                Some(n) => {
                    let ghost before = out@;
                    let lit = Lexeme { token: Token::IntegerLiteral(n), pos: i, len: j - i };
                    out.push(lit);
                    proof {
                        lemma_prepend_prepend(before, seq![lit], lex_from(s@, j as int));
                        assert(before + seq![lit] == out@);
                    }
                    i = j;
                },
            }
        } else {
            let t = if c == 'd' || c == 'D' {
                Token::DiceOperator
            } else if c == '+' {
                Token::Plus
            } else if c == '-' {
                Token::Minus
            } else if c == '*' {
                Token::Star
            } else if c == '/' {
                Token::Slash
            } else if c == '(' {
                Token::LParen
            } else if c == ')' {
                Token::RParen
            } else {
                return Err(LexError::UnknownCharacter(i));
            };
            let ghost before = out@;
            out.push(Lexeme { token: t, pos: i, len: 1 });
            proof {
                lemma_prepend_prepend(before, seq![Lexeme { token: t, pos: i, len: 1 }], lex_from(s@, i + 1));
                assert(before + seq![Lexeme { token: t, pos: i, len: 1 }] == out@);
            }
            i = i + 1;
        }
    }
    let ghost before = out@;
    out.push(Lexeme { token: Token::EndOfInput, pos: s.len(), len: 0 });
    assert(before + seq![Lexeme { token: Token::EndOfInput, pos: s.len(), len: 0 }] == out@);
    Ok(out)
}

/// Splits a text into tokens, skipping whitespace; the last token is
/// `EndOfInput`.
pub fn tokenize(input: &str) -> (r: Result<Vec<Lexeme>, LexError>)
    ensures
        r is Ok <==> lex(input@) is Ok,
        r is Ok ==> r->Ok_0@ == lex(input@)->Ok_0,
        r is Err ==> r->Err_0 == lex(input@)->Err_0,
{
    let s = chars_of(input);
    tokenize_chars(&s)
}

} // verus!
