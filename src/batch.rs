use vstd::prelude::*;

use crate::eval::{
    eval, evaluate, lemma_dice_total_bounds, lemma_two_d6_range, lemma_zero_dice_invalid,
    literal_dice, sum_faces, EvalError, eval_at, lemma_literal_dice_at, Die, arith, dice_free, lemma_dice_free_deterministic,
};
use crate::lexer::{
    is_digit, lemma_lex_number, lemma_nat_digits, lex, lex_from, tokenize_chars, LexError, Lexeme,
    Token, MAX_LITERAL,
};
use crate::parser::{
    parse, parse_tokens, spec_dice, spec_expr, spec_expr_rest, spec_primary, spec_term,
    spec_term_rest, spec_unary, ArithOp, Expr, ParseError,
};
use crate::rng::DiceRng;
use crate::text::{
    chars_of, decimal, nat_digits, push_chars, push_decimal,
};

verus! {

/// What is shown for an expression that cannot be lexed, parsed or evaluated.
pub const FALLBACK: &'static str = "Unable to evaluate expression.";

/// Separator between the results of one batch.
pub const SEPARATOR: &'static str = ", ";

/// The display line for one expression, and the generator state after it:
/// `"<expression> = <total>"`, the expression echoed exactly as given
/// (whitespace included), or `FALLBACK` on any lexing, parsing or evaluation
/// error.
#[verifier::opaque]
pub open spec fn render(s: Seq<char>, st: u64) -> (Seq<char>, u64) {
    match lex(s) {
        Err(_) => (FALLBACK@, st),
        Ok(t) => match parse_tokens(t) {
            Err(_) => (FALLBACK@, st),
            Ok(e) => {
                let (r, _, st1) = eval(e, st);
                match r {
                    Ok(v) => (s + " = "@ + decimal(v as int), st1),
                    Err(_) => (FALLBACK@, st1),
                }
            },
        },
    }
}

fn render_chars(s: &Vec<char>, rng: &mut DiceRng) -> (r: String)
    ensures
        r@ == render(s@, old(rng).state).0,
        final(rng).state == render(s@, old(rng).state).1,
{
    proof {
        reveal(render);
    }
    let mut out = String::new();
    let tokens = match tokenize_chars(s) {
        Ok(t) => t,
        Err(_) => {
            out.append(FALLBACK);
            return out;
        },
    };
    let e = match parse(&tokens) {
        Ok(e) => e,
        Err(_) => {
            out.append(FALLBACK);
            return out;
        },
    };
    match evaluate(&e, rng) {
        Ok((v, _)) => {
            push_chars(&mut out, s);
            out.append(" = ");
            push_decimal(&mut out, v);
            out
        },
        Err(_) => {
            out.append(FALLBACK);
            out
        },
    }
}

/// Evaluates one expression and gives its display line (see `render`).
pub fn eval_expression(text: &str, rng: &mut DiceRng) -> (r: String)
    ensures
        r@ == render(text@, old(rng).state).0,
        final(rng).state == render(text@, old(rng).state).1,
{
    let s = chars_of(text);
    render_chars(&s, rng)
}

/// The pieces of `s` between commas, in order; `k` commas give `k + 1`
/// pieces, empty ones included.
pub open spec fn split_commas(s: Seq<char>) -> Seq<Seq<char>>
    decreases s.len(),
{
    if s.len() == 0 {
        seq![Seq::empty()]
    } else {
        let p = split_commas(s.drop_last());
        if s.last() == ',' {
            p.push(Seq::empty())
        } else {
            p.update(p.len() - 1, p.last().push(s.last()))
        }
    }
}

/// The text `"{n}d{s}"`.
pub open spec fn dice_text(n: nat, s: nat) -> Seq<char> {
    nat_digits(n) + seq!['d'] + nat_digits(s)
}

/// The text `"{n}d{s}"` lexes and parses to the dice term with those literals.
pub proof fn lemma_parse_dice_text(n: nat, s: nat)
    requires
        n <= MAX_LITERAL,
        s <= MAX_LITERAL,
    ensures
        lex(dice_text(n, s)) is Ok,
        parse_tokens(lex(dice_text(n, s))->Ok_0) == Ok::<Expr, ParseError>(
            literal_dice(n as i64, s as i64),
        ),
{
    let a = nat_digits(n);
    let b = nat_digits(s);
    let x = dice_text(n, s);
    let l1 = a.len() as int;
    let l2 = b.len() as int;
    lemma_nat_digits(n);
    lemma_nat_digits(s);
    assert(x.subrange(0, l1) =~= a);
    assert(x.subrange(l1 + 1, l1 + 1 + l2) =~= b);
    assert(x[l1] == 'd');
    assert(!is_digit(x[l1]));
    lemma_lex_number(x, 0, n);
    lemma_lex_number(x, l1 + 1, s);
    let end = seq![Lexeme { token: Token::EndOfInput, pos: x.len() as usize, len: 0 }];
    assert(lex_from(x, l1 + 1 + l2) == Ok::<Seq<Lexeme>, LexError>(end));
    let t3 = seq![Lexeme {
        token: Token::IntegerLiteral(s as u64),
        pos: (l1 + 1) as usize,
        len: l2 as usize,
    }] + end;
    let t2 = seq![Lexeme { token: Token::DiceOperator, pos: l1 as usize, len: 1 }] + t3;
    let t = seq![Lexeme { token: Token::IntegerLiteral(n as u64), pos: 0, len: l1 as usize }] + t2;
    assert(lex_from(x, l1 + 1) == Ok::<Seq<Lexeme>, LexError>(t3));
    assert(lex_from(x, l1) == Ok::<Seq<Lexeme>, LexError>(t2));
    assert(lex(x) == Ok::<Seq<Lexeme>, LexError>(t));
    assert(t.len() == 4);
    assert(t[0].token == Token::IntegerLiteral(n as u64));
    assert(t[1].token == Token::DiceOperator);
    assert(t[2].token == Token::IntegerLiteral(s as u64));
    assert(t[3].token == Token::EndOfInput);
    let e = literal_dice(n as i64, s as i64);
    assert(spec_primary(t, 0) == Ok::<(Expr, usize), ParseError>((Expr::Number(n as i64), 1usize)));
    assert(spec_primary(t, 2) == Ok::<(Expr, usize), ParseError>((Expr::Number(s as i64), 3usize)));
    assert(spec_dice(t, 0) == Ok::<(Expr, usize), ParseError>((e, 3usize)));
    assert(spec_unary(t, 0) == Ok::<(Expr, usize), ParseError>((e, 3usize)));
    assert(spec_term_rest(t, e, 3) == Ok::<(Expr, usize), ParseError>((e, 3usize)));
    assert(spec_term(t, 0) == Ok::<(Expr, usize), ParseError>((e, 3usize)));
    assert(spec_expr_rest(t, e, 3) == Ok::<(Expr, usize), ParseError>((e, 3usize)));
    assert(spec_expr(t, 0) == Ok::<(Expr, usize), ParseError>((e, 3usize)));
}

/// The text `"{n}d{s}"`, for `n, s >= 1`, rolls exactly `n` dice that each
/// show a face in `1..=s`, whose sum `t` lies between `n` and `n * s`. It is
/// displayed as `"{n}d{s} = {t}"`, or as `FALLBACK` where `t` leaves `i64`
/// (evaluation then fails with `Overflow`), which cannot happen when `n * s`
/// fits in `i64`.
pub proof fn lemma_dice_text(n: nat, s: nat, st: u64)
    requires
        1 <= n <= u32::MAX,
        1 <= s <= u32::MAX,
    ensures
        lex(dice_text(n, s)) is Ok,
        parse_tokens(lex(dice_text(n, s))->Ok_0) == Ok::<Expr, ParseError>(
            literal_dice(n as i64, s as i64),
        ),
        ({
            let (r, trace, _) = eval(literal_dice(n as i64, s as i64), st);
            let t = sum_faces(trace);
            &&& trace.len() == n
            &&& forall|k: int| 0 <= k < n ==> 1 <= #[trigger] trace[k].face <= s
            &&& n <= t <= n * s
            &&& t <= i64::MAX ==> r == Ok::<i64, EvalError>(t as i64) && render(
                dice_text(n, s),
                st,
            ).0 == dice_text(n, s) + " = "@ + decimal(t)
            &&& t > i64::MAX ==> r == Err::<i64, EvalError>(EvalError::Overflow) && render(
                dice_text(n, s),
                st,
            ).0 == FALLBACK@
            &&& n * s <= i64::MAX ==> r is Ok
        }),
{
    reveal(render);
    lemma_parse_dice_text(n, s);
    lemma_dice_total_bounds(n as i64, s as i64, st);
    let e = literal_dice(n as i64, s as i64);
    let trace = eval(e, st).1;
    assert forall|k: int| 0 <= k < n implies 1 <= #[trigger] trace[k].face <= s by {
        assert(trace[k].sides == s);
    }
    let x = dice_text(n, s);
    assert(lex(x) is Ok);
    assert(parse_tokens(lex(x)->Ok_0) == Ok::<Expr, ParseError>(e));
    if sum_faces(trace) <= i64::MAX {
        assert(eval(e, st).0 == Ok::<i64, EvalError>(sum_faces(trace) as i64));
    } else {
        assert(eval(e, st).0 == Err::<i64, EvalError>(EvalError::Overflow));
    }
}

/// The text `"1d6+1d6"`.
pub open spec fn two_d6_text() -> Seq<char> {
    dice_text(1, 6) + seq!['+'] + dice_text(1, 6)
}

pub open spec fn lexeme(t: Token, p: int, len: int) -> Lexeme {
    Lexeme { token: t, pos: p as usize, len: len as usize }
}

/// The tokens of `"1d6+1d6"`.
pub open spec fn two_d6_tokens() -> Seq<Lexeme> {
    seq![
        lexeme(Token::IntegerLiteral(1), 0, 1),
        lexeme(Token::DiceOperator, 1, 1),
        lexeme(Token::IntegerLiteral(6), 2, 1),
        lexeme(Token::Plus, 3, 1),
        lexeme(Token::IntegerLiteral(1), 4, 1),
        lexeme(Token::DiceOperator, 5, 1),
        lexeme(Token::IntegerLiteral(6), 6, 1),
        lexeme(Token::EndOfInput, 7, 0),
    ]
}

/// The tree of `"1d6+1d6"`.
pub open spec fn two_d6_tree() -> Expr {
    Expr::BinaryOp {
        op: ArithOp::Add,
        left: Box::new(literal_dice(1, 6)),
        right: Box::new(literal_dice(1, 6)),
    }
}

proof fn lemma_lex_two_d6()
    ensures
        lex(two_d6_text()) == Ok::<Seq<Lexeme>, LexError>(two_d6_tokens()),
{
    let x = two_d6_text();
    let t = two_d6_tokens();
    assert(nat_digits(1) == seq!['1']);
    assert(nat_digits(6) == seq!['6']);
    assert(x =~= seq!['1', 'd', '6', '+', '1', 'd', '6']);
    assert(x.subrange(0, 1) =~= seq!['1']);
    assert(x.subrange(2, 3) =~= seq!['6']);
    assert(x.subrange(4, 5) =~= seq!['1']);
    assert(x.subrange(6, 7) =~= seq!['6']);
    lemma_lex_number(x, 6, 6);
    lemma_lex_number(x, 4, 1);
    lemma_lex_number(x, 2, 6);
    lemma_lex_number(x, 0, 1);
    assert(x.len() == 7);
    assert(t.subrange(7, 8) =~= seq![t[7]]);
    assert forall|k: int| 0 <= k < 7 implies #[trigger] t.subrange(k, 8) =~= seq![t[k]] + t.subrange(
        k + 1,
        8,
    ) by {}
    assert(lex_from(x, 7) == Ok::<Seq<Lexeme>, LexError>(t.subrange(7, 8)));
    assert(lex_from(x, 6) == Ok::<Seq<Lexeme>, LexError>(t.subrange(6, 8)));
    assert(lex_from(x, 5) == Ok::<Seq<Lexeme>, LexError>(t.subrange(5, 8)));
    assert(lex_from(x, 4) == Ok::<Seq<Lexeme>, LexError>(t.subrange(4, 8)));
    assert(lex_from(x, 3) == Ok::<Seq<Lexeme>, LexError>(t.subrange(3, 8)));
    assert(lex_from(x, 2) == Ok::<Seq<Lexeme>, LexError>(t.subrange(2, 8)));
    assert(lex_from(x, 1) == Ok::<Seq<Lexeme>, LexError>(t.subrange(1, 8)));
    assert(lex_from(x, 0) == Ok::<Seq<Lexeme>, LexError>(t.subrange(0, 8)));
    assert(t.subrange(0, 8) == t);
}

proof fn lemma_parse_two_d6()
    ensures
        parse_tokens(two_d6_tokens()) == Ok::<Expr, ParseError>(two_d6_tree()),
{
    let t = two_d6_tokens();
    let e1 = literal_dice(1, 6);
    let e = two_d6_tree();
    assert(spec_primary(t, 0) == Ok::<(Expr, usize), ParseError>((Expr::Number(1), 1usize)));
    assert(spec_primary(t, 2) == Ok::<(Expr, usize), ParseError>((Expr::Number(6), 3usize)));
    assert(spec_dice(t, 0) == Ok::<(Expr, usize), ParseError>((e1, 3usize)));
    assert(spec_unary(t, 0) == Ok::<(Expr, usize), ParseError>((e1, 3usize)));
    assert(spec_term_rest(t, e1, 3) == Ok::<(Expr, usize), ParseError>((e1, 3usize)));
    assert(spec_term(t, 0) == Ok::<(Expr, usize), ParseError>((e1, 3usize)));
    assert(spec_primary(t, 4) == Ok::<(Expr, usize), ParseError>((Expr::Number(1), 5usize)));
    assert(spec_primary(t, 6) == Ok::<(Expr, usize), ParseError>((Expr::Number(6), 7usize)));
    assert(spec_dice(t, 4) == Ok::<(Expr, usize), ParseError>((e1, 7usize)));
    assert(spec_unary(t, 4) == Ok::<(Expr, usize), ParseError>((e1, 7usize)));
    assert(spec_term_rest(t, e1, 7) == Ok::<(Expr, usize), ParseError>((e1, 7usize)));
    assert(spec_term(t, 4) == Ok::<(Expr, usize), ParseError>((e1, 7usize)));
    assert(spec_expr_rest(t, e, 7) == Ok::<(Expr, usize), ParseError>((e, 7usize)));
    assert(spec_expr_rest(t, e1, 3) == Ok::<(Expr, usize), ParseError>((e, 7usize)));
    assert(spec_expr(t, 0) == Ok::<(Expr, usize), ParseError>((e, 7usize)));
}

/// `"1d6+1d6"` never fails, whatever the generator's state: its total lies in
/// `2..=12` and it is displayed as `"1d6+1d6 = {total}"`.
pub proof fn lemma_two_d6_text(st: u64)
    ensures
        parse_tokens(lex(two_d6_text())->Ok_0) == Ok::<Expr, ParseError>(two_d6_tree()),
        eval(two_d6_tree(), st).0 is Ok,
        2 <= eval(two_d6_tree(), st).0->Ok_0 <= 12,
        render(two_d6_text(), st).0 == two_d6_text() + " = "@ + decimal(
            eval(two_d6_tree(), st).0->Ok_0 as int,
        ),
{
    reveal(render);
    let x = two_d6_text();
    lemma_lex_two_d6();
    lemma_parse_two_d6();
    lemma_two_d6_range(st);
    assert(x =~= seq!['1', 'd', '6', '+', '1', 'd', '6']);
}

/// The texts `"0d{s}"` and `"{n}d0"` never roll: they are displayed as
/// `FALLBACK`, evaluation fails with `InvalidDice`, and the generator is left
/// as it was.
pub proof fn lemma_zero_dice_text(n: nat, s: nat, st: u64)
    requires
        n == 0 || s == 0,
        n <= MAX_LITERAL,
        s <= MAX_LITERAL,
    ensures
        parse_tokens(lex(dice_text(n, s))->Ok_0) == Ok::<Expr, ParseError>(
            literal_dice(n as i64, s as i64),
        ),
        eval(literal_dice(n as i64, s as i64), st).0 == Err::<i64, EvalError>(EvalError::InvalidDice),
        render(dice_text(n, s), st) == (FALLBACK@, st),
{
    reveal(render);
    lemma_parse_dice_text(n, s);
    lemma_zero_dice_invalid(n as i64, s as i64, st);
}

/// Whether a piece draws no dice: it fails to lex or parse, or its tree holds
/// no dice term.
pub open spec fn draws_nothing(s: Seq<char>) -> bool {
    lex(s) is Err || parse_tokens(lex(s)->Ok_0) is Err || dice_free(
        parse_tokens(lex(s)->Ok_0)->Ok_0,
    )
}

/// A piece that draws no dice is displayed the same from every generator
/// state and leaves the state as it was; where it evaluates, it is displayed as
/// the piece as given, `" = "`, and the plain integer arithmetic of its tree.
pub proof fn lemma_render_draws_nothing(s: Seq<char>, st1: u64, st2: u64)
    requires
        draws_nothing(s),
    ensures
        render(s, st1).0 == render(s, st2).0,
        render(s, st1).1 == st1,
        lex(s) is Ok && parse_tokens(lex(s)->Ok_0) is Ok && eval(
            parse_tokens(lex(s)->Ok_0)->Ok_0,
            st1,
        ).0 is Ok ==> render(s, st1).0 == s + " = "@ + decimal(
            arith(parse_tokens(lex(s)->Ok_0)->Ok_0),
        ),
{
    reveal(render);
    if lex(s) is Ok && parse_tokens(lex(s)->Ok_0) is Ok {
        let e = parse_tokens(lex(s)->Ok_0)->Ok_0;
        lemma_dice_free_deterministic(e, st1, st2);
        lemma_dice_free_deterministic(e, st2, st1);
    }
}

/// A line whose pieces all draw no dice gives the same output from every
/// generator state, and leaves the state as it was: evaluating it twice logs
/// the same line twice.
pub proof fn lemma_batch_draws_nothing(line: Seq<char>, st1: u64, st2: u64)
    requires
        forall|k: int|
            0 <= k < split_commas(line).len() ==> draws_nothing(#[trigger] split_commas(line)[k]),
    ensures
        batch(line, st1).0 == batch(line, st2).0,
        batch(line, st1).1 == st1,
{
    lemma_batch_from_draws_nothing(split_commas(line), 0, st1, st2);
}

proof fn lemma_batch_from_draws_nothing(segs: Seq<Seq<char>>, k: int, st1: u64, st2: u64)
    requires
        0 <= k,
        forall|j: int| 0 <= j < segs.len() ==> draws_nothing(#[trigger] segs[j]),
    ensures
        batch_from(segs, k, st1).0 == batch_from(segs, k, st2).0,
        batch_from(segs, k, st1).1 == st1,
    decreases segs.len() - k,
{
    if k < segs.len() {
        lemma_render_draws_nothing(segs[k], st1, st2);
        lemma_render_draws_nothing(segs[k], st2, st1);
        lemma_batch_from_draws_nothing(segs, k + 1, st1, st2);
    }
}

proof fn lemma_split_nonempty(s: Seq<char>)
    ensures
        split_commas(s).len() >= 1,
    decreases s.len(),
{
    if s.len() > 0 {
        lemma_split_nonempty(s.drop_last());
    }
}

/// A piece without commas stays whole.
proof fn lemma_split_no_comma(p: Seq<char>)
    requires
        forall|k: int| 0 <= k < p.len() ==> p[k] != ',',
    ensures
        split_commas(p) == seq![p],
    decreases p.len(),
{
    if p.len() > 0 {
        lemma_split_no_comma(p.drop_last());
        assert(p.drop_last().push(p.last()) =~= p);
        assert(seq![p.drop_last()].update(0, p.drop_last().push(p.last())) =~= seq![p]);
    } else {
        assert(p =~= Seq::<char>::empty());
    }
}

/// Splitting at a comma splits the two sides apart.
proof fn lemma_split_append(a: Seq<char>, b: Seq<char>)
    ensures
        split_commas(a + seq![','] + b) == split_commas(a) + split_commas(b),
    decreases b.len(),
{
    let x = a + seq![','] + b;
    if b.len() == 0 {
        assert(x.drop_last() =~= a);
        assert(split_commas(b) == seq![Seq::<char>::empty()]);
        assert(split_commas(a).push(Seq::<char>::empty()) =~= split_commas(a) + seq![
            Seq::<char>::empty(),
        ]);
    } else {
        let b1 = b.drop_last();
        lemma_split_append(a, b1);
        lemma_split_nonempty(b1);
        lemma_split_nonempty(a);
        assert(x.drop_last() =~= a + seq![','] + b1);
        assert(x.last() == b.last());
        let p = split_commas(a) + split_commas(b1);
        if b.last() == ',' {
            assert(p.push(Seq::<char>::empty()) =~= split_commas(a) + split_commas(b1).push(
                Seq::<char>::empty(),
            ));
        } else {
            let q = split_commas(b1);
            assert(p.update(p.len() - 1, p.last().push(b.last())) =~= split_commas(a) + q.update(
                q.len() - 1,
                q.last().push(b.last()),
            ));
        }
    }
}

/// The piece `" 2d4+1"`.
pub open spec fn sample_piece() -> Seq<char> {
    seq![' ', '2', 'd', '4', '+', '1']
}

/// The tree of `" 2d4+1"`.
pub open spec fn sample_tree() -> Expr {
    Expr::BinaryOp {
        op: ArithOp::Add,
        left: Box::new(literal_dice(2, 4)),
        right: Box::new(Expr::Number(1)),
    }
}

/// The line `"1d6, 2d4+1, "`.
pub open spec fn sample_line() -> Seq<char> {
    dice_text(1, 6) + seq![','] + (sample_piece() + seq![','] + seq![' '])
}

/// The tokens of `" 2d4+1"`.
pub open spec fn sample_tokens() -> Seq<Lexeme> {
    seq![
        lexeme(Token::IntegerLiteral(2), 1, 1),
        lexeme(Token::DiceOperator, 2, 1),
        lexeme(Token::IntegerLiteral(4), 3, 1),
        lexeme(Token::Plus, 4, 1),
        lexeme(Token::IntegerLiteral(1), 5, 1),
        lexeme(Token::EndOfInput, 6, 0),
    ]
}

proof fn lemma_lex_sample_piece()
    ensures
        lex(sample_piece()) == Ok::<Seq<Lexeme>, LexError>(sample_tokens()),
{
    let x = sample_piece();
    let t = sample_tokens();
    assert(nat_digits(1) == seq!['1']);
    assert(nat_digits(2) == seq!['2']);
    assert(nat_digits(4) == seq!['4']);
    assert(x.subrange(1, 2) =~= seq!['2']);
    assert(x.subrange(3, 4) =~= seq!['4']);
    assert(x.subrange(5, 6) =~= seq!['1']);
    lemma_lex_number(x, 5, 1);
    lemma_lex_number(x, 3, 4);
    lemma_lex_number(x, 1, 2);
    assert(t.subrange(5, 6) =~= seq![t[5]]);
    assert forall|k: int| 0 <= k < 5 implies #[trigger] t.subrange(k, 6) =~= seq![t[k]] + t.subrange(
        k + 1,
        6,
    ) by {}
    assert(lex_from(x, 6) == Ok::<Seq<Lexeme>, LexError>(t.subrange(5, 6)));
    assert(lex_from(x, 5) == Ok::<Seq<Lexeme>, LexError>(t.subrange(4, 6)));
    assert(lex_from(x, 4) == Ok::<Seq<Lexeme>, LexError>(t.subrange(3, 6)));
    assert(lex_from(x, 3) == Ok::<Seq<Lexeme>, LexError>(t.subrange(2, 6)));
    assert(lex_from(x, 2) == Ok::<Seq<Lexeme>, LexError>(t.subrange(1, 6)));
    assert(lex_from(x, 1) == Ok::<Seq<Lexeme>, LexError>(t.subrange(0, 6)));
    assert(lex_from(x, 0) == lex_from(x, 1));
    assert(t.subrange(0, 6) == t);
}

proof fn lemma_parse_sample_piece()
    ensures
        parse_tokens(sample_tokens()) == Ok::<Expr, ParseError>(sample_tree()),
{
    let t = sample_tokens();
    let d = literal_dice(2, 4);
    let one = Expr::Number(1);
    let e = sample_tree();
    assert(spec_primary(t, 0) == Ok::<(Expr, usize), ParseError>((Expr::Number(2), 1usize)));
    assert(spec_primary(t, 2) == Ok::<(Expr, usize), ParseError>((Expr::Number(4), 3usize)));
    assert(spec_dice(t, 0) == Ok::<(Expr, usize), ParseError>((d, 3usize)));
    assert(spec_unary(t, 0) == Ok::<(Expr, usize), ParseError>((d, 3usize)));
    assert(spec_term_rest(t, d, 3) == Ok::<(Expr, usize), ParseError>((d, 3usize)));
    assert(spec_term(t, 0) == Ok::<(Expr, usize), ParseError>((d, 3usize)));
    assert(spec_primary(t, 4) == Ok::<(Expr, usize), ParseError>((one, 5usize)));
    assert(spec_dice(t, 4) == Ok::<(Expr, usize), ParseError>((one, 5usize)));
    assert(spec_unary(t, 4) == Ok::<(Expr, usize), ParseError>((one, 5usize)));
    assert(spec_term_rest(t, one, 5) == Ok::<(Expr, usize), ParseError>((one, 5usize)));
    assert(spec_term(t, 4) == Ok::<(Expr, usize), ParseError>((one, 5usize)));
    assert(spec_expr_rest(t, e, 5) == Ok::<(Expr, usize), ParseError>((e, 5usize)));
    assert(spec_expr_rest(t, d, 3) == Ok::<(Expr, usize), ParseError>((e, 5usize)));
    assert(spec_expr(t, 0) == Ok::<(Expr, usize), ParseError>((e, 5usize)));
}

proof fn lemma_eval_sample_tree(st: u64)
    ensures
        eval(sample_tree(), st).0 is Ok,
        3 <= eval(sample_tree(), st).0->Ok_0 <= 9,
{
    let d = literal_dice(2, 4);
    lemma_literal_dice_at(2, 4, st, 0);
    let l = eval_at(d, st, 0);
    assert(eval_at(Expr::Number(1), l.2, l.1.len()) == (
        Ok::<i64, EvalError>(1),
        Seq::<Die>::empty(),
        l.2,
    ));
}

proof fn lemma_sample_piece(st: u64)
    ensures
        eval(sample_tree(), st).0 is Ok,
        3 <= eval(sample_tree(), st).0->Ok_0 <= 9,
        render(sample_piece(), st) == (
            sample_piece() + " = "@ + decimal(eval(sample_tree(), st).0->Ok_0 as int),
            eval(sample_tree(), st).2,
        ),
{
    reveal(render);
    lemma_lex_sample_piece();
    lemma_parse_sample_piece();
    lemma_eval_sample_tree(st);
}

proof fn lemma_blank_piece(st: u64)
    ensures
        render(seq![' '], st) == (FALLBACK@, st),
{
    reveal(render);
    let end = seq![lexeme(Token::EndOfInput, 1, 0)];
    let x = seq![' '];
    assert(lex_from(x, 1) == Ok::<Seq<Lexeme>, LexError>(end));
    assert(lex_from(x, 0) == lex_from(x, 1));
    assert(spec_primary(end, 0) is Err);
    assert(spec_dice(end, 0) is Err);
    assert(spec_unary(end, 0) is Err);
    assert(spec_term(end, 0) is Err);
    assert(spec_expr(end, 0) is Err);
}

proof fn lemma_first_piece(st: u64)
    ensures
        eval(literal_dice(1, 6), st).0 is Ok,
        1 <= eval(literal_dice(1, 6), st).0->Ok_0 <= 6,
        render(dice_text(1, 6), st) == (
            dice_text(1, 6) + " = "@ + decimal(eval(literal_dice(1, 6), st).0->Ok_0 as int),
            eval(literal_dice(1, 6), st).2,
        ),
{
    reveal(render);
    lemma_parse_dice_text(1, 6);
    lemma_dice_total_bounds(1, 6, st);
}

proof fn lemma_split_sample_line()
    ensures
        split_commas(sample_line()) == seq![dice_text(1, 6), sample_piece(), seq![' ']],
{
    let p1 = dice_text(1, 6);
    let p2 = sample_piece();
    let p3 = seq![' '];
    assert(nat_digits(1) == seq!['1']);
    assert(nat_digits(6) == seq!['6']);
    assert(p1 =~= seq!['1', 'd', '6']);
    lemma_split_no_comma(p1);
    lemma_split_no_comma(p2);
    lemma_split_no_comma(p3);
    lemma_split_append(p2, p3);
    lemma_split_append(p1, p2 + seq![','] + p3);
    assert(split_commas(sample_line()) =~= seq![p1, p2, p3]);
}

/// A batch of three pieces is their display lines joined by `SEPARATOR`.
proof fn lemma_batch_of_three(segs: Seq<Seq<char>>, st: u64)
    requires
        segs.len() == 3,
    ensures
        ({
            let r1 = render(segs[0], st);
            let r2 = render(segs[1], r1.1);
            let r3 = render(segs[2], r2.1);
            batch_from(segs, 0, st).0 == r1.0 + SEPARATOR@ + r2.0 + SEPARATOR@ + r3.0
        }),
{
    let r1 = render(segs[0], st);
    let r2 = render(segs[1], r1.1);
    let r3 = render(segs[2], r2.1);
    assert(batch_from(segs, 3, r3.1).0 == Seq::<char>::empty());
    assert(batch_from(segs, 2, r2.1).0 == r3.0 + Seq::<char>::empty());
    assert(batch_from(segs, 1, r1.1).0 == r2.0 + SEPARATOR@ + batch_from(segs, 2, r2.1).0);
    assert(batch_from(segs, 0, st).0 == r1.0 + SEPARATOR@ + batch_from(segs, 1, r1.1).0);
    assert(r3.0 + Seq::<char>::empty() =~= r3.0);
    assert(r1.0 + SEPARATOR@ + (r2.0 + SEPARATOR@ + r3.0) =~= r1.0 + SEPARATOR@ + r2.0 + SEPARATOR@
        + r3.0);
}

/// The line `"1d6, 2d4+1, "` splits into exactly three pieces, `"1d6"`,
/// `" 2d4+1"` and `" "`, and is displayed as the first two evaluated, each
/// echoed as given, then `FALLBACK` for the blank last piece: `"1d6 = a,
/// 2d4+1 = b, Unable to evaluate expression."` with `1 <= a <= 6` and
/// `3 <= b <= 9`.
pub proof fn lemma_sample_batch(st: u64)
    ensures
        split_commas(sample_line()) == seq![dice_text(1, 6), sample_piece(), seq![' ']],
        ({
            let a = eval(literal_dice(1, 6), st);
            let b = eval(sample_tree(), a.2);
            &&& a.0 is Ok && 1 <= a.0->Ok_0 <= 6
            &&& b.0 is Ok && 3 <= b.0->Ok_0 <= 9
            &&& batch(sample_line(), st).0 == dice_text(1, 6) + " = "@ + decimal(a.0->Ok_0 as int)
                + SEPARATOR@ + sample_piece() + " = "@ + decimal(b.0->Ok_0 as int) + SEPARATOR@
                + FALLBACK@
        }),
{
    let p1 = dice_text(1, 6);
    let p2 = sample_piece();
    lemma_split_sample_line();
    let segs = split_commas(sample_line());
    lemma_first_piece(st);
    let a = eval(literal_dice(1, 6), st);
    lemma_sample_piece(a.2);
    let b = eval(sample_tree(), a.2);
    lemma_blank_piece(b.2);
    lemma_batch_of_three(segs, st);
    let s1 = p1 + " = "@ + decimal(a.0->Ok_0 as int);
    let s2 = p2 + " = "@ + decimal(b.0->Ok_0 as int);
    assert(s1 + SEPARATOR@ + s2 + SEPARATOR@ + FALLBACK@ == batch(sample_line(), st).0);
}

/// Number of commas in `s`.
pub open spec fn comma_count(s: Seq<char>) -> nat
    decreases s.len(),
{
    if s.len() == 0 {
        0
    } else {
        comma_count(s.drop_last()) + if s.last() == ',' {
            1nat
        } else {
            0nat
        }
    }
}

/// A line with `k` commas splits into exactly `k + 1` pieces, a trailing
/// comma giving an empty last piece.
pub proof fn lemma_split_count(s: Seq<char>)
    ensures
        split_commas(s).len() == comma_count(s) + 1,
        s.len() > 0 && s.last() == ',' ==> split_commas(s).last().len() == 0,
    decreases s.len(),
{
    if s.len() > 0 {
        lemma_split_count(s.drop_last());
    }
}

/// The display lines of `segs[k..]` joined by `SEPARATOR`, with the generator
/// state threaded from left to right.
pub open spec fn batch_from(segs: Seq<Seq<char>>, k: int, st: u64) -> (Seq<char>, u64)
    decreases segs.len() - k,
{
    if k < 0 || k >= segs.len() {
        (Seq::empty(), st)
    } else {
        let (r, st1) = render(segs[k], st);
        let sep = if k + 1 < segs.len() {
            SEPARATOR@
        } else {
            Seq::empty()
        };
        let (rest, st2) = batch_from(segs, k + 1, st1);
        (r + sep + rest, st2)
    }
}

/// The output for a whole input line, and the generator state after it.
pub open spec fn batch(s: Seq<char>, st: u64) -> (Seq<char>, u64) {
    batch_from(split_commas(s), 0, st)
}

pub open spec fn views(v: Seq<Vec<char>>) -> Seq<Seq<char>> {
    v.map_values(|p: Vec<char>| p@)
}

fn split_segments(s: &Vec<char>) -> (r: Vec<Vec<char>>)
    ensures
        views(r@) == split_commas(s@),
{
    let mut parts: Vec<Vec<char>> = Vec::new();
    let mut cur: Vec<char> = Vec::new();
    let mut i: usize = 0;
    while i < s.len()
        invariant
            i <= s@.len(),
            split_commas(s@.subrange(0, i as int)) == views(parts@).push(cur@),
        decreases s@.len() - i,
    {
        let c = s[i];
        let ghost pre = s@.subrange(0, i as int);
        assert(s@.subrange(0, i + 1).drop_last() == pre);
        let ghost p = views(parts@).push(cur@);
        if c == ',' {
            parts.push(cur);
            cur = Vec::new();
            assert(views(parts@).push(cur@) == p.push(Seq::empty()));
        } else {
            cur.push(c);
            assert(views(parts@).push(cur@) == p.update(p.len() - 1, p.last().push(c)));
        }
        i = i + 1;
    }
    assert(s@.subrange(0, s@.len() as int) == s@);
    parts.push(cur);
    parts
}

/// Splits a line on `,`, evaluates each piece on its own, left to right, and
/// joins the display lines with `", "`. An empty piece is still evaluated, and
/// gives `FALLBACK`.
pub fn eval_batch(line: &str, rng: &mut DiceRng) -> (r: String)
    ensures
        r@ == batch(line@, old(rng).state).0,
        final(rng).state == batch(line@, old(rng).state).1,
{
    let s = chars_of(line);
    let parts = split_segments(&s);
    let ghost segs = split_commas(s@);
    let ghost st0 = rng.state;
    let mut out = String::new();
    let mut k: usize = 0;
    while k < parts.len()
        invariant
            k <= parts@.len(),
            views(parts@) == segs,
            out@ + batch_from(segs, k as int, rng.state).0 == batch_from(segs, 0, st0).0,
            batch_from(segs, k as int, rng.state).1 == batch_from(segs, 0, st0).1,
        decreases parts@.len() - k,
    {
        let ghost o = out@;
        assert(parts@[k as int]@ == segs[k as int]);
        let piece = render_chars(&parts[k], rng);
        out.append(piece.as_str());
        if k + 1 < parts.len() {
            out.append(SEPARATOR);
        }
        let ghost sep = if k + 1 < segs.len() {
            SEPARATOR@
        } else {
            Seq::<char>::empty()
        };
        assert(out@ == o + piece@ + sep);
        let ghost rest = batch_from(segs, k + 1, rng.state).0;
        assert(o + (piece@ + sep + rest) == out@ + rest);
        k = k + 1;
    }
    out
}

} // verus!
