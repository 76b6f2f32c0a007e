use rpg_cli::batch::{eval_batch, eval_expression, FALLBACK};
use rpg_cli::eval::{evaluate, Die, EvalError};
use rpg_cli::lexer::{tokenize, LexError, Lexeme, Token};
use rpg_cli::parser::{parse, ArithOp, Expr, ParseError, ParseErrorKind};
use rpg_cli::rng::DiceRng;

fn parse_text(text: &str) -> Result<Expr, ParseError> {
    let tokens = tokenize(text).expect("lexes");
    parse(&tokens)
}

fn run(text: &str, seed: u64) -> Result<(i64, Vec<Die>), EvalError> {
    let e = parse_text(text).expect("parses");
    let mut rng = DiceRng::new(seed);
    evaluate(&e, &mut rng)
}

#[test]
fn dice_total_within_count_and_sides() {
    for n in 1..=6i64 {
        for s in [1i64, 2, 4, 6, 20, 100] {
            for seed in 0..20u64 {
                let (total, trace) = run(&format!("{}d{}", n, s), seed).expect("rolls");
                assert!(n <= total && total <= n * s);
                assert_eq!(trace.len() as i64, n);
                for d in &trace {
                    assert_eq!(d.sides as i64, s);
                    assert!(1 <= d.face as i64 && d.face as i64 <= s);
                }
                let sum: i64 = trace.iter().map(|d| d.face as i64).sum();
                assert_eq!(sum, total);
            }
        }
    }
}

#[test]
fn arithmetic_respects_precedence() {
    assert_eq!(run("2+3*4", 0).unwrap().0, 14);
    assert_eq!(run("(2+3)*4", 0).unwrap().0, 20);
    assert_eq!(run("10-2-3", 0).unwrap().0, 5);
    assert_eq!(run("8/2/2", 0).unwrap().0, 2);
    assert_eq!(run("-2*3", 0).unwrap().0, -6);
    assert_eq!(run("--4", 0).unwrap().0, 4);
}

#[test]
fn arithmetic_without_dice_is_deterministic() {
    for seed in [0u64, 1, 42, u64::MAX] {
        let (v, trace) = run("2+3*4-(6/4)", seed).unwrap();
        assert_eq!(v, 13);
        assert!(trace.is_empty());
    }
}

#[test]
fn division_truncates_toward_zero() {
    assert_eq!(run("7/2", 0).unwrap().0, 3);
    assert_eq!(run("-7/2", 0).unwrap().0, -3);
    assert_eq!(run("7/-2", 0).unwrap().0, -3);
    assert_eq!(run("-7/-2", 0).unwrap().0, 3);
}

#[test]
fn two_d6_between_two_and_twelve() {
    for seed in 0..500u64 {
        let (v, trace) = run("1d6+1d6", seed).expect("never fails");
        assert!((2..=12).contains(&v));
        assert_eq!(trace.len(), 2);
    }
}

#[test]
fn division_by_zero_fails() {
    assert_eq!(run("1/0", 3), Err(EvalError::DivisionByZero));
    assert_eq!(run("1d6/0", 3), Err(EvalError::DivisionByZero));
    let mut rng = DiceRng::new(3);
    assert_eq!(eval_expression("1/0", &mut rng), FALLBACK);
    assert_eq!(eval_expression("1d6/0", &mut rng), FALLBACK);
    assert_eq!(FALLBACK, "Unable to evaluate expression.");
}

#[test]
fn malformed_input_fails_to_parse() {
    let e = parse_text("2d").unwrap_err();
    assert_eq!(e.kind, ParseErrorKind::UnexpectedEndOfInput);
    assert_eq!((e.pos, e.len), (2, 0));
    let e = parse_text("12 345 6").unwrap_err();
    assert_eq!(e, ParseError { kind: ParseErrorKind::UnexpectedToken, pos: 3, len: 3 });
    let e = parse_text("(2+3").unwrap_err();
    assert_eq!(e.kind, ParseErrorKind::UnexpectedEndOfInput);
    let e = parse_text("2 d d 6").unwrap_err();
    assert_eq!(e, ParseError { kind: ParseErrorKind::UnexpectedToken, pos: 4, len: 1 });
    let e = parse_text("2 3").unwrap_err();
    assert_eq!(e, ParseError { kind: ParseErrorKind::UnexpectedToken, pos: 2, len: 1 });
    let e = parse_text("").unwrap_err();
    assert_eq!(e.kind, ParseErrorKind::UnexpectedEndOfInput);
    let mut rng = DiceRng::new(0);
    for text in ["2d", "(2+3", "2 d d 6", ")", "1+"] {
        assert_eq!(eval_expression(text, &mut rng), FALLBACK);
    }
}

#[test]
fn batch_keeps_every_piece() {
    let mut rng = DiceRng::new(9);
    let out = eval_batch("1d6, 2d4+1, ", &mut rng);
    let pieces: Vec<&str> = out.split(", ").collect();
    assert_eq!(pieces.len(), 3);
    assert!(pieces[0].starts_with("1d6 = "));
    let v: i64 = pieces[0]["1d6 = ".len()..].parse().unwrap();
    assert!((1..=6).contains(&v));
    assert!(pieces[1].starts_with(" 2d4+1 = "));
    let w: i64 = pieces[1][" 2d4+1 = ".len()..].parse().unwrap();
    assert!((3..=9).contains(&w));
    assert_eq!(pieces[2], FALLBACK);
}

#[test]
fn batch_of_fixed_values() {
    let mut rng = DiceRng::new(0);
    assert_eq!(eval_batch("1+1,2*3", &mut rng), "1+1 = 2, 2*3 = 6");
    assert_eq!(eval_batch("", &mut rng), FALLBACK);
    assert_eq!(eval_batch(",", &mut rng), format!("{}, {}", FALLBACK, FALLBACK));
    assert_eq!(eval_batch(" 4 ,x", &mut rng), format!(" 4  = 4, {}", FALLBACK));
}

#[test]
fn batch_matches_pieces_evaluated_in_order() {
    let mut a = DiceRng::new(77);
    let joined = eval_batch("3d6,1d20", &mut a);
    let mut b = DiceRng::new(77);
    let first = eval_expression("3d6", &mut b);
    let second = eval_expression("1d20", &mut b);
    assert_eq!(joined, format!("{}, {}", first, second));
    assert_eq!(a.state, b.state);
}

#[test]
fn parsing_twice_gives_same_tree() {
    let tokens = tokenize("(1+2)d6*-3/4-d8").unwrap();
    let a = parse(&tokens).unwrap();
    let b = parse(&tokens).unwrap();
    assert_eq!(a, b);
}

#[test]
fn zero_dice_are_invalid() {
    for text in ["0d6", "1d0", "0d0", "(1-1)d6", "1d(0-2)"] {
        let e = parse_text(text).unwrap();
        let mut rng = DiceRng::new(5);
        assert_eq!(evaluate(&e, &mut rng), Err(EvalError::InvalidDice));
        assert_eq!(rng.state, 5);
        let mut rng = DiceRng::new(5);
        assert_eq!(eval_expression(text, &mut rng), FALLBACK);
    }
}

#[test]
fn overflow_is_reported() {
    assert_eq!(run("9223372036854775807+1", 0), Err(EvalError::Overflow));
    assert_eq!(run("-(-9223372036854775807-1)", 0), Err(EvalError::Overflow));
    assert_eq!(run("(-9223372036854775807-1)/-1", 0), Err(EvalError::Overflow));
    assert_eq!(run("4294967296*4294967296", 0), Err(EvalError::Overflow));
    assert_eq!(run("-9223372036854775807-1", 0).unwrap().0, i64::MIN);
}

#[test]
fn oversized_dice_are_invalid() {
    assert_eq!(run("4294967296d6", 0), Err(EvalError::InvalidDice));
    assert_eq!(run("1d4294967296", 0), Err(EvalError::InvalidDice));
}

#[test]
fn lexer_tokens_and_positions() {
    let t = tokenize(" 12D(3)+-*/").unwrap();
    let kinds: Vec<Token> = t.iter().map(|l| l.token).collect();
    assert_eq!(
        kinds,
        vec![
            Token::IntegerLiteral(12),
            Token::DiceOperator,
            Token::LParen,
            Token::IntegerLiteral(3),
            Token::RParen,
            Token::Plus,
            Token::Minus,
            Token::Star,
            Token::Slash,
            Token::EndOfInput,
        ]
    );
    assert_eq!(t[0], Lexeme { token: Token::IntegerLiteral(12), pos: 1, len: 2 });
    assert_eq!((t[9].pos, t[9].len), (11, 0));
    assert_eq!((t[1].pos, t[1].len), (3, 1));
    assert_eq!(tokenize("").unwrap(), vec![Lexeme { token: Token::EndOfInput, pos: 0, len: 0 }]);
}

#[test]
fn lexer_rejects_unknown_characters() {
    assert_eq!(tokenize("2x6"), Err(LexError::UnknownCharacter(1)));
    assert_eq!(tokenize("1d6 % 2"), Err(LexError::UnknownCharacter(4)));
    assert_eq!(tokenize("9223372036854775808"), Err(LexError::LiteralTooLarge(0)));
    assert!(tokenize("9223372036854775807").is_ok());
    let mut rng = DiceRng::new(0);
    assert_eq!(eval_expression("2x6", &mut rng), FALLBACK);
}

#[test]
fn tree_shapes() {
    let one = |n| Box::new(Expr::Number(n));
    assert_eq!(
        parse_text("1+1d6").unwrap(),
        Expr::BinaryOp {
            op: ArithOp::Add,
            left: one(1),
            right: Box::new(Expr::DiceRoll { count: one(1), sides: one(6) }),
        }
    );
    assert_eq!(parse_text("d6").unwrap(), Expr::DiceRoll { count: one(1), sides: one(6) });
    assert_eq!(
        parse_text("-1d6").unwrap(),
        Expr::UnaryMinus(Box::new(Expr::DiceRoll { count: one(1), sides: one(6) }))
    );
}

#[test]
fn grouped_count() {
    for seed in 0..50u64 {
        let (v, trace) = run("(1+1)d6", seed).unwrap();
        assert!((2..=12).contains(&v));
        assert_eq!(trace.len(), 2);
    }
}

#[test]
fn rendering_echoes_text_and_writes_decimal() {
    let mut rng = DiceRng::new(0);
    assert_eq!(eval_expression("  2 + 3 ", &mut rng), "  2 + 3  = 5");
    assert_eq!(eval_expression("-5", &mut rng), "-5 = -5");
    assert_eq!(eval_expression("0", &mut rng), "0 = 0");
    assert_eq!(eval_expression("1000*1000", &mut rng), "1000*1000 = 1000000");
    assert_eq!(
        eval_expression("-9223372036854775807-1", &mut rng),
        "-9223372036854775807-1 = -9223372036854775808"
    );
}

#[test]
fn generator_is_replayable() {
    let mut a = DiceRng::new(1234);
    let mut b = DiceRng::new(1234);
    for sides in [1u32, 2, 6, 20, u32::MAX] {
        let x = a.roll(sides);
        assert_eq!(x, b.roll(sides));
        assert!(1 <= x && x <= sides);
    }
    assert_eq!(a.state, b.state);
    let mut c = DiceRng::new(0);
    c.roll(6);
    assert_eq!(c.state, 0x9E37_79B9_7F4A_7C15);
}

#[test]
fn same_seed_same_rolls() {
    assert_eq!(run("10d20", 99), run("10d20", 99));
}

#[test]
fn dice_are_tagged_with_their_term() {
    let (_, trace) = run("2d6+3d4-1d8", 4).unwrap();
    let terms: Vec<usize> = trace.iter().map(|d| d.term).collect();
    assert_eq!(terms, vec![0, 0, 2, 2, 2, 5]);
    let sides: Vec<u32> = trace.iter().map(|d| d.sides).collect();
    assert_eq!(sides, vec![6, 6, 4, 4, 4, 8]);
}

#[test]
fn operators_group_by_precedence_then_left() {
    let n = |v| Box::new(Expr::Number(v));
    let bin = |op, l, r| Expr::BinaryOp { op, left: l, right: r };
    assert_eq!(parse_text("1+2*3").unwrap(), bin(ArithOp::Add, n(1), Box::new(bin(ArithOp::Mul, n(2), n(3)))));
    assert_eq!(parse_text("1-2-3").unwrap(), bin(ArithOp::Sub, Box::new(bin(ArithOp::Sub, n(1), n(2))), n(3)));
    assert_eq!(parse_text("1*2+3").unwrap(), bin(ArithOp::Add, Box::new(bin(ArithOp::Mul, n(1), n(2))), n(3)));
    assert_eq!(parse_text("8/4/2").unwrap(), bin(ArithOp::Div, Box::new(bin(ArithOp::Div, n(8), n(4))), n(2)));
}
