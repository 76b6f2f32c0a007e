use vstd::prelude::*;

use crate::parser::{ArithOp, Expr};
use crate::rng::{DiceRng, face, lemma_face_bounds, next_state};

verus! {

#[derive(Clone, Copy, Debug, PartialEq, Eq, Structural)]
pub enum EvalError {
    /// A dice term whose count or number of sides is below 1 or above
    /// `u32::MAX`.
    InvalidDice,
    DivisionByZero,
    /// A result outside the range of `i64`.
    Overflow,
}

/// One die rolled during an evaluation: the dice term it belongs to, how many
/// sides it had and the face that came up. A dice term is named by the index,
/// in the whole trace, of its first die.
#[derive(Clone, Copy, Debug, PartialEq, Eq, Structural)]
pub struct Die {
    pub term: usize,
    pub sides: u32,
    pub face: u32,
}

/// What evaluating gives, as a function of the generator's starting state: the
/// result, the dice rolled in order (meaningful on success) and the
/// generator's final state.
pub type Outcome = (Result<i64, EvalError>, Seq<Die>, u64);

pub open spec fn in_i64(v: int) -> bool {
    i64::MIN <= v <= i64::MAX
}

pub open spec fn checked(v: int) -> Result<i64, EvalError> {
    if in_i64(v) {
        Ok(v as i64)
    } else {
        Err(EvalError::Overflow)
    }
}

pub open spec fn abs(v: int) -> int {
    if v < 0 {
        -v
    } else {
        v
    }
}

/// Integer division truncated toward zero.
pub open spec fn trunc_div(a: int, b: int) -> int
    recommends
        b != 0,
{
    if (a < 0) == (b < 0) {
        abs(a) / abs(b)
    } else {
        -(abs(a) / abs(b))
    }
}

/// The arithmetic operators on two evaluated operands.
pub open spec fn combine(op: ArithOp, a: i64, b: i64) -> Result<i64, EvalError> {
    match op {
        ArithOp::Add => checked(a + b),
        ArithOp::Sub => checked(a - b),
        ArithOp::Mul => checked(a * b),
        ArithOp::Div => if b == 0 {
            Err(EvalError::DivisionByZero)
        } else {
            checked(trunc_div(a as int, b as int))
        },
    }
}

/// Rolling `n` dice with `sides` faces for dice term `term` from generator
/// state `st`: the sum, the dice in order, and the state after them.
pub open spec fn roll_n(n: nat, term: usize, sides: u32, st: u64) -> (int, Seq<Die>, u64)
    decreases n,
{
    if n == 0 {
        (0, Seq::empty(), st)
    } else {
        let (sum, dice, st1) = roll_n((n - 1) as nat, term, sides, st);
        let f = face(st1, sides);
        (sum + f, dice.push(Die { term, sides, face: f }), next_state(st1))
    }
}

/// Whether a count or a number of sides can stand in a dice term.
pub open spec fn valid_dice_arg(v: i64) -> bool {
    1 <= v <= u32::MAX
}

/// The meaning of an expression, evaluated left to right from generator state
/// `st`. Evaluation stops at the first error.
pub open spec fn eval(e: Expr, st: u64) -> Outcome {
    eval_at(e, st, 0)
}

/// `eval` of a part of an expression whose dice follow `base` dice already in
/// the trace.
pub open spec fn eval_at(e: Expr, st: u64, base: nat) -> Outcome
    decreases e,
{
    match e {
        Expr::Number(n) => (Ok(n), Seq::empty(), st),
        Expr::UnaryMinus(x) => {
            let (r, tr, st1) = eval_at(*x, st, base);
            match r {
                Ok(v) => (checked(-v), tr, st1),
                Err(err) => (Err(err), tr, st1),
            }
        },
        Expr::BinaryOp { op, left, right } => {
            let (rl, trl, st1) = eval_at(*left, st, base);
            match rl {
                Err(err) => (Err(err), trl, st1),
                Ok(a) => {
                    let (rr, trr, st2) = eval_at(*right, st1, base + trl.len());
                    match rr {
                        Err(err) => (Err(err), trl + trr, st2),
                        Ok(b) => (combine(op, a, b), trl + trr, st2),
                    }
                },
            }
        },
        Expr::DiceRoll { count, sides } => {
            let (rc, trc, st1) = eval_at(*count, st, base);
            match rc {
                Err(err) => (Err(err), trc, st1),
                Ok(c) => {
                    let (rs, trs, st2) = eval_at(*sides, st1, base + trc.len());
                    match rs {
                        Err(err) => (Err(err), trc + trs, st2),
                        Ok(s) => if !valid_dice_arg(c) || !valid_dice_arg(s) {
                            (Err(EvalError::InvalidDice), trc + trs, st2)
                        } else {
                            let term = (base + trc.len() + trs.len()) as usize;
                            let (sum, dice, st3) = roll_n(c as nat, term, s as u32, st2);
                            (checked(sum), trc + trs + dice, st3)
                        },
                    }
                },
            }
        },
    }
}

/// Every die of `roll_n` shows a face in `1..=sides`, and the sum lies between
/// `n` and `n * sides`.
pub proof fn lemma_roll_n_bounds(n: nat, term: usize, sides: u32, st: u64)
    requires
        sides >= 1,
    ensures
        roll_n(n, term, sides, st).1.len() == n,
        forall|k: int|
            0 <= k < n ==> #[trigger] roll_n(n, term, sides, st).1[k].sides == sides && roll_n(
                n,
                term,
                sides,
                st,
            ).1[k].term == term && 1 <= roll_n(n, term, sides, st).1[k].face <= sides,
        n <= roll_n(n, term, sides, st).0 <= n * sides,
        roll_n(n, term, sides, st).0 == sum_faces(roll_n(n, term, sides, st).1),
    decreases n,
{
    if n > 0 {
        lemma_roll_n_bounds((n - 1) as nat, term, sides, st);
        let (sum, dice, st1) = roll_n((n - 1) as nat, term, sides, st);
        let f = face(st1, sides);
        lemma_face_bounds(st1, sides);
        let d2 = dice.push(Die { term, sides, face: f });
        assert(roll_n(n, term, sides, st).1 == d2);
        assert(d2.drop_last() == dice);
        assert(sum + f <= n * sides) by (nonlinear_arith)
            requires
                sum <= (n - 1) * sides,
                f <= sides,
        ;
        assert forall|k: int| 0 <= k < n implies #[trigger] d2[k].sides == sides && d2[k].term == term
            && 1 <= d2[k].face <= sides by {
            if k < n - 1 {
                assert(d2[k] == dice[k]);
            }
        }
    }
}

/// A dice term whose count and number of sides are literals.
pub open spec fn literal_dice(n: i64, s: i64) -> Expr {
    Expr::DiceRoll { count: Box::new(Expr::Number(n)), sides: Box::new(Expr::Number(s)) }
}

/// `lemma_dice_total_bounds` for a dice term whose dice follow `base` others.
pub proof fn lemma_literal_dice_at(n: i64, s: i64, st: u64, base: nat)
    requires
        1 <= n <= u32::MAX,
        1 <= s <= u32::MAX,
        base <= usize::MAX,
    ensures
        ({
            let (r, dice, _) = eval_at(literal_dice(n, s), st, base);
            &&& dice.len() == n
            &&& forall|k: int|
                0 <= k < n ==> #[trigger] dice[k].sides == s && dice[k].term == base && 1
                    <= dice[k].face <= s
            &&& n <= sum_faces(dice) <= n * s
            &&& r == checked(sum_faces(dice))
        }),
{
    let term = base as usize;
    lemma_roll_n_bounds(n as nat, term, s as u32, st);
    let dice = roll_n(n as nat, term, s as u32, st).1;
    let none = Seq::<Die>::empty();
    assert(eval_at(Expr::Number(n), st, base) == (Ok::<i64, EvalError>(n), none, st));
    assert(eval_at(Expr::Number(s), st, base) == (Ok::<i64, EvalError>(s), none, st));
    assert(none + none + dice == dice);
    assert(eval_at(literal_dice(n, s), st, base) == (
        checked(roll_n(n as nat, term, s as u32, st).0),
        dice,
        roll_n(n as nat, term, s as u32, st).2,
    ));
}

/// Rolling `n` dice with `s` sides gives a trace of exactly `n` dice, all of
/// this one dice term, each showing a face in `1..=s`, whose sum lies between
/// `n` and `n * s`. The result is that sum, or `Overflow` where it leaves
/// `i64`; it cannot leave `i64` when `n * s` fits.
pub proof fn lemma_dice_total_bounds(n: i64, s: i64, st: u64)
    requires
        1 <= n <= u32::MAX,
        1 <= s <= u32::MAX,
    ensures
        eval(literal_dice(n, s), st).1.len() == n,
        forall|k: int|
            0 <= k < n ==> #[trigger] eval(literal_dice(n, s), st).1[k].sides == s && eval(
                literal_dice(n, s),
                st,
            ).1[k].term == 0 && 1 <= eval(literal_dice(n, s), st).1[k].face <= s,
        n <= sum_faces(eval(literal_dice(n, s), st).1) <= n * s,
        eval(literal_dice(n, s), st).0 == checked(sum_faces(eval(literal_dice(n, s), st).1)),
        eval(literal_dice(n, s), st).0 is Ok ==> n <= eval(literal_dice(n, s), st).0->Ok_0 <= n * s,
        n * s <= i64::MAX ==> eval(literal_dice(n, s), st).0 is Ok,
        eval(literal_dice(n, s), st).0 is Err ==> eval(literal_dice(n, s), st).0
            == Err::<i64, EvalError>(EvalError::Overflow),
{
    lemma_literal_dice_at(n, s, st, 0);
    let dice = eval(literal_dice(n, s), st).1;
    assert forall|k: int| 0 <= k < n implies #[trigger] dice[k].sides == s && dice[k].term == 0 && 1
        <= dice[k].face <= s by {}
}

/// Rolling `1d6` twice and adding never fails, and gives a total in `2..=12`,
/// whatever the generator's state.
pub proof fn lemma_two_d6_range(st: u64)
    ensures
        ({
            let e = Expr::BinaryOp {
                op: ArithOp::Add,
                left: Box::new(literal_dice(1, 6)),
                right: Box::new(literal_dice(1, 6)),
            };
            &&& eval(e, st).0 is Ok
            &&& 2 <= eval(e, st).0->Ok_0 <= 12
        }),
{
    lemma_literal_dice_at(1, 6, st, 0);
    let st1 = eval_at(literal_dice(1, 6), st, 0).2;
    lemma_literal_dice_at(1, 6, st1, 1);
}

/// A dice term with no dice or with dice of no sides fails with
/// `InvalidDice`, and rolls nothing: the generator's state is left as it was.
pub proof fn lemma_zero_dice_invalid(n: i64, s: i64, st: u64)
    requires
        n == 0 || s == 0,
    ensures
        eval(literal_dice(n, s), st).0 == Err::<i64, EvalError>(EvalError::InvalidDice),
        eval(literal_dice(n, s), st).1.len() == 0,
        eval(literal_dice(n, s), st).2 == st,
{
    let none = Seq::<Die>::empty();
    assert(eval_at(Expr::Number(n), st, 0) == (Ok::<i64, EvalError>(n), none, st));
    assert(eval_at(Expr::Number(s), st, 0) == (Ok::<i64, EvalError>(s), none, st));
    assert(none + none == none);
}

/// Whether an expression holds no dice term.
pub open spec fn dice_free(e: Expr) -> bool
    decreases e,
{
    match e {
        Expr::Number(_) => true,
        Expr::UnaryMinus(x) => dice_free(*x),
        Expr::BinaryOp { op, left, right } => dice_free(*left) && dice_free(*right),
        Expr::DiceRoll { .. } => false,
    }
}

/// Plain integer arithmetic on an expression, with division truncated toward
/// zero (a dice term counts as 0, a division by zero as 0).
pub open spec fn arith(e: Expr) -> int
    decreases e,
{
    match e {
        Expr::Number(n) => n as int,
        Expr::UnaryMinus(x) => -arith(*x),
        Expr::BinaryOp { op, left, right } => {
            let a = arith(*left);
            let b = arith(*right);
            match op {
                ArithOp::Add => a + b,
                ArithOp::Sub => a - b,
                ArithOp::Mul => a * b,
                ArithOp::Div => if b == 0 {
                    0
                } else {
                    trunc_div(a, b)
                },
            }
        },
        Expr::DiceRoll { .. } => 0,
    }
}

proof fn lemma_dice_free_at(e: Expr, st1: u64, st2: u64, b1: nat, b2: nat)
    requires
        dice_free(e),
    ensures
        eval_at(e, st1, b1).0 == eval_at(e, st2, b2).0,
        eval_at(e, st1, b1).1.len() == 0,
        eval_at(e, st1, b1).2 == st1,
        eval_at(e, st1, b1).0 is Ok ==> eval_at(e, st1, b1).0->Ok_0 == arith(e),
    decreases e,
{
    match e {
        Expr::Number(_) => {},
        Expr::UnaryMinus(x) => {
            lemma_dice_free_at(*x, st1, st2, b1, b2);
        },
        Expr::BinaryOp { op, left, right } => {
            lemma_dice_free_at(*left, st1, st2, b1, b2);
            lemma_dice_free_at(*left, st2, st1, b2, b1);
            lemma_dice_free_at(*right, st1, st2, b1, b2);
        },
        Expr::DiceRoll { .. } => {},
    }
}

/// An expression without dice evaluates the same from every generator state,
/// rolls nothing, and where it succeeds its value is the plain integer
/// arithmetic of the expression.
pub proof fn lemma_dice_free_deterministic(e: Expr, st1: u64, st2: u64)
    requires
        dice_free(e),
    ensures
        eval(e, st1).0 == eval(e, st2).0,
        eval(e, st1).1.len() == 0,
        eval(e, st1).2 == st1,
        eval(e, st1).0 is Ok ==> eval(e, st1).0->Ok_0 == arith(e),
{
    lemma_dice_free_at(e, st1, st2, 0, 0);
}

/// The sum of the faces of a sequence of dice.
pub open spec fn sum_faces(d: Seq<Die>) -> int
    decreases d.len(),
{
    if d.len() == 0 {
        0
    } else {
        sum_faces(d.drop_last()) + d.last().face
    }
}

fn to_i64(v: i128) -> (r: Result<i64, EvalError>)
    ensures
        r == checked(v as int),
{
    if v < i64::MIN as i128 || v > i64::MAX as i128 {
        Err(EvalError::Overflow)
    } else {
        Ok(v as i64)
    }
}

fn apply(op: ArithOp, a: i64, b: i64) -> (r: Result<i64, EvalError>)
    ensures
        r == combine(op, a, b),
{
    match op {
        ArithOp::Add => to_i64(a as i128 + b as i128),
        ArithOp::Sub => to_i64(a as i128 - b as i128),
        ArithOp::Mul => {
            assert(-0x4000_0000_0000_0000_0000_0000_0000_0000 <= a as int * b as int
                <= 0x4000_0000_0000_0000_0000_0000_0000_0000) by (nonlinear_arith)
                requires
                    i64::MIN <= a <= i64::MAX,
                    i64::MIN <= b <= i64::MAX,
            ;
            to_i64(a as i128 * b as i128)
        },
        ArithOp::Div => {
            if b == 0 {
                Err(EvalError::DivisionByZero)
            } else {
                let ua: i128 = if a < 0 {
                    -(a as i128)
                } else {
                    a as i128
                };
                let ub: i128 = if b < 0 {
                    -(b as i128)
                } else {
                    b as i128
                };
                let q: i128 = ua / ub;
                assert(0 <= q <= ua) by (nonlinear_arith)
                    requires
                        q == ua / ub,
                        ua >= 0,
                        ub >= 1,
                ;
                if (a < 0) == (b < 0) {
                    to_i64(q)
                } else {
                    to_i64(-q)
                }
            }
        },
    }
}

/// Rolls `n` dice with `sides` faces, appends them to `trace` and returns
/// their sum.
fn roll_into(rng: &mut DiceRng, n: u32, term: usize, sides: u32, trace: &mut Vec<Die>) -> (r: u64)
    requires
        sides >= 1,
    ensures
        r == roll_n(n as nat, term, sides, old(rng).state).0,
        final(rng).state == roll_n(n as nat, term, sides, old(rng).state).2,
        final(trace)@ == old(trace)@ + roll_n(n as nat, term, sides, old(rng).state).1,
{
    let ghost st0 = rng.state;
    let ghost t0 = trace@;
    let mut k: u32 = 0;
    let mut sum: u64 = 0;
    while k < n
        invariant
            sides >= 1,
            k <= n,
            sum == roll_n(k as nat, term, sides, st0).0,
            sum <= k * sides,
            rng.state == roll_n(k as nat, term, sides, st0).2,
            trace@ == t0 + roll_n(k as nat, term, sides, st0).1,
        decreases n - k,
    {
        let f = rng.roll(sides);
        assert(sum + f <= (k + 1) * sides <= 0xFFFF_FFFF * 0xFFFF_FFFFu64) by (nonlinear_arith)
            requires
                sum <= k * sides,
                f <= sides,
                k < n <= 0xFFFF_FFFFu32,
                sides <= 0xFFFF_FFFFu32,
        ;
        sum = sum + f as u64;
        trace.push(Die { term, sides, face: f });
        k = k + 1;
        assert(trace@ == t0 + roll_n(k as nat, term, sides, st0).1);
    }
    sum
}

fn eval_into(e: &Expr, rng: &mut DiceRng, trace: &mut Vec<Die>) -> (r: Result<i64, EvalError>)
    ensures
        r == eval_at(*e, old(rng).state, old(trace)@.len()).0,
        final(rng).state == eval_at(*e, old(rng).state, old(trace)@.len()).2,
        r is Ok ==> final(trace)@ == old(trace)@ + eval_at(*e, old(rng).state, old(trace)@.len()).1,
    decreases e,
{
    let ghost base = trace@.len();
    let ghost st = rng.state;
    match e {
        Expr::Number(n) => Ok(*n),
        Expr::UnaryMinus(x) => match eval_into(x, rng, trace) {
            Ok(v) => to_i64(-(v as i128)),
            Err(err) => Err(err),
        },
        Expr::BinaryOp { op, left, right } => {
            let ghost t0 = trace@;
            let a = match eval_into(left, rng, trace) {
                Ok(a) => a,
                Err(err) => {
                    return Err(err);
                },
            };
            let ghost l = eval_at(**left, st, base);
            let b = match eval_into(right, rng, trace) {
                Ok(b) => b,
                Err(err) => {
                    return Err(err);
                },
            };
            let r = apply(*op, a, b);
            proof {
                let rr = eval_at(**right, l.2, base + l.1.len());
                assert(trace@ == t0 + (l.1 + rr.1));
            }
            r
        },
        Expr::DiceRoll { count, sides } => {
            let ghost t0 = trace@;
            let c = match eval_into(count, rng, trace) {
                Ok(c) => c,
                Err(err) => {
                    return Err(err);
                },
            };
            let ghost ec = eval_at(**count, st, base);
            let s = match eval_into(sides, rng, trace) {
                Ok(s) => s,
                Err(err) => {
                    return Err(err);
                },
            };
            let ghost es = eval_at(**sides, ec.2, base + ec.1.len());
            if c < 1 || c > u32::MAX as i64 || s < 1 || s > u32::MAX as i64 {
                return Err(EvalError::InvalidDice);
            }
            let term = trace.len();
            assert(term == base + ec.1.len() + es.1.len());
            let sum = roll_into(rng, c as u32, term, s as u32, trace);
            proof {
                assert(trace@ == t0 + ec.1 + es.1 + roll_n(c as nat, term, s as u32, es.2).1);
            }
            if sum > i64::MAX as u64 {
                Err(EvalError::Overflow)
            } else {
                Ok(sum as i64)
            }
        },
    }
}

/// Evaluates an expression, drawing its dice from `rng`. On success gives the
/// total and every die rolled, in the order rolled.
pub fn evaluate(e: &Expr, rng: &mut DiceRng) -> (r: Result<(i64, Vec<Die>), EvalError>)
    ensures
        r is Ok <==> eval(*e, old(rng).state).0 is Ok,
        r is Ok ==> r->Ok_0.0 == eval(*e, old(rng).state).0->Ok_0 && r->Ok_0.1@ == eval(
            *e,
            old(rng).state,
        ).1,
        r is Err ==> r->Err_0 == eval(*e, old(rng).state).0->Err_0,
        final(rng).state == eval(*e, old(rng).state).2,
{
    let mut trace: Vec<Die> = Vec::new();
    match eval_into(e, rng, &mut trace) {
        Ok(v) => {
            assert(trace@ == Seq::<Die>::empty() + eval(*e, old(rng).state).1);
            assert(Seq::<Die>::empty() + eval(*e, old(rng).state).1 == eval(*e, old(rng).state).1);
            Ok((v, trace))
        },
        Err(err) => Err(err),
    }
}

} // verus!
