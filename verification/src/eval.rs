//! The evaluator: a recursive walk over the expression tree that resolves
//! each `Roll` with a fresh uniform draw and aggregates the results.
//!
//! Every function is exact against the outcome relations of `crate::ast`:
//! whatever a call returns, value or error, is an outcome the relation
//! admits, and the relation admits an error only where one can really
//! arise (a face count of 0, a sum beyond 16 bits).

use rand::RngExt;
use vstd::prelude::*;
use vstd::string::StringSliceAdditionalSpecFns;

use crate::ast::Atom;
use crate::ast::EvalError;
use crate::ast::Expr;
use crate::ast::Tuple;
use crate::ast::atom_outcome;
use crate::ast::witness_err;
use crate::ast::witness_seq;
use crate::ast::witness_u16;
use crate::ast::expr_outcome;
use crate::ast::seq_sum;
use crate::ast::tuple_outcome;
use crate::ast::MAX_RESULT;
use crate::parser::parse_expr;
use crate::parser::spec_expr;

verus! {

broadcast use {
    crate::ast::witness_u16_holds,
    crate::ast::witness_err_holds,
    crate::ast::witness_seq_holds,
};

/// Relies on rand's `RngExt::random_range` over the thread-local generator
/// of `rand::rng()`: one uniform draw from the inclusive range `[1, size]`,
/// which is non-empty since `size >= 1`, so the call cannot panic.
#[verifier::external_body]
fn roll_die(size: u16) -> (r: u16)
    requires
        size >= 1,
    ensures
        1 <= r <= size,
{
    rand::rng().random_range(1..=size)
}

/// Evaluate an atom to a scalar: a literal is widened to 16 bits, a roll
/// draws a die of the inner atom's size, a sum adds up its tuple.
fn eval_atom(atom: &Atom) -> (r: Result<u16, EvalError>)
    ensures
        atom_outcome(*atom, r),
    decreases atom,
{
    match atom {
        Atom::ConstVal(c) => Ok(*c as u16),
        Atom::Roll(inner) => {
            match eval_atom(inner) {
                Err(e) => {
                    proof {
                        assert(witness_err(e));
                    }
                    Err(e)
                },
                Ok(n) => {
                    if n == 0 {
                        proof {
                            assert(witness_u16(n));
                        }
                        Err(EvalError::InvalidDieSize)
                    } else {
                        let v = roll_die(n);
                        proof {
                            assert(witness_u16(n));
                        }
                        Ok(v)
                    }
                },
            }
        },
        Atom::Sum(t) => {
            match eval_tuple(t) {
                Err(e) => {
                    proof {
                        assert(witness_err(e));
                    }
                    Err(e)
                },
                Ok(v) => {
                    let total = sum_u16(&v);
                    proof {
                        assert(witness_seq(v@));
                    }
                    if total > MAX_RESULT as u32 {
                        Err(EvalError::Overflow)
                    } else {
                        Ok(total as u16)
                    }
                },
            }
        },
    }
}

/// The sum of a vector of 16-bit values, in a 32-bit accumulator.  The
/// vector a tuple evaluates to has at most 65535 elements, so the
/// accumulator cannot overflow.
fn sum_u16(v: &Vec<u16>) -> (total: u32)
    requires
        v@.len() <= u16::MAX,
    ensures
        total == seq_sum(v@),
{
    let mut total: u32 = 0;
    let mut i: usize = 0;
    while i < v.len()
        invariant
            i <= v@.len() <= u16::MAX,
            total == seq_sum(v@.take(i as int)),
            total <= i * (u16::MAX as int),
        decreases v@.len() - i,
    {
        proof {
            assert(v@.take(i + 1).drop_last() =~= v@.take(i as int));
            assert(v@.take(i + 1).last() == v@[i as int]);
        }
        total = total + v[i] as u32;
        i = i + 1;
    }
    proof {
        assert(v@.take(v@.len() as int) =~= v@);
    }
    total
}

/// Evaluate a dice tuple: resolve the count to a scalar `n`, then evaluate
/// the face atom afresh for each of the `n` dice, in roll order; the first
/// failure aborts the remaining rolls.
#[verifier::loop_isolation(false)]
fn eval_tuple(tuple: &Tuple) -> (r: Result<Vec<u16>, EvalError>)
    ensures
        match r {
            Ok(v) => tuple_outcome(*tuple, Ok(v@)) && v@.len() <= u16::MAX,
            Err(e) => tuple_outcome(*tuple, Err(e)),
        },
    decreases tuple,
{
    match tuple {
        Tuple::Dice(count, face) => {
            match eval_atom(count) {
                Err(e) => {
                    proof {
                        assert(witness_err(e));
                    }
                    Err(e)
                },
                Ok(n) => {
                    let mut vec: Vec<u16> = Vec::new();
                    while vec.len() < n as usize
                        invariant
                            vec@.len() <= n,
                            atom_outcome(**count, Ok(n)),
                            forall|i: int|
                                0 <= i < vec@.len() ==> atom_outcome(**face, Ok(#[trigger] vec@[i])),
                        decreases n - vec.len(),
                    {
                        match eval_atom(face) {
                            Ok(val) => { vec.push(val); },
                            Err(e) => {
                                proof {
                                    assert(witness_u16(n));
                                    assert(witness_err(e));
                                }
                                return Err(e);
                            },
                        }
                    }
                    proof {
                        crate::ast::lemma_dice_outcome_ok(*count, *face, n, vec@);
                        assert(*tuple == Tuple::Dice(*count, *face));
                    }
                    Ok(vec)
                },
            }
        },
    }
}

/// Evaluate a parsed expression: an atom's value becomes a one-element
/// sequence, a tuple's sequence is returned as it is.
fn eval_expr(expr: &Expr) -> (r: Result<Vec<u16>, EvalError>)
    ensures
        match r {
            Ok(v) => expr_outcome(*expr, Ok(v@)),
            Err(e) => expr_outcome(*expr, Err(e)),
        },
{
    match expr {
        Expr::Atom(atom) => {
            match eval_atom(atom) {
                Ok(a) => Ok(vec![a]),
                Err(e) => Err(e),
            }
        },
        Expr::Tuple(tuple) => eval_tuple(tuple),
    }
}

/// Parse a complete dice-notation string and evaluate it.
///
/// The grammar is applied to the string's UTF-8 bytes; anything it does
/// not consume is trailing garbage, so the whole input is rejected unless
/// the parse reaches the end.  On success the result is an outcome the
/// expression's evaluation relation admits.
pub fn eval(roll_def: &str) -> (r: Result<Vec<u16>, EvalError>)
    ensures
        match spec_expr(roll_def.spec_bytes(), 0) {
            Ok((c, e)) => {
                if c == roll_def.spec_bytes().len() {
                    match r {
                        Ok(v) => expr_outcome(e, Ok(v@)),
                        Err(er) => expr_outcome(e, Err(er)),
                    }
                } else {
                    r == Err::<Vec<u16>, EvalError>(EvalError::ParseError)
                }
            },
            Err(_) => r == Err::<Vec<u16>, EvalError>(EvalError::ParseError),
        },
{
    let bytes = roll_def.as_bytes();
    match parse_expr(bytes, 0) {
        Err(_) => Err(EvalError::ParseError),
        Ok((end, e)) => {
            if end != bytes.len() {
                Err(EvalError::ParseError)
            } else {
                eval_expr(&e)
            }
        },
    }
}

} // verus!
