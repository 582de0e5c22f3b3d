//! The dice-notation expression tree and its evaluation semantics.
//!
//! An `Expr` is either a scalar-producing `Atom` or a sequence-producing
//! `Tuple`.  Because a roll draws a random number, evaluation is modelled
//! as a relation: `atom_outcome(a, o)` holds exactly of the outcomes `o`
//! (a value, or a typed error) that evaluating `a` may produce.

use vstd::prelude::*;

verus! {

/// A scalar-producing expression.
#[derive(Debug, PartialEq, Eq)]
pub enum Atom {
    /// A literal in `[0, 255]`.
    ConstVal(u8),
    /// Roll one die whose face count is the value of the inner atom.
    Roll(Box<Atom>),
    /// The sum of all values the tuple produces.
    Sum(Tuple),
}

/// A sequence-producing expression.
#[derive(Debug, PartialEq, Eq)]
pub enum Tuple {
    /// Roll `count`-many independent dice, each with face count `face`.
    Dice(Box<Atom>, Box<Atom>),
}

/// The parse root: a scalar or a sequence expression.
#[derive(Debug, PartialEq, Eq)]
pub enum Expr {
    Atom(Atom),
    Tuple(Tuple),
}

/// An evaluation failure.
#[derive(Debug, Clone, Copy, PartialEq, Eq, Structural)]
pub enum EvalError {
    /// The source text does not conform to the grammar, or has trailing input.
    ParseError,
    /// A die's face count evaluated to 0.
    InvalidDieSize,
    /// A sum does not fit in 16 bits.
    Overflow,
}

/// The largest value an evaluation result may hold.
pub const MAX_RESULT: u16 = 65535;

/// A marker that carries an existential witness to the solver; always
/// true, and kept opaque so that it can serve as a quantifier trigger.
#[verifier::opaque]
pub open spec fn witness_u16(n: u16) -> bool {
    true
}

/// As `witness_u16`, for an error witness.
#[verifier::opaque]
pub open spec fn witness_err(e: EvalError) -> bool {
    true
}

/// As `witness_u16`, for a sequence witness.
#[verifier::opaque]
pub open spec fn witness_seq(s: Seq<u16>) -> bool {
    true
}

/// The sum of a sequence of 16-bit values, as an unbounded integer.
pub open spec fn seq_sum(s: Seq<u16>) -> int
    decreases s.len(),
{
    if s.len() == 0 {
        0
    } else {
        seq_sum(s.drop_last()) + s.last()
    }
}

/// Holds exactly of the outcomes that evaluating `a` as a scalar may
/// produce: `Ok(v)` for each value `v` a run may yield, `Err(e)` for each
/// failure a run may end in.
pub open spec fn atom_outcome(a: Atom, o: Result<u16, EvalError>) -> bool
    decreases a,
{
    match a {
        Atom::ConstVal(c) => o == Ok::<u16, EvalError>(c as u16),
        Atom::Roll(inner) => {
            ||| (exists|e: EvalError|
                #[trigger] witness_err(e) && atom_outcome(*inner, Err(e)) && o == Err::<
                    u16,
                    EvalError,
                >(e))
            ||| (exists|n: u16|
                #[trigger] witness_u16(n) && atom_outcome(*inner, Ok(n)) && (if n == 0 {
                    o == Err::<u16, EvalError>(EvalError::InvalidDieSize)
                } else {
                    o matches Ok(v) && 1 <= v <= n
                }))
        },
        Atom::Sum(t) => {
            ||| (exists|e: EvalError|
                #[trigger] witness_err(e) && tuple_outcome(t, Err(e)) && o == Err::<
                    u16,
                    EvalError,
                >(e))
            ||| (exists|s: Seq<u16>|
                #[trigger] witness_seq(s) && tuple_outcome(t, Ok(s)) && (if seq_sum(s)
                    > MAX_RESULT {
                    o == Err::<u16, EvalError>(EvalError::Overflow)
                } else {
                    o == Ok::<u16, EvalError>(seq_sum(s) as u16)
                }))
        },
    }
}

/// Holds exactly of the outcomes that evaluating `t` as a sequence may
/// produce.  The dice are rolled in order, the face atom evaluated fresh
/// for each die; the first failure aborts the whole tuple.
pub open spec fn tuple_outcome(t: Tuple, o: Result<Seq<u16>, EvalError>) -> bool
    decreases t,
{
    match t {
        Tuple::Dice(count, face) => {
            ||| (exists|e: EvalError|
                #[trigger] witness_err(e) && atom_outcome(*count, Err(e)) && o == Err::<
                    Seq<u16>,
                    EvalError,
                >(e))
            ||| (exists|n: u16|
                #[trigger] witness_u16(n) && atom_outcome(*count, Ok(n)) && (match o {
                    Ok(s) => s.len() == n && (forall|i: int|
                        0 <= i < s.len() ==> atom_outcome(*face, Ok(#[trigger] s[i]))),
                    Err(e) => n >= 1 && atom_outcome(*face, Err(e)),
                }))
        },
    }
}

/// Holds exactly of the outcomes that evaluating `e` may produce: an atom's
/// value is wrapped in a single-element sequence, a tuple's sequence is
/// returned as it is.
pub open spec fn expr_outcome(e: Expr, o: Result<Seq<u16>, EvalError>) -> bool {
    match e {
        Expr::Atom(a) => match o {
            Ok(s) => s.len() == 1 && atom_outcome(a, Ok(s[0])),
            Err(er) => atom_outcome(a, Err(er)),
        },
        Expr::Tuple(t) => tuple_outcome(t, o),
    }
}

/// Every value witness marker holds; naming one in an assertion hands
/// the solver the witness for the existentials above.
pub broadcast proof fn witness_u16_holds(n: u16)
    ensures
        #[trigger] witness_u16(n),
{
    reveal(witness_u16);
}

/// As `witness_u16_holds`, for error witnesses.
pub broadcast proof fn witness_err_holds(e: EvalError)
    ensures
        #[trigger] witness_err(e),
{
    reveal(witness_err);
}

/// As `witness_u16_holds`, for sequence witnesses.
pub broadcast proof fn witness_seq_holds(s: Seq<u16>)
    ensures
        #[trigger] witness_seq(s),
{
    reveal(witness_seq);
}

/// Rolling `n` dice, each die's value an outcome of the face atom, is an
/// outcome of the dice tuple.
pub proof fn lemma_dice_outcome_ok(count: Box<Atom>, face: Box<Atom>, n: u16, s: Seq<u16>)
    requires
        atom_outcome(*count, Ok(n)),
        s.len() == n,
        forall|i: int| 0 <= i < s.len() ==> atom_outcome(*face, Ok(#[trigger] s[i])),
    ensures
        tuple_outcome(Tuple::Dice(count, face), Ok(s)),
{
    assert(witness_u16(n)) by {
        reveal(witness_u16);
    }
}

} // verus!
