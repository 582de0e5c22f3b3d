//! The general properties of the grammar and the evaluator, stated over
//! every input of the named shapes and proved against the spec parser and
//! the outcome relations.

use vstd::prelude::*;

use crate::ast::Atom;
use crate::ast::EvalError;
use crate::ast::Expr;
use crate::ast::Tuple;
use crate::ast::atom_outcome;
use crate::ast::expr_outcome;
use crate::ast::seq_sum;
use crate::ast::tuple_outcome;
use crate::ast::witness_err;
use crate::ast::witness_seq;
use crate::ast::witness_u16;
use crate::parser::ParseErr;
use crate::parser::count_digits;
use crate::parser::count_ws;
use crate::parser::digits_val;
use crate::parser::is_digit;
use crate::parser::is_ws;
use crate::parser::spec_atom;
use crate::parser::spec_atom_raw;
use crate::parser::spec_constval;
use crate::parser::spec_dice;
use crate::parser::spec_expr;
use crate::parser::spec_roll;
use crate::parser::spec_sum;
use crate::parser::spec_tuple;

verus! {

broadcast use {
    crate::ast::witness_u16_holds,
    crate::ast::witness_err_holds,
    crate::ast::witness_seq_holds,
};

/// A run of digits ending where a non-digit (or the input's end) stands
/// is counted exactly.
pub proof fn lemma_digit_run(s: Seq<u8>, pos: int, end: int)
    requires
        0 <= pos <= end <= s.len(),
        forall|j: int| pos <= j < end ==> is_digit(#[trigger] s[j]),
        end == s.len() || !is_digit(s[end]),
    ensures
        count_digits(s, pos) == end - pos,
    decreases end - pos,
{
    if pos < end {
        lemma_digit_run(s, pos + 1, end);
    }
}

/// A run of whitespace ending where a non-space (or the input's end)
/// stands is counted exactly.
pub proof fn lemma_ws_run(s: Seq<u8>, pos: int, end: int)
    requires
        0 <= pos <= end <= s.len(),
        forall|j: int| pos <= j < end ==> is_ws(#[trigger] s[j]),
        end == s.len() || !is_ws(s[end]),
    ensures
        count_ws(s, pos) == end - pos,
    decreases end - pos,
{
    if pos < end {
        lemma_ws_run(s, pos + 1, end);
    }
}

/// A digit run of value at most 255 parses as that literal.
pub proof fn lemma_constval_at(s: Seq<u8>, pos: int, end: int)
    requires
        0 <= pos < end <= s.len(),
        forall|j: int| pos <= j < end ==> is_digit(#[trigger] s[j]),
        end == s.len() || !is_digit(s[end]),
        0 <= digits_val(s, pos, (end - pos) as nat) <= 255,
    ensures
        spec_constval(s, pos) == Ok::<(nat, Atom), ParseErr>(
            ((end - pos) as nat, Atom::ConstVal(digits_val(s, pos, (end - pos) as nat) as u8)),
        ),
{
    lemma_digit_run(s, pos, end);
}

/// A digit run parses as an atom: the roll alternative fails on it (no
/// `d` where one is needed), and the literal alternative wins.  A lone
/// `"1"` at the very end is included: there the roll alternative is
/// incomplete, and the literal still wins.
pub proof fn lemma_atom_digits_at(s: Seq<u8>, pos: int, end: int)
    requires
        0 <= pos < end <= s.len(),
        forall|j: int| pos <= j < end ==> is_digit(#[trigger] s[j]),
        end == s.len() || !is_digit(s[end]),
        0 <= digits_val(s, pos, (end - pos) as nat) <= 255,
        s[pos] == 49 ==> end > pos + 1 || end == s.len(),
    ensures
        spec_atom(s, pos) == Ok::<(nat, Atom), ParseErr>(
            ((end - pos) as nat, Atom::ConstVal(digits_val(s, pos, (end - pos) as nat) as u8)),
        ),
        spec_atom_raw(s, pos) == Ok::<(nat, Atom), ParseErr>(
            ((end - pos) as nat, Atom::ConstVal(digits_val(s, pos, (end - pos) as nat) as u8)),
        ),
{
    lemma_constval_at(s, pos, end);
    if s[pos] == 49 && end == pos + 1 && end == s.len() {
        assert(count_ws(s, pos + 1) == 0);
        assert(spec_roll(s, pos) == Err::<(nat, Atom), ParseErr>(ParseErr::Incomplete));
    } else if s[pos] == 49 {
        assert(count_ws(s, pos + 1) == 0);
        assert(!(s[pos + 1] == 100));
        assert(spec_roll(s, pos) == Err::<(nat, Atom), ParseErr>(ParseErr::Failure));
    } else {
        assert(count_ws(s, pos) == 0);
        assert(!(s[pos] == 100));
        assert(spec_roll(s, pos) == Err::<(nat, Atom), ParseErr>(ParseErr::Failure));
    }
}

/// An atom that consumes the whole input is the whole parse: the dice
/// pair behind it runs out of input, so the expression falls back to the
/// bare atom.
pub proof fn lemma_expr_of_full_atom(s: Seq<u8>, a: Atom)
    requires
        spec_atom(s, 0) == Ok::<(nat, Atom), ParseErr>((s.len() as nat, a)),
    ensures
        spec_expr(s, 0) == Ok::<(nat, Expr), ParseErr>((s.len() as nat, Expr::Atom(a))),
{
    assert(spec_roll(s, s.len() as int) == Err::<(nat, Atom), ParseErr>(ParseErr::Incomplete));
    assert(spec_dice(s, 0) == Err::<(nat, Tuple), ParseErr>(ParseErr::Incomplete));
    assert(spec_tuple(s, 0) == Err::<(nat, Tuple), ParseErr>(ParseErr::Failure));
}

/// The roll of a die whose face count is the literal `n`.
pub open spec fn roll_const(n: u8) -> Atom {
    Atom::Roll(Box::new(Atom::ConstVal(n)))
}

/// The dice pair `KdN` with literal count `k` and literal face count `n`.
pub open spec fn dice_const(k: u8, n: u8) -> Tuple {
    Tuple::Dice(Box::new(Atom::ConstVal(k)), Box::new(roll_const(n)))
}

/// A literal never fails, and yields exactly its value.
pub proof fn lemma_const_outcome(c: u8, o: Result<u16, EvalError>)
    ensures
        atom_outcome(Atom::ConstVal(c), o) <==> o == Ok::<u16, EvalError>(c as u16),
{
}

/// Rolling a die with a positive literal face count `n` yields exactly
/// the values `1..=n` and cannot fail; a face count of zero fails with
/// `InvalidDieSize` and nothing else.
pub proof fn lemma_roll_const_outcome(n: u8, o: Result<u16, EvalError>)
    ensures
        n >= 1 ==> (atom_outcome(roll_const(n), o) <==> (o matches Ok(v) && 1 <= v <= n as u16)),
        n == 0 ==> (atom_outcome(roll_const(n), o) <==> o == Err::<u16, EvalError>(
            EvalError::InvalidDieSize,
        )),
{
    let a = roll_const(n);
    let inner: Box<Atom> = Box::new(Atom::ConstVal(n));
    assert(*inner == Atom::ConstVal(n));
    assert(a == Atom::Roll(inner));
    if atom_outcome(a, o) {
        assert forall|e: EvalError| !(atom_outcome(*inner, Err(e))) by {}
        assert((exists|m: u16|
            #[trigger] witness_u16(m) && atom_outcome(*inner, Ok(m)) && (if m == 0 {
                o == Err::<u16, EvalError>(EvalError::InvalidDieSize)
            } else {
                o matches Ok(v) && 1 <= v <= m
            })) || (exists|e: EvalError|
            #[trigger] witness_err(e) && atom_outcome(*inner, Err(e)) && o == Err::<u16,
                EvalError,
            >(e))) by {
            reveal_with_fuel(atom_outcome, 3);
        }
        let m = choose|m: u16|
            #[trigger] witness_u16(m) && atom_outcome(*inner, Ok(m)) && (if m == 0 {
                o == Err::<u16, EvalError>(EvalError::InvalidDieSize)
            } else {
                o matches Ok(v) && 1 <= v <= m
            });
        assert(m == n as u16);
    }
    if n >= 1 && (o matches Ok(v) && 1 <= v <= n as u16) {
        assert(atom_outcome(*inner, Ok(n as u16)));
        assert(witness_u16(n as u16));
        assert(atom_outcome(a, o));
    }
    if n == 0 && o == Err::<u16, EvalError>(EvalError::InvalidDieSize) {
        assert(atom_outcome(*inner, Ok(0u16)));
        assert(witness_u16(0u16));
        assert(atom_outcome(a, o));
    }
}

/// Rolling `k` dice with a positive literal face count `n` yields exactly
/// the sequences of `k` values in `1..=n`, and cannot fail.
pub proof fn lemma_dice_const_outcome(k: u8, n: u8, o: Result<Seq<u16>, EvalError>)
    requires
        n >= 1,
    ensures
        tuple_outcome(dice_const(k, n), o) <==> (o matches Ok(q) && q.len() == k && (forall|i: int|
            0 <= i < q.len() ==> 1 <= #[trigger] q[i] <= n as u16)),
{
    let t = dice_const(k, n);
    if tuple_outcome(t, o) {
        assert forall|e: EvalError| !(atom_outcome(Atom::ConstVal(k), Err(e))) by {}
        let m = choose|m: u16|
            #[trigger] witness_u16(m) && atom_outcome(Atom::ConstVal(k), Ok(m)) && (match o {
                Ok(q) => q.len() == m && (forall|i: int|
                    0 <= i < q.len() ==> atom_outcome(roll_const(n), Ok(#[trigger] q[i]))),
                Err(e) => m >= 1 && atom_outcome(roll_const(n), Err(e)),
            });
        assert(m == k as u16);
        match o {
            Ok(q) => {
                assert forall|i: int| 0 <= i < q.len() implies 1 <= #[trigger] q[i] <= n as u16 by {
                    assert(atom_outcome(roll_const(n), Ok(q[i])));
                    lemma_roll_const_outcome(n, Ok(q[i]));
                }
            },
            Err(e) => {
                lemma_roll_const_outcome(n, Err(e));
                assert(false);
            },
        }
    }
    if (o matches Ok(q) && q.len() == k && (forall|i: int|
        0 <= i < q.len() ==> 1 <= #[trigger] q[i] <= n as u16)) {
        assert(witness_u16(k as u16));
        let q = o->Ok_0;
        assert forall|i: int| 0 <= i < q.len() implies atom_outcome(
            roll_const(n),
            Ok(#[trigger] q[i]),
        ) by {
            lemma_roll_const_outcome(n, Ok(q[i]));
        }
        assert(tuple_outcome(t, o));
    }
}

/// A sequence whose elements all lie in `[lo, hi]` sums to something in
/// `[len * lo, len * hi]`.
pub proof fn lemma_seq_sum_bounds(q: Seq<u16>, lo: int, hi: int)
    requires
        forall|i: int| 0 <= i < q.len() ==> lo <= #[trigger] q[i] <= hi,
    ensures
        q.len() * lo <= seq_sum(q) <= q.len() * hi,
    decreases q.len(),
{
    if q.len() == 0 {
    } else {
        lemma_seq_sum_bounds(q.drop_last(), lo, hi);
        assert((q.len() - 1) * lo + lo == q.len() * lo) by (nonlinear_arith);
        assert((q.len() - 1) * hi + hi == q.len() * hi) by (nonlinear_arith);
    }
}

/// Summing `k` dice with a positive literal face count `n` cannot fail,
/// and yields a single value between `k` (all ones) and `k * n` (all
/// faces), which always fits in 16 bits.
pub proof fn lemma_sum_dice_outcome(k: u8, n: u8, o: Result<u16, EvalError>)
    requires
        n >= 1,
    ensures
        atom_outcome(Atom::Sum(dice_const(k, n)), o) ==> (o matches Ok(v) && k as int <= v as int
            <= k as int * n as int),
{
    let t = dice_const(k, n);
    let a = Atom::Sum(t);
    if atom_outcome(a, o) {
        assert forall|e: EvalError| !(tuple_outcome(t, Err(e))) by {
            lemma_dice_const_outcome(k, n, Err(e));
        }
        assert((exists|s: Seq<u16>|
            #[trigger] witness_seq(s) && tuple_outcome(t, Ok(s)) && (if seq_sum(s)
                > crate::ast::MAX_RESULT {
                o == Err::<u16, EvalError>(EvalError::Overflow)
            } else {
                o == Ok::<u16, EvalError>(seq_sum(s) as u16)
            })) || (exists|e: EvalError|
            #[trigger] witness_err(e) && tuple_outcome(t, Err(e)) && o == Err::<u16, EvalError>(
                e,
            ))) by {
            reveal_with_fuel(atom_outcome, 3);
        }
        let s = choose|s: Seq<u16>|
            #[trigger] witness_seq(s) && tuple_outcome(t, Ok(s)) && (if seq_sum(s)
                > crate::ast::MAX_RESULT {
                o == Err::<u16, EvalError>(EvalError::Overflow)
            } else {
                o == Ok::<u16, EvalError>(seq_sum(s) as u16)
            });
        lemma_dice_const_outcome(k, n, Ok(s));
        lemma_seq_sum_bounds(s, 1, n as int);
        assert(s.len() * (n as int) == k as int * n as int);
        assert(k as int * n as int <= 255 * 255) by (nonlinear_arith)
            requires
                0 <= k <= 255 && 0 <= n <= 255,
        ;
    }
}

/// A roll whose face count is itself a roll of a positive literal die
/// cannot fail, and yields a value between 1 and that literal.
pub proof fn lemma_roll_roll_const_outcome(n: u8, o: Result<u16, EvalError>)
    requires
        n >= 1,
    ensures
        atom_outcome(Atom::Roll(Box::new(roll_const(n))), o) ==> (o matches Ok(v) && 1 <= v
            <= n as u16),
{
    let inner: Box<Atom> = Box::new(roll_const(n));
    assert(*inner == roll_const(n));
    let a = Atom::Roll(inner);
    if atom_outcome(a, o) {
        assert forall|e: EvalError| !(atom_outcome(*inner, Err(e))) by {
            lemma_roll_const_outcome(n, Err(e));
        }
        assert((exists|m: u16|
            #[trigger] witness_u16(m) && atom_outcome(*inner, Ok(m)) && (if m == 0 {
                o == Err::<u16, EvalError>(EvalError::InvalidDieSize)
            } else {
                o matches Ok(v) && 1 <= v <= m
            })) || (exists|e: EvalError|
            #[trigger] witness_err(e) && atom_outcome(*inner, Err(e)) && o == Err::<u16,
                EvalError,
            >(e))) by {
            reveal_with_fuel(atom_outcome, 3);
        }
        let m = choose|m: u16|
            #[trigger] witness_u16(m) && atom_outcome(*inner, Ok(m)) && (if m == 0 {
                o == Err::<u16, EvalError>(EvalError::InvalidDieSize)
            } else {
                o matches Ok(v) && 1 <= v <= m
            });
        lemma_roll_const_outcome(n, Ok(m));
    }
}

/// The dice pair of the nested scenario: a `d6` chooses how many dice to
/// roll, and each die's own face count is a fresh `d6`.
pub open spec fn nested_roll_dice() -> Tuple {
    Tuple::Dice(Box::new(roll_const(6)), Box::new(Atom::Roll(Box::new(roll_const(6)))))
}

/// Rolling `d6`-many dice, each a die of `d6`-many faces, cannot fail,
/// and yields between 1 and 6 values, each between 1 and 6.
pub proof fn lemma_nested_roll_outcome(o: Result<Seq<u16>, EvalError>)
    ensures
        tuple_outcome(nested_roll_dice(), o) ==> (o matches Ok(q) && 1 <= q.len() <= 6 && (forall|
            i: int,
        |
            0 <= i < q.len() ==> 1 <= #[trigger] q[i] <= 6)),
{
    let t = nested_roll_dice();
    let count: Box<Atom> = Box::new(roll_const(6));
    let face: Box<Atom> = Box::new(Atom::Roll(Box::new(roll_const(6))));
    assert(t == Tuple::Dice(count, face));
    assert(*count == roll_const(6));
    assert(*face == Atom::Roll(Box::new(roll_const(6))));
    if tuple_outcome(t, o) {
        assert forall|e: EvalError| !(atom_outcome(*count, Err(e))) by {
            lemma_roll_const_outcome(6, Err(e));
        }
        assert((exists|m: u16|
            #[trigger] witness_u16(m) && atom_outcome(*count, Ok(m)) && (if o is Ok {
                o->Ok_0.len() == m && (forall|i: int|
                    0 <= i < o->Ok_0.len() ==> atom_outcome(*face, Ok(#[trigger] o->Ok_0[i])))
            } else {
                m >= 1 && atom_outcome(*face, Err(o->Err_0))
            })) || (exists|e: EvalError|
            #[trigger] witness_err(e) && atom_outcome(*count, Err(e)) && o == Err::<
                Seq<u16>,
                EvalError,
            >(e))) by {
            reveal_with_fuel(tuple_outcome, 3);
        }
        let m = choose|m: u16|
            #[trigger] witness_u16(m) && atom_outcome(*count, Ok(m)) && (if o is Ok {
                o->Ok_0.len() == m && (forall|i: int|
                    0 <= i < o->Ok_0.len() ==> atom_outcome(*face, Ok(#[trigger] o->Ok_0[i])))
            } else {
                m >= 1 && atom_outcome(*face, Err(o->Err_0))
            });
        lemma_roll_const_outcome(6, Ok(m));
        assert(1 <= m <= 6);
        match o {
            Ok(q) => {
                assert forall|i: int| 0 <= i < q.len() implies 1 <= #[trigger] q[i] <= 6 by {
                    assert(atom_outcome(*face, Ok(q[i])));
                    lemma_roll_roll_const_outcome(6, Ok(q[i]));
                }
            },
            Err(e) => {
                lemma_roll_roll_const_outcome(6, Err(e));
                assert(false);
            },
        }
    }
}

/// A roll written as an optional `"1"`, a `d` at `dpos`, and a numeral
/// running to the input's end parses as the roll of that literal die,
/// whether the `"1"` stands there or not.
pub proof fn lemma_roll_numeral_at(s: Seq<u8>, pos: int, dpos: int)
    requires
        0 <= pos <= dpos < s.len(),
        dpos == pos || (dpos == pos + 1 && s[pos] == 49),
        s[dpos] == 100,
        dpos + 1 < s.len(),
        forall|j: int| dpos + 1 <= j < s.len() ==> is_digit(#[trigger] s[j]),
        0 <= digits_val(s, dpos + 1, (s.len() - dpos - 1) as nat) <= 255,
    ensures
        spec_roll(s, pos) == Ok::<(nat, Atom), ParseErr>(
            (
                (s.len() - pos) as nat,
                roll_const(digits_val(s, dpos + 1, (s.len() - dpos - 1) as nat) as u8),
            ),
        ),
        spec_atom_raw(s, pos) == spec_roll(s, pos),
        spec_atom(s, pos) == spec_roll(s, pos),
{
    let end = s.len() as int;
    if dpos == pos + 1 {
        assert(count_ws(s, pos + 1) == 0);
    } else {
        assert(count_ws(s, pos) == 0);
    }
    assert(count_ws(s, dpos + 1) == 0);
    lemma_atom_digits_at(s, dpos + 1, end);
}

/// A dice pair written as a count numeral, a `d` at `dend`, and a face
/// numeral running to the input's end parses as that pair of literals.
/// The count may not be the lone digit `1`: that spelling belongs to the
/// roll form.
#[verifier::rlimit(60)]
pub proof fn lemma_dice_numeral_at(s: Seq<u8>, pos: int, dend: int)
    requires
        0 <= pos < dend < s.len(),
        forall|j: int| pos <= j < dend ==> is_digit(#[trigger] s[j]),
        s[dend] == 100,
        dend + 1 < s.len(),
        forall|j: int| dend + 1 <= j < s.len() ==> is_digit(#[trigger] s[j]),
        0 <= digits_val(s, pos, (dend - pos) as nat) <= 255,
        0 <= digits_val(s, dend + 1, (s.len() - dend - 1) as nat) <= 255,
        !(s[pos] == 49 && dend == pos + 1),
    ensures
        spec_dice(s, pos) == Ok::<(nat, Tuple), ParseErr>(
            (
                (s.len() - pos) as nat,
                dice_const(
                    digits_val(s, pos, (dend - pos) as nat) as u8,
                    digits_val(s, dend + 1, (s.len() - dend - 1) as nat) as u8,
                ),
            ),
        ),
        spec_tuple(s, pos) == spec_dice(s, pos),
{
    lemma_atom_digits_at(s, pos, dend);
    lemma_roll_numeral_at(s, dend, dend);
}

/// Parsing a bare numeral yields its literal, and evaluating that
/// literal always yields exactly the one-element sequence of its value.
pub proof fn law_literal(s: Seq<u8>, o: Result<Seq<u16>, EvalError>)
    requires
        1 <= s.len(),
        forall|j: int| 0 <= j < s.len() ==> is_digit(#[trigger] s[j]),
        0 <= digits_val(s, 0, s.len() as nat) <= 255,
    ensures
        spec_expr(s, 0) == Ok::<(nat, Expr), ParseErr>(
            (
                s.len() as nat,
                Expr::Atom(Atom::ConstVal(digits_val(s, 0, s.len() as nat) as u8)),
            ),
        ),
        expr_outcome(Expr::Atom(Atom::ConstVal(digits_val(s, 0, s.len() as nat) as u8)), o) <==> (
        o matches Ok(q) && q =~= seq![digits_val(s, 0, s.len() as nat) as u16]),
{
    let c = digits_val(s, 0, s.len() as nat) as u8;
    lemma_atom_digits_at(s, 0, s.len() as int);
    lemma_expr_of_full_atom(s, Atom::ConstVal(c));
    let e = Expr::Atom(Atom::ConstVal(c));
    if expr_outcome(e, o) {
        match o {
            Ok(q) => {
                lemma_const_outcome(c, Ok(q[0]));
                assert(q =~= seq![c as u16]);
            },
            Err(er) => {
                lemma_const_outcome(c, Err(er));
                assert(false);
            },
        }
    }
    if o matches Ok(q) && q =~= seq![c as u16] {
        lemma_const_outcome(c, Ok(c as u16));
        assert(expr_outcome(e, o));
    }
}

/// A roll `dN` or `1dN` parses as the roll of the literal die `N`, the
/// leading `1` changing nothing.  Evaluating it with `N >= 1` always
/// yields one value between 1 and `N`; with `N == 0` it always fails
/// with `InvalidDieSize`, and never crashes or yields a value.
pub proof fn law_single_roll(s: Seq<u8>, dpos: int, o: Result<Seq<u16>, EvalError>)
    requires
        0 <= dpos < s.len(),
        dpos == 0 || (dpos == 1 && s[0] == 49),
        s[dpos] == 100,
        dpos + 1 < s.len(),
        forall|j: int| dpos + 1 <= j < s.len() ==> is_digit(#[trigger] s[j]),
        0 <= digits_val(s, dpos + 1, (s.len() - dpos - 1) as nat) <= 255,
    ensures
        spec_expr(s, 0) == Ok::<(nat, Expr), ParseErr>(
            (
                s.len() as nat,
                Expr::Atom(roll_const(digits_val(s, dpos + 1, (s.len() - dpos - 1) as nat) as u8)),
            ),
        ),
        digits_val(s, dpos + 1, (s.len() - dpos - 1) as nat) >= 1 ==> (expr_outcome(
            Expr::Atom(roll_const(digits_val(s, dpos + 1, (s.len() - dpos - 1) as nat) as u8)),
            o,
        ) <==> (o matches Ok(q) && q.len() == 1 && 1 <= q[0] <= digits_val(
            s,
            dpos + 1,
            (s.len() - dpos - 1) as nat,
        ))),
        digits_val(s, dpos + 1, (s.len() - dpos - 1) as nat) == 0 ==> (expr_outcome(
            Expr::Atom(roll_const(0)),
            o,
        ) <==> o == Err::<Seq<u16>, EvalError>(EvalError::InvalidDieSize)),
{
    let n = digits_val(s, dpos + 1, (s.len() - dpos - 1) as nat) as u8;
    lemma_roll_numeral_at(s, 0, dpos);
    lemma_expr_of_full_atom(s, roll_const(n));
    let e = Expr::Atom(roll_const(n));
    if expr_outcome(e, o) {
        match o {
            Ok(q) => {
                lemma_roll_const_outcome(n, Ok(q[0]));
            },
            Err(er) => {
                lemma_roll_const_outcome(n, Err(er));
            },
        }
    }
    if n >= 1 && (o matches Ok(q) && q.len() == 1 && 1 <= q[0] <= n as u16) {
        lemma_roll_const_outcome(n, Ok(o->Ok_0[0]));
        assert(expr_outcome(e, o));
    }
    if n == 0 && o == Err::<Seq<u16>, EvalError>(EvalError::InvalidDieSize) {
        lemma_roll_const_outcome(n, Err(EvalError::InvalidDieSize));
        assert(expr_outcome(e, o));
    }
}

/// A dice pair `KdN` parses as the pair of literals, and evaluating it
/// with `N >= 1` always yields exactly `K` values, each between 1 and
/// `N`.  The count spelling `1` is left to the roll form, which the law
/// of the single roll covers.
pub proof fn law_dice(s: Seq<u8>, dend: int, o: Result<Seq<u16>, EvalError>)
    requires
        0 < dend < s.len(),
        forall|j: int| 0 <= j < dend ==> is_digit(#[trigger] s[j]),
        s[dend] == 100,
        dend + 1 < s.len(),
        forall|j: int| dend + 1 <= j < s.len() ==> is_digit(#[trigger] s[j]),
        0 <= digits_val(s, 0, dend as nat) <= 255,
        0 <= digits_val(s, dend + 1, (s.len() - dend - 1) as nat) <= 255,
        1 <= digits_val(s, dend + 1, (s.len() - dend - 1) as nat),
        !(s[0] == 49 && dend == 1),
    ensures
        spec_expr(s, 0) == Ok::<(nat, Expr), ParseErr>(
            (
                s.len() as nat,
                Expr::Tuple(
                    dice_const(
                        digits_val(s, 0, dend as nat) as u8,
                        digits_val(s, dend + 1, (s.len() - dend - 1) as nat) as u8,
                    ),
                ),
            ),
        ),
        expr_outcome(
            Expr::Tuple(
                dice_const(
                    digits_val(s, 0, dend as nat) as u8,
                    digits_val(s, dend + 1, (s.len() - dend - 1) as nat) as u8,
                ),
            ),
            o,
        ) <==> (o matches Ok(q) && q.len() == digits_val(s, 0, dend as nat) && (forall|i: int|
            0 <= i < q.len() ==> 1 <= #[trigger] q[i] <= digits_val(
                s,
                dend + 1,
                (s.len() - dend - 1) as nat,
            ))),
{
    let k = digits_val(s, 0, dend as nat) as u8;
    let n = digits_val(s, dend + 1, (s.len() - dend - 1) as nat) as u8;
    lemma_dice_numeral_at(s, 0, dend);
    lemma_dice_const_outcome(k, n, o);
}

/// A sum `sum KdN`, with any whitespace between the keyword and the
/// pair, parses as the sum of that pair of literals, and evaluating it
/// with `N >= 1` always yields one value between `K` and `K * N`.
#[verifier::rlimit(60)]
pub proof fn law_sum(s: Seq<u8>, wend: int, dend: int, o: Result<Seq<u16>, EvalError>)
    requires
        s.len() >= 3,
        s[0] == 115 && s[1] == 117 && s[2] == 109,
        3 <= wend < dend < s.len(),
        forall|j: int| 3 <= j < wend ==> is_ws(#[trigger] s[j]),
        forall|j: int| wend <= j < dend ==> is_digit(#[trigger] s[j]),
        s[dend] == 100,
        dend + 1 < s.len(),
        forall|j: int| dend + 1 <= j < s.len() ==> is_digit(#[trigger] s[j]),
        0 <= digits_val(s, wend, (dend - wend) as nat) <= 255,
        0 <= digits_val(s, dend + 1, (s.len() - dend - 1) as nat) <= 255,
        1 <= digits_val(s, dend + 1, (s.len() - dend - 1) as nat),
        !(s[wend] == 49 && dend == wend + 1),
    ensures
        spec_expr(s, 0) == Ok::<(nat, Expr), ParseErr>(
            (
                s.len() as nat,
                Expr::Atom(
                    Atom::Sum(
                        dice_const(
                            digits_val(s, wend, (dend - wend) as nat) as u8,
                            digits_val(s, dend + 1, (s.len() - dend - 1) as nat) as u8,
                        ),
                    ),
                ),
            ),
        ),
        expr_outcome(
            Expr::Atom(
                Atom::Sum(
                    dice_const(
                        digits_val(s, wend, (dend - wend) as nat) as u8,
                        digits_val(s, dend + 1, (s.len() - dend - 1) as nat) as u8,
                    ),
                ),
            ),
            o,
        ) ==> (o matches Ok(q) && q.len() == 1 && digits_val(s, wend, (dend - wend) as nat)
            <= q[0] as int <= digits_val(s, wend, (dend - wend) as nat) * digits_val(
            s,
            dend + 1,
            (s.len() - dend - 1) as nat,
        )),
{
    let k = digits_val(s, wend, (dend - wend) as nat) as u8;
    let n = digits_val(s, dend + 1, (s.len() - dend - 1) as nat) as u8;
    let t = dice_const(k, n);
    lemma_dice_numeral_at(s, wend, dend);
    lemma_ws_run(s, 3, wend);
    assert(count_ws(s, 0) == 0);
    assert(spec_sum(s, 0) == Ok::<(nat, Atom), ParseErr>((s.len() as nat, Atom::Sum(t))));
    assert(count_digits(s, 0) == 0);
    assert(spec_constval(s, 0) == Err::<(nat, Atom), ParseErr>(ParseErr::Failure));
    assert(spec_roll(s, 0) == Err::<(nat, Atom), ParseErr>(ParseErr::Failure));
    assert(spec_atom_raw(s, 0) == Ok::<(nat, Atom), ParseErr>((s.len() as nat, Atom::Sum(t))));
    assert(spec_atom(s, 0) == Ok::<(nat, Atom), ParseErr>((s.len() as nat, Atom::Sum(t))));
    lemma_expr_of_full_atom(s, Atom::Sum(t));
    let e = Expr::Atom(Atom::Sum(t));
    if expr_outcome(e, o) {
        match o {
            Ok(q) => {
                lemma_sum_dice_outcome(k, n, Ok(q[0]));
            },
            Err(er) => {
                lemma_sum_dice_outcome(k, n, Err(er));
            },
        }
    }
}

} // verus!
