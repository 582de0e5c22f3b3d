//! The parser: recursive descent over the UTF-8 bytes of the source text.
//!
//! The grammar, with whitespace permitted around the `d` operator and the
//! `sum` keyword:
//!
//! ```text
//! constval := digit+                  (value at most 255)
//! roll     := ["1"] "d" atom
//! sum      := "sum" tuple
//! atom_raw := roll | constval | sum
//! atom     := atom_raw | "(" atom_raw ")"
//! dice     := atom roll
//! tuple    := dice
//! expr     := tuple | atom
//! ```
//!
//! Alternatives are tried in the order written; an alternative that fails
//! because the input ended too early is an `Incomplete` failure, a definite
//! mismatch a plain one, and a later alternative may still succeed after an
//! earlier incomplete one, so a lone `"1"` is a literal.  `sum` and `tuple`
//! report every failure as a plain one, since the keyword or the dice pair
//! ends the forms they begin.
//!
//! The whole grammar is written once as spec functions (`spec_expr` and
//! friends), and each executable function is proved to return exactly what
//! the spec function says: parsing is deterministic by contract.

use vstd::prelude::*;
use vstd::slice::slice_subrange;

use crate::ast::Atom;
use crate::ast::Expr;
use crate::ast::Tuple;

verus! {

/// A parse failure: a definite mismatch, or input that ended before the
/// form could be completed.
#[derive(Debug, Clone, Copy, PartialEq, Eq, Structural)]
pub enum ParseErr {
    Failure,
    Incomplete,
}

/// How many bytes remain at `pos`; the measure every parser recurses on.
pub open spec fn rem(s: Seq<u8>, pos: int) -> int {
    if pos <= s.len() {
        s.len() - pos
    } else {
        0
    }
}

/// An ASCII decimal digit.
pub open spec fn is_digit(b: u8) -> bool {
    48 <= b <= 57
}

/// Whitespace ignored around the `d` operator and the `sum` keyword.
pub open spec fn is_ws(b: u8) -> bool {
    b == 32 || b == 9 || b == 10 || b == 13
}

/// The number of whitespace bytes at `pos`.
pub open spec fn count_ws(s: Seq<u8>, pos: int) -> nat
    decreases rem(s, pos),
{
    if 0 <= pos < s.len() && is_ws(s[pos]) {
        1 + count_ws(s, pos + 1)
    } else {
        0
    }
}

/// The number of digit bytes at `pos`.
pub open spec fn count_digits(s: Seq<u8>, pos: int) -> nat
    decreases rem(s, pos),
{
    if 0 <= pos < s.len() && is_digit(s[pos]) {
        1 + count_digits(s, pos + 1)
    } else {
        0
    }
}

/// The value of the `n` digits at `pos`, read as a decimal numeral.
pub open spec fn digits_val(s: Seq<u8>, pos: int, n: nat) -> int
    decreases n,
{
    if n == 0 {
        0
    } else {
        digits_val(s, pos, (n - 1) as nat) * 10 + (s[pos + n - 1] - 48)
    }
}

/// The failure of an alternation: incomplete input wins over a mismatch,
/// since more input could still make the earlier alternative succeed.
pub open spec fn alt_err(a: ParseErr, b: ParseErr) -> ParseErr {
    if a == ParseErr::Incomplete || b == ParseErr::Incomplete {
        ParseErr::Incomplete
    } else {
        ParseErr::Failure
    }
}

/// A parse result: the number of bytes consumed and the node built.
pub type SpecParsed<T> = Result<(nat, T), ParseErr>;

/// `constval`: one or more digits, greedily, valued at most 255.
pub open spec fn spec_constval(s: Seq<u8>, pos: int) -> SpecParsed<Atom> {
    let n = count_digits(s, pos);
    if n == 0 {
        Err(ParseErr::Failure)
    } else if digits_val(s, pos, n) > 255 {
        Err(ParseErr::Failure)
    } else {
        Ok((n, Atom::ConstVal(digits_val(s, pos, n) as u8)))
    }
}

/// `roll`: an optional inert `"1"`, then `d` with whitespace around it,
/// then the face-count atom.
pub open spec fn spec_roll(s: Seq<u8>, pos: int) -> SpecParsed<Atom>
    decreases rem(s, pos), 0int,
{
    if !(0 <= pos < s.len()) {
        Err(ParseErr::Incomplete)
    } else {
        let one: nat = if s[pos] == 49 {
            1
        } else {
            0
        };
        let w1 = count_ws(s, pos + one);
        let p = pos + one + w1;
        if !(p < s.len()) {
            Err(ParseErr::Incomplete)
        } else if s[p] != 100 {
            Err(ParseErr::Failure)
        } else {
            let w2 = count_ws(s, p + 1);
            match spec_atom(s, p + 1 + w2) {
                Err(e) => Err(e),
                Ok((c, inner)) => Ok(
                    ((one + w1 + 1 + w2 + c) as nat, Atom::Roll(Box::new(inner))),
                ),
            }
        }
    }
}

/// `sum`: the keyword with whitespace around it, then a tuple.  The
/// keyword commits the form, so every failure is a plain one.
pub open spec fn spec_sum(s: Seq<u8>, pos: int) -> SpecParsed<Atom>
    decreases rem(s, pos), 0int,
{
    if pos < 0 {
        Err(ParseErr::Failure)
    } else {
        let w1 = count_ws(s, pos);
        let p = pos + w1;
        if !(p + 3 <= s.len() && s[p] == 115 && s[p + 1] == 117 && s[p + 2] == 109) {
            Err(ParseErr::Failure)
        } else {
            let w2 = count_ws(s, p + 3);
            match spec_tuple(s, p + 3 + w2) {
                Err(_) => Err(ParseErr::Failure),
                Ok((c, t)) => Ok(((w1 + 3 + w2 + c) as nat, Atom::Sum(t))),
            }
        }
    }
}

/// `atom_raw`: `roll`, else `constval`, else `sum`, in that order.
pub open spec fn spec_atom_raw(s: Seq<u8>, pos: int) -> SpecParsed<Atom>
    decreases rem(s, pos), 1int,
{
    match spec_roll(s, pos) {
        Ok(r) => Ok(r),
        Err(e1) => match spec_constval(s, pos) {
            Ok(r) => Ok(r),
            Err(e2) => match spec_sum(s, pos) {
                Ok(r) => Ok(r),
                Err(e3) => Err(alt_err(alt_err(e1, e2), e3)),
            },
        },
    }
}

/// `atom`: a raw atom, else one pair of parentheses around a raw atom.
pub open spec fn spec_atom(s: Seq<u8>, pos: int) -> SpecParsed<Atom>
    decreases rem(s, pos), 2int,
{
    match spec_atom_raw(s, pos) {
        Ok(r) => Ok(r),
        Err(e1) => {
            if !(0 <= pos < s.len()) {
                Err(alt_err(e1, ParseErr::Incomplete))
            } else if s[pos] != 40 {
                Err(alt_err(e1, ParseErr::Failure))
            } else {
                match spec_atom_raw(s, pos + 1) {
                    Err(e2) => Err(alt_err(e1, e2)),
                    Ok((c, inner)) => {
                        let q = pos + 1 + c;
                        if !(q < s.len()) {
                            Err(alt_err(e1, ParseErr::Incomplete))
                        } else if s[q] != 41 {
                            Err(alt_err(e1, ParseErr::Failure))
                        } else {
                            Ok(((1 + c + 1) as nat, inner))
                        }
                    },
                }
            }
        },
    }
}

/// `dice`: an atom (the count), then a roll (the face die).
pub open spec fn spec_dice(s: Seq<u8>, pos: int) -> SpecParsed<Tuple>
    decreases rem(s, pos), 3int,
{
    match spec_atom(s, pos) {
        Err(e) => Err(e),
        Ok((c1, count)) => match spec_roll(s, pos + c1) {
            Err(e) => Err(e),
            Ok((c2, face)) => Ok(
                ((c1 + c2) as nat, Tuple::Dice(Box::new(count), Box::new(face))),
            ),
        },
    }
}

/// `tuple`: a dice pair, which the form ends, so incomplete input is a
/// plain failure.
pub open spec fn spec_tuple(s: Seq<u8>, pos: int) -> SpecParsed<Tuple>
    decreases rem(s, pos), 4int,
{
    match spec_dice(s, pos) {
        Err(ParseErr::Incomplete) => Err(ParseErr::Failure),
        r => r,
    }
}

/// `expr`: a tuple, else an atom, so `3d6` is a dice pair while a bare
/// `d6` is a single roll.
pub open spec fn spec_expr(s: Seq<u8>, pos: int) -> SpecParsed<Expr>
    decreases rem(s, pos), 5int,
{
    match spec_tuple(s, pos) {
        Ok((c, t)) => Ok((c, Expr::Tuple(t))),
        Err(e1) => match spec_atom(s, pos) {
            Ok((c, a)) => Ok((c, Expr::Atom(a))),
            Err(e2) => Err(alt_err(e1, e2)),
        },
    }
}

/// What an executable parser returns: the position after the consumed
/// bytes and the node built.
pub type Parsed<T> = Result<(usize, T), ParseErr>;

/// The executable result `r` is exactly what the spec parser `sp` says at
/// `pos`: the same node, the same consumed count, or the same failure.
pub open spec fn parses_as<T>(sp: SpecParsed<T>, pos: int, len: int, r: Parsed<T>) -> bool {
    match r {
        Ok((end, node)) => pos <= end <= len && sp == Ok::<(nat, T), ParseErr>(
            ((end - pos) as nat, node),
        ),
        Err(e) => sp == Err::<(nat, T), ParseErr>(e),
    }
}

/// Skip whitespace, returning the first position at or after `pos` that
/// holds none.
fn skip_ws(input: &[u8], pos: usize) -> (r: usize)
    requires
        pos <= input@.len(),
    ensures
        r == pos + count_ws(input@, pos as int),
        pos <= r <= input@.len(),
{
    let mut i: usize = pos;
    while i < input.len() && (input[i] == 32 || input[i] == 9 || input[i] == 10 || input[i] == 13)
        invariant
            pos <= i <= input@.len(),
            count_ws(input@, pos as int) == i - pos + count_ws(input@, i as int),
        decreases input@.len() - i,
    {
        i = i + 1;
    }
    i
}

/// How many digits stand at `[pos, end)`, with `end` past the last one.
proof fn lemma_count_digits_range(s: Seq<u8>, pos: int, end: int)
    requires
        0 <= pos <= end <= s.len(),
        forall|j: int| pos <= j < end ==> is_digit(#[trigger] s[j]),
        end == s.len() || !is_digit(s[end]),
    ensures
        count_digits(s, pos) == end - pos,
    decreases end - pos,
{
    if pos < end {
        lemma_count_digits_range(s, pos + 1, end);
    }
}

/// Parse a literal: greedy digits, failing on none or on a value above 255.
fn parse_constval(input: &[u8], pos: usize) -> (r: Parsed<Atom>)
    requires
        pos <= input@.len(),
    ensures
        parses_as(spec_constval(input@, pos as int), pos as int, input@.len() as int, r),
{
    let mut i: usize = pos;
    let mut acc: u32 = 0;
    let mut over = false;
    while i < input.len() && 48 <= input[i] && input[i] <= 57
        invariant
            pos <= i <= input@.len(),
            forall|j: int| pos <= j < i ==> is_digit(#[trigger] input@[j]),
            !over ==> acc == digits_val(input@, pos as int, (i - pos) as nat) && acc <= 255,
            over ==> digits_val(input@, pos as int, (i - pos) as nat) > 255,
        decreases input@.len() - i,
    {
        let d = input[i] - 48;
        if !over {
            acc = acc * 10 + d as u32;
            if acc > 255 {
                over = true;
            }
        }
        i = i + 1;
        proof {
            assert(digits_val(input@, pos as int, (i - pos) as nat) == digits_val(
                input@,
                pos as int,
                (i - pos - 1) as nat,
            ) * 10 + (input@[i - 1] - 48));
        }
    }
    proof {
        lemma_count_digits_range(input@, pos as int, i as int);
    }
    if i == pos {
        Err(ParseErr::Failure)
    } else if over {
        Err(ParseErr::Failure)
    } else {
        Ok((i, Atom::ConstVal(acc as u8)))
    }
}

/// Parse a roll: an optional `"1"`, whitespace, `d`, whitespace, then the
/// face-count atom.
fn parse_roll(input: &[u8], pos: usize) -> (r: Parsed<Atom>)
    requires
        pos <= input@.len(),
    ensures
        parses_as(spec_roll(input@, pos as int), pos as int, input@.len() as int, r),
    decreases rem(input@, pos as int), 0int,
{
    if pos >= input.len() {
        return Err(ParseErr::Incomplete);
    }
    let one: usize = if input[pos] == 49 {
        1
    } else {
        0
    };
    let p = skip_ws(input, pos + one);
    if p >= input.len() {
        return Err(ParseErr::Incomplete);
    }
    if input[p] != 100 {
        return Err(ParseErr::Failure);
    }
    let q = skip_ws(input, p + 1);
    match parse_atom(input, q) {
        Err(e) => Err(e),
        Ok((end, inner)) => Ok((end, Atom::Roll(Box::new(inner)))),
    }
}

/// Parse a sum: the `sum` keyword with whitespace around it, then a tuple.
fn parse_sum(input: &[u8], pos: usize) -> (r: Parsed<Atom>)
    requires
        pos <= input@.len(),
    ensures
        parses_as(spec_sum(input@, pos as int), pos as int, input@.len() as int, r),
    decreases rem(input@, pos as int), 0int,
{
    let p = skip_ws(input, pos);
    let keyword = input.len() >= 3 && p <= input.len() - 3 && input[p] == 115 && input[p + 1]
        == 117 && input[p + 2] == 109;
    if !keyword {
        return Err(ParseErr::Failure);
    }
    let q = skip_ws(input, p + 3);
    match parse_tuple(input, q) {
        Err(_) => Err(ParseErr::Failure),
        Ok((end, t)) => Ok((end, Atom::Sum(t))),
    }
}

/// Parse a raw atom: a roll, else a literal, else a sum.
fn parse_atom_raw(input: &[u8], pos: usize) -> (r: Parsed<Atom>)
    requires
        pos <= input@.len(),
    ensures
        parses_as(spec_atom_raw(input@, pos as int), pos as int, input@.len() as int, r),
    decreases rem(input@, pos as int), 1int,
{
    match parse_roll(input, pos) {
        Ok(r) => Ok(r),
        Err(e1) => match parse_constval(input, pos) {
            Ok(r) => Ok(r),
            Err(e2) => match parse_sum(input, pos) {
                Ok(r) => Ok(r),
                Err(e3) => Err(
                    if e1 == ParseErr::Incomplete || e2 == ParseErr::Incomplete || e3
                        == ParseErr::Incomplete {
                        ParseErr::Incomplete
                    } else {
                        ParseErr::Failure
                    },
                ),
            },
        },
    }
}

/// Parse an atom: a raw atom, else one in parentheses.
fn parse_atom(input: &[u8], pos: usize) -> (r: Parsed<Atom>)
    requires
        pos <= input@.len(),
    ensures
        parses_as(spec_atom(input@, pos as int), pos as int, input@.len() as int, r),
    decreases rem(input@, pos as int), 2int,
{
    match parse_atom_raw(input, pos) {
        Ok(r) => Ok(r),
        Err(e1) => {
            if pos >= input.len() {
                return Err(alt_err_exec(e1, ParseErr::Incomplete));
            }
            if input[pos] != 40 {
                return Err(alt_err_exec(e1, ParseErr::Failure));
            }
            match parse_atom_raw(input, pos + 1) {
                Err(e2) => Err(alt_err_exec(e1, e2)),
                Ok((end, inner)) => {
                    if end >= input.len() {
                        Err(alt_err_exec(e1, ParseErr::Incomplete))
                    } else if input[end] != 41 {
                        Err(alt_err_exec(e1, ParseErr::Failure))
                    } else {
                        Ok((end + 1, inner))
                    }
                },
            }
        },
    }
}

/// The failure of a two-way alternation, as executable code.
fn alt_err_exec(a: ParseErr, b: ParseErr) -> (r: ParseErr)
    ensures
        r == alt_err(a, b),
{
    if a == ParseErr::Incomplete || b == ParseErr::Incomplete {
        ParseErr::Incomplete
    } else {
        ParseErr::Failure
    }
}

/// Parse a dice pair: the count atom, then the face roll.
fn parse_dice(input: &[u8], pos: usize) -> (r: Parsed<Tuple>)
    requires
        pos <= input@.len(),
    ensures
        parses_as(spec_dice(input@, pos as int), pos as int, input@.len() as int, r),
    decreases rem(input@, pos as int), 3int,
{
    match parse_atom(input, pos) {
        Err(e) => Err(e),
        Ok((mid, count)) => match parse_roll(input, mid) {
            Err(e) => Err(e),
            Ok((end, face)) => Ok((end, Tuple::Dice(Box::new(count), Box::new(face)))),
        },
    }
}

/// Parse a tuple: a dice pair, reporting incomplete input as a plain
/// failure.
fn parse_tuple(input: &[u8], pos: usize) -> (r: Parsed<Tuple>)
    requires
        pos <= input@.len(),
    ensures
        parses_as(spec_tuple(input@, pos as int), pos as int, input@.len() as int, r),
    decreases rem(input@, pos as int), 4int,
{
    match parse_dice(input, pos) {
        Err(ParseErr::Incomplete) => Err(ParseErr::Failure),
        r => r,
    }
}

/// The remainder and node of a whole-input parse are exactly what the
/// spec parser `sp` says at position 0.
pub open spec fn parses_from_start<T>(sp: SpecParsed<T>, input: Seq<u8>, r: Result<(Seq<u8>, T), ParseErr>) -> bool {
    match r {
        Ok((rest, node)) => sp matches Ok((c, sn)) && sn == node && rest == input.skip(c as int),
        Err(e) => sp == Err::<(nat, T), ParseErr>(e),
    }
}

/// Parse a literal at the head of `input`, returning the rest of the
/// input beside the atom.
pub fn constval(input: &[u8]) -> (r: Result<(&[u8], Atom), ParseErr>)
    ensures
        parses_from_start(spec_constval(input@, 0), input@, view_parsed(r)),
{
    match parse_constval(input, 0) {
        Err(e) => Err(e),
        Ok((end, a)) => {
            let rest = slice_subrange(input, end, input.len());
            proof {
                assert(rest@ =~= input@.skip(end as int));
            }
            Ok((rest, a))
        },
    }
}

/// Parse a roll at the head of `input`, returning the rest of the input
/// beside the atom.
pub fn roll(input: &[u8]) -> (r: Result<(&[u8], Atom), ParseErr>)
    ensures
        parses_from_start(spec_roll(input@, 0), input@, view_parsed(r)),
{
    match parse_roll(input, 0) {
        Err(e) => Err(e),
        Ok((end, a)) => {
            let rest = slice_subrange(input, end, input.len());
            proof {
                assert(rest@ =~= input@.skip(end as int));
            }
            Ok((rest, a))
        },
    }
}

/// Parse a sum at the head of `input`, returning the rest of the input
/// beside the atom.
pub fn sum(input: &[u8]) -> (r: Result<(&[u8], Atom), ParseErr>)
    ensures
        parses_from_start(spec_sum(input@, 0), input@, view_parsed(r)),
{
    match parse_sum(input, 0) {
        Err(e) => Err(e),
        Ok((end, a)) => {
            let rest = slice_subrange(input, end, input.len());
            proof {
                assert(rest@ =~= input@.skip(end as int));
            }
            Ok((rest, a))
        },
    }
}

/// Parse a dice pair at the head of `input`, returning the rest of the
/// input beside the tuple.
pub fn dice(input: &[u8]) -> (r: Result<(&[u8], Tuple), ParseErr>)
    ensures
        parses_from_start(spec_dice(input@, 0), input@, view_parsed(r)),
{
    match parse_dice(input, 0) {
        Err(e) => Err(e),
        Ok((end, t)) => {
            let rest = slice_subrange(input, end, input.len());
            proof {
                assert(rest@ =~= input@.skip(end as int));
            }
            Ok((rest, t))
        },
    }
}

/// Parse an expression at the head of `input`, returning the rest of the
/// input beside the expression.
pub fn expr(input: &[u8]) -> (r: Result<(&[u8], Expr), ParseErr>)
    ensures
        parses_from_start(spec_expr(input@, 0), input@, view_parsed(r)),
{
    match parse_expr(input, 0) {
        Err(e) => Err(e),
        Ok((end, ex)) => {
            let rest = slice_subrange(input, end, input.len());
            proof {
                assert(rest@ =~= input@.skip(end as int));
            }
            Ok((rest, ex))
        },
    }
}

/// The view of a borrowed parse result: the remaining bytes as a sequence.
pub open spec fn view_parsed<T>(r: Result<(&[u8], T), ParseErr>) -> Result<(Seq<u8>, T), ParseErr> {
    match r {
        Ok((rest, node)) => Ok((rest@, node)),
        Err(e) => Err(e),
    }
}

/// Parse an expression: a tuple, else an atom.
pub fn parse_expr(input: &[u8], pos: usize) -> (r: Parsed<Expr>)
    requires
        pos <= input@.len(),
    ensures
        parses_as(spec_expr(input@, pos as int), pos as int, input@.len() as int, r),
    decreases rem(input@, pos as int), 5int,
{
    match parse_tuple(input, pos) {
        Ok((end, t)) => Ok((end, Expr::Tuple(t))),
        Err(e1) => match parse_atom(input, pos) {
            Ok((end, a)) => Ok((end, Expr::Atom(a))),
            Err(e2) => Err(alt_err_exec(e1, e2)),
        },
    }
}

} // verus!
