//! Evaluation of single-line arithmetic expressions: decimal numbers, the four
//! binary operators and parentheses.
//!
//! The work is split in verified stages. `scanner` turns text into a flat
//! sequence of tokens; `evaluator` walks that sequence by recursive descent
//! (expression, term, factor) and yields the arithmetic steps in the order in
//! which they are to be performed, with no syntax tree in between; `machine`
//! carries the steps out. Numbers themselves are supplied by the caller
//! through the `Arithmetic` trait, so the library fixes what is computed and in
//! which order, whatever the number type.
use vstd::prelude::*;

pub mod token;
pub mod scanner;
pub mod evaluator;
pub mod machine;
pub mod semantics;
pub mod laws;

use crate::evaluator::{plan, plan_of};
use crate::machine::{Arithmetic, lemma_plan_computes_one, literal_values, operations, run};
use crate::scanner::{
    lemma_scanned_numbers_well_formed,
    numbers_well_formed,
    remove_spaces,
    scan_chars,
    scan_line,
    without_spaces,
};
use crate::semantics::{expr_value, lemma_plan_evaluates};
use crate::token::{CalcError, Lexeme, Token, lexemes};

verus! {

/// The value of a token sequence under the arithmetic of `V`: the value the
/// grammar gives it, or `SyntaxError` where it is not one expression.
pub open spec fn tokens_value<V: Arithmetic>(ts: Seq<Lexeme>) -> Result<V, CalcError> {
    if plan_of(ts) is Some {
        Ok(expr_value(ts, 0, literal_values::<V>(), operations::<V>())->Some_0.0)
    } else {
        Err(CalcError::SyntaxError)
    }
}

/// The value of a line of text under the arithmetic of `V`: its spaces are
/// removed, the rest is scanned and evaluated; the first error met otherwise.
pub open spec fn line_value<V: Arithmetic>(s: Seq<char>) -> Result<V, CalcError> {
    match scan_line(s) {
        Ok(ts) => tokens_value::<V>(ts),
        Err(e) => Err(e),
    }
}

/// Evaluates a token sequence with the number type `V`: the value of the
/// expression, with `*` and `/` before `+` and `-`, parentheses first and
/// operators of one tier from left to right; `SyntaxError` exactly where the
/// tokens are not one expression.
pub fn evaluate<V: Arithmetic>(tokens: &Vec<Token>) -> (r: Result<V, CalcError>)
    requires
        numbers_well_formed(lexemes(tokens@)),
    ensures
        r == tokens_value::<V>(lexemes(tokens@)),
{
    let steps = plan(tokens)?;
    let n = tokens.len();
    proof {
        assert(lexemes(tokens@).len() == n);
        lemma_plan_computes_one(lexemes(tokens@));
    }
    let v = run(tokens, &steps);
    proof {
        lemma_plan_evaluates(lexemes(tokens@), literal_values::<V>(), operations::<V>());
        assert(seq![v][0] == v);
    }
    Ok(v)
}

/// Evaluates a line of text with the number type `V`: spaces are removed,
/// then the rest is scanned and evaluated. The result is `line_value`: the
/// scanner's error where scanning fails, else as `evaluate`.
pub fn calculate<V: Arithmetic>(input: &str) -> (r: Result<V, CalcError>)
    ensures
        r == line_value::<V>(input@),
{
    let s = remove_spaces(input);
    let tokens = scan_chars(&s)?;
    proof {
        lemma_scanned_numbers_well_formed(s@, 0);
    }
    evaluate(&tokens)
}

/// Spaces are insignificant: two lines that differ only in their spaces give
/// the same tokens, hence the same value or the same error.
pub proof fn lemma_spaces_insignificant<V: Arithmetic>(s: Seq<char>, t: Seq<char>)
    requires
        without_spaces(s) == without_spaces(t),
    ensures
        scan_line(s) == scan_line(t),
        line_value::<V>(s) == line_value::<V>(t),
{
}

/// Evaluation is deterministic: the outcome of `calculate` is a function of
/// the text alone, so two evaluations of one text give the same value (or
/// the same error).
pub proof fn lemma_deterministic<V: Arithmetic>(s: Seq<char>, t: Seq<char>)
    requires
        s == t,
    ensures
        line_value::<V>(s) == line_value::<V>(t),
{
}

} // verus!
