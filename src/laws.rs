//! Precedence, associativity and grouping, stated for any arithmetic.
use vstd::prelude::*;
use crate::evaluator::{
    is_additive,
    is_multiplicative,
    parse_expr,
    parse_factor,
    parse_products,
    parse_sums,
    parse_term,
    plan_of,
};
use crate::machine::{Arithmetic, literal_values, operations};
use crate::semantics::{expr_value, factor_value, products_value, sums_value, term_value};
use crate::token::{Bracket, CalcError, Lexeme, Op};
use crate::tokens_value;

verus! {

/// Operators of one tier apply from left to right: `a o1 b o2 c` with `o1`
/// and `o2` both additive or both multiplicative is `(a o1 b) o2 c`.
pub proof fn lemma_left_associative<V: Arithmetic>(
    a: Seq<char>,
    b: Seq<char>,
    c: Seq<char>,
    o1: Op,
    o2: Op,
)
    requires
        (is_additive(Lexeme::Operator(o1)) && is_additive(Lexeme::Operator(o2))) || (
        is_multiplicative(Lexeme::Operator(o1)) && is_multiplicative(Lexeme::Operator(o2))),
    ensures
        tokens_value::<V>(
            seq![
                Lexeme::Number(a),
                Lexeme::Operator(o1),
                Lexeme::Number(b),
                Lexeme::Operator(o2),
                Lexeme::Number(c),
            ],
        ) == Ok::<V, CalcError>(
            V::applied(o2, V::applied(o1, V::value_of(a), V::value_of(b)), V::value_of(c)),
        ),
{
    let ts = seq![
        Lexeme::Number(a),
        Lexeme::Operator(o1),
        Lexeme::Number(b),
        Lexeme::Operator(o2),
        Lexeme::Number(c),
    ];
    let num = literal_values::<V>();
    let app = operations::<V>();
    reveal_with_fuel(parse_sums, 3);
    reveal_with_fuel(parse_products, 3);
    reveal_with_fuel(sums_value, 3);
    reveal_with_fuel(products_value, 3);
    assert(parse_factor(ts, 0) is Some);
    assert(parse_factor(ts, 2) is Some);
    assert(parse_factor(ts, 4) is Some);
    assert(factor_value(ts, 0, num, app) == Some((V::value_of(a), 1int)));
    assert(factor_value(ts, 2, num, app) == Some((V::value_of(b), 3int)));
    assert(factor_value(ts, 4, num, app) == Some((V::value_of(c), 5int)));
    if is_additive(ts[1]) {
        assert(parse_term(ts, 0) is Some);
        assert(parse_term(ts, 2) is Some);
        assert(parse_term(ts, 4) is Some);
        assert(term_value(ts, 0, num, app) == Some((V::value_of(a), 1int)));
        assert(term_value(ts, 2, num, app) == Some((V::value_of(b), 3int)));
        assert(term_value(ts, 4, num, app) == Some((V::value_of(c), 5int)));
        assert(parse_term(ts, 0)->Some_0.1 == 1);
        assert(parse_sums(ts, 1, parse_term(ts, 0)->Some_0.0) is Some);
        assert(parse_sums(ts, 1, parse_term(ts, 0)->Some_0.0)->Some_0.1 == 5);
        assert(sums_value(ts, 1, V::value_of(a), num, app) == Some((
            V::applied(o2, V::applied(o1, V::value_of(a), V::value_of(b)), V::value_of(c)),
            5int,
        )));
    } else {
        assert(parse_products(ts, 1, parse_factor(ts, 0)->Some_0.0) is Some);
        assert(products_value(ts, 1, V::value_of(a), num, app) == Some((
            V::applied(o2, V::applied(o1, V::value_of(a), V::value_of(b)), V::value_of(c)),
            5int,
        )));
        assert(term_value(ts, 0, num, app) == Some((
            V::applied(o2, V::applied(o1, V::value_of(a), V::value_of(b)), V::value_of(c)),
            5int,
        )));
        assert(parse_term(ts, 0) is Some);
        assert(parse_term(ts, 0)->Some_0.1 == 5);
    }
    assert(parse_expr(ts, 0) is Some);
    assert(plan_of(ts) is Some);
}

/// Multiplication and division bind tighter than addition and subtraction:
/// `a o1 b o2 c` with `o1` additive and `o2` multiplicative is `a o1 (b o2 c)`.
pub proof fn lemma_precedence<V: Arithmetic>(a: Seq<char>, b: Seq<char>, c: Seq<char>, o1: Op, o2: Op)
    requires
        is_additive(Lexeme::Operator(o1)),
        is_multiplicative(Lexeme::Operator(o2)),
    ensures
        tokens_value::<V>(
            seq![
                Lexeme::Number(a),
                Lexeme::Operator(o1),
                Lexeme::Number(b),
                Lexeme::Operator(o2),
                Lexeme::Number(c),
            ],
        ) == Ok::<V, CalcError>(
            V::applied(o1, V::value_of(a), V::applied(o2, V::value_of(b), V::value_of(c))),
        ),
{
    let ts = seq![
        Lexeme::Number(a),
        Lexeme::Operator(o1),
        Lexeme::Number(b),
        Lexeme::Operator(o2),
        Lexeme::Number(c),
    ];
    let num = literal_values::<V>();
    let app = operations::<V>();
    let r = V::applied(o1, V::value_of(a), V::applied(o2, V::value_of(b), V::value_of(c)));
    reveal_with_fuel(parse_sums, 3);
    reveal_with_fuel(parse_products, 3);
    reveal_with_fuel(sums_value, 3);
    reveal_with_fuel(products_value, 3);
    assert(factor_value(ts, 0, num, app) == Some((V::value_of(a), 1int)));
    assert(factor_value(ts, 2, num, app) == Some((V::value_of(b), 3int)));
    assert(factor_value(ts, 4, num, app) == Some((V::value_of(c), 5int)));
    assert(parse_factor(ts, 0)->Some_0.1 == 1);
    assert(parse_factor(ts, 2)->Some_0.1 == 3);
    assert(parse_factor(ts, 4)->Some_0.1 == 5);
    assert(term_value(ts, 0, num, app) == Some((V::value_of(a), 1int)));
    assert(parse_term(ts, 0)->Some_0.1 == 1);
    assert(term_value(ts, 2, num, app) == Some((
        V::applied(o2, V::value_of(b), V::value_of(c)),
        5int,
    )));
    assert(parse_term(ts, 2)->Some_0.1 == 5);
    assert(sums_value(ts, 1, V::value_of(a), num, app) == Some((r, 5int)));
    assert(parse_sums(ts, 1, parse_term(ts, 0)->Some_0.0)->Some_0.1 == 5);
    assert(parse_expr(ts, 0) is Some);
    assert(plan_of(ts) is Some);
}

/// Parentheses are evaluated first: `(a o1 b) o2 c` is `o1` applied to `a`
/// and `b`, then `o2` applied to that and `c`, whatever the operators.
pub proof fn lemma_grouping<V: Arithmetic>(a: Seq<char>, b: Seq<char>, c: Seq<char>, o1: Op, o2: Op)
    ensures
        tokens_value::<V>(
            seq![
                Lexeme::Bracket(Bracket::Open),
                Lexeme::Number(a),
                Lexeme::Operator(o1),
                Lexeme::Number(b),
                Lexeme::Bracket(Bracket::Close),
                Lexeme::Operator(o2),
                Lexeme::Number(c),
            ],
        ) == Ok::<V, CalcError>(
            V::applied(o2, V::applied(o1, V::value_of(a), V::value_of(b)), V::value_of(c)),
        ),
{
    let ts = seq![
        Lexeme::Bracket(Bracket::Open),
        Lexeme::Number(a),
        Lexeme::Operator(o1),
        Lexeme::Number(b),
        Lexeme::Bracket(Bracket::Close),
        Lexeme::Operator(o2),
        Lexeme::Number(c),
    ];
    let num = literal_values::<V>();
    let app = operations::<V>();
    let inner = V::applied(o1, V::value_of(a), V::value_of(b));
    let r = V::applied(o2, inner, V::value_of(c));
    reveal_with_fuel(parse_sums, 3);
    reveal_with_fuel(parse_products, 3);
    reveal_with_fuel(sums_value, 3);
    reveal_with_fuel(products_value, 3);
    assert(factor_value(ts, 1, num, app) == Some((V::value_of(a), 2int)));
    assert(factor_value(ts, 3, num, app) == Some((V::value_of(b), 4int)));
    assert(factor_value(ts, 6, num, app) == Some((V::value_of(c), 7int)));
    assert(parse_factor(ts, 1)->Some_0.1 == 2);
    assert(parse_factor(ts, 3)->Some_0.1 == 4);
    assert(parse_factor(ts, 6)->Some_0.1 == 7);
    if is_additive(ts[2]) {
        assert(term_value(ts, 1, num, app) == Some((V::value_of(a), 2int)));
        assert(term_value(ts, 3, num, app) == Some((V::value_of(b), 4int)));
        assert(parse_term(ts, 1)->Some_0.1 == 2);
        assert(parse_term(ts, 3)->Some_0.1 == 4);
        assert(sums_value(ts, 2, V::value_of(a), num, app) == Some((inner, 4int)));
        assert(parse_sums(ts, 2, parse_term(ts, 1)->Some_0.0)->Some_0.1 == 4);
    } else {
        assert(products_value(ts, 2, V::value_of(a), num, app) == Some((inner, 4int)));
        assert(parse_products(ts, 2, parse_factor(ts, 1)->Some_0.0)->Some_0.1 == 4);
        assert(term_value(ts, 1, num, app) == Some((inner, 4int)));
        assert(parse_term(ts, 1)->Some_0.1 == 4);
    }
    assert(expr_value(ts, 1, num, app) == Some((inner, 4int)));
    assert(parse_expr(ts, 1)->Some_0.1 == 4);
    assert(factor_value(ts, 0, num, app) == Some((inner, 5int)));
    assert(parse_factor(ts, 0)->Some_0.1 == 5);
    if is_additive(ts[5]) {
        assert(term_value(ts, 0, num, app) == Some((inner, 5int)));
        assert(parse_term(ts, 0)->Some_0.1 == 5);
        assert(term_value(ts, 6, num, app) == Some((V::value_of(c), 7int)));
        assert(parse_term(ts, 6)->Some_0.1 == 7);
        assert(sums_value(ts, 5, inner, num, app) == Some((r, 7int)));
        assert(parse_sums(ts, 5, parse_term(ts, 0)->Some_0.0)->Some_0.1 == 7);
    } else {
        assert(products_value(ts, 5, inner, num, app) == Some((r, 7int)));
        assert(parse_products(ts, 5, parse_factor(ts, 0)->Some_0.0)->Some_0.1 == 7);
        assert(term_value(ts, 0, num, app) == Some((r, 7int)));
        assert(parse_term(ts, 0)->Some_0.1 == 7);
    }
    assert(parse_expr(ts, 0) is Some);
    assert(plan_of(ts) is Some);
}

/// A lone number is an expression whose value is that of its literal.
pub proof fn lemma_single_number<V: Arithmetic>(a: Seq<char>)
    ensures
        tokens_value::<V>(seq![Lexeme::Number(a)]) == Ok::<V, CalcError>(V::value_of(a)),
{
    let ts = seq![Lexeme::Number(a)];
    assert(parse_factor(ts, 0)->Some_0.1 == 1);
    assert(parse_term(ts, 0)->Some_0.1 == 1);
    assert(parse_expr(ts, 0)->Some_0.1 == 1);
    assert(plan_of(ts) is Some);
}

} // verus!
