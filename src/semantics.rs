//! What an expression means, for any arithmetic given as functions on values,
//! and the proof that the evaluator's steps compute exactly that.
use vstd::prelude::*;
use crate::evaluator::{
    Step,
    is_additive,
    is_multiplicative,
    parse_expr,
    parse_factor,
    parse_products,
    parse_sums,
    parse_term,
    plan_of,
};
use crate::token::{Bracket, Lexeme, Op};

verus! {

/// The stack after carrying out `steps` on `stack`: a `Push` loads the value
/// of a number token, an `Apply` replaces the two topmost values `a`, `b`
/// (`b` on top) with `app(op, a, b)`.
pub open spec fn run_steps<V>(
    ts: Seq<Lexeme>,
    steps: Seq<Step>,
    stack: Seq<V>,
    num: spec_fn(Seq<char>) -> V,
    app: spec_fn(Op, V, V) -> V,
) -> Seq<V>
    decreases steps.len(),
{
    if steps.len() == 0 {
        stack
    } else {
        let next = match steps[0] {
            Step::Push(k) => stack.push(num(ts[k as int]->Number_0)),
            Step::Apply(op) => stack.drop_last().drop_last().push(
                app(op, stack[stack.len() - 2], stack.last()),
            ),
        };
        run_steps(ts, steps.drop_first(), next, num, app)
    }
}

/// The value of the `expr` at position `i` and the position past it: the
/// terms combined from left to right.
pub open spec fn expr_value<V>(
    ts: Seq<Lexeme>,
    i: int,
    num: spec_fn(Seq<char>) -> V,
    app: spec_fn(Op, V, V) -> V,
) -> Option<(V, int)>
    decreases ts.len() - i, 4int,
{
    match term_value(ts, i, num, app) {
        Some((v, j)) => if i < j <= ts.len() {
            sums_value(ts, j, v, num, app)
        } else {
            None
        },
        None => None,
    }
}

/// The `(('+' | '-') term)*` tail at `i`, folded onto `acc` from the left.
pub open spec fn sums_value<V>(
    ts: Seq<Lexeme>,
    i: int,
    acc: V,
    num: spec_fn(Seq<char>) -> V,
    app: spec_fn(Op, V, V) -> V,
) -> Option<(V, int)>
    decreases ts.len() - i, 3int,
{
    if 0 <= i < ts.len() && is_additive(ts[i]) {
        match term_value(ts, i + 1, num, app) {
            Some((v, j)) => if i + 1 < j <= ts.len() {
                sums_value(ts, j, app(ts[i]->Operator_0, acc, v), num, app)
            } else {
                None
            },
            None => None,
        }
    } else {
        Some((acc, i))
    }
}

/// The value of the `term` at position `i`: the factors combined from left
/// to right.
pub open spec fn term_value<V>(
    ts: Seq<Lexeme>,
    i: int,
    num: spec_fn(Seq<char>) -> V,
    app: spec_fn(Op, V, V) -> V,
) -> Option<(V, int)>
    decreases ts.len() - i, 2int,
{
    match factor_value(ts, i, num, app) {
        Some((v, j)) => if i < j <= ts.len() {
            products_value(ts, j, v, num, app)
        } else {
            None
        },
        None => None,
    }
}

/// The `(('*' | '/') factor)*` tail at `i`, folded onto `acc` from the left.
pub open spec fn products_value<V>(
    ts: Seq<Lexeme>,
    i: int,
    acc: V,
    num: spec_fn(Seq<char>) -> V,
    app: spec_fn(Op, V, V) -> V,
) -> Option<(V, int)>
    decreases ts.len() - i, 1int,
{
    if 0 <= i < ts.len() && is_multiplicative(ts[i]) {
        match factor_value(ts, i + 1, num, app) {
            Some((v, j)) => if i + 1 < j <= ts.len() {
                products_value(ts, j, app(ts[i]->Operator_0, acc, v), num, app)
            } else {
                None
            },
            None => None,
        }
    } else {
        Some((acc, i))
    }
}

/// The value of the `factor` at position `i`: a number's value, or the value
/// of the parenthesised `expr`.
pub open spec fn factor_value<V>(
    ts: Seq<Lexeme>,
    i: int,
    num: spec_fn(Seq<char>) -> V,
    app: spec_fn(Op, V, V) -> V,
) -> Option<(V, int)>
    decreases ts.len() - i, 0int,
{
    if 0 <= i < ts.len() {
        match ts[i] {
            Lexeme::Number(text) => Some((num(text), i + 1)),
            Lexeme::Bracket(Bracket::Open) => match expr_value(ts, i + 1, num, app) {
                Some((v, j)) => if 0 <= j < ts.len() && ts[j] == Lexeme::Bracket(Bracket::Close) {
                    Some((v, j + 1))
                } else {
                    None
                },
                None => None,
            },
            _ => None,
        }
    } else {
        None
    }
}

/// `steps` push exactly `v` onto any stack.
pub open spec fn pushes_value<V>(
    ts: Seq<Lexeme>,
    steps: Seq<Step>,
    v: V,
    num: spec_fn(Seq<char>) -> V,
    app: spec_fn(Op, V, V) -> V,
) -> bool {
    forall|st: Seq<V>| #[trigger] run_steps(ts, steps, st, num, app) == st.push(v)
}

proof fn lemma_run_concat<V>(
    ts: Seq<Lexeme>,
    a: Seq<Step>,
    b: Seq<Step>,
    st: Seq<V>,
    num: spec_fn(Seq<char>) -> V,
    app: spec_fn(Op, V, V) -> V,
)
    ensures
        run_steps(ts, a + b, st, num, app) == run_steps(ts, b, run_steps(ts, a, st, num, app), num, app),
    decreases a.len(),
{
    if a.len() > 0 {
        assert((a + b).drop_first() =~= a.drop_first() + b);
        assert((a + b)[0] == a[0]);
        let next = match a[0] {
            Step::Push(k) => st.push(num(ts[k as int]->Number_0)),
            Step::Apply(op) => st.drop_last().drop_last().push(app(op, st[st.len() - 2], st.last())),
        };
        lemma_run_concat(ts, a.drop_first(), b, next, num, app);
    } else {
        assert(a + b =~= b);
    }
}

proof fn lemma_run_extend<V>(
    ts: Seq<Lexeme>,
    acc: Seq<Step>,
    a: V,
    code: Seq<Step>,
    b: V,
    op: Op,
    num: spec_fn(Seq<char>) -> V,
    app: spec_fn(Op, V, V) -> V,
)
    requires
        pushes_value(ts, acc, a, num, app),
        pushes_value(ts, code, b, num, app),
    ensures
        pushes_value(ts, acc + code + seq![Step::Apply(op)], app(op, a, b), num, app),
{
    let tail = seq![Step::Apply(op)];
    assert forall|st: Seq<V>|
        #[trigger] run_steps(ts, acc + code + tail, st, num, app) == st.push(app(op, a, b)) by {
        lemma_run_concat(ts, acc + code, tail, st, num, app);
        lemma_run_concat(ts, acc, code, st, num, app);
        assert(run_steps(ts, acc, st, num, app) == st.push(a));
        assert(run_steps(ts, code, st.push(a), num, app) == st.push(a).push(b));
        let s2 = st.push(a).push(b);
        assert(s2.drop_last().drop_last() =~= st);
        assert(tail.drop_first() =~= Seq::<Step>::empty());
        reveal_with_fuel(run_steps, 2);
    }
}

proof fn lemma_expr_value<V>(
    ts: Seq<Lexeme>,
    i: int,
    num: spec_fn(Seq<char>) -> V,
    app: spec_fn(Op, V, V) -> V,
)
    requires
        ts.len() <= usize::MAX,
        parse_expr(ts, i) is Some,
    ensures
        expr_value(ts, i, num, app) is Some,
        expr_value(ts, i, num, app)->Some_0.1 == parse_expr(ts, i)->Some_0.1,
        pushes_value(ts, parse_expr(ts, i)->Some_0.0, expr_value(ts, i, num, app)->Some_0.0, num, app),
    decreases ts.len() - i, 4int,
{
    let (code, j) = parse_term(ts, i)->Some_0;
    lemma_term_value(ts, i, num, app);
    let v = term_value(ts, i, num, app)->Some_0.0;
    lemma_sums_value(ts, j, code, v, num, app);
}

proof fn lemma_sums_value<V>(
    ts: Seq<Lexeme>,
    i: int,
    acc: Seq<Step>,
    a: V,
    num: spec_fn(Seq<char>) -> V,
    app: spec_fn(Op, V, V) -> V,
)
    requires
        ts.len() <= usize::MAX,
        i <= ts.len(),
        parse_sums(ts, i, acc) is Some,
        pushes_value(ts, acc, a, num, app),
    ensures
        sums_value(ts, i, a, num, app) is Some,
        sums_value(ts, i, a, num, app)->Some_0.1 == parse_sums(ts, i, acc)->Some_0.1,
        pushes_value(
            ts,
            parse_sums(ts, i, acc)->Some_0.0,
            sums_value(ts, i, a, num, app)->Some_0.0,
            num,
            app,
        ),
    decreases ts.len() - i, 3int,
{
    if 0 <= i < ts.len() && is_additive(ts[i]) {
        let op = ts[i]->Operator_0;
        let (code, j) = parse_term(ts, i + 1)->Some_0;
        lemma_term_value(ts, i + 1, num, app);
        let b = term_value(ts, i + 1, num, app)->Some_0.0;
        lemma_run_extend(ts, acc, a, code, b, op, num, app);
        lemma_sums_value(ts, j, acc + code + seq![Step::Apply(op)], app(op, a, b), num, app);
    }
}

proof fn lemma_term_value<V>(
    ts: Seq<Lexeme>,
    i: int,
    num: spec_fn(Seq<char>) -> V,
    app: spec_fn(Op, V, V) -> V,
)
    requires
        ts.len() <= usize::MAX,
        parse_term(ts, i) is Some,
    ensures
        term_value(ts, i, num, app) is Some,
        term_value(ts, i, num, app)->Some_0.1 == parse_term(ts, i)->Some_0.1,
        pushes_value(ts, parse_term(ts, i)->Some_0.0, term_value(ts, i, num, app)->Some_0.0, num, app),
    decreases ts.len() - i, 2int,
{
    let (code, j) = parse_factor(ts, i)->Some_0;
    lemma_factor_value(ts, i, num, app);
    let v = factor_value(ts, i, num, app)->Some_0.0;
    lemma_products_value(ts, j, code, v, num, app);
}

proof fn lemma_products_value<V>(
    ts: Seq<Lexeme>,
    i: int,
    acc: Seq<Step>,
    a: V,
    num: spec_fn(Seq<char>) -> V,
    app: spec_fn(Op, V, V) -> V,
)
    requires
        ts.len() <= usize::MAX,
        i <= ts.len(),
        parse_products(ts, i, acc) is Some,
        pushes_value(ts, acc, a, num, app),
    ensures
        products_value(ts, i, a, num, app) is Some,
        products_value(ts, i, a, num, app)->Some_0.1 == parse_products(ts, i, acc)->Some_0.1,
        pushes_value(
            ts,
            parse_products(ts, i, acc)->Some_0.0,
            products_value(ts, i, a, num, app)->Some_0.0,
            num,
            app,
        ),
    decreases ts.len() - i, 1int,
{
    if 0 <= i < ts.len() && is_multiplicative(ts[i]) {
        let op = ts[i]->Operator_0;
        let (code, j) = parse_factor(ts, i + 1)->Some_0;
        lemma_factor_value(ts, i + 1, num, app);
        let b = factor_value(ts, i + 1, num, app)->Some_0.0;
        lemma_run_extend(ts, acc, a, code, b, op, num, app);
        lemma_products_value(ts, j, acc + code + seq![Step::Apply(op)], app(op, a, b), num, app);
    }
}

proof fn lemma_factor_value<V>(
    ts: Seq<Lexeme>,
    i: int,
    num: spec_fn(Seq<char>) -> V,
    app: spec_fn(Op, V, V) -> V,
)
    requires
        ts.len() <= usize::MAX,
        parse_factor(ts, i) is Some,
    ensures
        factor_value(ts, i, num, app) is Some,
        factor_value(ts, i, num, app)->Some_0.1 == parse_factor(ts, i)->Some_0.1,
        pushes_value(
            ts,
            parse_factor(ts, i)->Some_0.0,
            factor_value(ts, i, num, app)->Some_0.0,
            num,
            app,
        ),
    decreases ts.len() - i, 0int,
{
    if ts[i] is Number {
        let code = seq![Step::Push(i as usize)];
        let v = num(ts[i]->Number_0);
        assert forall|st: Seq<V>| #[trigger] run_steps(ts, code, st, num, app) == st.push(v) by {
            assert(code.drop_first() =~= Seq::<Step>::empty());
            reveal_with_fuel(run_steps, 2);
        }
    } else {
        lemma_expr_value(ts, i + 1, num, app);
    }
}

/// The steps of a well-formed token sequence, carried out on an empty stack
/// with any arithmetic, leave exactly one value: the one the grammar gives
/// the whole sequence, with `*` and `/` binding tighter than `+` and `-`, and
/// operators of one tier applied from left to right.
pub proof fn lemma_plan_evaluates<V>(
    ts: Seq<Lexeme>,
    num: spec_fn(Seq<char>) -> V,
    app: spec_fn(Op, V, V) -> V,
)
    requires
        ts.len() <= usize::MAX,
        plan_of(ts) is Some,
    ensures
        expr_value(ts, 0, num, app) is Some,
        expr_value(ts, 0, num, app)->Some_0.1 == ts.len(),
        run_steps(ts, plan_of(ts)->Some_0, Seq::empty(), num, app) == seq![
            expr_value(ts, 0, num, app)->Some_0.0,
        ],
{
    lemma_expr_value(ts, 0, num, app);
    let v = expr_value(ts, 0, num, app)->Some_0.0;
    assert(run_steps(ts, plan_of(ts)->Some_0, Seq::<V>::empty(), num, app) == Seq::<V>::empty().push(v));
    assert(Seq::<V>::empty().push(v) =~= seq![v]);
}

} // verus!
