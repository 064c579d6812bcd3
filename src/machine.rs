//! Carrying out the steps of an evaluation on a stack of values, for any
//! number type.
use vstd::prelude::*;
use crate::evaluator::{
    Step,
    is_additive,
    is_multiplicative,
    parse_expr,
    parse_factor,
    parse_products,
    parse_sums,
    parse_term,
    plan_of,
};
use crate::scanner::{is_number_literal, numbers_well_formed};
use crate::semantics::run_steps;
use crate::token::{Lexeme, Op, Token, lexemes};

verus! {

/// The characters of a number literal, as the specification sees them.
pub type LiteralText = Seq<char>;

/// The numbers that an evaluation works on, as the caller chooses them: the
/// value of a literal and the four operations. Implementations outside this
/// crate (floating point among them) are held to these contracts by their
/// authors, not by a proof. The two specification functions are never called
/// at run time.
pub trait Arithmetic: Sized {
    /// The value of a decimal literal.
    spec fn value_of(literal: LiteralText) -> Self;

    /// The value of `lhs op rhs`.
    spec fn applied(op: Op, lhs: Self, rhs: Self) -> Self;

    /// The value of a decimal literal: digits with at most one point and at
    /// least one digit.
    fn number(literal: &Vec<char>) -> (r: Self)
        requires
            is_number_literal(literal@),
        ensures
            r == Self::value_of(literal@),
    ;

    /// `lhs op rhs`.
    fn apply(op: Op, lhs: Self, rhs: Self) -> (r: Self)
        ensures
            r == Self::applied(op, lhs, rhs),
    ;
}

/// The values of literals under `V`.
pub open spec fn literal_values<V: Arithmetic>() -> spec_fn(Seq<char>) -> V {
    |t: Seq<char>| V::value_of(t)
}

/// The operations of `V`.
pub open spec fn operations<V: Arithmetic>() -> spec_fn(Op, V, V) -> V {
    |op: Op, a: V, b: V| V::applied(op, a, b)
}

/// The number of values on the stack after `steps`, started on `depth`
/// values, or `None` where an `Apply` would find fewer than two.
pub open spec fn depth_after(steps: Seq<Step>, depth: int) -> Option<int>
    decreases steps.len(),
{
    if steps.len() == 0 {
        Some(depth)
    } else {
        match steps[0] {
            Step::Push(_) => depth_after(steps.drop_first(), depth + 1),
            Step::Apply(_) => if depth >= 2 {
                depth_after(steps.drop_first(), depth - 1)
            } else {
                None
            },
        }
    }
}

/// Every `Push` of `steps` names a number token of `ts`.
pub open spec fn pushes_numbers(ts: Seq<Lexeme>, steps: Seq<Step>) -> bool {
    forall|k: int|
        0 <= k < steps.len() && #[trigger] steps[k] is Push ==> {
            &&& steps[k]->Push_0 < ts.len()
            &&& ts[steps[k]->Push_0 as int] is Number
        }
}

/// Steps that leave exactly one more value than they found and only load
/// numbers of `ts`.
pub open spec fn computes_one(ts: Seq<Lexeme>, steps: Seq<Step>) -> bool {
    &&& forall|d: int| d >= 0 ==> #[trigger] depth_after(steps, d) == Some(d + 1)
    &&& pushes_numbers(ts, steps)
}

proof fn lemma_depth_concat(a: Seq<Step>, b: Seq<Step>, d: int)
    ensures
        depth_after(a + b, d) == match depth_after(a, d) {
            Some(e) => depth_after(b, e),
            None => None,
        },
    decreases a.len(),
{
    if a.len() > 0 {
        assert((a + b).drop_first() =~= a.drop_first() + b);
        let e = match a[0] {
            Step::Push(_) => d + 1,
            Step::Apply(_) => d - 1,
        };
        lemma_depth_concat(a.drop_first(), b, e);
    } else {
        assert(a + b =~= b);
    }
}

/// Extending `acc` by an operand and the operator that combines them keeps
/// it a computation of one value.
proof fn lemma_extend(ts: Seq<Lexeme>, acc: Seq<Step>, code: Seq<Step>, op: Op)
    requires
        computes_one(ts, acc),
        computes_one(ts, code),
    ensures
        computes_one(ts, acc + code + seq![Step::Apply(op)]),
{
    let tail = seq![Step::Apply(op)];
    let all = acc + code + tail;
    assert forall|d: int| d >= 0 implies #[trigger] depth_after(all, d) == Some(d + 1) by {
        lemma_depth_concat(acc + code, tail, d);
        lemma_depth_concat(acc, code, d);
        assert(depth_after(acc, d) == Some(d + 1));
        assert(depth_after(code, d + 1) == Some(d + 2));
        assert(tail.drop_first() =~= Seq::<Step>::empty());
        reveal_with_fuel(depth_after, 2);
    }
    assert forall|k: int| 0 <= k < all.len() && #[trigger] all[k] is Push implies {
        &&& all[k]->Push_0 < ts.len()
        &&& ts[all[k]->Push_0 as int] is Number
    } by {
        if k < acc.len() {
            assert(all[k] == acc[k]);
        } else if k < acc.len() + code.len() {
            assert(all[k] == code[k - acc.len()]);
        }
    }
}

proof fn lemma_expr_computes(ts: Seq<Lexeme>, i: int)
    requires
        ts.len() <= usize::MAX,
        parse_expr(ts, i) is Some,
    ensures
        computes_one(ts, parse_expr(ts, i)->Some_0.0),
    decreases ts.len() - i, 4int,
{
    let (code, j) = parse_term(ts, i)->Some_0;
    lemma_term_computes(ts, i);
    lemma_sums_computes(ts, j, code);
}

proof fn lemma_sums_computes(ts: Seq<Lexeme>, i: int, acc: Seq<Step>)
    requires
        ts.len() <= usize::MAX,
        parse_sums(ts, i, acc) is Some,
        computes_one(ts, acc),
        i <= ts.len(),
    ensures
        computes_one(ts, parse_sums(ts, i, acc)->Some_0.0),
    decreases ts.len() - i, 3int,
{
    if 0 <= i < ts.len() && is_additive(ts[i]) {
        let op = ts[i]->Operator_0;
        let (code, j) = parse_term(ts, i + 1)->Some_0;
        lemma_term_computes(ts, i + 1);
        lemma_extend(ts, acc, code, op);
        lemma_sums_computes(ts, j, acc + code + seq![Step::Apply(op)]);
    }
}

proof fn lemma_term_computes(ts: Seq<Lexeme>, i: int)
    requires
        ts.len() <= usize::MAX,
        parse_term(ts, i) is Some,
    ensures
        computes_one(ts, parse_term(ts, i)->Some_0.0),
    decreases ts.len() - i, 2int,
{
    let (code, j) = parse_factor(ts, i)->Some_0;
    lemma_factor_computes(ts, i);
    lemma_products_computes(ts, j, code);
}

proof fn lemma_products_computes(ts: Seq<Lexeme>, i: int, acc: Seq<Step>)
    requires
        ts.len() <= usize::MAX,
        parse_products(ts, i, acc) is Some,
        computes_one(ts, acc),
        i <= ts.len(),
    ensures
        computes_one(ts, parse_products(ts, i, acc)->Some_0.0),
    decreases ts.len() - i, 1int,
{
    if 0 <= i < ts.len() && is_multiplicative(ts[i]) {
        let op = ts[i]->Operator_0;
        let (code, j) = parse_factor(ts, i + 1)->Some_0;
        lemma_factor_computes(ts, i + 1);
        lemma_extend(ts, acc, code, op);
        lemma_products_computes(ts, j, acc + code + seq![Step::Apply(op)]);
    }
}

proof fn lemma_factor_computes(ts: Seq<Lexeme>, i: int)
    requires
        ts.len() <= usize::MAX,
        parse_factor(ts, i) is Some,
    ensures
        computes_one(ts, parse_factor(ts, i)->Some_0.0),
    decreases ts.len() - i, 0int,
{
    if ts[i] is Number {
        let code = seq![Step::Push(i as usize)];
        assert forall|d: int| d >= 0 implies #[trigger] depth_after(code, d) == Some(d + 1) by {
            assert(code.drop_first() =~= Seq::<Step>::empty());
            reveal_with_fuel(depth_after, 2);
        }
    } else {
        lemma_expr_computes(ts, i + 1);
    }
}

/// The steps of a well-formed token sequence compute exactly one value, and
/// load only its number tokens.
pub proof fn lemma_plan_computes_one(ts: Seq<Lexeme>)
    requires
        ts.len() <= usize::MAX,
        plan_of(ts) is Some,
    ensures
        computes_one(ts, plan_of(ts)->Some_0),
{
    lemma_expr_computes(ts, 0);
}

/// Carries out `steps` on a stack of values and returns the one value left.
pub fn run<V: Arithmetic>(tokens: &Vec<Token>, steps: &Vec<Step>) -> (r: V)
    requires
        computes_one(lexemes(tokens@), steps@),
        numbers_well_formed(lexemes(tokens@)),
    ensures
        seq![r] == run_steps(
            lexemes(tokens@),
            steps@,
            Seq::<V>::empty(),
            literal_values::<V>(),
            operations::<V>(),
        ),
{
    let ghost num = literal_values::<V>();
    let ghost app = operations::<V>();
    let ghost ts = lexemes(tokens@);
    let n = steps.len();
    let mut stack: Vec<V> = Vec::new();
    let mut k: usize = 0;
    assert(depth_after(steps@, 0) == Some(1int));
    assert(steps@.subrange(0, n as int) =~= steps@);
    while k < n
        invariant
            n == steps@.len(),
            k <= n,
            ts == lexemes(tokens@),
            pushes_numbers(ts, steps@),
            numbers_well_formed(ts),
            num == literal_values::<V>(),
            app == operations::<V>(),
            run_steps(ts, steps@, Seq::<V>::empty(), num, app) == run_steps(
                ts,
                steps@.subrange(k as int, n as int),
                stack@,
                num,
                app,
            ),
            depth_after(steps@.subrange(k as int, n as int), stack@.len() as int) == Some(1int),
        decreases n - k,
    {
        let ghost rest = steps@.subrange(k as int, n as int);
        assert(rest.drop_first() =~= steps@.subrange(k + 1, n as int));
        assert(rest[0] == steps@[k as int]);
        match steps[k] {
            Step::Push(idx) => {
                assert(steps@[k as int] is Push);
                assert(ts[idx as int] == tokens@[idx as int]@);
                match &tokens[idx] {
                    Token::Number(text) => {
                        assert(ts[idx as int] is Number);
                        stack.push(V::number(text));
                    },
                    _ => {
                        assert(false);
                    },
                }
            },
            Step::Apply(op) => {
                let ghost before = stack@;
                let rhs = stack.pop().unwrap();
                let lhs = stack.pop().unwrap();
                stack.push(V::apply(op, lhs, rhs));
                assert(stack@ =~= before.drop_last().drop_last().push(
                    app(op, before[before.len() - 2], before.last()),
                ));
            },
        }
        k = k + 1;
    }
    assert(steps@.subrange(n as int, n as int).len() == 0);
    assert(stack@.len() == 1);
    let ghost last = stack@;
    let r = stack.pop().unwrap();
    assert(last =~= seq![r]);
    r
}

} // verus!
