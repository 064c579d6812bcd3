//! The evaluator: a recursive descent over the tokens, one function per
//! precedence tier, that yields the arithmetic steps in the order in which
//! they are performed.
//!
//!   expr   := term ( ('+' | '-') term )*
//!   term   := factor ( ('*' | '/') factor )*
//!   factor := Number | '(' expr ')'
//!
//! A closing parenthesis is required where the grammar expects one, and the
//! whole token sequence must be consumed: a missing `)` or a trailing token is
//! a `SyntaxError`.
use vstd::prelude::*;
use crate::token::{Bracket, CalcError, Lexeme, Op, Token, lexemes};

verus! {

/// One step of an evaluation: load the number of the token at the given
/// index, or combine the two most recent values with an operator (the older
/// one on the left).
#[derive(Clone, Copy, Debug, PartialEq, Eq, Structural)]
pub enum Step {
    Push(usize),
    Apply(Op),
}

pub open spec fn is_additive(t: Lexeme) -> bool {
    t == Lexeme::Operator(Op::Add) || t == Lexeme::Operator(Op::Sub)
}

pub open spec fn is_multiplicative(t: Lexeme) -> bool {
    t == Lexeme::Operator(Op::Mul) || t == Lexeme::Operator(Op::Div)
}

/// `expr` at position `i`: the steps that compute it and the position just
/// past it, or `None` where the tokens there do not form one.
pub open spec fn parse_expr(ts: Seq<Lexeme>, i: int) -> Option<(Seq<Step>, int)>
    decreases ts.len() - i, 4int,
{
    match parse_term(ts, i) {
        Some((code, j)) => if i < j <= ts.len() {
            parse_sums(ts, j, code)
        } else {
            None
        },
        None => None,
    }
}

/// The `(('+' | '-') term)*` tail of an `expr` at position `i`, after `acc`
/// has computed what stands to its left.
pub open spec fn parse_sums(ts: Seq<Lexeme>, i: int, acc: Seq<Step>) -> Option<(Seq<Step>, int)>
    decreases ts.len() - i, 3int,
{
    if 0 <= i < ts.len() && is_additive(ts[i]) {
        let op = ts[i]->Operator_0;
        match parse_term(ts, i + 1) {
            Some((code, j)) => if i + 1 < j <= ts.len() {
                parse_sums(ts, j, acc + code + seq![Step::Apply(op)])
            } else {
                None
            },
            None => None,
        }
    } else {
        Some((acc, i))
    }
}

/// `term` at position `i`.
pub open spec fn parse_term(ts: Seq<Lexeme>, i: int) -> Option<(Seq<Step>, int)>
    decreases ts.len() - i, 2int,
{
    match parse_factor(ts, i) {
        Some((code, j)) => if i < j <= ts.len() {
            parse_products(ts, j, code)
        } else {
            None
        },
        None => None,
    }
}

/// The `(('*' | '/') factor)*` tail of a `term` at position `i`.
pub open spec fn parse_products(ts: Seq<Lexeme>, i: int, acc: Seq<Step>) -> Option<
    (Seq<Step>, int),
>
    decreases ts.len() - i, 1int,
{
    if 0 <= i < ts.len() && is_multiplicative(ts[i]) {
        let op = ts[i]->Operator_0;
        match parse_factor(ts, i + 1) {
            Some((code, j)) => if i + 1 < j <= ts.len() {
                parse_products(ts, j, acc + code + seq![Step::Apply(op)])
            } else {
                None
            },
            None => None,
        }
    } else {
        Some((acc, i))
    }
}

/// `factor` at position `i`: a number, or an `expr` in parentheses.
pub open spec fn parse_factor(ts: Seq<Lexeme>, i: int) -> Option<(Seq<Step>, int)>
    decreases ts.len() - i, 0int,
{
    if 0 <= i < ts.len() {
        match ts[i] {
            Lexeme::Number(_) => Some((seq![Step::Push(i as usize)], i + 1)),
            Lexeme::Bracket(Bracket::Open) => match parse_expr(ts, i + 1) {
                Some((code, j)) => if 0 <= j < ts.len() && ts[j] == Lexeme::Bracket(Bracket::Close) {
                    Some((code, j + 1))
                } else {
                    None
                },
                None => None,
            },
            _ => None,
        }
    } else {
        None
    }
}

/// The steps of the whole token sequence, which must be one `expr`.
pub open spec fn plan_of(ts: Seq<Lexeme>) -> Option<Seq<Step>> {
    match parse_expr(ts, 0) {
        Some((code, j)) => if j == ts.len() {
            Some(code)
        } else {
            None
        },
        None => None,
    }
}

fn factor(tokens: &Vec<Token>, pos: usize, out: &mut Vec<Step>) -> (r: Result<usize, CalcError>)
    ensures
        r is Ok <==> parse_factor(lexemes(tokens@), pos as int) is Some,
        r is Ok ==> ({
            let (code, j) = parse_factor(lexemes(tokens@), pos as int)->Some_0;
            &&& r->Ok_0 as int == j
            &&& pos < j <= tokens@.len()
            &&& final(out)@ == old(out)@ + code
        }),
        r is Err ==> r->Err_0 == CalcError::SyntaxError,
    decreases tokens@.len() - pos, 0int,
{
    let ghost ts = lexemes(tokens@);
    if pos >= tokens.len() {
        return Err(CalcError::SyntaxError);
    }
    assert(ts[pos as int] == tokens@[pos as int]@);
    match &tokens[pos] {
        Token::Number(_) => {
            let ghost before = out@;
            out.push(Step::Push(pos));
            assert(out@ == before + seq![Step::Push(pos)]);
            Ok(pos + 1)
        },
        Token::Bracket(Bracket::Open) => {
            let j = expr(tokens, pos + 1, out)?;
            if j < tokens.len() {
                assert(ts[j as int] == tokens@[j as int]@);
                match &tokens[j] {
                    Token::Bracket(Bracket::Close) => Ok(j + 1),
                    _ => Err(CalcError::SyntaxError),
                }
            } else {
                Err(CalcError::SyntaxError)
            }
        },
        _ => Err(CalcError::SyntaxError),
    }
}

fn term(tokens: &Vec<Token>, pos: usize, out: &mut Vec<Step>) -> (r: Result<usize, CalcError>)
    ensures
        r is Ok <==> parse_term(lexemes(tokens@), pos as int) is Some,
        r is Ok ==> ({
            let (code, j) = parse_term(lexemes(tokens@), pos as int)->Some_0;
            &&& r->Ok_0 as int == j
            &&& pos < j <= tokens@.len()
            &&& final(out)@ == old(out)@ + code
        }),
        r is Err ==> r->Err_0 == CalcError::SyntaxError,
    decreases tokens@.len() - pos, 2int,
{
    let ghost ts = lexemes(tokens@);
    let ghost start = out@;
    let mut cur = match factor(tokens, pos, out) {
        Ok(j) => j,
        Err(e) => {
            return Err(e);
        },
    };
    let ghost mut acc = out@.subrange(start.len() as int, out@.len() as int);
    proof {
        let (code, j) = parse_factor(ts, pos as int)->Some_0;
        assert(acc =~= code);
        assert(j == cur);
    }
    while cur < tokens.len()
        invariant
            ts == lexemes(tokens@),
            pos < cur <= tokens@.len(),
            out@ == start + acc,
            parse_term(ts, pos as int) == parse_products(ts, cur as int, acc),
        ensures
            parse_term(ts, pos as int) == Some((acc, cur as int)),
            pos < cur <= tokens@.len(),
            out@ == start + acc,
        decreases tokens@.len() - cur,
    {
        assert(ts[cur as int] == tokens@[cur as int]@);
        let op = match &tokens[cur] {
            Token::Operator(Op::Mul) => Op::Mul,
            Token::Operator(Op::Div) => Op::Div,
            _ => break,
        };
        let ghost mid = out@;
        let j = match factor(tokens, cur + 1, out) {
            Ok(j) => j,
            Err(e) => {
                return Err(e);
            },
        };
        let ghost code = out@.subrange(mid.len() as int, out@.len() as int);
        proof {
            let (c, k) = parse_factor(ts, cur + 1)->Some_0;
            assert(code =~= c);
            assert(k == j);
        }
        out.push(Step::Apply(op));
        proof {
            acc = acc + code + seq![Step::Apply(op)];
            assert(out@ =~= start + acc);
        }
        cur = j;
    }
    Ok(cur)
}

fn expr(tokens: &Vec<Token>, pos: usize, out: &mut Vec<Step>) -> (r: Result<usize, CalcError>)
    ensures
        r is Ok <==> parse_expr(lexemes(tokens@), pos as int) is Some,
        r is Ok ==> ({
            let (code, j) = parse_expr(lexemes(tokens@), pos as int)->Some_0;
            &&& r->Ok_0 as int == j
            &&& pos < j <= tokens@.len()
            &&& final(out)@ == old(out)@ + code
        }),
        r is Err ==> r->Err_0 == CalcError::SyntaxError,
    decreases tokens@.len() - pos, 4int,
{
    let ghost ts = lexemes(tokens@);
    let ghost start = out@;
    let mut cur = match term(tokens, pos, out) {
        Ok(j) => j,
        Err(e) => {
            return Err(e);
        },
    };
    let ghost mut acc = out@.subrange(start.len() as int, out@.len() as int);
    proof {
        let (code, j) = parse_term(ts, pos as int)->Some_0;
        assert(acc =~= code);
        assert(j == cur);
    }
    while cur < tokens.len()
        invariant
            ts == lexemes(tokens@),
            pos < cur <= tokens@.len(),
            out@ == start + acc,
            parse_expr(ts, pos as int) == parse_sums(ts, cur as int, acc),
        ensures
            parse_expr(ts, pos as int) == Some((acc, cur as int)),
            pos < cur <= tokens@.len(),
            out@ == start + acc,
        decreases tokens@.len() - cur,
    {
        assert(ts[cur as int] == tokens@[cur as int]@);
        let op = match &tokens[cur] {
            Token::Operator(Op::Add) => Op::Add,
            Token::Operator(Op::Sub) => Op::Sub,
            _ => break,
        };
        let ghost mid = out@;
        let j = match term(tokens, cur + 1, out) {
            Ok(j) => j,
            Err(e) => {
                return Err(e);
            },
        };
        let ghost code = out@.subrange(mid.len() as int, out@.len() as int);
        proof {
            let (c, k) = parse_term(ts, cur + 1)->Some_0;
            assert(code =~= c);
            assert(k == j);
        }
        out.push(Step::Apply(op));
        proof {
            acc = acc + code + seq![Step::Apply(op)];
            assert(out@ =~= start + acc);
        }
        cur = j;
    }
    Ok(cur)
}

/// The steps that evaluate `tokens` under the usual precedence (`*` and `/`
/// before `+` and `-`) and left associativity, or `SyntaxError` where the
/// tokens are not one expression.
pub fn plan(tokens: &Vec<Token>) -> (r: Result<Vec<Step>, CalcError>)
    ensures
        match r {
            Ok(steps) => plan_of(lexemes(tokens@)) == Some(steps@),
            Err(e) => e == CalcError::SyntaxError && plan_of(lexemes(tokens@)) is None,
        },
{
    let mut out: Vec<Step> = Vec::new();
    let end = expr(tokens, 0, &mut out)?;
    if end == tokens.len() {
        assert(out@ =~= Seq::<Step>::empty() + out@);
        Ok(out)
    } else {
        Err(CalcError::SyntaxError)
    }
}

} // verus!
