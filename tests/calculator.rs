use calculator::evaluator::{plan, Step};
use calculator::machine::{Arithmetic, LiteralText};
use calculator::scanner::{remove_spaces, scan, scan_chars};
use calculator::token::{Bracket, CalcError, Op, Token};
use calculator::{calculate, evaluate};

#[derive(Debug, Clone, Copy, PartialEq)]
struct Float(f64);

impl Arithmetic for Float {
    fn value_of(_literal: LiteralText) -> Float {
        unreachable!("specification only")
    }

    fn applied(_op: Op, _lhs: Float, _rhs: Float) -> Float {
        unreachable!("specification only")
    }

    fn number(literal: &Vec<char>) -> Float {
        let text: String = literal.iter().collect();
        Float(text.parse::<f64>().unwrap())
    }

    fn apply(op: Op, lhs: Float, rhs: Float) -> Float {
        Float(match op {
            Op::Add => lhs.0 + rhs.0,
            Op::Sub => lhs.0 - rhs.0,
            Op::Mul => lhs.0 * rhs.0,
            Op::Div => lhs.0 / rhs.0,
        })
    }
}

fn value(input: &str) -> f64 {
    calculate::<Float>(input).unwrap().0
}

fn error(input: &str) -> CalcError {
    calculate::<Float>(input).unwrap_err()
}

fn num(text: &str) -> Token {
    Token::Number(text.chars().collect())
}

#[test]
fn left_associative_division() {
    assert_eq!(value("8/4/2"), 1.0);
}

#[test]
fn left_associative_subtraction() {
    assert_eq!(value("10-4-3"), 3.0);
}

#[test]
fn multiplication_before_addition() {
    assert_eq!(value("2+3*4"), 14.0);
}

#[test]
fn parentheses_group_first() {
    assert_eq!(value("(2+3)*4"), 20.0);
}

#[test]
fn nested_grouping() {
    let v = value("100*(10-2/3)");
    assert_eq!(v, 100.0 * (10.0 - 2.0 / 3.0));
    assert!((v - 933.333_333_333_333_3).abs() < 1e-9);
}

#[test]
fn deep_nesting() {
    assert_eq!(value("((((7))))"), 7.0);
    assert_eq!(value("2*(3+(4-1)*2)/3"), 6.0);
}

#[test]
fn division_by_zero_is_infinite() {
    let v = value("5/0");
    assert!(v.is_infinite() && v > 0.0);
}

#[test]
fn zero_over_zero_is_nan() {
    assert!(value("0/0").is_nan());
}

#[test]
fn unknown_character_is_lex_error() {
    assert_eq!(error("2+a"), CalcError::LexError);
    assert_eq!(scan("x").unwrap_err(), CalcError::LexError);
    assert_eq!(error("2^3"), CalcError::LexError);
}

#[test]
fn malformed_number_is_number_format_error() {
    assert_eq!(error("1.2.3"), CalcError::NumberFormatError);
    assert_eq!(scan(".").unwrap_err(), CalcError::NumberFormatError);
    assert_eq!(scan("1..").unwrap_err(), CalcError::NumberFormatError);
}

#[test]
fn first_fault_wins() {
    assert_eq!(error("1.2.3+a"), CalcError::NumberFormatError);
    assert_eq!(error("a+1.2.3"), CalcError::LexError);
}

#[test]
fn spaces_are_insignificant() {
    assert_eq!(value("2 + 3"), value("2+3"));
    assert_eq!(value(" 1 2 "), 12.0);
    assert_eq!(value("2 + 3"), 5.0);
    assert_eq!(value("2 + 3").to_bits(), value("2+3").to_bits());
    assert_eq!(remove_spaces(" a b "), vec!['a', 'b']);
}

#[test]
fn single_number() {
    assert_eq!(value("42"), 42.0);
    let tokens = scan("42").unwrap();
    assert_eq!(tokens, vec![num("42")]);
    assert_eq!(plan(&tokens).unwrap(), vec![Step::Push(0)]);
}

#[test]
fn literal_forms() {
    assert_eq!(value("5."), 5.0);
    assert_eq!(value(".5"), 0.5);
    assert_eq!(value("007.25"), 7.25);
}

#[test]
fn evaluation_is_deterministic() {
    let a = value("100*(10-2/3)");
    let b = value("100*(10-2/3)");
    assert_eq!(a.to_bits(), b.to_bits());
}

#[test]
fn scan_produces_tokens_in_order() {
    let tokens = scan("(1.5+2)*3/4-5").unwrap();
    assert_eq!(
        tokens,
        vec![
            Token::Bracket(Bracket::Open),
            num("1.5"),
            Token::Operator(Op::Add),
            num("2"),
            Token::Bracket(Bracket::Close),
            Token::Operator(Op::Mul),
            num("3"),
            Token::Operator(Op::Div),
            num("4"),
            Token::Operator(Op::Sub),
            num("5"),
        ]
    );
}

#[test]
fn scan_empty_input() {
    assert_eq!(scan("").unwrap(), vec![]);
}

#[test]
fn scanner_refuses_spaces() {
    assert_eq!(scan("2 + 3").unwrap_err(), CalcError::LexError);
    assert_eq!(scan(" ").unwrap_err(), CalcError::LexError);
    assert_eq!(scan_chars(&remove_spaces("2 + 3")).unwrap(), scan("2+3").unwrap());
}

#[test]
fn left_associative_mixed_tier() {
    assert_eq!(value("1-2-3"), -4.0);
    assert_eq!(value("2*3/4*2"), 3.0);
}

#[test]
fn plan_follows_precedence() {
    let tokens = scan("2+3*4").unwrap();
    assert_eq!(
        plan(&tokens).unwrap(),
        vec![
            Step::Push(0),
            Step::Push(2),
            Step::Push(4),
            Step::Apply(Op::Mul),
            Step::Apply(Op::Add),
        ]
    );
}

#[test]
fn plan_is_left_associative() {
    let tokens = scan("8/4/2").unwrap();
    assert_eq!(
        plan(&tokens).unwrap(),
        vec![
            Step::Push(0),
            Step::Push(2),
            Step::Apply(Op::Div),
            Step::Push(4),
            Step::Apply(Op::Div),
        ]
    );
}

#[test]
fn missing_close_bracket_is_syntax_error() {
    assert_eq!(error("(2+3"), CalcError::SyntaxError);
    assert_eq!(error("(2+3*4"), CalcError::SyntaxError);
}

#[test]
fn trailing_tokens_are_syntax_error() {
    assert_eq!(error("2+3)"), CalcError::SyntaxError);
    assert_eq!(error("2 3*"), CalcError::SyntaxError);
    assert_eq!(error("(1)(2)"), CalcError::SyntaxError);
}

#[test]
fn missing_operand_is_syntax_error() {
    assert_eq!(error(""), CalcError::SyntaxError);
    assert_eq!(error("2+"), CalcError::SyntaxError);
    assert_eq!(error("2*/3"), CalcError::SyntaxError);
    assert_eq!(error("()"), CalcError::SyntaxError);
}

#[test]
fn unary_minus_is_syntax_error() {
    assert_eq!(error("-5"), CalcError::SyntaxError);
    assert_eq!(error("2*-3"), CalcError::SyntaxError);
}

#[test]
fn evaluate_on_tokens() {
    let tokens = vec![num("6"), Token::Operator(Op::Div), num("4")];
    assert_eq!(evaluate::<Float>(&tokens).unwrap(), Float(1.5));
    let bad = vec![Token::Operator(Op::Add)];
    assert_eq!(evaluate::<Float>(&bad).unwrap_err(), CalcError::SyntaxError);
}

#[test]
fn error_messages() {
    assert_eq!(CalcError::LexError.message(), "unknown character");
    assert_eq!(CalcError::NumberFormatError.message(), "malformed number");
    assert_eq!(CalcError::SyntaxError.message(), "syntax error");
}
