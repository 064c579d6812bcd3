use vstd::prelude::*;

verus! {

/// A binary arithmetic operator.
#[derive(Clone, Copy, Debug, PartialEq, Eq, Structural)]
pub enum Op {
    Add,
    Sub,
    Mul,
    Div,
}

/// A parenthesis.
#[derive(Clone, Copy, Debug, PartialEq, Eq, Structural)]
pub enum Bracket {
    Open,
    Close,
}

/// A lexical unit of an expression. A number keeps the characters of its
/// literal (digits and one optional decimal point); its numeric value is left
/// to the number type that evaluates it.
#[derive(Clone, Debug, PartialEq, Eq)]
pub enum Token {
    Number(Vec<char>),
    Operator(Op),
    Bracket(Bracket),
}

/// The mathematical model of a token.
pub enum Lexeme {
    Number(Seq<char>),
    Operator(Op),
    Bracket(Bracket),
}

impl View for Token {
    type V = Lexeme;

    open spec fn view(&self) -> Lexeme {
        match self {
            Token::Number(text) => Lexeme::Number(text@),
            Token::Operator(op) => Lexeme::Operator(*op),
            Token::Bracket(b) => Lexeme::Bracket(*b),
        }
    }
}

/// The models of a sequence of tokens.
pub open spec fn lexemes(ts: Seq<Token>) -> Seq<Lexeme> {
    ts.map_values(|t: Token| t@)
}

/// Why an expression could not be evaluated.
#[derive(Clone, Copy, Debug, PartialEq, Eq, Structural)]
pub enum CalcError {
    /// A character outside the token alphabet.
    LexError,
    /// A run of digits and points that is not a decimal literal.
    NumberFormatError,
    /// A token sequence that does not follow the grammar.
    SyntaxError,
}

impl CalcError {
    /// A short human-readable description of the error.
    pub fn message(&self) -> (r: &'static str)
        ensures
            r@ == match self {
                CalcError::LexError => "unknown character"@,
                CalcError::NumberFormatError => "malformed number"@,
                CalcError::SyntaxError => "syntax error"@,
            },
    {
        match self {
            CalcError::LexError => "unknown character",
            CalcError::NumberFormatError => "malformed number",
            CalcError::SyntaxError => "syntax error",
        }
    }
}

} // verus!
