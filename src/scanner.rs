//! The scanner: text to tokens.
use vstd::prelude::*;
use crate::token::{Bracket, CalcError, Lexeme, Op, Token, lexemes};

verus! {

pub open spec fn is_digit(c: char) -> bool {
    '0' <= c <= '9'
}

/// A character that belongs to a numeric literal.
pub open spec fn is_literal_char(c: char) -> bool {
    is_digit(c) || c == '.'
}

/// The text with every space removed.
pub open spec fn without_spaces(s: Seq<char>) -> Seq<char>
    decreases s.len(),
{
    if s.len() == 0 {
        s
    } else if s.last() == ' ' {
        without_spaces(s.drop_last())
    } else {
        without_spaces(s.drop_last()).push(s.last())
    }
}

/// The number of decimal points in `t`.
pub open spec fn dot_count(t: Seq<char>) -> nat
    decreases t.len(),
{
    if t.len() == 0 {
        0
    } else if t.last() == '.' {
        dot_count(t.drop_last()) + 1
    } else {
        dot_count(t.drop_last())
    }
}

/// The length of the longest run of literal characters that starts at `i`.
pub open spec fn literal_run(s: Seq<char>, i: int) -> nat
    decreases s.len() - i,
{
    if 0 <= i < s.len() && is_literal_char(s[i]) {
        1 + literal_run(s, i + 1)
    } else {
        0
    }
}

/// A decimal number: digits and points only, at most one point and at least
/// one digit (`7`, `3.25`, `5.`, `.5`; not `.` nor `1.2.3`).
pub open spec fn is_number_literal(t: Seq<char>) -> bool {
    &&& forall|i: int| 0 <= i < t.len() ==> is_literal_char(#[trigger] t[i])
    &&& dot_count(t) <= 1
    &&& dot_count(t) < t.len()
}

/// Every number token holds a decimal number.
pub open spec fn numbers_well_formed(ts: Seq<Lexeme>) -> bool {
    forall|k: int| 0 <= k < ts.len() && #[trigger] ts[k] is Number ==> is_number_literal(ts[k]->Number_0)
}

/// The token of a single-character symbol, if `c` is one.
pub open spec fn symbol(c: char) -> Option<Lexeme> {
    if c == '+' {
        Some(Lexeme::Operator(Op::Add))
    } else if c == '-' {
        Some(Lexeme::Operator(Op::Sub))
    } else if c == '*' {
        Some(Lexeme::Operator(Op::Mul))
    } else if c == '/' {
        Some(Lexeme::Operator(Op::Div))
    } else if c == '(' {
        Some(Lexeme::Bracket(Bracket::Open))
    } else if c == ')' {
        Some(Lexeme::Bracket(Bracket::Close))
    } else {
        None
    }
}

/// `ts` followed by the tokens of `r`, or the error of `r`.
pub open spec fn prepend(ts: Seq<Lexeme>, r: Result<Seq<Lexeme>, CalcError>) -> Result<
    Seq<Lexeme>,
    CalcError,
> {
    match r {
        Ok(rest) => Ok(ts + rest),
        Err(e) => Err(e),
    }
}

/// Scanning of `s` from position `i` on, left to right: the first fault met
/// is the error.
pub open spec fn scan_from(s: Seq<char>, i: int) -> Result<Seq<Lexeme>, CalcError>
    decreases s.len() - i,
{
    if i < 0 || i >= s.len() {
        Ok(Seq::empty())
    } else if is_literal_char(s[i]) {
        let end = i + literal_run(s, i);
        let text = s.subrange(i, end);
        if !is_number_literal(text) {
            Err(CalcError::NumberFormatError)
        } else if i < end <= s.len() {
            prepend(seq![Lexeme::Number(text)], scan_from(s, end))
        } else {
            Ok(Seq::empty())
        }
    } else {
        match symbol(s[i]) {
            Some(t) => prepend(seq![t], scan_from(s, i + 1)),
            None => Err(CalcError::LexError),
        }
    }
}

/// The tokens of a line of text, whose spaces are removed before scanning:
/// spaces are insignificant in a line.
pub open spec fn scan_line(s: Seq<char>) -> Result<Seq<Lexeme>, CalcError> {
    scan_from(without_spaces(s), 0)
}

/// The tokens that scanning yields hold decimal numbers only.
pub proof fn lemma_scanned_numbers_well_formed(s: Seq<char>, i: int)
    requires
        scan_from(s, i) is Ok,
    ensures
        numbers_well_formed(scan_from(s, i)->Ok_0),
    decreases s.len() - i,
{
    if 0 <= i < s.len() {
        let ts = scan_from(s, i)->Ok_0;
        if is_literal_char(s[i]) {
            lemma_literal_run_chars(s, i);
            let end = i + literal_run(s, i);
            assert(end > i);
            let text = s.subrange(i, end);
            lemma_scanned_numbers_well_formed(s, end);
            let rest = scan_from(s, end)->Ok_0;
            assert(ts == seq![Lexeme::Number(text)] + rest);
            assert forall|k: int| 0 <= k < ts.len() && #[trigger] ts[k] is Number implies is_number_literal(ts[k]->Number_0) by {
                if k > 0 {
                    assert(ts[k] == rest[k - 1]);
                }
            }
        } else {
            lemma_scanned_numbers_well_formed(s, i + 1);
            let rest = scan_from(s, i + 1)->Ok_0;
            assert forall|k: int| 0 <= k < ts.len() && #[trigger] ts[k] is Number implies is_number_literal(ts[k]->Number_0) by {
                if k > 0 {
                    assert(ts[k] == rest[k - 1]);
                }
            }
        }
    }
}

/// A character that some token may hold.
pub open spec fn is_token_char(c: char) -> bool {
    is_literal_char(c) || symbol(c) is Some
}

/// Every maximal run of literal characters that starts before `k` is a
/// decimal number.
pub open spec fn literals_well_formed_before(s: Seq<char>, k: int) -> bool {
    forall|i: int|
        0 <= i < k && #[trigger] is_literal_char(s[i]) && (i == 0 || !is_literal_char(s[i - 1]))
            ==> is_number_literal(s.subrange(i, i + literal_run(s, i)))
}

proof fn lemma_literal_run_chars(s: Seq<char>, i: int)
    requires
        0 <= i <= s.len(),
    ensures
        i + literal_run(s, i) <= s.len(),
        forall|m: int| i <= m < i + literal_run(s, i) ==> is_literal_char(#[trigger] s[m]),
        i + literal_run(s, i) < s.len() ==> !is_literal_char(s[i + literal_run(s, i)]),
    decreases s.len() - i,
{
    if i < s.len() && is_literal_char(s[i]) {
        lemma_literal_run_chars(s, i + 1);
    }
}

proof fn lemma_lex_error_from(s: Seq<char>, i: int, k: int)
    requires
        0 <= i <= k < s.len(),
        !is_token_char(s[k]),
        forall|j: int| 0 <= j < k ==> is_token_char(#[trigger] s[j]),
        literals_well_formed_before(s, k),
        is_literal_char(s[i]) ==> (i == 0 || !is_literal_char(s[i - 1])),
    ensures
        scan_from(s, i) == Err::<Seq<Lexeme>, CalcError>(CalcError::LexError),
    decreases k - i,
{
    if i < k {
        if is_literal_char(s[i]) {
            lemma_literal_run_chars(s, i);
            let end = i + literal_run(s, i);
            assert(is_literal_char(s[i]));
            assert(end <= k);
            lemma_lex_error_from(s, end, k);
        } else {
            lemma_lex_error_from(s, i + 1, k);
        }
    }
}

/// An input whose first character outside the token alphabet (a space
/// included) comes before any malformed number is refused with `LexError`.
pub proof fn lemma_foreign_char_is_lex_error(s: Seq<char>, k: int)
    requires
        0 <= k < s.len(),
        !is_token_char(s[k]),
        forall|j: int| 0 <= j < k ==> is_token_char(#[trigger] s[j]),
        literals_well_formed_before(s, k),
    ensures
        scan_from(s, 0) == Err::<Seq<Lexeme>, CalcError>(CalcError::LexError),
{
    lemma_lex_error_from(s, 0, k);
}

fn is_literal_char_exec(c: char) -> (r: bool)
    ensures
        r == is_literal_char(c),
{
    ('0' <= c && c <= '9') || c == '.'
}

fn symbol_token(c: char) -> (r: Option<Token>)
    ensures
        match r {
            Some(t) => symbol(c) == Some(t@),
            None => symbol(c) is None,
        },
{
    match c {
        '+' => Some(Token::Operator(Op::Add)),
        '-' => Some(Token::Operator(Op::Sub)),
        '*' => Some(Token::Operator(Op::Mul)),
        '/' => Some(Token::Operator(Op::Div)),
        '(' => Some(Token::Bracket(Bracket::Open)),
        ')' => Some(Token::Bracket(Bracket::Close)),
        _ => None,
    }
}

/// The characters of `input` without its spaces.
pub fn remove_spaces(input: &str) -> (r: Vec<char>)
    ensures
        r@ == without_spaces(input@),
{
    let n = input.unicode_len();
    let mut out: Vec<char> = Vec::new();
    let mut i: usize = 0;
    while i < n
        invariant
            n == input@.len(),
            i <= n,
            out@ == without_spaces(input@.take(i as int)),
        decreases n - i,
    {
        let c = input.get_char(i);
        proof {
            assert(input@.take(i + 1).drop_last() =~= input@.take(i as int));
        }
        if c != ' ' {
            out.push(c);
        }
        i = i + 1;
    }
    proof {
        assert(input@.take(n as int) =~= input@);
    }
    out
}

/// Scans the numeric literal that starts at `start`: the longest run of
/// digits and points. Returns the token and the number of characters it
/// takes, or `NumberFormatError` where the run is not a decimal number.
fn scan_literal(s: &Vec<char>, start: usize) -> (r: Result<(Token, usize), CalcError>)
    requires
        start < s@.len(),
        is_literal_char(s@[start as int]),
    ensures
        ({
            let text = s@.subrange(start as int, start + literal_run(s@, start as int));
            match r {
                Ok((t, len)) => {
                    &&& len == literal_run(s@, start as int)
                    &&& 0 < len
                    &&& start + len <= s@.len()
                    &&& is_number_literal(text)
                    &&& t@ == Lexeme::Number(text)
                },
                Err(e) => e == CalcError::NumberFormatError && !is_number_literal(text),
            }
        }),
{
    let mut text: Vec<char> = Vec::new();
    let mut dots: usize = 0;
    let mut j: usize = start;
    while j < s.len() && is_literal_char_exec(s[j])
        invariant
            start <= j <= s@.len(),
            literal_run(s@, start as int) == (j - start) + literal_run(s@, j as int),
            text@ == s@.subrange(start as int, j as int),
            dots == dot_count(text@),
            dots <= j - start,
            forall|m: int| 0 <= m < text@.len() ==> is_literal_char(#[trigger] text@[m]),
        decreases s@.len() - j,
    {
        let c = s[j];
        text.push(c);
        proof {
            assert(text@.drop_last() =~= s@.subrange(start as int, j as int));
        }
        if c == '.' {
            dots = dots + 1;
        }
        j = j + 1;
    }
    let len = j - start;
    assert(len > 0);
    if dots <= 1 && dots < len {
        Ok((Token::Number(text), len))
    } else {
        Err(CalcError::NumberFormatError)
    }
}

/// The characters of `input`.
pub fn chars_of(input: &str) -> (r: Vec<char>)
    ensures
        r@ == input@,
{
    let n = input.unicode_len();
    let mut out: Vec<char> = Vec::new();
    let mut i: usize = 0;
    while i < n
        invariant
            n == input@.len(),
            i <= n,
            out@ == input@.take(i as int),
        decreases n - i,
    {
        out.push(input.get_char(i));
        proof {
            assert(out@ =~= input@.take(i + 1));
        }
        i = i + 1;
    }
    proof {
        assert(input@.take(n as int) =~= input@);
    }
    out
}

/// Scans text into tokens, left to right: a number is the longest run of
/// digits and points that starts where it does; any character outside the
/// token alphabet, a space included, is a `LexError`.
pub fn scan(input: &str) -> (r: Result<Vec<Token>, CalcError>)
    ensures
        match r {
            Ok(ts) => scan_from(input@, 0) == Ok::<Seq<Lexeme>, CalcError>(lexemes(ts@)),
            Err(e) => scan_from(input@, 0) == Err::<Seq<Lexeme>, CalcError>(e),
        },
{
    let s = chars_of(input);
    scan_chars(&s)
}

/// Scans a sequence of characters into tokens, as `scan` does.
pub fn scan_chars(s: &Vec<char>) -> (r: Result<Vec<Token>, CalcError>)
    ensures
        match r {
            Ok(ts) => scan_from(s@, 0) == Ok::<Seq<Lexeme>, CalcError>(lexemes(ts@)),
            Err(e) => scan_from(s@, 0) == Err::<Seq<Lexeme>, CalcError>(e),
        },
{
    let n = s.len();
    let mut tokens: Vec<Token> = Vec::new();
    let mut i: usize = 0;
    while i < n
        invariant
            n == s@.len(),
            i <= n,
            scan_from(s@, 0) == prepend(lexemes(tokens@), scan_from(s@, i as int)),
        decreases n - i,
    {
        let c = s[i];
        let t;
        let next: usize;
        if is_literal_char_exec(c) {
            match scan_literal(s, i) {
                Ok((tok, len)) => {
                    t = tok;
                    next = i + len;
                },
                Err(e) => {
                    return Err(e);
                },
            }
        } else {
            match symbol_token(c) {
                Some(tok) => {
                    t = tok;
                    next = i + 1;
                },
                None => {
                    return Err(CalcError::LexError);
                },
            }
        }
        proof {
            assert(next > i);
            assert(scan_from(s@, i as int) == prepend(seq![t@], scan_from(s@, next as int)));
            let old_ts = lexemes(tokens@);
            match scan_from(s@, next as int) {
                Ok(rest) => {
                    assert(old_ts + (seq![t@] + rest) =~= old_ts.push(t@) + rest);
                },
                Err(_) => {},
            }
        }
        let ghost before = tokens@;
        tokens.push(t);
        proof {
            assert(lexemes(tokens@) =~= lexemes(before).push(t@));
        }
        i = next;
    }
    proof {
        assert(lexemes(tokens@) + Seq::<Lexeme>::empty() =~= lexemes(tokens@));
    }
    Ok(tokens)
}

} // verus!
