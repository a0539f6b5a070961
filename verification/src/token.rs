//! The token data type produced by the tokenizer, the error values a single
//! scanning step can surface, and their mathematical views.

use vstd::prelude::*;

verus! {

/// One lexical token.  `Identifier` and `NumberLiteral` carry the exact
/// source text that was scanned for them; every other case is a fixed
/// one-character token or the `let` keyword.
///
/// A `NumberLiteral` returned by the tokenizer never contains more than one
/// `'.'`, so its text always denotes a single decimal number; a scanned run
/// of digits and dots with two or more dots is surfaced as
/// [`LexError::MalformedNumber`] instead.
#[derive(Debug, Clone, PartialEq)]
pub enum Token {
    Identifier(String),
    NumberLiteral(String),
    Plus,
    Minus,
    Star,
    Slash,
    Caret,
    Equal,
    SemiColon,
    LParen,
    RParen,
    Let,
}

/// The mathematical value of a [`Token`]: the same tags over sequences of
/// characters.
pub enum SpecToken {
    Identifier(Seq<char>),
    Number(Seq<char>),
    Plus,
    Minus,
    Star,
    Slash,
    Caret,
    Equal,
    SemiColon,
    LParen,
    RParen,
    Let,
}

impl View for Token {
    type V = SpecToken;

    open spec fn view(&self) -> SpecToken {
        match self {
            Token::Identifier(s) => SpecToken::Identifier(s@),
            Token::NumberLiteral(s) => SpecToken::Number(s@),
            Token::Plus => SpecToken::Plus,
            Token::Minus => SpecToken::Minus,
            Token::Star => SpecToken::Star,
            Token::Slash => SpecToken::Slash,
            Token::Caret => SpecToken::Caret,
            Token::Equal => SpecToken::Equal,
            Token::SemiColon => SpecToken::SemiColon,
            Token::LParen => SpecToken::LParen,
            Token::RParen => SpecToken::RParen,
            Token::Let => SpecToken::Let,
        }
    }
}

/// What a single scanning step surfaces when it cannot produce a token.
/// Both cases are local to one step: the cursor stands just past the
/// offending text and scanning may continue.
#[derive(Debug, Clone, PartialEq)]
pub enum LexError {
    /// The scanned run of digits and dots (carried verbatim) contains two or
    /// more `'.'` characters and so denotes no single number.
    MalformedNumber(String),
    /// The carried character fits no token class; the cursor stands just
    /// past it.
    UnrecognizedCharacter(char),
}

/// The mathematical value of a [`LexError`].
pub enum SpecError {
    MalformedNumber(Seq<char>),
    Unrecognized(char),
}

impl View for LexError {
    type V = SpecError;

    open spec fn view(&self) -> SpecError {
        match self {
            LexError::MalformedNumber(s) => SpecError::MalformedNumber(s@),
            LexError::UnrecognizedCharacter(c) => SpecError::Unrecognized(*c),
        }
    }
}

/// The outcome of one scanning step: a token, the end-of-sequence signal, or
/// an error.
pub enum SpecStep {
    Tok(SpecToken),
    End,
    Fail(SpecError),
}

/// The view of what a step of the tokenizer hands back.
pub open spec fn step_view(r: Result<Option<Token>, LexError>) -> SpecStep {
    match r {
        Ok(Some(t)) => SpecStep::Tok(t@),
        Ok(None) => SpecStep::End,
        Err(e) => SpecStep::Fail(e@),
    }
}

/// The view of one collected outcome: a token or an error, never the end
/// signal.
pub open spec fn outcome_view(r: Result<Token, LexError>) -> SpecStep {
    match r {
        Ok(t) => SpecStep::Tok(t@),
        Err(e) => SpecStep::Fail(e@),
    }
}

/// The view of a collected sequence of outcomes.
pub open spec fn outcomes_view(v: Seq<Result<Token, LexError>>) -> Seq<SpecStep> {
    v.map_values(|r: Result<Token, LexError>| outcome_view(r))
}

/// Collecting one more outcome appends its view.
pub proof fn lemma_outcomes_view_push(v: Seq<Result<Token, LexError>>, x: Result<Token, LexError>)
    ensures
        outcomes_view(v.push(x)) == outcomes_view(v).push(outcome_view(x)),
{
    assert(outcomes_view(v.push(x)) =~= outcomes_view(v).push(outcome_view(x)));
}

} // verus!
