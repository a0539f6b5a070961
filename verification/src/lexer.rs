//! The tokenizer: a cursor over a character buffer and the pull-based
//! `next_token` operation.
//!
//! Every method's contract is stated against the model in [`crate::scan`]:
//! `next_token` performs exactly the step [`next_spec`] describes, moving
//! the cursor exactly as the model says and handing back the modelled
//! outcome.

use vstd::prelude::*;
use vstd::string::StrSliceExecFns;
use crate::classify::{
    char_is_alphabetic, digit_char, is_word_start, number_continue_char, space_char,
    word_continue_char,
};
use crate::scan::{
    has_two_dots, keyword_token, lemma_next_spec_bounds, lemma_number_end_bounds,
    lemma_number_end_unfold, lemma_word_end_bounds, lemma_word_end_unfold, lemma_ws_end_bounds,
    lemma_ws_end_unfold, lex_outcomes, next_spec, number_end, word_end, ws_end,
};
use crate::token::{
    lemma_outcomes_view_push, outcomes_view, step_view, LexError, Token,
};

verus! {

/// Relies on `str::chars` (collected into a `Vec`): the characters of the
/// string, in order.
#[verifier::external_body]
fn str_to_chars(s: &str) -> (v: Vec<char>)
    ensures
        v@ == s@,
{
    s.chars().collect()
}

/// Relies on `String`'s `FromIterator<char>`: collecting characters yields
/// the string of exactly those characters, in order.
#[verifier::external_body]
fn chars_to_string(v: &Vec<char>) -> (r: String)
    ensures
        r@ == v@,
{
    v.iter().collect()
}

/// Whether `text` contains two or more `'.'` characters — the shape that
/// makes a scanned numeric run malformed.
pub fn has_repeated_dot(text: &str) -> (b: bool)
    ensures
        b == has_two_dots(text@),
{
    let n: usize = text.unicode_len();
    let mut i: usize = 0;
    let mut seen: bool = false;
    let mut two: bool = false;
    while i < n
        invariant
            0 <= i <= n,
            n == text@.len(),
            seen <==> exists|a: int| 0 <= a < i && text@[a] == '.',
            two <==> exists|a: int, b2: int|
                0 <= a < b2 < i && text@[a] == '.' && text@[b2] == '.',
        decreases n - i,
    {
        let c = text.get_char(i);
        if c == '.' {
            if seen {
                two = true;
            }
            seen = true;
        }
        i = i + 1;
    }
    two
}

/// The tokenizer.  It holds its own read-only copy of the source characters
/// and a cursor that only ever moves forward; it is constructed once per
/// source text and cannot rewind.
pub struct Lexer {
    source: Vec<char>,
    pos: usize,
}

impl Lexer {
    /// The source text being tokenized.
    pub closed spec fn src(&self) -> Seq<char> {
        self.source@
    }

    /// The cursor: how many characters have been consumed.
    pub closed spec fn cursor(&self) -> int {
        self.pos as int
    }

    /// The cursor never stands past the end of the source.
    pub open spec fn wf(&self) -> bool {
        0 <= self.cursor() <= self.src().len()
    }

    /// The character under the cursor, if any: what `peek_char` returns and
    /// `read_char` consumes.
    pub open spec fn spec_peek(&self) -> Option<char> {
        if self.cursor() < self.src().len() {
            Some(self.src()[self.cursor()])
        } else {
            None
        }
    }

    /// A tokenizer over `input`, with the cursor at the start.
    pub fn new(input: &str) -> (l: Lexer)
        ensures
            l.wf(),
            l.src() == input@,
            l.cursor() == 0,
    {
        Lexer { source: str_to_chars(input), pos: 0 }
    }

    /// The next character without consuming it, or `None` at end of input.
    /// The receiver is borrowed immutably, so repeated peeks with no
    /// advance between them return the same character and alter nothing.
    pub fn peek_char(&self) -> (r: Option<char>)
        requires
            self.wf(),
        ensures
            r == self.spec_peek(),
    {
        if self.pos < self.source.len() {
            Some(self.source[self.pos])
        } else {
            None
        }
    }

    /// Consumes and returns the next character — exactly the one `peek_char`
    /// showed — advancing the cursor by one; `None` at end of input.
    pub fn read_char(&mut self) -> (r: Option<char>)
        requires
            old(self).wf(),
        ensures
            final(self).wf(),
            final(self).src() == old(self).src(),
            r == old(self).spec_peek(),
            r is Some ==> final(self).cursor() == old(self).cursor() + 1,
            r is None ==> final(self).cursor() == old(self).cursor(),
    {
        if self.pos < self.source.len() {
            let c = self.source[self.pos];
            self.pos = self.pos + 1;
            Some(c)
        } else {
            None
        }
    }

    /// Whether `c` may start an identifier: alphabetic or `'_'`.
    pub fn is_letter(c: char) -> (r: bool)
        ensures
            r == is_word_start(c),
    {
        char_is_alphabetic(c) || c == '_'
    }

    /// The token a fully scanned identifier stands for: `Let` for the
    /// reserved word `"let"` exactly (case-sensitive, no trimming), else
    /// `Identifier` carrying the scanned text unchanged.
    pub fn lookup_keyword(key: String) -> (t: Token)
        ensures
            t@ == keyword_token(key@),
    {
        let kw: String = "let".to_owned();
        if key == kw {
            Token::Let
        } else {
            Token::Identifier(key)
        }
    }

    /// Advances the cursor to the first non-whitespace character (or the
    /// end), consuming nothing else.
    pub fn skip_whitespace(&mut self)
        requires
            old(self).wf(),
        ensures
            final(self).wf(),
            final(self).src() == old(self).src(),
            final(self).cursor() == ws_end(old(self).src(), old(self).cursor()),
    {
        let ghost s0 = self.src();
        let ghost i0 = self.cursor();
        loop
            invariant
                self.wf(),
                self.src() == s0,
                0 <= i0 <= self.cursor(),
                ws_end(s0, self.cursor()) == ws_end(s0, i0),
            ensures
                self.wf(),
                self.src() == s0,
                self.cursor() == ws_end(s0, i0),
            decreases s0.len() - self.cursor(),
        {
            proof {
                lemma_ws_end_unfold(s0, self.cursor());
            }
            match self.peek_char() {
                Some(c) => {
                    if space_char(c) {
                        let _ = self.read_char();
                    } else {
                        break ;
                    }
                },
                None => {
                    break ;
                },
            }
        }
    }

    /// Scans the identifier whose first character `c` was already consumed:
    /// consumes the run of identifier characters after the cursor and
    /// returns `c` followed by that run.
    pub fn read_identifier(&mut self, c: char) -> (r: String)
        requires
            old(self).wf(),
        ensures
            final(self).wf(),
            final(self).src() == old(self).src(),
            final(self).cursor() == word_end(old(self).src(), old(self).cursor()),
            r@ == seq![c] + old(self).src().subrange(
                old(self).cursor(),
                word_end(old(self).src(), old(self).cursor()),
            ),
    {
        let ghost s0 = self.src();
        let ghost i0 = self.cursor();
        let mut identifiers: Vec<char> = Vec::new();
        identifiers.push(c);
        loop
            invariant
                self.wf(),
                self.src() == s0,
                0 <= i0 <= self.cursor(),
                word_end(s0, self.cursor()) == word_end(s0, i0),
                identifiers@ == seq![c] + s0.subrange(i0, self.cursor()),
            ensures
                self.wf(),
                self.src() == s0,
                self.cursor() == word_end(s0, i0),
                identifiers@ == seq![c] + s0.subrange(i0, word_end(s0, i0)),
            decreases s0.len() - self.cursor(),
        {
            proof {
                lemma_word_end_unfold(s0, self.cursor());
            }
            match self.peek_char() {
                Some(ch) => {
                    if word_continue_char(ch) {
                        let ghost cur = self.cursor();
                        let _ = self.read_char();
                        identifiers.push(ch);
                        proof {
                            assert(identifiers@ =~= seq![c] + s0.subrange(i0, cur + 1));
                        }
                    } else {
                        break ;
                    }
                },
                None => {
                    break ;
                },
            }
        }
        chars_to_string(&identifiers)
    }

    /// Scans the numeric literal whose first character `c` was already
    /// consumed: consumes the run of digits and dots after the cursor and
    /// returns `c` followed by that run, verbatim — the shape of the
    /// literal is not validated here.
    pub fn read_number(&mut self, c: char) -> (r: String)
        requires
            old(self).wf(),
        ensures
            final(self).wf(),
            final(self).src() == old(self).src(),
            final(self).cursor() == number_end(old(self).src(), old(self).cursor()),
            r@ == seq![c] + old(self).src().subrange(
                old(self).cursor(),
                number_end(old(self).src(), old(self).cursor()),
            ),
    {
        let ghost s0 = self.src();
        let ghost i0 = self.cursor();
        let mut number: Vec<char> = Vec::new();
        number.push(c);
        loop
            invariant
                self.wf(),
                self.src() == s0,
                0 <= i0 <= self.cursor(),
                number_end(s0, self.cursor()) == number_end(s0, i0),
                number@ == seq![c] + s0.subrange(i0, self.cursor()),
            ensures
                self.wf(),
                self.src() == s0,
                self.cursor() == number_end(s0, i0),
                number@ == seq![c] + s0.subrange(i0, number_end(s0, i0)),
            decreases s0.len() - self.cursor(),
        {
            proof {
                lemma_number_end_unfold(s0, self.cursor());
            }
            match self.peek_char() {
                Some(ch) => {
                    if number_continue_char(ch) {
                        let ghost cur = self.cursor();
                        let _ = self.read_char();
                        number.push(ch);
                        proof {
                            assert(number@ =~= seq![c] + s0.subrange(i0, cur + 1));
                        }
                    } else {
                        break ;
                    }
                },
                None => {
                    break ;
                },
            }
        }
        chars_to_string(&number)
    }

    /// One scanning step: skip whitespace, then hand back the next token
    /// (`Ok(Some(..))`), the end-of-sequence signal (`Ok(None)`), or an
    /// error (`Err(..)`) — exactly the outcome that [`next_spec`] assigns to
    /// the state before the call, with the cursor moved exactly as
    /// [`next_spec`] says.  Both errors leave the cursor just past the
    /// offending text, so the caller may skip and continue.
    pub fn next_token(&mut self) -> (r: Result<Option<Token>, LexError>)
        requires
            old(self).wf(),
        ensures
            final(self).wf(),
            final(self).src() == old(self).src(),
            step_view(r) == next_spec(old(self).src(), old(self).cursor()).0,
            final(self).cursor() == next_spec(old(self).src(), old(self).cursor()).1,
    {
        let ghost s0 = self.src();
        let ghost i0 = self.cursor();
        proof {
            lemma_next_spec_bounds(s0, i0);
            lemma_ws_end_bounds(s0, i0);
        }
        self.skip_whitespace();
        let ghost w = self.cursor();
        match self.read_char() {
            None => Ok(None),
            Some(c) => {
                if c == '=' {
                    Ok(Some(Token::Equal))
                } else if c == '+' {
                    Ok(Some(Token::Plus))
                } else if c == '-' {
                    Ok(Some(Token::Minus))
                } else if c == '*' {
                    Ok(Some(Token::Star))
                } else if c == '/' {
                    Ok(Some(Token::Slash))
                } else if c == '^' {
                    Ok(Some(Token::Caret))
                } else if c == ';' {
                    Ok(Some(Token::SemiColon))
                } else if c == '(' {
                    Ok(Some(Token::LParen))
                } else if c == ')' {
                    Ok(Some(Token::RParen))
                } else if Self::is_letter(c) {
                    let text = self.read_identifier(c);
                    proof {
                        lemma_word_end_bounds(s0, w + 1);
                        assert(text@ =~= s0.subrange(w, word_end(s0, w + 1)));
                    }
                    Ok(Some(Self::lookup_keyword(text)))
                } else if digit_char(c) {
                    let text = self.read_number(c);
                    proof {
                        lemma_number_end_bounds(s0, w + 1);
                        assert(text@ =~= s0.subrange(w, number_end(s0, w + 1)));
                    }
                    if has_repeated_dot(text.as_str()) {
                        Err(LexError::MalformedNumber(text))
                    } else {
                        Ok(Some(Token::NumberLiteral(text)))
                    }
                } else {
                    Err(LexError::UnrecognizedCharacter(c))
                }
            },
        }
    }
}

/// Tokenizes a whole source text: pulls tokens until the end-of-sequence
/// signal and collects every outcome — each token and each error, in order.
/// The result is exactly the outcome sequence that [`lex_outcomes`] assigns
/// to the text.
pub fn tokenize(input: &str) -> (r: Vec<Result<Token, LexError>>)
    ensures
        outcomes_view(r@) == lex_outcomes(input@, 0),
{
    let ghost s0 = input@;
    let mut lx = Lexer::new(input);
    let mut out: Vec<Result<Token, LexError>> = Vec::new();
    loop
        invariant
            lx.wf(),
            lx.src() == s0,
            outcomes_view(out@) + lex_outcomes(s0, lx.cursor()) == lex_outcomes(s0, 0),
        ensures
            outcomes_view(out@) == lex_outcomes(s0, 0),
        decreases s0.len() - lx.cursor(),
    {
        let ghost cur = lx.cursor();
        proof {
            lemma_next_spec_bounds(s0, cur);
        }
        let step = lx.next_token();
        match step {
            Ok(Some(t)) => {
                proof {
                    lemma_outcomes_view_push(out@, Ok(t));
                    assert(outcomes_view(out@).push(step_view(Ok(Some(t)))) + lex_outcomes(
                        s0,
                        lx.cursor(),
                    ) =~= outcomes_view(out@) + lex_outcomes(s0, cur));
                }
                out.push(Ok(t));
            },
            Err(e) => {
                proof {
                    lemma_outcomes_view_push(out@, Err(e));
                    assert(outcomes_view(out@).push(step_view(Err(e))) + lex_outcomes(
                        s0,
                        lx.cursor(),
                    ) =~= outcomes_view(out@) + lex_outcomes(s0, cur));
                }
                out.push(Err(e));
            },
            Ok(None) => {
                proof {
                    assert(outcomes_view(out@) =~= outcomes_view(out@) + lex_outcomes(s0, cur));
                }
                break ;
            },
        }
    }
    out
}

} // verus!
