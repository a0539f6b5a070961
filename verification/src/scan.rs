//! The mathematical model of tokenization.
//!
//! A scanning step is described by [`next_spec`]: from a source sequence and
//! a cursor it yields the step's outcome and the new cursor.  Whole
//! tokenizations are described by [`lex_outcomes`], and the laws at the end
//! of the module relate them to the source text: every character lands in
//! exactly one token or one whitespace gap ([`lemma_completeness`]), and
//! whitespace between tokens never changes the outcomes
//! ([`lemma_whitespace_insertion`]).

use vstd::prelude::*;
use crate::classify::{
    is_space, is_word_continue, is_number_continue, is_word_start, is_digit_char,
    is_single_char_token,
};
use crate::token::{SpecToken, SpecError, SpecStep};

verus! {

/// The end of the run of characters satisfying `p` that starts at `i`: the
/// first position at or after `i` whose character fails `p`, or the end of
/// the sequence.
pub open spec fn run_end(s: Seq<char>, i: int, p: spec_fn(char) -> bool) -> int
    decreases s.len() - i when 0 <= i <= s.len()
{
    if i == s.len() {
        i
    } else if p(s[i]) {
        run_end(s, i + 1, p)
    } else {
        i
    }
}

/// The first non-whitespace position at or after `i`.
pub open spec fn ws_end(s: Seq<char>, i: int) -> int {
    run_end(s, i, |c: char| is_space(c))
}

/// The end of the identifier run starting at `i`.
pub open spec fn word_end(s: Seq<char>, i: int) -> int {
    run_end(s, i, |c: char| is_word_continue(c))
}

/// The end of the numeric-literal run starting at `i`.
pub open spec fn number_end(s: Seq<char>, i: int) -> int {
    run_end(s, i, |c: char| is_number_continue(c))
}

/// `run_end` lands between `i` and the end of the sequence, every character
/// before it satisfies `p`, and the character at it (if any) does not.
pub proof fn lemma_run_end(s: Seq<char>, i: int, p: spec_fn(char) -> bool)
    requires
        0 <= i <= s.len(),
    ensures
        i <= run_end(s, i, p) <= s.len(),
        forall|k: int| i <= k < run_end(s, i, p) ==> p(#[trigger] s[k]),
        run_end(s, i, p) < s.len() ==> !p(s[run_end(s, i, p)]),
    decreases s.len() - i,
{
    if i < s.len() && p(s[i]) {
        lemma_run_end(s, i + 1, p);
    }
}

/// Dropping the first `d` characters shifts every run end by `d`.
pub proof fn lemma_run_end_shift(s: Seq<char>, d: int, i: int, p: spec_fn(char) -> bool)
    requires
        0 <= d <= i <= s.len(),
    ensures
        run_end(s, i, p) == d + run_end(s.subrange(d, s.len() as int), i - d, p),
    decreases s.len() - i,
{
    let t = s.subrange(d, s.len() as int);
    if i < s.len() {
        assert(t[i - d] == s[i]);
        if p(s[i]) {
            lemma_run_end_shift(s, d, i + 1, p);
        }
    }
}

/// Skipping characters that satisfy `p` does not move the run end.
pub proof fn lemma_run_end_skip(s: Seq<char>, i: int, m: int, p: spec_fn(char) -> bool)
    requires
        0 <= i <= m <= s.len(),
        forall|k: int| i <= k < m ==> p(#[trigger] s[k]),
    ensures
        run_end(s, i, p) == run_end(s, m, p),
    decreases m - i,
{
    if i < m {
        lemma_run_end_skip(s, i + 1, m, p);
    }
}

/// Bounds and contents of a whitespace run: every skipped character is
/// whitespace and the run stops at the first character that is not.
pub proof fn lemma_ws_end_bounds(s: Seq<char>, i: int)
    requires
        0 <= i <= s.len(),
    ensures
        i <= ws_end(s, i) <= s.len(),
        forall|k: int| i <= k < ws_end(s, i) ==> is_space(#[trigger] s[k]),
        ws_end(s, i) < s.len() ==> !is_space(s[ws_end(s, i)]),
{
    lemma_run_end(s, i, |c: char| is_space(c));
}

/// Bounds and contents of an identifier run.
pub proof fn lemma_word_end_bounds(s: Seq<char>, i: int)
    requires
        0 <= i <= s.len(),
    ensures
        i <= word_end(s, i) <= s.len(),
        forall|k: int| i <= k < word_end(s, i) ==> is_word_continue(#[trigger] s[k]),
        word_end(s, i) < s.len() ==> !is_word_continue(s[word_end(s, i)]),
{
    lemma_run_end(s, i, |c: char| is_word_continue(c));
}

/// Bounds and contents of a numeric-literal run.
pub proof fn lemma_number_end_bounds(s: Seq<char>, i: int)
    requires
        0 <= i <= s.len(),
    ensures
        i <= number_end(s, i) <= s.len(),
        forall|k: int| i <= k < number_end(s, i) ==> is_number_continue(#[trigger] s[k]),
        number_end(s, i) < s.len() ==> !is_number_continue(s[number_end(s, i)]),
{
    lemma_run_end(s, i, |c: char| is_number_continue(c));
}

/// Advancing over a whitespace character does not move the whitespace run's
/// end; stopping at a non-whitespace character (or the end) is where it is.
pub proof fn lemma_ws_end_unfold(s: Seq<char>, i: int)
    requires
        0 <= i <= s.len(),
    ensures
        i < s.len() && is_space(s[i]) ==> ws_end(s, i) == ws_end(s, i + 1),
        i == s.len() || !is_space(s[i]) ==> ws_end(s, i) == i,
{
}

/// As `lemma_ws_end_unfold`, for identifier runs.
pub proof fn lemma_word_end_unfold(s: Seq<char>, i: int)
    requires
        0 <= i <= s.len(),
    ensures
        i < s.len() && is_word_continue(s[i]) ==> word_end(s, i) == word_end(s, i + 1),
        i == s.len() || !is_word_continue(s[i]) ==> word_end(s, i) == i,
{
}

/// As `lemma_ws_end_unfold`, for numeric-literal runs.
pub proof fn lemma_number_end_unfold(s: Seq<char>, i: int)
    requires
        0 <= i <= s.len(),
    ensures
        i < s.len() && is_number_continue(s[i]) ==> number_end(s, i) == number_end(s, i + 1),
        i == s.len() || !is_number_continue(s[i]) ==> number_end(s, i) == i,
{
}

/// The token that a single character stands for, for characters satisfying
/// [`is_single_char_token`].
pub open spec fn single_token(c: char) -> SpecToken {
    if c == '=' {
        SpecToken::Equal
    } else if c == '+' {
        SpecToken::Plus
    } else if c == '-' {
        SpecToken::Minus
    } else if c == '*' {
        SpecToken::Star
    } else if c == '/' {
        SpecToken::Slash
    } else if c == '^' {
        SpecToken::Caret
    } else if c == ';' {
        SpecToken::SemiColon
    } else if c == '(' {
        SpecToken::LParen
    } else {
        SpecToken::RParen
    }
}

/// The token an identifier run stands for: the reserved word `let` exactly,
/// or an identifier carrying the scanned text.
pub open spec fn keyword_token(t: Seq<char>) -> SpecToken {
    if t == "let"@ {
        SpecToken::Let
    } else {
        SpecToken::Identifier(t)
    }
}

/// The scanned run contains two or more `'.'` characters, so it denotes no
/// single decimal number.
pub open spec fn has_two_dots(t: Seq<char>) -> bool {
    exists|i: int, j: int| 0 <= i < j < t.len() && t[i] == '.' && t[j] == '.'
}

/// One scanning step at cursor `i`: skip whitespace, then either signal the
/// end of the sequence, or scan exactly one token or error.  Yields the
/// outcome and the cursor after the step.
pub open spec fn next_spec(s: Seq<char>, i: int) -> (SpecStep, int) {
    let j = ws_end(s, i);
    if j == s.len() {
        (SpecStep::End, j)
    } else {
        let c = s[j];
        if is_single_char_token(c) {
            (SpecStep::Tok(single_token(c)), j + 1)
        } else if is_word_start(c) {
            let k = word_end(s, j + 1);
            (SpecStep::Tok(keyword_token(s.subrange(j, k))), k)
        } else if is_digit_char(c) {
            let k = number_end(s, j + 1);
            let t = s.subrange(j, k);
            if has_two_dots(t) {
                (SpecStep::Fail(SpecError::MalformedNumber(t)), k)
            } else {
                (SpecStep::Tok(SpecToken::Number(t)), k)
            }
        } else {
            (SpecStep::Fail(SpecError::Unrecognized(c)), j + 1)
        }
    }
}

/// A step never moves the cursor backwards or past the end, it reaches the
/// end exactly when it signals `End`, and otherwise it consumes at least one
/// character.
pub proof fn lemma_next_spec_bounds(s: Seq<char>, i: int)
    requires
        0 <= i <= s.len(),
    ensures
        i <= next_spec(s, i).1 <= s.len(),
        next_spec(s, i).0 is End <==> ws_end(s, i) == s.len(),
        next_spec(s, i).0 is End ==> next_spec(s, i).1 == s.len(),
        !(next_spec(s, i).0 is End) ==> i < next_spec(s, i).1,
{
    let p_space = |c: char| is_space(c);
    let p_word = |c: char| is_word_continue(c);
    let p_num = |c: char| is_number_continue(c);
    lemma_run_end(s, i, p_space);
    let j = ws_end(s, i);
    if j < s.len() {
        lemma_run_end(s, j + 1, p_word);
        lemma_run_end(s, j + 1, p_num);
    }
}

/// The source text a token stands for.
pub open spec fn token_text(t: SpecToken) -> Seq<char> {
    match t {
        SpecToken::Identifier(s) => s,
        SpecToken::Number(s) => s,
        SpecToken::Let => "let"@,
        SpecToken::Plus => seq!['+'],
        SpecToken::Minus => seq!['-'],
        SpecToken::Star => seq!['*'],
        SpecToken::Slash => seq!['/'],
        SpecToken::Caret => seq!['^'],
        SpecToken::Equal => seq!['='],
        SpecToken::SemiColon => seq![';'],
        SpecToken::LParen => seq!['('],
        SpecToken::RParen => seq![')'],
    }
}

/// The source text a step's outcome stands for; the end signal stands for
/// no text.
pub open spec fn step_text(o: SpecStep) -> Seq<char> {
    match o {
        SpecStep::Tok(t) => token_text(t),
        SpecStep::End => Seq::<char>::empty(),
        SpecStep::Fail(SpecError::MalformedNumber(t)) => t,
        SpecStep::Fail(SpecError::Unrecognized(c)) => seq![c],
    }
}

/// One step consumes exactly the characters between the old and the new
/// cursor, and they are the skipped whitespace followed by the outcome's own
/// text: no character is lost and none is read twice.
pub proof fn lemma_step_partition(s: Seq<char>, i: int)
    requires
        0 <= i <= s.len(),
    ensures
        ({
            let (o, j) = next_spec(s, i);
            let w = ws_end(s, i);
            &&& i <= w <= j <= s.len()
            &&& forall|k: int| i <= k < w ==> is_space(#[trigger] s[k])
            &&& s.subrange(i, j) == s.subrange(i, w) + step_text(o)
        }),
{
    let p_space = |c: char| is_space(c);
    lemma_run_end(s, i, p_space);
    lemma_next_spec_bounds(s, i);
    let (o, j) = next_spec(s, i);
    let w = ws_end(s, i);
    if w == s.len() {
        assert(s.subrange(i, j) =~= s.subrange(i, w) + step_text(o));
    } else {
        let c = s[w];
        if is_single_char_token(c) {
            assert(step_text(o) =~= seq![c]);
            assert(s.subrange(i, j) =~= s.subrange(i, w) + seq![c]);
        } else if is_word_start(c) {
            let k = word_end(s, w + 1);
            lemma_run_end(s, w + 1, |ch: char| is_word_continue(ch));
            let t = s.subrange(w, k);
            if t == "let"@ {
                assert(step_text(o) == t);
            }
            assert(s.subrange(i, j) =~= s.subrange(i, w) + t);
        } else if is_digit_char(c) {
            let k = number_end(s, w + 1);
            lemma_run_end(s, w + 1, |ch: char| is_number_continue(ch));
            assert(s.subrange(i, j) =~= s.subrange(i, w) + s.subrange(w, k));
        } else {
            assert(s.subrange(i, j) =~= s.subrange(i, w) + seq![c]);
        }
    }
}

/// The outcomes of tokenizing `s` from cursor `i` to exhaustion, in order:
/// every token and every error the tokenizer hands out before it signals the
/// end of the sequence.
pub open spec fn lex_outcomes(s: Seq<char>, i: int) -> Seq<SpecStep>
    decreases s.len() - i when 0 <= i <= s.len() via lex_outcomes_decreases
{
    let (o, j) = next_spec(s, i);
    if o is End {
        Seq::<SpecStep>::empty()
    } else {
        seq![o] + lex_outcomes(s, j)
    }
}

#[via_fn]
proof fn lex_outcomes_decreases(s: Seq<char>, i: int) {
    lemma_next_spec_bounds(s, i);
}

/// The text that a tokenization of `s` from cursor `i` accounts for: each
/// step's skipped whitespace and outcome text, in order, with the trailing
/// whitespace of the final step.
pub open spec fn reconstructed(s: Seq<char>, i: int) -> Seq<char>
    decreases s.len() - i when 0 <= i <= s.len() via reconstructed_decreases
{
    let (o, j) = next_spec(s, i);
    if o is End {
        s.subrange(i, ws_end(s, i))
    } else {
        s.subrange(i, ws_end(s, i)) + step_text(o) + reconstructed(s, j)
    }
}

#[via_fn]
proof fn reconstructed_decreases(s: Seq<char>, i: int) {
    lemma_next_spec_bounds(s, i);
}

/// Completeness: the concatenation of all emitted tokens' source text,
/// interleaved with the skipped whitespace, is exactly the remaining source
/// text — no character is lost and none is duplicated.
pub proof fn lemma_completeness(s: Seq<char>, i: int)
    requires
        0 <= i <= s.len(),
    ensures
        reconstructed(s, i) == s.subrange(i, s.len() as int),
    decreases s.len() - i,
{
    lemma_next_spec_bounds(s, i);
    lemma_step_partition(s, i);
    let (o, j) = next_spec(s, i);
    if o is End {
        assert(reconstructed(s, i) =~= s.subrange(i, s.len() as int));
    } else {
        lemma_completeness(s, j);
        assert(s.subrange(i, s.len() as int) =~= s.subrange(i, j) + s.subrange(
            j,
            s.len() as int,
        ));
        assert(reconstructed(s, i) =~= s.subrange(i, j) + s.subrange(j, s.len() as int));
    }
}

/// Completeness for a whole source text, from the start.
pub proof fn lemma_lex_reconstructs_source(s: Seq<char>)
    ensures
        reconstructed(s, 0) == s,
{
    lemma_completeness(s, 0);
    assert(s.subrange(0, s.len() as int) =~= s);
}

/// The shape of every number token's text: nonempty, digit-initial, made of
/// digits and dots only, with at most one dot — so it always denotes one
/// decimal number.
pub open spec fn number_shape(t: Seq<char>) -> bool {
    &&& t.len() > 0
    &&& is_digit_char(t[0])
    &&& forall|k: int| 0 <= k < t.len() ==> is_number_continue(#[trigger] t[k])
    &&& !has_two_dots(t)
}

/// Numeric soundness: whenever a step emits a `Number` token, its text has
/// the well-formed shape above; a scanned numeric run that does not is
/// surfaced as a malformed-number error instead, never as a token.
pub proof fn lemma_number_token_shape(s: Seq<char>, i: int)
    requires
        0 <= i <= s.len(),
    ensures
        next_spec(s, i).0 matches SpecStep::Tok(SpecToken::Number(t)) ==> number_shape(t),
{
    lemma_ws_end_bounds(s, i);
    let j = ws_end(s, i);
    if j < s.len() && !is_single_char_token(s[j]) && !is_word_start(s[j]) && is_digit_char(s[j]) {
        lemma_number_end_bounds(s, j + 1);
        let k = number_end(s, j + 1);
        let t = s.subrange(j, k);
        if !has_two_dots(t) {
            assert(t[0] == s[j]);
            assert(forall|m: int| 0 <= m < t.len() ==> is_number_continue(#[trigger] t[m]))
                by {
                assert(forall|m: int| 0 < m < t.len() ==> t[m] == s[j + m]
                    && is_number_continue(#[trigger] s[j + m]));
            }
        }
    }
}

/// The shape of every identifier token's text: nonempty, starting with a
/// letter or underscore, continuing with letters, digits and underscores
/// only.
pub open spec fn identifier_shape(t: Seq<char>) -> bool {
    &&& t.len() > 0
    &&& is_word_start(t[0])
    &&& forall|k: int| 0 < k < t.len() ==> is_word_continue(#[trigger] t[k])
}

/// Identifier soundness: whenever a step emits an `Identifier` token, its
/// text has the shape above and is not the reserved word, and a `Let` token
/// arises from the text `"let"` alone.
pub proof fn lemma_identifier_token_shape(s: Seq<char>, i: int)
    requires
        0 <= i <= s.len(),
    ensures
        next_spec(s, i).0 matches SpecStep::Tok(SpecToken::Identifier(t)) ==> identifier_shape(t)
            && t != "let"@,
        next_spec(s, i).0 == SpecStep::Tok(SpecToken::Let) ==> ({
            let j = ws_end(s, i);
            s.subrange(j, word_end(s, j + 1)) == "let"@
        }),
{
    lemma_ws_end_bounds(s, i);
    let j = ws_end(s, i);
    if j < s.len() && !is_single_char_token(s[j]) && is_word_start(s[j]) {
        lemma_word_end_bounds(s, j + 1);
        let k = word_end(s, j + 1);
        let t = s.subrange(j, k);
        assert(t[0] == s[j]);
        assert(forall|m: int| 0 < m < t.len() ==> t[m] == s[j + m] && is_word_continue(
            #[trigger] s[j + m],
        ));
    }
}

/// Keyword precedence: an identifier run maps to `Let` exactly when its
/// text is `"let"`, and the tokenizer can never produce the identifier
/// `"let"` — the keyword always takes precedence.
pub proof fn lemma_keyword_precedence(t: Seq<char>)
    ensures
        t == "let"@ ==> keyword_token(t) == SpecToken::Let,
        t != "let"@ ==> keyword_token(t) == SpecToken::Identifier(t),
        keyword_token(t) != SpecToken::Identifier("let"@),
{
}

/// Termination on empty input: tokenizing an empty source immediately
/// signals the end of the sequence, with no tokens and no errors.
pub proof fn lemma_empty_source(s: Seq<char>)
    requires
        s.len() == 0,
    ensures
        next_spec(s, 0).0 is End,
        lex_outcomes(s, 0) == Seq::<SpecStep>::empty(),
{
}

/// A step reads nothing before the cursor: dropping the first `d`
/// characters shifts the step's cursors by `d` and leaves its outcome
/// unchanged.
pub proof fn lemma_next_spec_shift(s: Seq<char>, d: int, i: int)
    requires
        0 <= d <= i <= s.len(),
    ensures
        ({
            let t = s.subrange(d, s.len() as int);
            &&& next_spec(s, i).0 == next_spec(t, i - d).0
            &&& next_spec(s, i).1 == d + next_spec(t, i - d).1
        }),
{
    let t = s.subrange(d, s.len() as int);
    let p_space = |c: char| is_space(c);
    let p_word = |c: char| is_word_continue(c);
    let p_num = |c: char| is_number_continue(c);
    lemma_run_end_shift(s, d, i, p_space);
    lemma_run_end(s, i, p_space);
    let j = ws_end(s, i);
    if j < s.len() {
        assert(t[j - d] == s[j]);
        let c = s[j];
        if is_single_char_token(c) {
        } else if is_word_start(c) {
            lemma_run_end_shift(s, d, j + 1, p_word);
            lemma_run_end(s, j + 1, p_word);
            let k = word_end(s, j + 1);
            assert(s.subrange(j, k) =~= t.subrange(j - d, k - d));
        } else if is_digit_char(c) {
            lemma_run_end_shift(s, d, j + 1, p_num);
            lemma_run_end(s, j + 1, p_num);
            let k = number_end(s, j + 1);
            assert(s.subrange(j, k) =~= t.subrange(j - d, k - d));
        }
    }
}

/// Tokenization never looks back: the outcomes from cursor `i` are exactly
/// the outcomes of tokenizing the remaining text on its own.
pub proof fn lemma_lex_outcomes_shift(s: Seq<char>, d: int, i: int)
    requires
        0 <= d <= i <= s.len(),
    ensures
        lex_outcomes(s, i) == lex_outcomes(s.subrange(d, s.len() as int), i - d),
    decreases s.len() - i,
{
    let t = s.subrange(d, s.len() as int);
    lemma_next_spec_bounds(s, i);
    lemma_next_spec_shift(s, d, i);
    let (o, j) = next_spec(s, i);
    if !(o is End) {
        lemma_lex_outcomes_shift(s, d, j);
    }
}

/// Whitespace under the cursor is transparent: outcomes are unchanged when
/// the cursor is moved forward over whitespace characters.
pub proof fn lemma_whitespace_skip(s: Seq<char>, i: int, m: int)
    requires
        0 <= i <= m <= s.len(),
        forall|k: int| i <= k < m ==> is_space(#[trigger] s[k]),
    ensures
        next_spec(s, i) == next_spec(s, m),
        lex_outcomes(s, i) == lex_outcomes(s, m),
{
    let p_space = |c: char| is_space(c);
    lemma_run_end_skip(s, i, m, p_space);
}

/// Whitespace transparency: inserting (or, read the other way, removing) a
/// run of whitespace in front of a text never changes the sequence of
/// emitted tokens and errors.  Together with `lemma_lex_outcomes_shift`,
/// which reduces the tokenization after any step to the remaining text
/// alone, this covers insertion at any point between two tokens.
pub proof fn lemma_whitespace_insertion(w: Seq<char>, b: Seq<char>)
    requires
        forall|k: int| 0 <= k < w.len() ==> is_space(#[trigger] w[k]),
    ensures
        lex_outcomes(w + b, 0) == lex_outcomes(b, 0),
{
    let u = w + b;
    assert(forall|k: int| 0 <= k < w.len() ==> is_space(#[trigger] u[k]));
    lemma_whitespace_skip(u, 0, w.len() as int);
    lemma_lex_outcomes_shift(u, w.len() as int, w.len() as int);
    assert(u.subrange(w.len() as int, u.len() as int) =~= b);
}

} // verus!
