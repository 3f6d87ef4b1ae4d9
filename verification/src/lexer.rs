//! The lexer: a mathematical description of tokenization over character
//! sequences, and a verified scanner producing exactly those tokens.
//!
//! The scan works line by line (`'\n'` separates lines and only affects
//! location tracking). At each position, in priority order: whitespace is
//! skipped; a structural character emits its token; a letter starts an
//! identifier; a quote starts a string running to the next quote on the same
//! line; a minus sign or digit starts a number; any other character becomes
//! an `Other` token for the parser to reject.

use crate::text::is_alphanumeric_char;
use crate::text::is_whitespace_char;
use crate::text::string_from_range;
use crate::token::lemma_tokens_view_push;
use crate::token::tokens_view;
use crate::token::LexicalToken;
use crate::token::LexicalTokenView;
use crate::token::LocView;
use crate::token::ParseError;
use crate::token::ParseErrorView;
use crate::token::SourceLocation;
use crate::token::Token;
use crate::token::TokenView;
use vstd::prelude::*;

verus! {

/// A decimal digit.
pub open spec fn is_digit(c: char) -> bool {
    48 <= c as u32 && c as u32 <= 57
}

/// An ASCII letter; one of these starts an identifier.
pub open spec fn is_letter(c: char) -> bool {
    (65 <= c as u32 && c as u32 <= 90) || (97 <= c as u32 && c as u32 <= 122)
}

/// A character that can continue an identifier. A newline never does: the
/// lexer scans line by line.
pub open spec fn is_ident_char(c: char) -> bool {
    c != '\n' && (is_alphanumeric_char(c) || c == '_')
}

/// One of the six structural characters.
pub open spec fn is_structural(c: char) -> bool {
    c == '{' || c == '}' || c == '[' || c == ']' || c == ':' || c == ','
}

/// The token a structural character stands for.
pub open spec fn structural_token(c: char) -> TokenView {
    if c == '{' {
        TokenView::OpenCurly
    } else if c == '}' {
        TokenView::CloseCurly
    } else if c == '[' {
        TokenView::OpenSquare
    } else if c == ']' {
        TokenView::CloseSquare
    } else if c == ':' {
        TokenView::Colon
    } else {
        TokenView::Comma
    }
}

/// How many consecutive identifier characters stand at position `i` on.
pub open spec fn ident_run(src: Seq<char>, i: int) -> nat
    decreases src.len() - i,
{
    if 0 <= i < src.len() && is_ident_char(src[i]) {
        1 + ident_run(src, i + 1)
    } else {
        0
    }
}

/// How many characters a string body spans from position `i` on: the run
/// stops at a quote, at a newline, or at the end of the input.
pub open spec fn string_run(src: Seq<char>, i: int) -> nat
    decreases src.len() - i,
{
    if 0 <= i < src.len() && src[i] != '"' && src[i] != '\n' {
        1 + string_run(src, i + 1)
    } else {
        0
    }
}

/// How many characters continue a number from position `i` on: digits, and
/// at most one decimal point (`seen_dot` says whether one was already read).
pub open spec fn num_run(src: Seq<char>, i: int, seen_dot: bool) -> nat
    decreases src.len() - i,
{
    if 0 <= i < src.len() {
        if is_digit(src[i]) {
            1 + num_run(src, i + 1, seen_dot)
        } else if !seen_dot && src[i] == '.' {
            1 + num_run(src, i + 1, true)
        } else {
            0
        }
    } else {
        0
    }
}

/// A scanned number is well formed exactly when it holds at least one
/// digit: of the texts the scanner can produce (an optional sign, then
/// digits with at most one decimal point) those are the decimal literals.
pub open spec fn num_text_valid(t: Seq<char>) -> bool {
    exists|k: int| 0 <= k < t.len() && is_digit(#[trigger] t[k])
}

/// An identifier run never passes the end of the input.
pub proof fn lemma_ident_run_bound(src: Seq<char>, i: int)
    requires
        0 <= i <= src.len(),
    ensures
        i + ident_run(src, i) <= src.len(),
    decreases src.len() - i,
{
    if i < src.len() && is_ident_char(src[i]) {
        lemma_ident_run_bound(src, i + 1);
    }
}

/// A string body run never passes the end of the input.
pub proof fn lemma_string_run_bound(src: Seq<char>, i: int)
    requires
        0 <= i <= src.len(),
    ensures
        i + string_run(src, i) <= src.len(),
    decreases src.len() - i,
{
    if i < src.len() && src[i] != '"' && src[i] != '\n' {
        lemma_string_run_bound(src, i + 1);
    }
}

/// A number run never passes the end of the input.
pub proof fn lemma_num_run_bound(src: Seq<char>, i: int, seen_dot: bool)
    requires
        0 <= i <= src.len(),
    ensures
        i + num_run(src, i, seen_dot) <= src.len(),
    decreases src.len() - i,
{
    if i < src.len() {
        if is_digit(src[i]) {
            lemma_num_run_bound(src, i + 1, seen_dot);
        } else if !seen_dot && src[i] == '.' {
            lemma_num_run_bound(src, i + 1, true);
        }
    }
}

/// A token view spanning columns `c0` to `c1` of line `row`.
pub open spec fn located(t: TokenView, row: int, c0: int, c1: int) -> LexicalTokenView {
    LexicalTokenView { token: t, from: LocView { row, col: c0 }, to: LocView { row, col: c1 } }
}

/// Prepends a token to a lexing outcome, passing an error through.
pub open spec fn cons_token(
    t: LexicalTokenView,
    r: Result<Seq<LexicalTokenView>, ParseErrorView>,
) -> Result<Seq<LexicalTokenView>, ParseErrorView> {
    match r {
        Ok(ts) => Ok(seq![t] + ts),
        Err(e) => Err(e),
    }
}

/// The tokens of `src` from position `i` on, the scan standing at line
/// `row`, column `col` — or the first lexical error.
pub open spec fn spec_lex_at(src: Seq<char>, i: int, row: int, col: int) -> Result<
    Seq<LexicalTokenView>,
    ParseErrorView,
>
    decreases src.len() - i,
    via spec_lex_at_decreases
{
    if !(0 <= i < src.len()) {
        Ok(Seq::empty())
    } else {
        let c = src[i];
        if c == '\n' {
            spec_lex_at(src, i + 1, row + 1, 0)
        } else if is_whitespace_char(c) {
            spec_lex_at(src, i + 1, row, col + 1)
        } else if is_structural(c) {
            cons_token(
                located(structural_token(c), row, col, col),
                spec_lex_at(src, i + 1, row, col + 1),
            )
        } else if is_letter(c) {
            let len = 1 + ident_run(src, i + 1);
            cons_token(
                located(TokenView::Identifier(src.subrange(i, i + len)), row, col, col + len),
                spec_lex_at(src, i + len, row, col + len),
            )
        } else if c == '"' {
            let body = string_run(src, i + 1);
            let close = i + 1 + body;
            if close < src.len() && src[close] == '"' {
                cons_token(
                    located(TokenView::String(src.subrange(i + 1, close)), row, col, col + body + 1),
                    spec_lex_at(src, close + 1, row, col + body + 2),
                )
            } else {
                Err(ParseErrorView::UnterminatedString(LocView { row, col }))
            }
        } else if c == '-' || is_digit(c) {
            let len = 1 + num_run(src, i + 1, false);
            let text = src.subrange(i, i + len);
            if num_text_valid(text) {
                cons_token(
                    located(TokenView::Number(text), row, col, col + len),
                    spec_lex_at(src, i + len, row, col + len),
                )
            } else {
                Err(ParseErrorView::InvalidNumber(text, LocView { row, col }))
            }
        } else {
            cons_token(
                located(TokenView::Other(seq![c]), row, col, col),
                spec_lex_at(src, i + 1, row, col + 1),
            )
        }
    }
}

#[via_fn]
proof fn spec_lex_at_decreases(src: Seq<char>, i: int, row: int, col: int) {
    if 0 <= i < src.len() {
        lemma_ident_run_bound(src, i + 1);
        lemma_string_run_bound(src, i + 1);
        lemma_num_run_bound(src, i + 1, false);
    }
}

/// The tokens of the whole source text, or the first lexical error.
pub open spec fn spec_lex(src: Seq<char>) -> Result<Seq<LexicalTokenView>, ParseErrorView> {
    spec_lex_at(src, 0, 0, 0)
}

/// Executable test for `is_digit`.
fn digit_exec(c: char) -> (r: bool)
    ensures
        r == is_digit(c),
{
    let u = c as u32;
    48 <= u && u <= 57
}

/// Executable test for `is_letter`.
fn letter_exec(c: char) -> (r: bool)
    ensures
        r == is_letter(c),
{
    let u = c as u32;
    (65 <= u && u <= 90) || (97 <= u && u <= 122)
}

/// Executable test for `is_ident_char`.
fn ident_char_exec(c: char) -> (r: bool)
    ensures
        r == is_ident_char(c),
{
    c != '\n' && (c.is_alphanumeric() || c == '_')
}

/// Executable test for `is_structural`, yielding the token.
fn structural_exec(c: char) -> (r: Option<Token>)
    ensures
        r is Some <==> is_structural(c),
        r is Some ==> r.unwrap()@ == structural_token(c),
{
    if c == '{' {
        Some(Token::OpenCurly)
    } else if c == '}' {
        Some(Token::CloseCurly)
    } else if c == '[' {
        Some(Token::OpenSquare)
    } else if c == ']' {
        Some(Token::CloseSquare)
    } else if c == ':' {
        Some(Token::Colon)
    } else if c == ',' {
        Some(Token::Comma)
    } else {
        None
    }
}

/// Scans `chars` into its token sequence, or reports the first lexical
/// error. The result is exactly what `spec_lex` describes.
pub fn lex_chars(chars: &Vec<char>) -> (r: Result<Vec<LexicalToken>, ParseError>)
    ensures
        match r {
            Ok(toks) => spec_lex(chars@) == Ok::<Seq<LexicalTokenView>, ParseErrorView>(
                tokens_view(toks@),
            ),
            Err(e) => spec_lex(chars@) == Err::<Seq<LexicalTokenView>, ParseErrorView>(e@),
        },
{
    let n = chars.len();
    let mut out: Vec<LexicalToken> = Vec::new();
    let mut i: usize = 0;
    let mut row: usize = 0;
    let mut col: usize = 0;
    while i < n
        invariant
            i <= n,
            n == chars@.len(),
            col <= i,
            row <= i,
            spec_lex(chars@) == (match spec_lex_at(chars@, i as int, row as int, col as int) {
                Ok(ts) => Ok::<Seq<LexicalTokenView>, ParseErrorView>(tokens_view(out@) + ts),
                Err(e) => Err::<Seq<LexicalTokenView>, ParseErrorView>(e),
            }),
        decreases n - i,
    {
        let ghost i0 = i as int;
        let ghost row0 = row as int;
        let ghost col0 = col as int;
        let ghost out0 = out@;
        let c = chars[i];
        if c == '\n' {
            i = i + 1;
            row = row + 1;
            col = 0;
        } else if c.is_whitespace() {
            i = i + 1;
            col = col + 1;
        } else if let Some(token) = structural_exec(c) {
            let tok = LexicalToken {
                token,
                from: SourceLocation { row, col },
                to: SourceLocation { row, col },
            };
            out.push(tok);
            i = i + 1;
            col = col + 1;
            proof {
                lemma_tokens_view_push(out0, tok);
                let rest = spec_lex_at(chars@, i as int, row as int, col as int);
                if rest is Ok {
                    assert((tokens_view(out0) + seq![tok@]) + rest->Ok_0 =~= tokens_view(out0) + (
                    seq![tok@] + rest->Ok_0));
                }
            }
        } else if letter_exec(c) {
            let mut j = i + 1;
            while j < n && ident_char_exec(chars[j])
                invariant
                    i + 1 <= j <= n,
                    n == chars@.len(),
                    ident_run(chars@, i0 + 1) == (j - i - 1) + ident_run(chars@, j as int),
                    i == i0,
                decreases n - j,
            {
                j = j + 1;
            }
            let text = string_from_range(chars, i, j);
            let tok = LexicalToken {
                token: Token::Identifier(text),
                from: SourceLocation { row, col },
                to: SourceLocation { row, col: col + (j - i) },
            };
            out.push(tok);
            col = col + (j - i);
            i = j;
            proof {
                lemma_tokens_view_push(out0, tok);
                let rest = spec_lex_at(chars@, i as int, row as int, col as int);
                if rest is Ok {
                    assert((tokens_view(out0) + seq![tok@]) + rest->Ok_0 =~= tokens_view(out0) + (
                    seq![tok@] + rest->Ok_0));
                }
            }
        } else if c == '"' {
            let mut j = i + 1;
            while j < n && chars[j] != '"' && chars[j] != '\n'
                invariant
                    i + 1 <= j <= n,
                    n == chars@.len(),
                    string_run(chars@, i0 + 1) == (j - i - 1) + string_run(chars@, j as int),
                    i == i0,
                decreases n - j,
            {
                j = j + 1;
            }
            if j < n && chars[j] == '"' {
                let text = string_from_range(chars, i + 1, j);
                let tok = LexicalToken {
                    token: Token::String(text),
                    from: SourceLocation { row, col },
                    to: SourceLocation { row, col: col + (j - i) },
                };
                out.push(tok);
                col = col + (j - i) + 1;
                i = j + 1;
                proof {
                    lemma_tokens_view_push(out0, tok);
                    let rest = spec_lex_at(chars@, i as int, row as int, col as int);
                    if rest is Ok {
                        assert((tokens_view(out0) + seq![tok@]) + rest->Ok_0 =~= tokens_view(out0)
                            + (seq![tok@] + rest->Ok_0));
                    }
                }
            } else {
                return Err(ParseError::UnterminatedString(SourceLocation { row, col }));
            }
        } else if c == '-' || digit_exec(c) {
            let mut j = i + 1;
            let mut seen_dot = false;
            while j < n && (digit_exec(chars[j]) || (!seen_dot && chars[j] == '.'))
                invariant
                    i + 1 <= j <= n,
                    n == chars@.len(),
                    num_run(chars@, i0 + 1, false) == (j - i - 1) + num_run(
                        chars@,
                        j as int,
                        seen_dot,
                    ),
                    i == i0,
                decreases n - j,
            {
                if !digit_exec(chars[j]) {
                    seen_dot = true;
                }
                j = j + 1;
            }
            let text = string_from_range(chars, i, j);
            let mut has = false;
            let mut k = i;
            while k < j
                invariant
                    i <= k <= j <= n,
                    n == chars@.len(),
                    has <==> exists|t: int| i <= t < k && is_digit(#[trigger] chars@[t]),
                decreases j - k,
            {
                if digit_exec(chars[k]) {
                    has = true;
                }
                k = k + 1;
            }
            proof {
                if has {
                    let t = choose|t: int| i0 <= t < j && is_digit(#[trigger] chars@[t]);
                    assert(text@[t - i0] == chars@[t]);
                }
                if num_text_valid(text@) {
                    let t = choose|t: int| 0 <= t < text@.len() && is_digit(#[trigger] text@[t]);
                    assert(chars@[i0 + t] == text@[t]);
                }
                assert(has == num_text_valid(text@));
            }
            if has {
                let tok = LexicalToken {
                    token: Token::Number(text),
                    from: SourceLocation { row, col },
                    to: SourceLocation { row, col: col + (j - i) },
                };
                out.push(tok);
                col = col + (j - i);
                i = j;
                proof {
                    lemma_tokens_view_push(out0, tok);
                    let rest = spec_lex_at(chars@, i as int, row as int, col as int);
                    if rest is Ok {
                        assert((tokens_view(out0) + seq![tok@]) + rest->Ok_0 =~= tokens_view(out0)
                            + (seq![tok@] + rest->Ok_0));
                    }
                }
            } else {
                return Err(ParseError::InvalidNumber(text, SourceLocation { row, col }));
            }
        } else {
            let mut text = String::new();
            text.push(c);
            proof {
                assert(text@ =~= seq![c]);
            }
            let tok = LexicalToken {
                token: Token::Other(text),
                from: SourceLocation { row, col },
                to: SourceLocation { row, col },
            };
            out.push(tok);
            i = i + 1;
            col = col + 1;
            proof {
                lemma_tokens_view_push(out0, tok);
                let rest = spec_lex_at(chars@, i as int, row as int, col as int);
                if rest is Ok {
                    assert((tokens_view(out0) + seq![tok@]) + rest->Ok_0 =~= tokens_view(out0) + (
                    seq![tok@] + rest->Ok_0));
                }
            }
        }
    }
    proof {
        assert(tokens_view(out@) + Seq::<LexicalTokenView>::empty() =~= tokens_view(out@));
    }
    Ok(out)
}

} // verus!
