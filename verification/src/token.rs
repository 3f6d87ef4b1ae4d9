//! Tokens, source locations, and the error taxonomy, together with their
//! mathematical images used in specifications.

use vstd::prelude::*;

verus! {

/// A position in the source text: zero-based line number (`row`, lines being
/// separated by `'\n'`) and zero-based character offset within that line
/// (`col`).
#[derive(Clone, Copy, Debug, PartialEq, Eq, Structural)]
pub struct SourceLocation {
    pub row: usize,
    pub col: usize,
}

/// Mathematical image of a [`SourceLocation`].
pub ghost struct LocView {
    pub row: int,
    pub col: int,
}

impl View for SourceLocation {
    type V = LocView;

    open spec fn view(&self) -> LocView {
        LocView { row: self.row as int, col: self.col as int }
    }
}

/// The lexer's smallest classified unit of input.
///
/// Numbers keep their source text rather than a machine float: the text is
/// validated against the numeric grammar (optional sign, digits, at most one
/// decimal point), and conversion to a floating-point type is left to
/// callers, since floating point lies outside what the verifier handles.
#[derive(Clone, Debug, PartialEq)]
pub enum Token {
    OpenCurly,
    CloseCurly,
    OpenSquare,
    CloseSquare,
    Comma,
    Colon,
    /// A quoted string; the payload is the text between the quotes, stored
    /// verbatim (no escape processing).
    String(String),
    /// A numeric literal, kept as its validated source text.
    Number(String),
    /// A run of alphanumeric/underscore characters starting with a letter;
    /// the parser resolves it against the literals `true`, `false`, `null`.
    Identifier(String),
    /// Any single character not otherwise classified; the parser rejects it.
    Other(String),
}

/// Mathematical image of a [`Token`].
pub ghost enum TokenView {
    OpenCurly,
    CloseCurly,
    OpenSquare,
    CloseSquare,
    Comma,
    Colon,
    String(Seq<char>),
    Number(Seq<char>),
    Identifier(Seq<char>),
    Other(Seq<char>),
}

impl View for Token {
    type V = TokenView;

    open spec fn view(&self) -> TokenView {
        match self {
            Token::OpenCurly => TokenView::OpenCurly,
            Token::CloseCurly => TokenView::CloseCurly,
            Token::OpenSquare => TokenView::OpenSquare,
            Token::CloseSquare => TokenView::CloseSquare,
            Token::Comma => TokenView::Comma,
            Token::Colon => TokenView::Colon,
            Token::String(s) => TokenView::String(s@),
            Token::Number(s) => TokenView::Number(s@),
            Token::Identifier(s) => TokenView::Identifier(s@),
            Token::Other(s) => TokenView::Other(s@),
        }
    }
}

/// A [`Token`] annotated with the source span it was read from; `from` and
/// `to` delimit the token's extent for diagnostics.
#[derive(Clone, Debug, PartialEq)]
pub struct LexicalToken {
    pub token: Token,
    pub from: SourceLocation,
    pub to: SourceLocation,
}

/// Mathematical image of a [`LexicalToken`].
pub ghost struct LexicalTokenView {
    pub token: TokenView,
    pub from: LocView,
    pub to: LocView,
}

impl View for LexicalToken {
    type V = LexicalTokenView;

    open spec fn view(&self) -> LexicalTokenView {
        LexicalTokenView { token: self.token@, from: self.from@, to: self.to@ }
    }
}

/// Everything that can go wrong while turning source text into a value tree.
///
/// The first two variants are lexical and short-circuit before any parsing
/// is attempted; the last two are structural and are reported by the parser.
#[derive(Clone, Debug, PartialEq)]
pub enum ParseError {
    /// A string ran to the end of its line (or of the input) with no closing
    /// quote; the location is that of the opening quote.
    UnterminatedString(SourceLocation),
    /// A numeric literal failed to validate (for example a bare `-`); the
    /// payload is the offending text and its starting location.
    InvalidNumber(String, SourceLocation),
    /// A well-formed token appeared where the grammar does not allow it.
    UnexpectedToken(LexicalToken),
    /// The token stream ran out in the middle of a structure.
    UnexpectedEof,
}

/// Mathematical image of a [`ParseError`].
pub ghost enum ParseErrorView {
    UnterminatedString(LocView),
    InvalidNumber(Seq<char>, LocView),
    UnexpectedToken(LexicalTokenView),
    UnexpectedEof,
}

impl View for ParseError {
    type V = ParseErrorView;

    open spec fn view(&self) -> ParseErrorView {
        match self {
            ParseError::UnterminatedString(l) => ParseErrorView::UnterminatedString(l@),
            ParseError::InvalidNumber(s, l) => ParseErrorView::InvalidNumber(s@, l@),
            ParseError::UnexpectedToken(t) => ParseErrorView::UnexpectedToken(t@),
            ParseError::UnexpectedEof => ParseErrorView::UnexpectedEof,
        }
    }
}

/// The view of a sequence of lexical tokens, elementwise.
pub open spec fn tokens_view(s: Seq<LexicalToken>) -> Seq<LexicalTokenView> {
    s.map_values(|t: LexicalToken| t@)
}

/// Appending one token commutes with taking views.
pub proof fn lemma_tokens_view_push(s: Seq<LexicalToken>, t: LexicalToken)
    ensures
        tokens_view(s.push(t)) == tokens_view(s) + seq![t@],
{
    assert(tokens_view(s.push(t)) =~= tokens_view(s) + seq![t@]);
}

} // verus!
