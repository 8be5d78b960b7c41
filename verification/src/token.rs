//! Tokens and their kinds.

use vstd::prelude::*;

use crate::source::FileId;
use crate::span::{Span, SpanView};

verus! {

/// The categories of C preprocessing tokens, with the whitespace-class markers kept for later
/// phases and the two sentinels `Eof` and `Unknown`.
#[derive(Clone, Copy, Debug, PartialEq, Eq, Structural)]
pub enum TokenKind {
    PpNumber,
    CharConst,
    StringLiteral,
    Ident,
    HeaderName,
    Hash,
    HashHash,
    LParen,
    RParen,
    LBracket,
    RBracket,
    LBrace,
    RBrace,
    Comma,
    Semi,
    Colon,
    Ellipsis,
    Dot,
    Arrow,
    Plus,
    Minus,
    Star,
    Slash,
    Percent,
    PlusPlus,
    MinusMinus,
    Eq,
    Ne,
    Lt,
    Gt,
    Le,
    Ge,
    And,
    Or,
    Not,
    Amp,
    Pipe,
    Caret,
    Tilde,
    Shl,
    Shr,
    Assign,
    PlusAssign,
    MinusAssign,
    StarAssign,
    SlashAssign,
    PercentAssign,
    AmpAssign,
    PipeAssign,
    CaretAssign,
    ShlAssign,
    ShrAssign,
    Question,
    Whitespace,
    Newline,
    Comment,
    Eof,
    Unknown,
}

/// Mathematical model of a [`Token`].
pub struct TokenView {
    pub kind: TokenKind,
    pub span: SpanView,
}

impl TokenView {
    /// The token of kind `kind` that covers `[start, end)` of `file`.
    pub open spec fn covering(kind: TokenKind, file: FileId, start: int, end: int) -> TokenView {
        TokenView { kind, span: SpanView { file, start: start as nat, end: end as nat } }
    }
}

/// One preprocessing token: its category and the bytes it covers. The text is recovered from
/// the span, so none is stored.
#[derive(Clone, Copy, Debug, PartialEq, Eq, Structural)]
pub struct Token {
    pub kind: TokenKind,
    pub span: Span,
}

impl View for Token {
    type V = TokenView;

    open spec fn view(&self) -> TokenView {
        TokenView { kind: self.kind, span: self.span@ }
    }
}

impl Token {
    /// A token of kind `kind` that covers `span`.
    #[must_use]
    pub fn new(kind: TokenKind, span: Span) -> (token: Token)
        ensures
            token.kind == kind,
            token.span == span,
    {
        Token { kind, span }
    }
}

} // verus!
