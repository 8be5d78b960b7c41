//! The lexer: it reads the bytes of one file into the tokens that the grammar defines.

use vstd::prelude::*;

use crate::ascii;
use crate::cursor::Cursor;
use crate::grammar;
use crate::grammar::{ByteClass, Lexeme};
use crate::source::FileId;
use crate::span::Span;
use crate::token::{Token, TokenKind, TokenView};
use crate::BytePos;

verus! {

/// Mathematical model of a [`Lexer`]: the input, the file it was registered as, and the
/// position of the next unread byte.
pub struct LexerView {
    pub src: Seq<u8>,
    pub file: FileId,
    pub pos: int,
}

impl LexerView {
    /// The position lies inside the input or at its end, and every position fits a
    /// [`BytePos`].
    pub open spec fn wf(self) -> bool {
        0 <= self.pos <= self.src.len() <= u32::MAX
    }

    /// The same lexer with the position moved to `pos`.
    pub open spec fn at(self, pos: int) -> LexerView {
        LexerView { src: self.src, file: self.file, pos }
    }

    /// Whether a scan that started at `start` and left the lexer as `after` read exactly
    /// `lexeme` and returned it as `token`.
    pub open spec fn scanned(
        self,
        after: LexerView,
        token: TokenView,
        start: int,
        lexeme: Lexeme,
    ) -> bool {
        &&& after == self.at(lexeme.end)
        &&& after.wf()
        &&& start <= lexeme.end
        &&& token == TokenView::covering(lexeme.kind, self.file, start, lexeme.end)
    }
}

/// Preprocessing-token lexer over the bytes of one source file.
pub struct Lexer<'src> {
    cursor: Cursor<'src>,
    src: &'src [u8],
    file: FileId,
}

impl<'src> View for Lexer<'src> {
    type V = LexerView;

    closed spec fn view(&self) -> LexerView {
        LexerView { src: self.src@, file: self.file, pos: self.cursor@.pos }
    }
}

impl<'src> Lexer<'src> {
    /// The lexer reads the input it was made for, and every position in it fits a
    /// [`BytePos`].
    pub closed spec fn wf(&self) -> bool {
        &&& self.cursor@.bytes == self.src@
        &&& self@.wf()
    }

    /// A lexer at the start of `src`, the content of `file`. The content must fit the
    /// 4 GiB that byte positions can address.
    #[must_use]
    pub fn new(file: FileId, src: &'src [u8]) -> (lexer: Self)
        requires
            src@.len() <= u32::MAX,
        ensures
            lexer@ == (LexerView { src: src@, file, pos: 0 }),
            lexer.wf(),
    {
        Lexer { cursor: Cursor::new(src), src, file }
    }

    /// Reads the next preprocessing token. At the end of input it yields `Eof`, of no
    /// width, and stays there.
    #[must_use]
    pub fn next_token(&mut self) -> (token: Token)
        requires
            old(self).wf(),
        ensures
            final(self).wf(),
            old(self)@.scanned(
                final(self)@,
                token@,
                old(self)@.pos,
                grammar::next_lexeme(old(self)@.src, old(self)@.pos),
            ),
    {
        proof {
            reveal(grammar::token_at);
        }
        if self.cursor.is_eof() {
            return self.make_token(self.cursor.pos(), TokenKind::Eof);
        }
        let byte = self.src[self.cursor.pos()];

        if is_whitespace_no_newline(byte) {
            return self.whitespace();
        }
        if byte == ascii::NEWLINE {
            let start = self.cursor.pos();
            let _ = self.cursor.advance();
            return self.make_token(start, TokenKind::Newline);
        }
        if byte == ascii::SLASH {
            if self.cursor.peek_next() == Some(ascii::SLASH) {
                return self.line_comment();
            }
            if self.cursor.peek_next() == Some(ascii::ASTERISK) {
                return self.block_comment();
            }
        }
        if is_digit(byte) || (byte == ascii::DOT && starts_with_digit(self.cursor.peek_next())) {
            return self.pp_number();
        }
        if byte == ascii::UPPER_L || byte == ascii::LOWER_U || byte == ascii::UPPER_U {
            return self.ident_or_string_prefix();
        }
        if is_ident_start(byte) {
            return self.ident();
        }
        if byte == ascii::DOUBLE_QUOTE {
            let _ = self.cursor.advance();
            return self.string_literal(0);
        }
        if byte == ascii::SINGLE_QUOTE {
            let _ = self.cursor.advance();
            return self.char_const(0);
        }
        let start = self.cursor.pos();
        let _ = self.cursor.advance();
        self.punctuator(start, byte)
    }

    /// Reads all of `src`, the content of `file`, into its tokens. The last of them, and
    /// no other, is `Eof`, the point behind the last byte; together they cover the input
    /// from its first byte to its last without gap or overlap. The content must fit the
    /// 4 GiB that byte positions can address.
    #[must_use]
    pub fn tokenize(file: FileId, src: &'src [u8]) -> (tokens: Vec<Token>)
        requires
            src@.len() <= u32::MAX,
        ensures
            grammar::token_views(tokens@) == grammar::token_stream(src@, file),
            grammar::ends_with_single_eof(grammar::token_views(tokens@)),
            grammar::tiles(grammar::token_views(tokens@), file, src@.len() as int),
            tokens@.len() >= 1,
            tokens@.last()@ == TokenView::covering(
                TokenKind::Eof,
                file,
                src@.len() as int,
                src@.len() as int,
            ),
    {
        let mut lexer = Lexer::new(file, src);
        let mut out: Vec<Token> = Vec::new();
        loop
            invariant_except_break
                grammar::token_views(out@) + grammar::token_stream_from(src@, file, lexer@.pos)
                    == grammar::token_stream(src@, file),
            invariant
                lexer.wf(),
                lexer@.src == src@,
                lexer@.file == file,
            ensures
                grammar::token_views(out@) == grammar::token_stream(src@, file),
            decreases src@.len() - lexer@.pos,
        {
            let ghost pos = lexer@.pos;
            let token = lexer.next_token();
            out.push(token);
            proof {
                if pos < src@.len() {
                    grammar::lemma_token_at_advances(src@, pos);
                }
            }
            if token.kind == TokenKind::Eof {
                break;
            }
        }
        proof {
            grammar::lemma_every_input_ends_with_single_eof(src@, file);
            grammar::lemma_every_input_is_tiled(src@, file);
            assert(grammar::token_views(out@).last() == out@.last()@);
        }
        out
    }

    /// Reads the operand of an `#include` directive: a header name between `<` and `>` or
    /// between double quotes. A name whose line, or the input, ends before its closing
    /// delimiter is `Unknown`, and so is a single byte that opens none; at the end of
    /// input the token is `Eof`.
    #[must_use]
    pub fn lex_header_name(&mut self) -> (token: Token)
        requires
            old(self).wf(),
        ensures
            final(self).wf(),
            old(self)@.scanned(
                final(self)@,
                token@,
                old(self)@.pos,
                grammar::header_name_at(old(self)@.src, old(self)@.pos),
            ),
    {
        let start = self.cursor.pos();
        let close = match self.cursor.advance() {
            None => {
                return self.make_token(start, TokenKind::Eof);
            },
            Some(open) => {
                if open == ascii::LESS {
                    ascii::GREATER
                } else if open == ascii::DOUBLE_QUOTE {
                    ascii::DOUBLE_QUOTE
                } else {
                    return self.make_token(start, TokenKind::Unknown);
                }
            },
        };
        let mut closed = false;
        loop
            invariant_except_break
                !closed,
                grammar::header_end(self.src@, start + 1, close) == grammar::header_end(
                    self.src@,
                    self.cursor@.pos,
                    close,
                ),
            invariant
                self.cursor@.bytes == self.src@,
                self.src@ == old(self)@.src,
                self.file == old(self)@.file,
                self.src@.len() <= u32::MAX,
                start + 1 <= self.cursor@.pos <= self.src@.len(),
            ensures
                self.cursor@.bytes == self.src@,
                self.src@ == old(self)@.src,
                self.file == old(self)@.file,
                self.src@.len() <= u32::MAX,
                start + 1 <= self.cursor@.pos <= self.src@.len(),
                grammar::header_end(self.src@, start + 1, close) == (grammar::Delimited {
                    end: self.cursor@.pos,
                    closed,
                }),
            decreases self.src@.len() - self.cursor@.pos,
        {
            match self.cursor.peek() {
                None => {
                    break;
                },
                Some(byte) => {
                    if byte == close {
                        let _ = self.cursor.advance();
                        closed = true;
                        break;
                    }
                    if byte == ascii::NEWLINE {
                        break;
                    }
                    let _ = self.cursor.advance();
                },
            }
        }
        let kind = if closed {
            TokenKind::HeaderName
        } else {
            TokenKind::Unknown
        };
        self.make_token(start, kind)
    }

    /// The bytes of the input that `token` covers.
    #[must_use]
    pub fn slice(&self, token: Token) -> (text: &'src [u8])
        requires
            self.wf(),
            token@.span.end <= self@.src.len(),
        ensures
            text@ == self@.src.subrange(token@.span.start as int, token@.span.end as int),
    {
        token.span.as_str(self.src)
    }

    fn whitespace(&mut self) -> (token: Token)
        requires
            old(self).wf(),
            old(self)@.pos < old(self)@.src.len(),
        ensures
            final(self).wf(),
            old(self)@.scanned(
                final(self)@,
                token@,
                old(self)@.pos,
                Lexeme {
                    kind: TokenKind::Whitespace,
                    end: grammar::run_end(old(self)@.src, old(self)@.pos, ByteClass::Blank),
                },
            ),
    {
        let start = self.cursor.pos();
        self.cursor.eat_while(is_whitespace_no_newline);
        proof {
            grammar::lemma_run_end_unique(
                self.src@,
                start as int,
                self.cursor@.pos,
                ByteClass::Blank,
            );
        }
        self.make_token(start, TokenKind::Whitespace)
    }

    fn line_comment(&mut self) -> (token: Token)
        requires
            old(self).wf(),
            old(self)@.pos + 2 <= old(self)@.src.len(),
        ensures
            final(self).wf(),
            old(self)@.scanned(
                final(self)@,
                token@,
                old(self)@.pos,
                Lexeme {
                    kind: TokenKind::Comment,
                    end: grammar::run_end(old(self)@.src, old(self)@.pos + 2, ByteClass::LineBody),
                },
            ),
    {
        let start = self.cursor.pos();
        let _ = self.cursor.advance();
        let _ = self.cursor.advance();
        self.cursor.eat_while(is_line_body);
        proof {
            grammar::lemma_run_end_unique(
                self.src@,
                start + 2,
                self.cursor@.pos,
                ByteClass::LineBody,
            );
        }
        self.make_token(start, TokenKind::Comment)
    }

    fn block_comment(&mut self) -> (token: Token)
        requires
            old(self).wf(),
            old(self)@.pos + 2 <= old(self)@.src.len(),
        ensures
            final(self).wf(),
            old(self)@.scanned(
                final(self)@,
                token@,
                old(self)@.pos,
                Lexeme {
                    kind: TokenKind::Comment,
                    end: grammar::block_comment_end(old(self)@.src, old(self)@.pos + 2),
                },
            ),
    {
        let start = self.cursor.pos();
        let _ = self.cursor.advance();
        let _ = self.cursor.advance();
        loop
            invariant_except_break
                grammar::block_comment_end(self.src@, start + 2) == grammar::block_comment_end(
                    self.src@,
                    self.cursor@.pos,
                ),
            invariant
                self.cursor@.bytes == self.src@,
                self.src@ == old(self)@.src,
                self.file == old(self)@.file,
                self.src@.len() <= u32::MAX,
                start + 2 <= self.cursor@.pos <= self.src@.len(),
            ensures
                self.cursor@.bytes == self.src@,
                self.src@ == old(self)@.src,
                self.file == old(self)@.file,
                self.src@.len() <= u32::MAX,
                start + 2 <= self.cursor@.pos <= self.src@.len(),
                self.cursor@.pos == grammar::block_comment_end(self.src@, start + 2),
            decreases self.src@.len() - self.cursor@.pos,
        {
            match self.cursor.advance() {
                None => {
                    break;
                },
                Some(byte) => {
                    if byte == ascii::ASTERISK && self.cursor.eat(ascii::SLASH) {
                        break;
                    }
                },
            }
        }
        self.make_token(start, TokenKind::Comment)
    }

    fn ident_or_string_prefix(&mut self) -> (token: Token)
        requires
            old(self).wf(),
            old(self)@.pos < old(self)@.src.len(),
            ({
                let first = old(self)@.src[old(self)@.pos];
                first == ascii::UPPER_L || first == ascii::LOWER_U || first == ascii::UPPER_U
            }),
        ensures
            final(self).wf(),
            old(self)@.scanned(
                final(self)@,
                token@,
                old(self)@.pos,
                match grammar::literal_start(old(self)@.src, old(self)@.pos) {
                    Some(start) => grammar::literal_at(old(self)@.src, old(self)@.pos, start),
                    None => Lexeme {
                        kind: TokenKind::Ident,
                        end: grammar::run_end(
                            old(self)@.src,
                            old(self)@.pos + 1,
                            ByteClass::IdentContinue,
                        ),
                    },
                },
            ),
    {
        let start = self.cursor.pos();
        let first = self.src[start];
        let _ = self.cursor.advance();
        if first == ascii::LOWER_U && self.cursor.eat(ascii::DIGIT_8) {
            if self.cursor.eat(ascii::DOUBLE_QUOTE) {
                return self.string_literal(2);
            }
            self.cursor.eat_while(is_ident_continue);
            proof {
                grammar::lemma_run_end_unique(
                    self.src@,
                    start + 2,
                    self.cursor@.pos,
                    ByteClass::IdentContinue,
                );
            }
            return self.make_token(start, TokenKind::Ident);
        }
        if self.cursor.eat(ascii::DOUBLE_QUOTE) {
            return self.string_literal(1);
        }
        if self.cursor.eat(ascii::SINGLE_QUOTE) {
            return self.char_const(1);
        }
        self.cursor.eat_while(is_ident_continue);
        proof {
            grammar::lemma_run_end_unique(
                self.src@,
                start + 1,
                self.cursor@.pos,
                ByteClass::IdentContinue,
            );
        }
        self.make_token(start, TokenKind::Ident)
    }

    fn ident(&mut self) -> (token: Token)
        requires
            old(self).wf(),
            old(self)@.pos < old(self)@.src.len(),
        ensures
            final(self).wf(),
            old(self)@.scanned(
                final(self)@,
                token@,
                old(self)@.pos,
                Lexeme {
                    kind: TokenKind::Ident,
                    end: grammar::run_end(
                        old(self)@.src,
                        old(self)@.pos + 1,
                        ByteClass::IdentContinue,
                    ),
                },
            ),
    {
        let start = self.cursor.pos();
        let _ = self.cursor.advance();
        self.cursor.eat_while(is_ident_continue);
        proof {
            grammar::lemma_run_end_unique(
                self.src@,
                start + 1,
                self.cursor@.pos,
                ByteClass::IdentContinue,
            );
        }
        self.make_token(start, TokenKind::Ident)
    }

    fn pp_number(&mut self) -> (token: Token)
        requires
            old(self).wf(),
            old(self)@.pos < old(self)@.src.len(),
        ensures
            final(self).wf(),
            old(self)@.scanned(
                final(self)@,
                token@,
                old(self)@.pos,
                Lexeme {
                    kind: TokenKind::PpNumber,
                    end: grammar::pp_number_end(old(self)@.src, old(self)@.pos + 1),
                },
            ),
    {
        let start = self.cursor.pos();
        let _ = self.cursor.advance();
        loop
            invariant_except_break
                grammar::pp_number_end(self.src@, start + 1) == grammar::pp_number_end(
                    self.src@,
                    self.cursor@.pos,
                ),
            invariant
                self.cursor@.bytes == self.src@,
                self.src@ == old(self)@.src,
                self.file == old(self)@.file,
                self.src@.len() <= u32::MAX,
                start + 1 <= self.cursor@.pos <= self.src@.len(),
            ensures
                self.cursor@.bytes == self.src@,
                self.src@ == old(self)@.src,
                self.file == old(self)@.file,
                self.src@.len() <= u32::MAX,
                start + 1 <= self.cursor@.pos <= self.src@.len(),
                self.cursor@.pos == grammar::pp_number_end(self.src@, start + 1),
            decreases self.src@.len() - self.cursor@.pos,
        {
            match self.cursor.peek() {
                None => {
                    break;
                },
                Some(byte) => {
                    if is_exponent_marker(byte) && is_sign(self.cursor.peek_next()) {
                        let _ = self.cursor.advance();
                        let _ = self.cursor.advance();
                    } else if is_digit(byte) || is_ident_nondigit(byte) || byte == ascii::DOT {
                        let _ = self.cursor.advance();
                    } else {
                        break;
                    }
                },
            }
        }
        self.make_token(start, TokenKind::PpNumber)
    }

    fn string_literal(&mut self, prefix_len: u32) -> (token: Token)
        requires
            old(self).wf(),
            prefix_len <= 2,
            prefix_len + 1 <= old(self)@.pos,
        ensures
            final(self).wf(),
            old(self)@.scanned(
                final(self)@,
                token@,
                old(self)@.pos - prefix_len - 1,
                grammar::literal_at(
                    old(self)@.src,
                    old(self)@.pos - prefix_len - 1,
                    grammar::LiteralStart {
                        prefix_len: prefix_len as int,
                        quote: ascii::DOUBLE_QUOTE,
                    },
                ),
            ),
    {
        self.quoted(prefix_len, ascii::DOUBLE_QUOTE)
    }

    fn char_const(&mut self, prefix_len: u32) -> (token: Token)
        requires
            old(self).wf(),
            prefix_len <= 2,
            prefix_len + 1 <= old(self)@.pos,
        ensures
            final(self).wf(),
            old(self)@.scanned(
                final(self)@,
                token@,
                old(self)@.pos - prefix_len - 1,
                grammar::literal_at(
                    old(self)@.src,
                    old(self)@.pos - prefix_len - 1,
                    grammar::LiteralStart {
                        prefix_len: prefix_len as int,
                        quote: ascii::SINGLE_QUOTE,
                    },
                ),
            ),
    {
        self.quoted(prefix_len, ascii::SINGLE_QUOTE)
    }

    /// Scans the body of a literal whose opening `quote`, and the `prefix_len` bytes before
    /// it, have been consumed.
    fn quoted(&mut self, prefix_len: u32, quote: u8) -> (token: Token)
        requires
            old(self).wf(),
            prefix_len <= 2,
            prefix_len + 1 <= old(self)@.pos,
            grammar::is_quote(quote),
        ensures
            final(self).wf(),
            old(self)@.scanned(
                final(self)@,
                token@,
                old(self)@.pos - prefix_len - 1,
                grammar::literal_at(
                    old(self)@.src,
                    old(self)@.pos - prefix_len - 1,
                    grammar::LiteralStart { prefix_len: prefix_len as int, quote },
                ),
            ),
    {
        let body = self.cursor.pos();
        let start = body - (prefix_len as usize + 1);
        let mut closed = false;
        loop
            invariant_except_break
                !closed,
                grammar::quoted_end(self.src@, body as int, quote) == grammar::quoted_end(
                    self.src@,
                    self.cursor@.pos,
                    quote,
                ),
            invariant
                self.cursor@.bytes == self.src@,
                self.src@ == old(self)@.src,
                self.file == old(self)@.file,
                self.src@.len() <= u32::MAX,
                body <= self.cursor@.pos <= self.src@.len(),
            ensures
                self.cursor@.bytes == self.src@,
                self.src@ == old(self)@.src,
                self.file == old(self)@.file,
                self.src@.len() <= u32::MAX,
                body <= self.cursor@.pos <= self.src@.len(),
                grammar::quoted_end(self.src@, body as int, quote) == (grammar::Delimited {
                    end: self.cursor@.pos,
                    closed,
                }),
            decreases self.src@.len() - self.cursor@.pos,
        {
            match self.cursor.peek() {
                None => {
                    break;
                },
                Some(byte) => {
                    if byte == ascii::BACKSLASH {
                        let _ = self.cursor.advance();
                        let _ = self.cursor.advance();
                    } else if byte == quote {
                        let _ = self.cursor.advance();
                        closed = true;
                        break;
                    } else if byte == ascii::NEWLINE {
                        break;
                    } else {
                        let _ = self.cursor.advance();
                    }
                },
            }
        }
        let kind = if !closed {
            TokenKind::Unknown
        } else if quote == ascii::DOUBLE_QUOTE {
            TokenKind::StringLiteral
        } else {
            TokenKind::CharConst
        };
        self.make_token(start, kind)
    }

    fn punctuator(&mut self, start: usize, first: u8) -> (token: Token)
        requires
            old(self).wf(),
            start + 1 == old(self)@.pos,
            first == old(self)@.src[start as int],
        ensures
            final(self).wf(),
            old(self)@.scanned(
                final(self)@,
                token@,
                start as int,
                grammar::punctuator_at(old(self)@.src, start as int),
            ),
    {
        let kind = if first == ascii::HASH {
            if self.cursor.eat(ascii::HASH) {
                TokenKind::HashHash
            } else {
                TokenKind::Hash
            }
        } else if first == ascii::LEFT_PAREN {
            TokenKind::LParen
        } else if first == ascii::RIGHT_PAREN {
            TokenKind::RParen
        } else if first == ascii::LEFT_BRACKET {
            TokenKind::LBracket
        } else if first == ascii::RIGHT_BRACKET {
            TokenKind::RBracket
        } else if first == ascii::LEFT_BRACE {
            TokenKind::LBrace
        } else if first == ascii::RIGHT_BRACE {
            TokenKind::RBrace
        } else if first == ascii::COMMA {
            TokenKind::Comma
        } else if first == ascii::SEMICOLON {
            TokenKind::Semi
        } else if first == ascii::COLON {
            TokenKind::Colon
        } else if first == ascii::DOT {
            if self.cursor.peek() == Some(ascii::DOT) && self.cursor.peek_next() == Some(
                ascii::DOT,
            ) {
                let _ = self.cursor.advance();
                let _ = self.cursor.advance();
                TokenKind::Ellipsis
            } else {
                TokenKind::Dot
            }
        } else if first == ascii::QUESTION {
            TokenKind::Question
        } else if first == ascii::PLUS {
            if self.cursor.eat(ascii::PLUS) {
                TokenKind::PlusPlus
            } else if self.cursor.eat(ascii::EQUALS) {
                TokenKind::PlusAssign
            } else {
                TokenKind::Plus
            }
        } else if first == ascii::MINUS {
            if self.cursor.eat(ascii::MINUS) {
                TokenKind::MinusMinus
            } else if self.cursor.eat(ascii::GREATER) {
                TokenKind::Arrow
            } else if self.cursor.eat(ascii::EQUALS) {
                TokenKind::MinusAssign
            } else {
                TokenKind::Minus
            }
        } else if first == ascii::ASTERISK {
            if self.cursor.eat(ascii::EQUALS) {
                TokenKind::StarAssign
            } else {
                TokenKind::Star
            }
        } else if first == ascii::SLASH {
            if self.cursor.eat(ascii::EQUALS) {
                TokenKind::SlashAssign
            } else {
                TokenKind::Slash
            }
        } else if first == ascii::PERCENT {
            if self.cursor.eat(ascii::EQUALS) {
                TokenKind::PercentAssign
            } else {
                TokenKind::Percent
            }
        } else if first == ascii::EQUALS {
            if self.cursor.eat(ascii::EQUALS) {
                TokenKind::Eq
            } else {
                TokenKind::Assign
            }
        } else if first == ascii::BANG {
            if self.cursor.eat(ascii::EQUALS) {
                TokenKind::Ne
            } else {
                TokenKind::Not
            }
        } else if first == ascii::LESS {
            if self.cursor.eat(ascii::LESS) {
                if self.cursor.eat(ascii::EQUALS) {
                    TokenKind::ShlAssign
                } else {
                    TokenKind::Shl
                }
            } else if self.cursor.eat(ascii::EQUALS) {
                TokenKind::Le
            } else {
                TokenKind::Lt
            }
        } else if first == ascii::GREATER {
            if self.cursor.eat(ascii::GREATER) {
                if self.cursor.eat(ascii::EQUALS) {
                    TokenKind::ShrAssign
                } else {
                    TokenKind::Shr
                }
            } else if self.cursor.eat(ascii::EQUALS) {
                TokenKind::Ge
            } else {
                TokenKind::Gt
            }
        } else if first == ascii::AMPERSAND {
            if self.cursor.eat(ascii::AMPERSAND) {
                TokenKind::And
            } else if self.cursor.eat(ascii::EQUALS) {
                TokenKind::AmpAssign
            } else {
                TokenKind::Amp
            }
        } else if first == ascii::PIPE {
            if self.cursor.eat(ascii::PIPE) {
                TokenKind::Or
            } else if self.cursor.eat(ascii::EQUALS) {
                TokenKind::PipeAssign
            } else {
                TokenKind::Pipe
            }
        } else if first == ascii::CARET {
            if self.cursor.eat(ascii::EQUALS) {
                TokenKind::CaretAssign
            } else {
                TokenKind::Caret
            }
        } else if first == ascii::TILDE {
            TokenKind::Tilde
        } else {
            TokenKind::Unknown
        };
        self.make_token(start, kind)
    }

    fn make_token(&self, start: usize, kind: TokenKind) -> (token: Token)
        requires
            self.wf(),
            start <= self@.pos,
        ensures
            token@ == TokenView::covering(kind, self@.file, start as int, self@.pos as int),
    {
        let end = self.cursor.pos();
        Token::new(kind, Span::new(self.file, self.byte_pos(start), self.byte_pos(end)))
    }

    fn byte_pos(&self, pos: usize) -> (at: BytePos)
        requires
            pos <= u32::MAX,
        ensures
            at == pos,
    {
        pos as BytePos
    }
}

fn starts_with_digit(byte: Option<u8>) -> (digit: bool)
    ensures
        digit <==> byte is Some && grammar::is_digit(byte->0),
{
    match byte {
        Some(b) => is_digit(b),
        None => false,
    }
}

fn is_line_body(byte: u8) -> (inside: bool)
    ensures
        inside == ByteClass::LineBody.contains(byte),
{
    byte != ascii::NEWLINE
}

fn is_exponent_marker(byte: u8) -> (marker: bool)
    ensures
        marker == grammar::is_exponent_marker(byte),
{
    byte == ascii::LOWER_E || byte == ascii::UPPER_E || byte == ascii::LOWER_P || byte
        == ascii::UPPER_P
}

fn is_sign(byte: Option<u8>) -> (sign: bool)
    ensures
        sign <==> byte is Some && grammar::is_sign(byte->0),
{
    byte == Some(ascii::PLUS) || byte == Some(ascii::MINUS)
}

/// Whether `byte` is a blank other than the newline.
pub fn is_whitespace_no_newline(byte: u8) -> (blank: bool)
    ensures
        blank == grammar::is_whitespace_no_newline(byte),
{
    byte == ascii::SPACE || byte == ascii::TAB || byte == ascii::CARRIAGE_RETURN || byte
        == ascii::VERTICAL_TAB || byte == ascii::FORM_FEED
}

/// Whether `byte` is an ASCII digit.
pub fn is_digit(byte: u8) -> (digit: bool)
    ensures
        digit == grammar::is_digit(byte),
{
    ascii::DIGIT_0 <= byte && byte <= ascii::DIGIT_9
}

/// Whether `byte` may start an identifier.
pub fn is_ident_start(byte: u8) -> (start: bool)
    ensures
        start == grammar::is_ident_start(byte),
{
    (ascii::UPPER_A <= byte && byte <= ascii::UPPER_Z) || (ascii::LOWER_A <= byte && byte
        <= ascii::LOWER_Z) || byte == ascii::UNDERSCORE
}

/// Whether `byte` is an identifier-nondigit of the C grammar.
pub fn is_ident_nondigit(byte: u8) -> (nondigit: bool)
    ensures
        nondigit == grammar::is_ident_nondigit(byte),
{
    is_ident_start(byte)
}

/// Whether `byte` may continue an identifier.
pub fn is_ident_continue(byte: u8) -> (inside: bool)
    ensures
        inside == grammar::is_ident_continue(byte),
{
    is_ident_start(byte) || is_digit(byte)
}

} // verus!
