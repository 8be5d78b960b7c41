//! The grammar of C preprocessing tokens, as functions on byte sequences, and what holds
//! of every token sequence.

use vstd::prelude::*;

use crate::ascii;
use crate::source::FileId;
use crate::token::{Token, TokenKind, TokenView};

verus! {

/// The byte at position `i` of `s`, if the input reaches that far.
pub open spec fn byte_at(s: Seq<u8>, i: int) -> Option<u8> {
    if 0 <= i < s.len() {
        Some(s[i])
    } else {
        None
    }
}

/// Space, tab, carriage return, vertical tab and form feed: blank bytes that end no line.
pub open spec fn is_whitespace_no_newline(byte: u8) -> bool {
    byte == ascii::SPACE || byte == ascii::TAB || byte == ascii::CARRIAGE_RETURN || byte
        == ascii::VERTICAL_TAB || byte == ascii::FORM_FEED
}

/// An ASCII digit.
pub open spec fn is_digit(byte: u8) -> bool {
    ascii::DIGIT_0 <= byte <= ascii::DIGIT_9
}

/// An ASCII letter or the underscore.
pub open spec fn is_ident_start(byte: u8) -> bool {
    ascii::UPPER_A <= byte <= ascii::UPPER_Z || ascii::LOWER_A <= byte <= ascii::LOWER_Z || byte
        == ascii::UNDERSCORE
}

/// The bytes that the C grammar calls identifier-nondigits.
pub open spec fn is_ident_nondigit(byte: u8) -> bool {
    is_ident_start(byte)
}

/// An ASCII letter, a digit or the underscore.
pub open spec fn is_ident_continue(byte: u8) -> bool {
    is_ident_start(byte) || is_digit(byte)
}

/// `e`, `E`, `p` or `P`: the letters that may introduce a signed exponent.
pub open spec fn is_exponent_marker(byte: u8) -> bool {
    byte == ascii::LOWER_E || byte == ascii::UPPER_E || byte == ascii::LOWER_P || byte
        == ascii::UPPER_P
}

/// `+` or `-`.
pub open spec fn is_sign(byte: u8) -> bool {
    byte == ascii::PLUS || byte == ascii::MINUS
}

/// The sets of bytes of which the lexer consumes maximal runs.
pub enum ByteClass {
    /// Blank bytes other than the newline.
    Blank,
    /// Letters, digits and the underscore.
    IdentContinue,
    /// Every byte but the newline.
    LineBody,
}

impl ByteClass {
    /// Whether `byte` belongs to the class.
    pub open spec fn contains(self, byte: u8) -> bool {
        match self {
            ByteClass::Blank => is_whitespace_no_newline(byte),
            ByteClass::IdentContinue => is_ident_continue(byte),
            ByteClass::LineBody => byte != ascii::NEWLINE,
        }
    }
}

/// Where the maximal run of `class` bytes that starts at `p` ends: the first position at or
/// after `p` that holds a byte outside `class`, or the end of input.
pub open spec fn run_end(s: Seq<u8>, p: int, class: ByteClass) -> int
    decreases s.len() - p,
{
    if 0 <= p < s.len() && class.contains(s[p]) {
        run_end(s, p + 1, class)
    } else {
        p
    }
}

/// Where a block comment ends whose body starts at `p`: just after the first `*/` at or
/// after `p`, or at the end of input where there is none.
pub open spec fn block_comment_end(s: Seq<u8>, p: int) -> int
    decreases s.len() - p,
{
    if p < 0 || p >= s.len() {
        s.len() as int
    } else if s[p] == ascii::ASTERISK && byte_at(s, p + 1) == Some(ascii::SLASH) {
        p + 2
    } else {
        block_comment_end(s, p + 1)
    }
}

/// Where a preprocessing number ends of which `[.., p)` has been read. An exponent marker
/// takes a sign that follows it directly; digits, letters, underscores and dots are taken
/// one by one.
pub open spec fn pp_number_end(s: Seq<u8>, p: int) -> int
    decreases s.len() - p,
{
    if p < 0 || p >= s.len() {
        p
    } else if is_exponent_marker(s[p]) && p + 1 < s.len() && is_sign(s[p + 1]) {
        pp_number_end(s, p + 2)
    } else if is_digit(s[p]) || is_ident_nondigit(s[p]) || s[p] == ascii::DOT {
        pp_number_end(s, p + 1)
    } else {
        p
    }
}

/// The outcome of scanning for a closing delimiter.
pub struct Delimited {
    /// Where the scan stopped.
    pub end: int,
    /// Whether it stopped just after the closing delimiter.
    pub closed: bool,
}

/// Scans the body of a string literal or character constant from `p` for the closing
/// `quote`. A backslash takes the byte after it, whatever that is. The scan stops just after
/// the closing quote, in front of a newline, or at the end of input.
pub open spec fn quoted_end(s: Seq<u8>, p: int, quote: u8) -> Delimited
    decreases s.len() - p,
{
    if p < 0 || p >= s.len() {
        Delimited { end: s.len() as int, closed: false }
    } else if s[p] == ascii::BACKSLASH {
        if p + 1 < s.len() {
            quoted_end(s, p + 2, quote)
        } else {
            Delimited { end: s.len() as int, closed: false }
        }
    } else if s[p] == quote {
        Delimited { end: p + 1, closed: true }
    } else if s[p] == ascii::NEWLINE {
        Delimited { end: p, closed: false }
    } else {
        quoted_end(s, p + 1, quote)
    }
}

/// Scans the body of a header name from `p` for the delimiter `close`. No byte escapes
/// another. The scan stops just after `close`, in front of a newline, or at the end of
/// input.
pub open spec fn header_end(s: Seq<u8>, p: int, close: u8) -> Delimited
    decreases s.len() - p,
{
    if p < 0 || p >= s.len() {
        Delimited { end: s.len() as int, closed: false }
    } else if s[p] == close {
        Delimited { end: p + 1, closed: true }
    } else if s[p] == ascii::NEWLINE {
        Delimited { end: p, closed: false }
    } else {
        header_end(s, p + 1, close)
    }
}

/// A literal that opens at some position: how many prefix bytes stand before its opening
/// quote, and which quote it is.
pub struct LiteralStart {
    pub prefix_len: int,
    pub quote: u8,
}

/// The double quote of string literals or the single quote of character constants.
pub open spec fn is_quote(byte: u8) -> bool {
    byte == ascii::DOUBLE_QUOTE || byte == ascii::SINGLE_QUOTE
}

/// Whether a string literal or character constant opens at `p`, with or without an encoding
/// prefix: a bare quote; `L`, `u` or `U` before a quote; or `u8` before a double quote.
pub open spec fn literal_start(s: Seq<u8>, p: int) -> Option<LiteralStart> {
    let first = byte_at(s, p);
    let second = byte_at(s, p + 1);
    let third = byte_at(s, p + 2);
    if first is Some && is_quote(first->0) {
        Some(LiteralStart { prefix_len: 0, quote: first->0 })
    } else if (first == Some(ascii::UPPER_L) || first == Some(ascii::LOWER_U) || first == Some(
        ascii::UPPER_U,
    )) && second is Some && is_quote(second->0) {
        Some(LiteralStart { prefix_len: 1, quote: second->0 })
    } else if first == Some(ascii::LOWER_U) && second == Some(ascii::DIGIT_8) && third == Some(
        ascii::DOUBLE_QUOTE,
    ) {
        Some(LiteralStart { prefix_len: 2, quote: ascii::DOUBLE_QUOTE })
    } else {
        None
    }
}

/// The punctuators of one byte.
pub open spec fn punctuator1(a: u8) -> Option<TokenKind> {
    if a == ascii::HASH {
        Some(TokenKind::Hash)
    } else if a == ascii::LEFT_PAREN {
        Some(TokenKind::LParen)
    } else if a == ascii::RIGHT_PAREN {
        Some(TokenKind::RParen)
    } else if a == ascii::LEFT_BRACKET {
        Some(TokenKind::LBracket)
    } else if a == ascii::RIGHT_BRACKET {
        Some(TokenKind::RBracket)
    } else if a == ascii::LEFT_BRACE {
        Some(TokenKind::LBrace)
    } else if a == ascii::RIGHT_BRACE {
        Some(TokenKind::RBrace)
    } else if a == ascii::COMMA {
        Some(TokenKind::Comma)
    } else if a == ascii::SEMICOLON {
        Some(TokenKind::Semi)
    } else if a == ascii::COLON {
        Some(TokenKind::Colon)
    } else if a == ascii::DOT {
        Some(TokenKind::Dot)
    } else if a == ascii::QUESTION {
        Some(TokenKind::Question)
    } else if a == ascii::PLUS {
        Some(TokenKind::Plus)
    } else if a == ascii::MINUS {
        Some(TokenKind::Minus)
    } else if a == ascii::ASTERISK {
        Some(TokenKind::Star)
    } else if a == ascii::SLASH {
        Some(TokenKind::Slash)
    } else if a == ascii::PERCENT {
        Some(TokenKind::Percent)
    } else if a == ascii::EQUALS {
        Some(TokenKind::Assign)
    } else if a == ascii::BANG {
        Some(TokenKind::Not)
    } else if a == ascii::LESS {
        Some(TokenKind::Lt)
    } else if a == ascii::GREATER {
        Some(TokenKind::Gt)
    } else if a == ascii::AMPERSAND {
        Some(TokenKind::Amp)
    } else if a == ascii::PIPE {
        Some(TokenKind::Pipe)
    } else if a == ascii::CARET {
        Some(TokenKind::Caret)
    } else if a == ascii::TILDE {
        Some(TokenKind::Tilde)
    } else {
        None
    }
}

/// The punctuators of two bytes.
pub open spec fn punctuator2(a: u8, b: u8) -> Option<TokenKind> {
    if a == ascii::HASH && b == ascii::HASH {
        Some(TokenKind::HashHash)
    } else if a == ascii::MINUS && b == ascii::GREATER {
        Some(TokenKind::Arrow)
    } else if a == ascii::PLUS && b == ascii::PLUS {
        Some(TokenKind::PlusPlus)
    } else if a == ascii::MINUS && b == ascii::MINUS {
        Some(TokenKind::MinusMinus)
    } else if a == ascii::EQUALS && b == ascii::EQUALS {
        Some(TokenKind::Eq)
    } else if a == ascii::BANG && b == ascii::EQUALS {
        Some(TokenKind::Ne)
    } else if a == ascii::LESS && b == ascii::EQUALS {
        Some(TokenKind::Le)
    } else if a == ascii::GREATER && b == ascii::EQUALS {
        Some(TokenKind::Ge)
    } else if a == ascii::AMPERSAND && b == ascii::AMPERSAND {
        Some(TokenKind::And)
    } else if a == ascii::PIPE && b == ascii::PIPE {
        Some(TokenKind::Or)
    } else if a == ascii::LESS && b == ascii::LESS {
        Some(TokenKind::Shl)
    } else if a == ascii::GREATER && b == ascii::GREATER {
        Some(TokenKind::Shr)
    } else if a == ascii::PLUS && b == ascii::EQUALS {
        Some(TokenKind::PlusAssign)
    } else if a == ascii::MINUS && b == ascii::EQUALS {
        Some(TokenKind::MinusAssign)
    } else if a == ascii::ASTERISK && b == ascii::EQUALS {
        Some(TokenKind::StarAssign)
    } else if a == ascii::SLASH && b == ascii::EQUALS {
        Some(TokenKind::SlashAssign)
    } else if a == ascii::PERCENT && b == ascii::EQUALS {
        Some(TokenKind::PercentAssign)
    } else if a == ascii::AMPERSAND && b == ascii::EQUALS {
        Some(TokenKind::AmpAssign)
    } else if a == ascii::PIPE && b == ascii::EQUALS {
        Some(TokenKind::PipeAssign)
    } else if a == ascii::CARET && b == ascii::EQUALS {
        Some(TokenKind::CaretAssign)
    } else {
        None
    }
}

/// The punctuators of three bytes.
pub open spec fn punctuator3(a: u8, b: u8, c: u8) -> Option<TokenKind> {
    if a == ascii::DOT && b == ascii::DOT && c == ascii::DOT {
        Some(TokenKind::Ellipsis)
    } else if a == ascii::LESS && b == ascii::LESS && c == ascii::EQUALS {
        Some(TokenKind::ShlAssign)
    } else if a == ascii::GREATER && b == ascii::GREATER && c == ascii::EQUALS {
        Some(TokenKind::ShrAssign)
    } else {
        None
    }
}

/// Whether the `n` bytes at `p` spell a punctuator, and which.
pub open spec fn punctuator_of_len(s: Seq<u8>, p: int, n: int) -> Option<TokenKind> {
    if p < 0 || p + n > s.len() {
        None
    } else if n == 1 {
        punctuator1(s[p])
    } else if n == 2 {
        punctuator2(s[p], s[p + 1])
    } else if n == 3 {
        punctuator3(s[p], s[p + 1], s[p + 2])
    } else {
        None
    }
}

/// A token as the grammar sees it at a given start: its kind and where it ends.
pub struct Lexeme {
    pub kind: TokenKind,
    pub end: int,
}

/// Maximal munch: the longest punctuator that the bytes at `p` spell. A byte that starts
/// none is an `Unknown` token of its own.
pub open spec fn punctuator_at(s: Seq<u8>, p: int) -> Lexeme {
    if punctuator_of_len(s, p, 3) is Some {
        Lexeme { kind: punctuator_of_len(s, p, 3)->0, end: p + 3 }
    } else if punctuator_of_len(s, p, 2) is Some {
        Lexeme { kind: punctuator_of_len(s, p, 2)->0, end: p + 2 }
    } else if punctuator_of_len(s, p, 1) is Some {
        Lexeme { kind: punctuator_of_len(s, p, 1)->0, end: p + 1 }
    } else {
        Lexeme { kind: TokenKind::Unknown, end: p + 1 }
    }
}

/// Whether a preprocessing number starts at `p`: with a digit, or with a dot that a digit
/// follows.
pub open spec fn starts_pp_number(s: Seq<u8>, p: int) -> bool {
    let first = byte_at(s, p);
    let second = byte_at(s, p + 1);
    first is Some && (is_digit(first->0) || (first->0 == ascii::DOT && second is Some && is_digit(
        second->0,
    )))
}

/// A string literal or character constant that opens at `p` as `start` describes.
pub open spec fn literal_at(s: Seq<u8>, p: int, start: LiteralStart) -> Lexeme {
    let scan = quoted_end(s, p + start.prefix_len + 1, start.quote);
    Lexeme {
        kind: if !scan.closed {
            TokenKind::Unknown
        } else if start.quote == ascii::DOUBLE_QUOTE {
            TokenKind::StringLiteral
        } else {
            TokenKind::CharConst
        },
        end: scan.end,
    }
}

/// The preprocessing token that starts at `p`, where `p` is a position inside the input.
#[verifier::opaque]
pub open spec fn token_at(s: Seq<u8>, p: int) -> Lexeme
    recommends
        0 <= p < s.len(),
{
    let first = s[p];
    let second = byte_at(s, p + 1);
    if is_whitespace_no_newline(first) {
        Lexeme { kind: TokenKind::Whitespace, end: run_end(s, p + 1, ByteClass::Blank) }
    } else if first == ascii::NEWLINE {
        Lexeme { kind: TokenKind::Newline, end: p + 1 }
    } else if first == ascii::SLASH && second == Some(ascii::SLASH) {
        Lexeme { kind: TokenKind::Comment, end: run_end(s, p + 2, ByteClass::LineBody) }
    } else if first == ascii::SLASH && second == Some(ascii::ASTERISK) {
        Lexeme { kind: TokenKind::Comment, end: block_comment_end(s, p + 2) }
    } else if starts_pp_number(s, p) {
        Lexeme { kind: TokenKind::PpNumber, end: pp_number_end(s, p + 1) }
    } else if literal_start(s, p) is Some {
        literal_at(s, p, literal_start(s, p)->0)
    } else if is_ident_start(first) {
        Lexeme { kind: TokenKind::Ident, end: run_end(s, p + 1, ByteClass::IdentContinue) }
    } else {
        punctuator_at(s, p)
    }
}

/// What one call of the lexer yields at position `p`: `Eof`, of no width, once the input is
/// used up, and the token that starts at `p` before that.
pub open spec fn next_lexeme(s: Seq<u8>, p: int) -> Lexeme {
    if 0 <= p < s.len() {
        token_at(s, p)
    } else {
        Lexeme { kind: TokenKind::Eof, end: p }
    }
}

/// What the lexer yields at `p` while it reads the operand of an `#include` directive: a
/// header name between `<` and `>` or between double quotes, `Unknown` where the name is
/// not closed on its line or no delimiter opens it, and `Eof` at the end of input.
pub open spec fn header_name_at(s: Seq<u8>, p: int) -> Lexeme {
    let first = byte_at(s, p);
    if first is None {
        Lexeme { kind: TokenKind::Eof, end: p }
    } else if first == Some(ascii::LESS) || first == Some(ascii::DOUBLE_QUOTE) {
        let close = if first == Some(ascii::LESS) {
            ascii::GREATER
        } else {
            ascii::DOUBLE_QUOTE
        };
        let scan = header_end(s, p + 1, close);
        Lexeme {
            kind: if scan.closed {
                TokenKind::HeaderName
            } else {
                TokenKind::Unknown
            },
            end: scan.end,
        }
    } else {
        Lexeme { kind: TokenKind::Unknown, end: p + 1 }
    }
}

/// A maximal run ends inside the input, holds only bytes of its class, and is followed by
/// a byte outside the class or by the end of input.
pub proof fn lemma_run_end(s: Seq<u8>, p: int, class: ByteClass)
    requires
        0 <= p <= s.len(),
    ensures
        p <= run_end(s, p, class) <= s.len(),
        forall|i: int| p <= i < run_end(s, p, class) ==> class.contains(#[trigger] s[i]),
        run_end(s, p, class) < s.len() ==> !class.contains(s[run_end(s, p, class)]),
    decreases s.len() - p,
{
    if p < s.len() && class.contains(s[p]) {
        lemma_run_end(s, p + 1, class);
    }
}

/// The end of a maximal run is the only position that a run of `class` bytes reaches and
/// cannot pass.
pub proof fn lemma_run_end_unique(s: Seq<u8>, p: int, end: int, class: ByteClass)
    requires
        0 <= p <= end <= s.len(),
        forall|i: int| p <= i < end ==> class.contains(#[trigger] s[i]),
        end < s.len() ==> !class.contains(s[end]),
    ensures
        run_end(s, p, class) == end,
    decreases end - p,
{
    if p < end {
        lemma_run_end_unique(s, p + 1, end, class);
    }
}

/// Whether the two bytes at `i` are `*/`, which closes a block comment.
pub open spec fn closes_comment_at(s: Seq<u8>, i: int) -> bool {
    byte_at(s, i) == Some(ascii::ASTERISK) && byte_at(s, i + 1) == Some(ascii::SLASH)
}

/// A block comment ends just after the first `*/` in its body, and at the end of input
/// where the body holds none.
pub proof fn lemma_block_comment_ends_at_first_terminator(s: Seq<u8>, p: int)
    requires
        0 <= p <= s.len(),
    ensures
        forall|i: int| p <= i < block_comment_end(s, p) - 2 ==> !closes_comment_at(s, i),
        (block_comment_end(s, p) >= p + 2 && closes_comment_at(s, block_comment_end(s, p) - 2)) || (
        block_comment_end(s, p) == s.len() && forall|i: int|
            p <= i < s.len() ==> !closes_comment_at(s, i)),
    decreases s.len() - p,
{
    if p < s.len() && !closes_comment_at(s, p) {
        lemma_block_comment_ends_at_first_terminator(s, p + 1);
    }
}

/// The scan of a block comment stops inside the input.
pub proof fn lemma_block_comment_end(s: Seq<u8>, p: int)
    requires
        0 <= p <= s.len(),
    ensures
        p <= block_comment_end(s, p) <= s.len(),
    decreases s.len() - p,
{
    if p < s.len() && !(s[p] == ascii::ASTERISK && byte_at(s, p + 1) == Some(ascii::SLASH)) {
        lemma_block_comment_end(s, p + 1);
    }
}

/// Whether the byte at `i` continues a preprocessing number by itself: a digit, a letter,
/// an underscore or a dot.
pub open spec fn continues_pp_number(s: Seq<u8>, i: int) -> bool {
    byte_at(s, i) is Some && (is_digit(s[i]) || is_ident_nondigit(s[i]) || s[i] == ascii::DOT)
}

/// Whether the byte at `i` is a sign directly behind an exponent marker.
pub open spec fn is_exponent_sign_at(s: Seq<u8>, i: int) -> bool {
    &&& byte_at(s, i) is Some && is_sign(s[i])
    &&& byte_at(s, i - 1) is Some && is_exponent_marker(s[i - 1])
}

/// A preprocessing number is greedy: every byte that the scan from `p` takes continues the
/// number by itself or is the sign of an exponent marker taken just before it, and the
/// byte at which the scan stops does not continue the number.
pub proof fn lemma_pp_number_is_greedy(s: Seq<u8>, p: int)
    requires
        0 <= p <= s.len(),
    ensures
        forall|i: int|
            p <= i < pp_number_end(s, p) ==> continues_pp_number(s, i) || (i > p
                && is_exponent_sign_at(s, i)),
        !continues_pp_number(s, pp_number_end(s, p)),
    decreases s.len() - p,
{
    if p < s.len() {
        if is_exponent_marker(s[p]) && p + 1 < s.len() && is_sign(s[p + 1]) {
            lemma_pp_number_is_greedy(s, p + 2);
        } else if is_digit(s[p]) || is_ident_nondigit(s[p]) || s[p] == ascii::DOT {
            lemma_pp_number_is_greedy(s, p + 1);
        }
    }
}

/// The scan of a preprocessing number stops inside the input.
pub proof fn lemma_pp_number_end(s: Seq<u8>, p: int)
    requires
        0 <= p <= s.len(),
    ensures
        p <= pp_number_end(s, p) <= s.len(),
    decreases s.len() - p,
{
    if p < s.len() {
        if is_exponent_marker(s[p]) && p + 1 < s.len() && is_sign(s[p + 1]) {
            lemma_pp_number_end(s, p + 2);
        } else if is_digit(s[p]) || is_ident_nondigit(s[p]) || s[p] == ascii::DOT {
            lemma_pp_number_end(s, p + 1);
        }
    }
}

/// The scan of a literal stops inside the input, and a literal that is closed ends with
/// its quote.
pub proof fn lemma_quoted_end(s: Seq<u8>, p: int, quote: u8)
    requires
        0 <= p <= s.len(),
    ensures
        p <= quoted_end(s, p, quote).end <= s.len(),
        quoted_end(s, p, quote).closed ==> p < quoted_end(s, p, quote).end && s[quoted_end(
            s,
            p,
            quote,
        ).end - 1] == quote,
    decreases s.len() - p,
{
    if p < s.len() {
        if s[p] == ascii::BACKSLASH {
            if p + 1 < s.len() {
                lemma_quoted_end(s, p + 2, quote);
            }
        } else if s[p] != quote && s[p] != ascii::NEWLINE {
            lemma_quoted_end(s, p + 1, quote);
        }
    }
}

/// The body of a header name runs up to the first closing delimiter or newline. It is
/// closed exactly where the delimiter comes first.
pub proof fn lemma_header_ends_at_first_stop(s: Seq<u8>, p: int, close: u8)
    requires
        0 <= p <= s.len(),
    ensures
        ({
            let scan = header_end(s, p, close);
            let body_end = if scan.closed {
                scan.end - 1
            } else {
                scan.end
            };
            &&& p <= body_end <= s.len()
            &&& forall|i: int| p <= i < body_end ==> s[i] != close && s[i] != ascii::NEWLINE
            &&& scan.closed ==> byte_at(s, body_end) == Some(close)
            &&& !scan.closed ==> byte_at(s, body_end) is None || (close != ascii::NEWLINE
                && byte_at(s, body_end) == Some(ascii::NEWLINE))
        }),
    decreases s.len() - p,
{
    if p < s.len() && s[p] != close && s[p] != ascii::NEWLINE {
        lemma_header_ends_at_first_stop(s, p + 1, close);
    }
}

/// The scan of a header name stops inside the input.
pub proof fn lemma_header_end(s: Seq<u8>, p: int, close: u8)
    requires
        0 <= p <= s.len(),
    ensures
        p <= header_end(s, p, close).end <= s.len(),
    decreases s.len() - p,
{
    if p < s.len() && s[p] != close && s[p] != ascii::NEWLINE {
        lemma_header_end(s, p + 1, close);
    }
}

/// Every token inside the input covers at least one byte and ends inside the input.
pub proof fn lemma_token_at_advances(s: Seq<u8>, p: int)
    requires
        0 <= p < s.len(),
    ensures
        p < token_at(s, p).end <= s.len(),
        token_at(s, p).kind != TokenKind::Eof,
{
    reveal(token_at);
    lemma_run_end(s, p + 1, ByteClass::Blank);
    lemma_run_end(s, p + 1, ByteClass::IdentContinue);
    lemma_pp_number_end(s, p + 1);
    if p + 2 <= s.len() {
        lemma_run_end(s, p + 2, ByteClass::LineBody);
        lemma_block_comment_end(s, p + 2);
    }
    let start = literal_start(s, p);
    if start is Some {
        lemma_quoted_end(s, p + start->0.prefix_len + 1, start->0.quote);
    }
}

/// In header-name mode, too, a token inside the input covers at least one byte and ends
/// inside the input; at the end of input the `Eof` token has no width.
pub proof fn lemma_header_name_at_advances(s: Seq<u8>, p: int)
    requires
        0 <= p <= s.len(),
    ensures
        p <= header_name_at(s, p).end <= s.len(),
        p < s.len() ==> p < header_name_at(s, p).end,
        header_name_at(s, p).kind == TokenKind::Eof <==> p == s.len(),
{
    if p < s.len() {
        lemma_header_end(s, p + 1, ascii::GREATER);
        lemma_header_end(s, p + 1, ascii::DOUBLE_QUOTE);
    }
}

/// The whole token sequence of `s` from position `p` on: the tokens in order, each
/// starting where the one before it ended, and one `Eof` of no width at the end of input.
pub open spec fn token_stream_from(s: Seq<u8>, file: FileId, p: int) -> Seq<TokenView>
    decreases s.len() - p,
{
    let lexeme = next_lexeme(s, p);
    let token = TokenView::covering(lexeme.kind, file, p, lexeme.end);
    if 0 <= p < s.len() {
        proof {
            lemma_token_at_advances(s, p);
        }
        seq![token] + token_stream_from(s, file, lexeme.end)
    } else {
        seq![token]
    }
}

/// The token sequence of the input `s`, registered as `file`.
pub open spec fn token_stream(s: Seq<u8>, file: FileId) -> Seq<TokenView> {
    token_stream_from(s, file, 0)
}

/// The models of a sequence of tokens, in order.
pub open spec fn token_views(tokens: Seq<Token>) -> Seq<TokenView> {
    tokens.map_values(|token: Token| token@)
}

/// The last token, and no other, is `Eof`.
pub open spec fn ends_with_single_eof(tokens: Seq<TokenView>) -> bool {
    &&& tokens.len() > 0
    &&& tokens.last().kind == TokenKind::Eof
    &&& forall|i: int| 0 <= i < tokens.len() - 1 ==> (#[trigger] tokens[i]).kind != TokenKind::Eof
}

/// The tokens cover `[start, len)` of `file` in order, without gap or overlap: the first
/// starts at `start`, each of the others starts where the one before it ended, and the
/// last ends at `len`. All but the last cover at least one byte.
pub open spec fn tiles_from(tokens: Seq<TokenView>, file: FileId, start: int, len: int) -> bool {
    &&& tokens.len() > 0
    &&& tokens[0].span.start == start
    &&& tokens.last().span.end == len
    &&& forall|i: int|
        0 <= i < tokens.len() ==> (#[trigger] tokens[i]).span.file == file && tokens[i].span.start
            <= tokens[i].span.end
    &&& forall|i: int|
        0 <= i < tokens.len() - 1 ==> (#[trigger] tokens[i]).span.start < tokens[i].span.end
    &&& forall|i: int, j: int|
        0 <= i && j == i + 1 && j < tokens.len() ==> (#[trigger] tokens[i]).span.end
            == (#[trigger] tokens[j]).span.start
}

/// The tokens cover the whole of a file of `len` bytes, from offset 0 on.
pub open spec fn tiles(tokens: Seq<TokenView>, file: FileId, len: int) -> bool {
    tiles_from(tokens, file, 0, len)
}

/// The token sequence from any position on holds exactly one `Eof`, at its end.
pub proof fn lemma_token_stream_ends_with_eof(s: Seq<u8>, file: FileId, p: int)
    requires
        0 <= p <= s.len(),
    ensures
        ends_with_single_eof(token_stream_from(s, file, p)),
    decreases s.len() - p,
{
    if p < s.len() {
        lemma_token_at_advances(s, p);
        lemma_token_stream_ends_with_eof(s, file, token_at(s, p).end);
    }
}

/// The token sequence from position `p` on covers `[p, len)` without gap or overlap.
pub proof fn lemma_token_stream_tiles(s: Seq<u8>, file: FileId, p: int)
    requires
        0 <= p <= s.len(),
    ensures
        tiles_from(token_stream_from(s, file, p), file, p, s.len() as int),
    decreases s.len() - p,
{
    if p < s.len() {
        lemma_token_at_advances(s, p);
        lemma_token_stream_tiles(s, file, token_at(s, p).end);
    }
}

/// The token sequence of every input, of whatever length, holds exactly one `Eof`, and
/// holds it last.
pub proof fn lemma_every_input_ends_with_single_eof(s: Seq<u8>, file: FileId)
    ensures
        ends_with_single_eof(token_stream(s, file)),
{
    lemma_token_stream_ends_with_eof(s, file, 0);
}

/// The token sequence of every input, of whatever length, covers the input from its first
/// byte to its last without gap or overlap. The first token starts at 0, each of the others
/// starts where the one before it ended, and the `Eof` at the end is the point behind the
/// last byte.
pub proof fn lemma_every_input_is_tiled(s: Seq<u8>, file: FileId)
    ensures
        tiles(token_stream(s, file), file, s.len() as int),
        token_stream(s, file).last().span.start == s.len(),
        token_stream(s, file).last().span.end == s.len(),
{
    lemma_token_stream_tiles(s, file, 0);
    lemma_token_stream_ends_at_len(s, file, 0);
}

/// The last token of the sequence from any position on is the point at the end of input.
pub proof fn lemma_token_stream_ends_at_len(s: Seq<u8>, file: FileId, p: int)
    requires
        0 <= p <= s.len(),
    ensures
        token_stream_from(s, file, p).last().span.start == s.len(),
        token_stream_from(s, file, p).last().span.end == s.len(),
    decreases s.len() - p,
{
    if p < s.len() {
        lemma_token_at_advances(s, p);
        lemma_token_stream_ends_at_len(s, file, token_at(s, p).end);
    }
}

/// In a tiling, a token that comes earlier ends at or before the start of every later one.
pub proof fn lemma_tiles_are_ordered(
    tokens: Seq<TokenView>,
    file: FileId,
    start: int,
    len: int,
    i: int,
    j: int,
)
    requires
        tiles_from(tokens, file, start, len),
        0 <= i < j < tokens.len(),
    ensures
        tokens[i].span.end <= tokens[j].span.start,
    decreases j - i,
{
    if i + 1 < j {
        lemma_tiles_are_ordered(tokens, file, start, len, i, j - 1);
    }
}

/// In a tiling, every byte of the range that is tiled lies in exactly one token.
pub proof fn lemma_tiles_cover_each_byte_once(
    tokens: Seq<TokenView>,
    file: FileId,
    start: int,
    len: int,
    pos: nat,
)
    requires
        tiles_from(tokens, file, start, len),
        start <= pos < len,
    ensures
        exists|i: int| 0 <= i < tokens.len() && (#[trigger] tokens[i]).span.contains(pos),
        forall|i: int, j: int|
            0 <= i < tokens.len() && 0 <= j < tokens.len() && (#[trigger] tokens[i]).span.contains(
                pos,
            ) && (#[trigger] tokens[j]).span.contains(pos) ==> i == j,
{
    lemma_tiles_reach(tokens, file, start, len, pos, 0);
    assert forall|i: int, j: int|
        0 <= i < tokens.len() && 0 <= j < tokens.len() && (#[trigger] tokens[i]).span.contains(pos)
            && (#[trigger] tokens[j]).span.contains(pos) implies i == j by {
        if i < j {
            lemma_tiles_are_ordered(tokens, file, start, len, i, j);
        } else if j < i {
            lemma_tiles_are_ordered(tokens, file, start, len, j, i);
        }
    }
}

/// In a tiling, a byte at or behind the start of token `from` lies in that token or in a
/// later one.
proof fn lemma_tiles_reach(
    tokens: Seq<TokenView>,
    file: FileId,
    start: int,
    len: int,
    pos: nat,
    from: int,
)
    requires
        tiles_from(tokens, file, start, len),
        0 <= from < tokens.len(),
        tokens[from].span.start <= pos < len,
    ensures
        exists|i: int| from <= i < tokens.len() && (#[trigger] tokens[i]).span.contains(pos),
    decreases tokens.len() - from,
{
    if !tokens[from].span.contains(pos) {
        lemma_tiles_reach(tokens, file, start, len, pos, from + 1);
    }
}

} // verus!
