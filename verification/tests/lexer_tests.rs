use slopcc::lexer::{
    is_digit, is_ident_continue, is_ident_nondigit, is_ident_start, is_whitespace_no_newline,
    Lexer,
};
use slopcc::source::FileId;
use slopcc::span::Span;
use slopcc::token::{Token, TokenKind};

fn fid() -> FileId {
    FileId::new_for_tests(0)
}

fn span(start: u32, end: u32) -> Span {
    Span::new(fid(), start, end)
}

fn kinds(src: &[u8]) -> Vec<TokenKind> {
    Lexer::tokenize(fid(), src).into_iter().map(|token| token.kind).collect()
}

fn texts(src: &[u8]) -> Vec<(TokenKind, Vec<u8>)> {
    Lexer::tokenize(fid(), src)
        .into_iter()
        .map(|token| (token.kind, token.span.as_str(src).to_vec()))
        .collect()
}

fn assert_tiles(src: &[u8], tokens: &[Token]) {
    assert!(!tokens.is_empty());
    let mut at = 0u32;
    for (i, token) in tokens.iter().enumerate() {
        assert_eq!(token.span.file(), fid());
        assert_eq!(token.span.start(), at);
        at = token.span.end();
        if i + 1 < tokens.len() {
            assert_ne!(token.kind, TokenKind::Eof);
            assert!(token.span.len() > 0);
        } else {
            assert_eq!(token.kind, TokenKind::Eof);
            assert!(token.span.is_empty());
        }
    }
    assert_eq!(at as usize, src.len());
}

#[test]
fn lexes_whitespace_with_span() {
    let mut lexer = Lexer::new(fid(), b" \t\r\x0B\x0C");
    let token = lexer.next_token();
    assert_eq!(token.kind, TokenKind::Whitespace);
    assert_eq!(token.span, span(0, 5));
    assert_eq!(lexer.next_token().kind, TokenKind::Eof);
}

#[test]
fn handles_newline_and_crlf() {
    let tokens = Lexer::tokenize(fid(), b"\n\r\n");
    let kinds: Vec<_> = tokens.iter().map(|token| token.kind).collect();
    assert_eq!(
        kinds,
        vec![TokenKind::Newline, TokenKind::Whitespace, TokenKind::Newline, TokenKind::Eof]
    );
    assert_eq!(tokens[0].span, span(0, 1));
    assert_eq!(tokens[1].span, span(1, 2));
    assert_eq!(tokens[2].span, span(2, 3));
}

#[test]
fn lexes_comments() {
    let tokens = Lexer::tokenize(fid(), b"// x\n/* y */");
    let kinds: Vec<_> = tokens.iter().map(|token| token.kind).collect();
    assert_eq!(
        kinds,
        vec![TokenKind::Comment, TokenKind::Newline, TokenKind::Comment, TokenKind::Eof]
    );
}

#[test]
fn lexes_unterminated_block_comment_as_comment() {
    let tokens = Lexer::tokenize(fid(), b"/* not closed");
    assert_eq!(tokens[0].kind, TokenKind::Comment);
    assert_eq!(tokens[0].span, span(0, 13));
    assert_eq!(tokens[1].kind, TokenKind::Eof);
}

#[test]
fn lexes_identifiers() {
    let tokens = Lexer::tokenize(fid(), b"foo _bar x123");
    let kinds: Vec<_> = tokens.iter().map(|token| token.kind).collect();
    assert_eq!(
        kinds,
        vec![
            TokenKind::Ident,
            TokenKind::Whitespace,
            TokenKind::Ident,
            TokenKind::Whitespace,
            TokenKind::Ident,
            TokenKind::Eof,
        ]
    );
}

#[test]
fn lexes_pp_numbers() {
    let src = b"42 3.14 0xFF 1e10 0x1p+3 .5 1.0f 100ULL";
    let tokens = Lexer::tokenize(fid(), src);
    assert_eq!(tokens[0].kind, TokenKind::PpNumber);
    assert_eq!(tokens[2].kind, TokenKind::PpNumber);
    assert_eq!(tokens[4].kind, TokenKind::PpNumber);
    assert_eq!(tokens[6].kind, TokenKind::PpNumber);
    assert_eq!(tokens[8].kind, TokenKind::PpNumber);
    assert_eq!(tokens[10].kind, TokenKind::PpNumber);
    assert_eq!(tokens[12].kind, TokenKind::PpNumber);
    assert_eq!(tokens[14].kind, TokenKind::PpNumber);
}

#[test]
fn lexes_string_literals_and_prefixes() {
    let src = b"\"hello\" \"with \\\"escape\\\"\" L\"wide\" u8\"utf8\" u\"utf16\" U\"utf32\" \"\"";
    let tokens = Lexer::tokenize(fid(), src);
    assert_eq!(tokens[0].kind, TokenKind::StringLiteral);
    assert_eq!(tokens[2].kind, TokenKind::StringLiteral);
    assert_eq!(tokens[4].kind, TokenKind::StringLiteral);
    assert_eq!(tokens[6].kind, TokenKind::StringLiteral);
    assert_eq!(tokens[8].kind, TokenKind::StringLiteral);
    assert_eq!(tokens[10].kind, TokenKind::StringLiteral);
    assert_eq!(tokens[12].kind, TokenKind::StringLiteral);
}

#[test]
fn lexes_char_constants_and_prefixes() {
    let src = b"'a' '\\n' L'x' u'y' U'z'";
    let tokens = Lexer::tokenize(fid(), src);
    assert_eq!(tokens[0].kind, TokenKind::CharConst);
    assert_eq!(tokens[2].kind, TokenKind::CharConst);
    assert_eq!(tokens[4].kind, TokenKind::CharConst);
    assert_eq!(tokens[6].kind, TokenKind::CharConst);
    assert_eq!(tokens[8].kind, TokenKind::CharConst);
}

#[test]
fn lexes_all_punctuators() {
    let src = b"# ## ( ) [ ] { } , ; : ... . -> + - * / % ++ -- == != < > <= >= && || ! & | ^ ~ << >> = += -= *= /= %= &= |= ^= <<= >>= ?";
    let expected = vec![
        TokenKind::Hash,
        TokenKind::HashHash,
        TokenKind::LParen,
        TokenKind::RParen,
        TokenKind::LBracket,
        TokenKind::RBracket,
        TokenKind::LBrace,
        TokenKind::RBrace,
        TokenKind::Comma,
        TokenKind::Semi,
        TokenKind::Colon,
        TokenKind::Ellipsis,
        TokenKind::Dot,
        TokenKind::Arrow,
        TokenKind::Plus,
        TokenKind::Minus,
        TokenKind::Star,
        TokenKind::Slash,
        TokenKind::Percent,
        TokenKind::PlusPlus,
        TokenKind::MinusMinus,
        TokenKind::Eq,
        TokenKind::Ne,
        TokenKind::Lt,
        TokenKind::Gt,
        TokenKind::Le,
        TokenKind::Ge,
        TokenKind::And,
        TokenKind::Or,
        TokenKind::Not,
        TokenKind::Amp,
        TokenKind::Pipe,
        TokenKind::Caret,
        TokenKind::Tilde,
        TokenKind::Shl,
        TokenKind::Shr,
        TokenKind::Assign,
        TokenKind::PlusAssign,
        TokenKind::MinusAssign,
        TokenKind::StarAssign,
        TokenKind::SlashAssign,
        TokenKind::PercentAssign,
        TokenKind::AmpAssign,
        TokenKind::PipeAssign,
        TokenKind::CaretAssign,
        TokenKind::ShlAssign,
        TokenKind::ShrAssign,
        TokenKind::Question,
        TokenKind::Eof,
    ];
    let filtered: Vec<_> =
        kinds(src).into_iter().filter(|kind| *kind != TokenKind::Whitespace).collect();
    assert_eq!(filtered, expected);
}

#[test]
fn disambiguates_multi_byte_punctuators() {
    assert_eq!(
        kinds(b"++ + +"),
        vec![
            TokenKind::PlusPlus,
            TokenKind::Whitespace,
            TokenKind::Plus,
            TokenKind::Whitespace,
            TokenKind::Plus,
            TokenKind::Eof,
        ]
    );
    assert_eq!(
        kinds(b"<< < < <<= -> ..."),
        vec![
            TokenKind::Shl,
            TokenKind::Whitespace,
            TokenKind::Lt,
            TokenKind::Whitespace,
            TokenKind::Lt,
            TokenKind::Whitespace,
            TokenKind::ShlAssign,
            TokenKind::Whitespace,
            TokenKind::Arrow,
            TokenKind::Whitespace,
            TokenKind::Ellipsis,
            TokenKind::Eof,
        ]
    );
}

#[test]
fn lexes_header_names() {
    let mut angle = Lexer::new(fid(), b"<stdio.h>");
    assert_eq!(angle.lex_header_name().kind, TokenKind::HeaderName);

    let mut quote = Lexer::new(fid(), b"\"myheader.h\"");
    assert_eq!(quote.lex_header_name().kind, TokenKind::HeaderName);
}

#[test]
fn lexes_full_stream_with_spans() {
    let src = b"int main() { return 0; }";
    let tokens = Lexer::tokenize(fid(), src);
    let kinds: Vec<_> = tokens.iter().map(|token| token.kind).collect();
    assert_eq!(
        kinds,
        vec![
            TokenKind::Ident,
            TokenKind::Whitespace,
            TokenKind::Ident,
            TokenKind::LParen,
            TokenKind::RParen,
            TokenKind::Whitespace,
            TokenKind::LBrace,
            TokenKind::Whitespace,
            TokenKind::Ident,
            TokenKind::Whitespace,
            TokenKind::PpNumber,
            TokenKind::Semi,
            TokenKind::Whitespace,
            TokenKind::RBrace,
            TokenKind::Eof,
        ]
    );
    assert_eq!(tokens[0].span, span(0, 3));
    assert_eq!(tokens[2].span, span(4, 8));
    assert_eq!(tokens[10].span, span(20, 21));
}

#[test]
fn lexes_unknown_bytes() {
    assert_eq!(kinds(b"@$"), vec![TokenKind::Unknown, TokenKind::Unknown, TokenKind::Eof]);
}

#[test]
fn lexes_empty_input() {
    assert_eq!(kinds(b""), vec![TokenKind::Eof]);
}

#[test]
fn lexes_define_like_line() {
    let tokens = Lexer::tokenize(fid(), b"#define FOO 42\n");
    let kinds: Vec<_> = tokens.iter().map(|token| token.kind).collect();
    assert_eq!(
        kinds,
        vec![
            TokenKind::Hash,
            TokenKind::Ident,
            TokenKind::Whitespace,
            TokenKind::Ident,
            TokenKind::Whitespace,
            TokenKind::PpNumber,
            TokenKind::Newline,
            TokenKind::Eof,
        ]
    );
}

#[test]
fn prefixes_fall_back_to_ident_when_not_literal_prefix() {
    assert_eq!(
        kinds(b"u8ident Ufoo Lbar uabc"),
        vec![
            TokenKind::Ident,
            TokenKind::Whitespace,
            TokenKind::Ident,
            TokenKind::Whitespace,
            TokenKind::Ident,
            TokenKind::Whitespace,
            TokenKind::Ident,
            TokenKind::Eof,
        ]
    );
}

#[test]
fn unknown_for_unterminated_string_and_char() {
    assert_eq!(kinds(b"\"abc"), vec![TokenKind::Unknown, TokenKind::Eof]);
    assert_eq!(kinds(b"'x"), vec![TokenKind::Unknown, TokenKind::Eof]);
}

#[test]
fn pp_numbers_greedy_sign_exponents() {
    let mut lexer = Lexer::new(fid(), b"0x1p+3 1e-2");
    let first = lexer.next_token();
    assert_eq!(first.kind, TokenKind::PpNumber);
    assert_eq!(lexer.slice(first), b"0x1p+3");

    let _ = lexer.next_token();

    let second = lexer.next_token();
    assert_eq!(second.kind, TokenKind::PpNumber);
    assert_eq!(lexer.slice(second), b"1e-2");
}

#[test]
fn eof_is_last_and_only_once() {
    let inputs: [&[u8]; 8] = [
        b"",
        b"x",
        b"\n",
        b"int main() { return 0; }",
        b"\"abc",
        b"/* not closed",
        b"a..b...c",
        b"#include <stdio.h>\n'\\",
    ];
    for src in inputs {
        let tokens = Lexer::tokenize(fid(), src);
        let eofs = tokens.iter().filter(|token| token.kind == TokenKind::Eof).count();
        assert_eq!(eofs, 1);
        assert_eq!(tokens.last().map(|token| token.kind), Some(TokenKind::Eof));
    }
}

#[test]
fn spans_tile_the_input() {
    let inputs: [&[u8]; 9] = [
        b"",
        b" ",
        b"int main() { return 0; }",
        b"0x1p+3 1e-2",
        b"\"abc\n'x\n",
        b"/* a */ // b\n/* c",
        b"u8\"s\" L'c' u8x ..1 .. ...",
        b"\x00\xff@`$\\",
        b"a\\\nb \"x\\",
    ];
    for src in inputs {
        let tokens = Lexer::tokenize(fid(), src);
        assert_tiles(src, &tokens);
    }
}

#[test]
fn every_single_byte_is_one_token() {
    for byte in 0..=255u8 {
        let src = [byte];
        let tokens = Lexer::tokenize(fid(), &src);
        assert_eq!(tokens.len(), 2);
        assert_eq!(tokens[0].span, span(0, 1));
        assert_eq!(tokens[1], Token::new(TokenKind::Eof, Span::at(fid(), 1)));
    }
}

#[test]
fn next_token_stays_at_eof() {
    let mut lexer = Lexer::new(fid(), b"x");
    assert_eq!(lexer.next_token(), Token::new(TokenKind::Ident, span(0, 1)));
    for _ in 0..3 {
        assert_eq!(lexer.next_token(), Token::new(TokenKind::Eof, Span::at(fid(), 1)));
    }
}

#[test]
fn tokens_carry_the_file_of_the_lexer() {
    let file = FileId::new(9);
    let tokens = Lexer::tokenize(file, b"a b");
    assert_eq!(tokens.len(), 4);
    for token in tokens {
        assert_eq!(token.span.file(), file);
    }
}

#[test]
fn two_dots_are_two_tokens() {
    assert_eq!(
        texts(b".."),
        vec![
            (TokenKind::Dot, b".".to_vec()),
            (TokenKind::Dot, b".".to_vec()),
            (TokenKind::Eof, Vec::new()),
        ]
    );
    assert_eq!(
        texts(b"..x"),
        vec![
            (TokenKind::Dot, b".".to_vec()),
            (TokenKind::Dot, b".".to_vec()),
            (TokenKind::Ident, b"x".to_vec()),
            (TokenKind::Eof, Vec::new()),
        ]
    );
    assert_eq!(
        texts(b"...."),
        vec![
            (TokenKind::Ellipsis, b"...".to_vec()),
            (TokenKind::Dot, b".".to_vec()),
            (TokenKind::Eof, Vec::new()),
        ]
    );
    assert_eq!(
        texts(b"..5"),
        vec![
            (TokenKind::Dot, b".".to_vec()),
            (TokenKind::PpNumber, b".5".to_vec()),
            (TokenKind::Eof, Vec::new()),
        ]
    );
}

#[test]
fn maximal_munch_of_operators() {
    assert_eq!(
        texts(b"<<=<<<=<"),
        vec![
            (TokenKind::ShlAssign, b"<<=".to_vec()),
            (TokenKind::Shl, b"<<".to_vec()),
            (TokenKind::Le, b"<=".to_vec()),
            (TokenKind::Lt, b"<".to_vec()),
            (TokenKind::Eof, Vec::new()),
        ]
    );
    assert_eq!(
        texts(b">>=>>>=>"),
        vec![
            (TokenKind::ShrAssign, b">>=".to_vec()),
            (TokenKind::Shr, b">>".to_vec()),
            (TokenKind::Ge, b">=".to_vec()),
            (TokenKind::Gt, b">".to_vec()),
            (TokenKind::Eof, Vec::new()),
        ]
    );
    assert_eq!(
        texts(b"--->-=-"),
        vec![
            (TokenKind::MinusMinus, b"--".to_vec()),
            (TokenKind::Arrow, b"->".to_vec()),
            (TokenKind::MinusAssign, b"-=".to_vec()),
            (TokenKind::Minus, b"-".to_vec()),
            (TokenKind::Eof, Vec::new()),
        ]
    );
    assert_eq!(
        texts(b"###"),
        vec![
            (TokenKind::HashHash, b"##".to_vec()),
            (TokenKind::Hash, b"#".to_vec()),
            (TokenKind::Eof, Vec::new()),
        ]
    );
    assert_eq!(
        texts(b"&&&=||=|"),
        vec![
            (TokenKind::And, b"&&".to_vec()),
            (TokenKind::AmpAssign, b"&=".to_vec()),
            (TokenKind::Or, b"||".to_vec()),
            (TokenKind::Assign, b"=".to_vec()),
            (TokenKind::Pipe, b"|".to_vec()),
            (TokenKind::Eof, Vec::new()),
        ]
    );
}

#[test]
fn slash_alone_is_an_operator() {
    assert_eq!(
        texts(b"a/b /= /"),
        vec![
            (TokenKind::Ident, b"a".to_vec()),
            (TokenKind::Slash, b"/".to_vec()),
            (TokenKind::Ident, b"b".to_vec()),
            (TokenKind::Whitespace, b" ".to_vec()),
            (TokenKind::SlashAssign, b"/=".to_vec()),
            (TokenKind::Whitespace, b" ".to_vec()),
            (TokenKind::Slash, b"/".to_vec()),
            (TokenKind::Eof, Vec::new()),
        ]
    );
}

#[test]
fn line_comment_stops_before_the_newline() {
    assert_eq!(
        texts(b"// x\ny"),
        vec![
            (TokenKind::Comment, b"// x".to_vec()),
            (TokenKind::Newline, b"\n".to_vec()),
            (TokenKind::Ident, b"y".to_vec()),
            (TokenKind::Eof, Vec::new()),
        ]
    );
    assert_eq!(texts(b"//"), vec![(TokenKind::Comment, b"//".to_vec()), (TokenKind::Eof, Vec::new())]);
}

#[test]
fn block_comment_ends_at_first_terminator() {
    assert_eq!(
        texts(b"/**/*/"),
        vec![
            (TokenKind::Comment, b"/**/".to_vec()),
            (TokenKind::Star, b"*".to_vec()),
            (TokenKind::Slash, b"/".to_vec()),
            (TokenKind::Eof, Vec::new()),
        ]
    );
    assert_eq!(
        texts(b"/*/ x **/y"),
        vec![
            (TokenKind::Comment, b"/*/ x **/".to_vec()),
            (TokenKind::Ident, b"y".to_vec()),
            (TokenKind::Eof, Vec::new()),
        ]
    );
    assert_eq!(texts(b"/*\n*"), vec![(TokenKind::Comment, b"/*\n*".to_vec()), (TokenKind::Eof, Vec::new())]);
}

#[test]
fn unterminated_literal_ends_before_the_newline() {
    assert_eq!(
        texts(b"\"abc\nx"),
        vec![
            (TokenKind::Unknown, b"\"abc".to_vec()),
            (TokenKind::Newline, b"\n".to_vec()),
            (TokenKind::Ident, b"x".to_vec()),
            (TokenKind::Eof, Vec::new()),
        ]
    );
    assert_eq!(
        texts(b"L'a\n"),
        vec![
            (TokenKind::Unknown, b"L'a".to_vec()),
            (TokenKind::Newline, b"\n".to_vec()),
            (TokenKind::Eof, Vec::new()),
        ]
    );
}

#[test]
fn escapes_take_the_next_byte() {
    assert_eq!(
        texts(b"\"a\\\"b\" '\\''"),
        vec![
            (TokenKind::StringLiteral, b"\"a\\\"b\"".to_vec()),
            (TokenKind::Whitespace, b" ".to_vec()),
            (TokenKind::CharConst, b"'\\''".to_vec()),
            (TokenKind::Eof, Vec::new()),
        ]
    );
    assert_eq!(
        texts(b"\"a\\\nb\""),
        vec![(TokenKind::StringLiteral, b"\"a\\\nb\"".to_vec()), (TokenKind::Eof, Vec::new())]
    );
    assert_eq!(texts(b"\"a\\"), vec![(TokenKind::Unknown, b"\"a\\".to_vec()), (TokenKind::Eof, Vec::new())]);
    assert_eq!(
        texts(b"\"it's\" '\"'"),
        vec![
            (TokenKind::StringLiteral, b"\"it's\"".to_vec()),
            (TokenKind::Whitespace, b" ".to_vec()),
            (TokenKind::CharConst, b"'\"'".to_vec()),
            (TokenKind::Eof, Vec::new()),
        ]
    );
}

#[test]
fn literal_prefixes_belong_to_the_literal() {
    assert_eq!(
        texts(b"u8\"a\" u8'b' u8 L\"c\" U'd' ux\"e\""),
        vec![
            (TokenKind::StringLiteral, b"u8\"a\"".to_vec()),
            (TokenKind::Whitespace, b" ".to_vec()),
            (TokenKind::Ident, b"u8".to_vec()),
            (TokenKind::CharConst, b"'b'".to_vec()),
            (TokenKind::Whitespace, b" ".to_vec()),
            (TokenKind::Ident, b"u8".to_vec()),
            (TokenKind::Whitespace, b" ".to_vec()),
            (TokenKind::StringLiteral, b"L\"c\"".to_vec()),
            (TokenKind::Whitespace, b" ".to_vec()),
            (TokenKind::CharConst, b"U'd'".to_vec()),
            (TokenKind::Whitespace, b" ".to_vec()),
            (TokenKind::Ident, b"ux".to_vec()),
            (TokenKind::StringLiteral, b"\"e\"".to_vec()),
            (TokenKind::Eof, Vec::new()),
        ]
    );
    assert_eq!(texts(b"L\"ab"), vec![(TokenKind::Unknown, b"L\"ab".to_vec()), (TokenKind::Eof, Vec::new())]);
}

#[test]
fn pp_number_takes_letters_dots_and_signed_exponents() {
    assert_eq!(
        texts(b"1.2.3e+4xyz_+5"),
        vec![
            (TokenKind::PpNumber, b"1.2.3e+4xyz_".to_vec()),
            (TokenKind::Plus, b"+".to_vec()),
            (TokenKind::PpNumber, b"5".to_vec()),
            (TokenKind::Eof, Vec::new()),
        ]
    );
    assert_eq!(
        texts(b"1x+2"),
        vec![
            (TokenKind::PpNumber, b"1x".to_vec()),
            (TokenKind::Plus, b"+".to_vec()),
            (TokenKind::PpNumber, b"2".to_vec()),
            (TokenKind::Eof, Vec::new()),
        ]
    );
    assert_eq!(
        texts(b"1E-P+p-e+"),
        vec![(TokenKind::PpNumber, b"1E-P+p-e+".to_vec()), (TokenKind::Eof, Vec::new())]
    );
    assert_eq!(
        texts(b"1e"),
        vec![(TokenKind::PpNumber, b"1e".to_vec()), (TokenKind::Eof, Vec::new())]
    );
}

#[test]
fn header_name_mode() {
    let src = b"<stdio.h> \"my.h\"";
    let mut lexer = Lexer::new(fid(), src);
    let angle = lexer.lex_header_name();
    assert_eq!(angle, Token::new(TokenKind::HeaderName, span(0, 9)));
    assert_eq!(lexer.next_token().kind, TokenKind::Whitespace);
    let quote = lexer.lex_header_name();
    assert_eq!(quote, Token::new(TokenKind::HeaderName, span(10, 16)));
    assert_eq!(lexer.slice(quote), b"\"my.h\"");
    assert_eq!(lexer.lex_header_name(), Token::new(TokenKind::Eof, Span::at(fid(), 16)));
}

#[test]
fn malformed_header_names_are_unknown() {
    let mut open = Lexer::new(fid(), b"<stdio.h\nint");
    assert_eq!(open.lex_header_name(), Token::new(TokenKind::Unknown, span(0, 8)));
    assert_eq!(open.next_token(), Token::new(TokenKind::Newline, span(8, 9)));

    let mut at_end = Lexer::new(fid(), b"\"my.h");
    assert_eq!(at_end.lex_header_name(), Token::new(TokenKind::Unknown, span(0, 5)));
    assert_eq!(at_end.lex_header_name().kind, TokenKind::Eof);

    let mut none = Lexer::new(fid(), b"stdio.h");
    assert_eq!(none.lex_header_name(), Token::new(TokenKind::Unknown, span(0, 1)));
    assert_eq!(none.next_token(), Token::new(TokenKind::Ident, span(1, 5)));

    let mut escaped = Lexer::new(fid(), b"\"a\\\"b\"");
    assert_eq!(escaped.lex_header_name(), Token::new(TokenKind::HeaderName, span(0, 4)));

    let mut empty = Lexer::new(fid(), b"");
    assert_eq!(empty.lex_header_name(), Token::new(TokenKind::Eof, Span::at(fid(), 0)));
}

#[test]
fn byte_classes() {
    for byte in 0..=255u8 {
        let blank = matches!(byte, b' ' | b'\t' | b'\r' | 0x0B | 0x0C);
        assert_eq!(is_whitespace_no_newline(byte), blank);
        assert_eq!(is_digit(byte), byte.is_ascii_digit());
        assert_eq!(is_ident_start(byte), byte.is_ascii_alphabetic() || byte == b'_');
        assert_eq!(is_ident_nondigit(byte), byte.is_ascii_alphabetic() || byte == b'_');
        assert_eq!(is_ident_continue(byte), byte.is_ascii_alphanumeric() || byte == b'_');
    }
}
