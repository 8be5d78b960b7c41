use slopcc::source::FileId;
use slopcc::span::Span;
use slopcc::token::{Token, TokenKind};

fn fid() -> FileId {
    FileId::new_for_tests(0)
}

#[test]
fn token_construction() {
    let token = Token::new(TokenKind::Ident, Span::new(fid(), 2, 5));
    assert_eq!(token.kind, TokenKind::Ident);
    assert_eq!(token.span, Span::new(fid(), 2, 5));
}

#[test]
fn token_is_copy() {
    let token = Token::new(TokenKind::PpNumber, Span::new(fid(), 0, 1));
    let copied = token;
    assert_eq!(token, copied);
}
