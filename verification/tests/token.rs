use lib::lexer::Token;
use lib::token::Token as LineToken;

#[test]
fn illegal() {
    assert_eq!(Token::from(b' '), Token::Illegal);
}

#[test]
fn eof() {
    assert_eq!(Token::from(0), Token::Eof);
}

#[test]
fn newline() {
    assert_eq!(Token::from(b'\n'), Token::Newline);
}

#[test]
fn equal() {
    assert_eq!(Token::from(String::from("==")), Token::Equal);
}

#[test]
fn not_equal() {
    assert_eq!(Token::from(String::from("!=")), Token::NotEqual);
}

#[test]
fn plus() {
    assert_eq!(Token::from(b'+'), Token::Plus);
}

#[test]
fn minus() {
    assert_eq!(Token::from(b'-'), Token::Minus);
}

#[test]
fn asterisk() {
    assert_eq!(Token::from(b'*'), Token::Asterisk);
}

#[test]
fn forward_slash() {
    assert_eq!(Token::from(b'/'), Token::ForwardSlash);
}

#[test]
fn lesser_than() {
    assert_eq!(Token::from(b'<'), Token::LessThan);
}

#[test]
fn lesser_than_equal() {
    assert_eq!(Token::from(String::from("<=")), Token::LessThanEqual);
}

#[test]
fn greater_than() {
    assert_eq!(Token::from(b'>'), Token::GreaterThan);
}

#[test]
fn greater_than_equal() {
    assert_eq!(Token::from(String::from(">=")), Token::GreaterThanEqual);
}

#[test]
fn word_keywords_and_identifiers() {
    assert_eq!(Token::from(String::from("let")), Token::Let);
    assert_eq!(Token::from(String::from("Print")), Token::Print);
    assert_eq!(Token::from(String::from("lets")), Token::Ident(String::from("lets")));
}

#[test]
fn line_dialect_token_bytes() {
    assert_eq!(LineToken::from_u8(b'+'), LineToken::Plus);
    assert_eq!(LineToken::from_u8(b'-'), LineToken::Minus);
    assert_eq!(LineToken::from_u8(b'*'), LineToken::Asterisk);
    assert_eq!(LineToken::from_u8(b'/'), LineToken::ForwardSlash);
    assert_eq!(LineToken::from_u8(b'\n'), LineToken::Newline);
    assert_eq!(LineToken::from_u8(0), LineToken::Eof);
}
