use compiler::lexer::{lex, LexError, Token};

#[test]
fn unknown() {
    assert_eq!(lex("λ"), vec![Err(LexError::UnknownToken)])
}

#[test]
fn empty() {
    assert_eq!(lex(""), vec![]);
}

#[test]
fn singles() {
    assert_eq!(lex("("), vec![Ok(Token::OpenParen)]);
    assert_eq!(lex(")"), vec![Ok(Token::CloseParen)]);
    assert_eq!(lex("{"), vec![Ok(Token::OpenBrace)]);
    assert_eq!(lex("}"), vec![Ok(Token::CloseBrace)]);
    assert_eq!(lex(";"), vec![Ok(Token::Semicolon)]);
}

#[test]
fn lexer_program() {
    assert_eq!(
        lex(r"int main(void)
            { return
            2; } "),
        vec![
            Ok(Token::Int),
            Ok(Token::Identifier("main")),
            Ok(Token::OpenParen),
            Ok(Token::Void),
            Ok(Token::CloseParen),
            Ok(Token::OpenBrace),
            Ok(Token::Return),
            Ok(Token::Constant("2")),
            Ok(Token::Semicolon),
            Ok(Token::CloseBrace),
        ]
    );
}

#[test]
fn invalid_identifer() {
    assert_eq!(lex("1foo"), vec![Err(LexError::InvalidIdentifier)]);
    assert_eq!(lex("123foo"), vec![Err(LexError::InvalidIdentifier)]);
}
