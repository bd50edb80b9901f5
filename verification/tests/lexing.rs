use compiler::lexer::{lex, LexError, Token};

#[test]
fn operators_and_punctuation() {
    assert_eq!(
        lex("~-+*/%(){};"),
        vec![
            Ok(Token::BitwiseComplement),
            Ok(Token::Negation),
            Ok(Token::Plus),
            Ok(Token::Asterisk),
            Ok(Token::ForwardSlash),
            Ok(Token::Percent),
            Ok(Token::OpenParen),
            Ok(Token::CloseParen),
            Ok(Token::OpenBrace),
            Ok(Token::CloseBrace),
            Ok(Token::Semicolon),
        ]
    );
}

#[test]
fn keywords_need_whole_words() {
    assert_eq!(
        lex("int integer void voids return return_ _x x9"),
        vec![
            Ok(Token::Int),
            Ok(Token::Identifier("integer")),
            Ok(Token::Void),
            Ok(Token::Identifier("voids")),
            Ok(Token::Return),
            Ok(Token::Identifier("return_")),
            Ok(Token::Identifier("_x")),
            Ok(Token::Identifier("x9")),
        ]
    );
}

#[test]
fn comments_and_whitespace_are_skipped() {
    assert_eq!(
        lex("1 // a comment\n\t2 /* block\n comment */ 3\r\x0c"),
        vec![
            Ok(Token::Constant("1")),
            Ok(Token::Constant("2")),
            Ok(Token::Constant("3")),
        ]
    );
    assert_eq!(lex("// only a comment"), vec![]);
    assert_eq!(lex("/* a ***/ 4"), vec![Ok(Token::Constant("4"))]);
}

#[test]
fn unclosed_block_comment_is_a_slash_and_a_star() {
    assert_eq!(
        lex("/* x"),
        vec![
            Ok(Token::ForwardSlash),
            Ok(Token::Asterisk),
            Ok(Token::Identifier("x")),
        ]
    );
}

#[test]
fn paired_stars_do_not_close_a_comment() {
    // In "/* **/" the body reads "**" as a pair, so the final "/" cannot close it.
    assert_eq!(
        lex("/* **/"),
        vec![
            Ok(Token::ForwardSlash),
            Ok(Token::Asterisk),
            Ok(Token::Asterisk),
            Ok(Token::Asterisk),
            Ok(Token::ForwardSlash),
        ]
    );
}

#[test]
fn errors_do_not_stop_lexing() {
    assert_eq!(
        lex("1 @ 2foo 3"),
        vec![
            Ok(Token::Constant("1")),
            Err(LexError::UnknownToken),
            Err(LexError::InvalidIdentifier),
            Ok(Token::Constant("3")),
        ]
    );
    assert_eq!(
        lex("λλ"),
        vec![Err(LexError::UnknownToken), Err(LexError::UnknownToken)]
    );
    assert_eq!(lex("\x0b"), vec![Err(LexError::UnknownToken)]);
}

#[test]
fn decrement_is_two_negations() {
    assert_eq!(
        lex("--2"),
        vec![Ok(Token::Negation), Ok(Token::Negation), Ok(Token::Constant("2"))]
    );
}

#[test]
fn binary_operators_and_precedence() {
    assert!(Token::Plus.is_binary_operator());
    assert!(Token::Negation.is_binary_operator());
    assert!(!Token::BitwiseComplement.is_binary_operator());
    assert!(!Token::Constant("1").is_binary_operator());
    assert_eq!(Token::Asterisk.precedence(), 50);
    assert_eq!(Token::ForwardSlash.precedence(), 50);
    assert_eq!(Token::Percent.precedence(), 50);
    assert_eq!(Token::Plus.precedence(), 45);
    assert_eq!(Token::Negation.precedence(), 45);
    assert_eq!(Token::Semicolon.precedence(), 0);
}

#[test]
fn rendered_tokens_lex_back() {
    let tokens = vec![
        Token::Int,
        Token::Identifier("main"),
        Token::OpenParen,
        Token::Void,
        Token::CloseParen,
        Token::OpenBrace,
        Token::Return,
        Token::Negation,
        Token::OpenParen,
        Token::Constant("12"),
        Token::Percent,
        Token::Constant("5"),
        Token::CloseParen,
        Token::Semicolon,
        Token::CloseBrace,
    ];
    let text = "int main ( void ) { return - ( 12 % 5 ) ; } ";
    let lexed: Vec<Token> = lex(text).into_iter().map(|r| r.unwrap()).collect();
    assert_eq!(lexed, tokens);
}

#[test]
fn lines_lex_separately() {
    let cases = [
        ("int x // note", "return 12abc 3;"),
        ("a/", "*b"),
        ("7 $", "x */ y"),
        ("", "{ }"),
    ];
    for (a, b) in cases {
        let joined = format!("{a}\n{b}");
        let mut expected = lex(a);
        expected.extend(lex(b));
        assert_eq!(lex(&joined), expected, "{joined:?}");
    }
    // An opening `/*` may reach over the newline.
    let mut separate = lex("a /* b");
    separate.extend(lex("c */ d"));
    assert_ne!(lex("a /* b\nc */ d"), separate);
}
