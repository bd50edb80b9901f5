use compiler::lexer::{lex, Token};
use compiler::parser::{
    parse, try_parse, BinaryOperator, Expr, FunctionDef, ParseError, Program, Statement,
    UnaryOperator,
};

fn parse_source(source: &str) -> Result<Program, ParseError> {
    parse(lex(source).into_iter().map(|t| t.unwrap()).collect())
}

fn body(source: &str) -> Expr {
    match parse_source(source).unwrap().function_def.body {
        Statement::Return(e) => e,
    }
}

fn c(v: isize) -> Box<Expr> {
    Box::new(Expr::Constant(v))
}

#[test]
fn subtraction_groups_to_the_left() {
    assert_eq!(
        body("int main(void) { return 1 - 2 - 3; }"),
        Expr::Binary(
            BinaryOperator::Subtract,
            Box::new(Expr::Binary(BinaryOperator::Subtract, c(1), c(2))),
            c(3)
        )
    );
}

#[test]
fn multiplication_binds_tighter() {
    assert_eq!(
        body("int main(void) { return 1 + 2 * 3; }"),
        Expr::Binary(
            BinaryOperator::Add,
            c(1),
            Box::new(Expr::Binary(BinaryOperator::Multiply, c(2), c(3)))
        )
    );
    assert_eq!(
        body("int main(void) { return 6 / 3 % 2; }"),
        Expr::Binary(
            BinaryOperator::Remainder,
            Box::new(Expr::Binary(BinaryOperator::Divide, c(6), c(3))),
            c(2)
        )
    );
}

#[test]
fn unary_operators_apply_to_factors() {
    assert_eq!(
        body("int main(void) { return -~2 * 3; }"),
        Expr::Binary(
            BinaryOperator::Multiply,
            Box::new(Expr::Unary(
                UnaryOperator::Negate,
                Box::new(Expr::Unary(UnaryOperator::Complement, c(2)))
            )),
            c(3)
        )
    );
}

#[test]
fn constants_are_read_in_decimal() {
    assert_eq!(body("int main(void) { return 007; }"), Expr::Constant(7));
    assert_eq!(
        body("int main(void) { return 9223372036854775807; }"),
        Expr::Constant(isize::MAX)
    );
}

#[test]
fn function_name_is_kept() {
    let p = parse_source("int foo_1(void) { return 0; }").unwrap();
    assert_eq!(
        p,
        Program {
            function_def: FunctionDef {
                name: "foo_1".into(),
                body: Statement::Return(Expr::Constant(0))
            }
        }
    );
}

#[test]
fn unexpected_token_names_both_tokens() {
    assert_eq!(
        parse_source("int main(void) { return 2 }"),
        Err(ParseError::UnexpectedToken {
            expected: "Semicolon".into(),
            found: "CloseBrace".into()
        })
    );
    assert_eq!(
        parse_source("int x main(void) { return 2; }"),
        Err(ParseError::UnexpectedToken {
            expected: "OpenParen".into(),
            found: "Identifier(\"main\")".into()
        })
    );
    assert_eq!(
        parse_source("int 5(void) { return 2; }"),
        Err(ParseError::UnexpectedToken {
            expected: "Token::Identifier(ident)".into(),
            found: "Constant(\"5\")".into()
        })
    );
}

#[test]
fn identifier_text_is_quoted_with_escapes() {
    assert_eq!(
        parse(vec![Token::Identifier("a\"b")]),
        Err(ParseError::UnexpectedToken {
            expected: "Int".into(),
            found: "Identifier(\"a\\\"b\")".into()
        })
    );
}

#[test]
fn end_of_tokens_errors() {
    assert_eq!(parse(vec![]), Err(ParseError::UnexpectedEof));
    assert_eq!(
        parse_source("int main(void) { return 1 +"),
        Err(ParseError::UnexpectedEof)
    );
    assert_eq!(
        parse_source("int main(void) { return 1"),
        Err(ParseError::UnexpectedEof)
    );
}

#[test]
fn trailing_tokens_are_an_error() {
    assert_eq!(
        parse_source("int main(void) { return 1; } ;"),
        Err(ParseError::ExpectedEof {
            found: "Semicolon".into()
        })
    );
}

#[test]
fn malformed_factor() {
    assert_eq!(
        parse_source("int main(void) { return ; }"),
        Err(ParseError::MalformedFactor)
    );
    assert_eq!(
        parse_source("int main(void) { return 1 + * 2; }"),
        Err(ParseError::MalformedFactor)
    );
}

#[test]
fn invalid_integer() {
    assert_eq!(
        parse_source("int main(void) { return 99999999999999999999999; }"),
        Err(ParseError::InvalidInteger {
            int: "99999999999999999999999".into()
        })
    );
    let tokens = vec![
        Token::Int,
        Token::Identifier("main"),
        Token::OpenParen,
        Token::Void,
        Token::CloseParen,
        Token::OpenBrace,
        Token::Return,
        Token::Constant("1x"),
        Token::Semicolon,
        Token::CloseBrace,
    ];
    assert_eq!(
        parse(tokens),
        Err(ParseError::InvalidInteger { int: "1x".into() })
    );
}

#[test]
fn constant_beyond_isize_has_no_parse() {
    let tokens: Vec<Token> = lex("int main(void) { return 9223372036854775808; }")
        .into_iter()
        .map(|t| t.unwrap())
        .collect();
    assert!(try_parse(tokens).is_none());
    let tokens: Vec<Token> = lex("int main(void) { return 5; }")
        .into_iter()
        .map(|t| t.unwrap())
        .collect();
    assert_eq!(
        try_parse(tokens),
        Some(Ok(Program {
            function_def: FunctionDef {
                name: "main".into(),
                body: Statement::Return(Expr::Constant(5))
            }
        }))
    );
}

#[test]
fn plus_sign_is_accepted_in_a_constant_token() {
    let tokens = vec![
        Token::Int,
        Token::Identifier("f"),
        Token::OpenParen,
        Token::Void,
        Token::CloseParen,
        Token::OpenBrace,
        Token::Return,
        Token::Constant("+12"),
        Token::Semicolon,
        Token::CloseBrace,
    ];
    assert_eq!(
        parse(tokens).unwrap().function_def.body,
        Statement::Return(Expr::Constant(12))
    );
}

#[test]
fn fully_parenthesized_printing_parses_back() {
    let e = Expr::Binary(
        BinaryOperator::Divide,
        Box::new(Expr::Unary(UnaryOperator::Complement, c(4))),
        Box::new(Expr::Binary(BinaryOperator::Subtract, c(7), c(0))),
    );
    assert_eq!(body("int main(void) { return ((~4) / (7 - 0)); }"), e);
}

#[test]
fn error_texts_match_debug_output() {
    let samples = vec![
        Token::Int,
        Token::Void,
        Token::Return,
        Token::OpenParen,
        Token::CloseParen,
        Token::OpenBrace,
        Token::CloseBrace,
        Token::Semicolon,
        Token::BitwiseComplement,
        Token::Negation,
        Token::Plus,
        Token::Asterisk,
        Token::ForwardSlash,
        Token::Percent,
        Token::Identifier("x\n\\y"),
        Token::Constant("12"),
        Token::InvalidIdentifier,
    ];
    for t in samples {
        let found = format!("{:?}", t);
        let expected = if t == Token::Int { "Void" } else { "Int" };
        let tokens = if t == Token::Int { vec![Token::Int, Token::Identifier("f"), Token::OpenParen, t] } else { vec![t] };
        let r = parse(tokens);
        assert_eq!(
            r,
            Err(ParseError::UnexpectedToken { expected: expected.into(), found })
        );
    }
}
