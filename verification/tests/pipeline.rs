use compiler::driver::{stage, Args};
use compiler::emit::Target;
use compiler::codegen::{codegen, try_codegen};
use compiler::lexer::{lex, LexError, Token};
use compiler::parser::parse;
use compiler::tacky::tacky;
use compiler::parser::ParseError;
use compiler::token::{self, KeywordKind};
use compiler::util::{make_temporary, parse_usize, push_decimal, push_signed_decimal};
use compiler::{compile, try_compile, Stage, StageOutput};

#[test]
fn compile_lex_stage() {
    match compile("int @", Stage::Lex, Target::Linux, &mut 0) {
        StageOutput::Lex(v) => assert_eq!(v, vec![Ok(Token::Int), Err(LexError::UnknownToken)]),
        _ => panic!("wrong stage"),
    }
}

#[test]
fn compile_parse_stage_reports_errors() {
    match compile("int main(void) { return 1 }", Stage::Parse, Target::Linux, &mut 0) {
        StageOutput::Parse(r) => assert_eq!(
            r,
            Err(ParseError::UnexpectedToken { expected: "Semicolon".into(), found: "CloseBrace".into() })
        ),
        _ => panic!("wrong stage"),
    }
}

#[test]
fn compile_tacky_and_codegen_stages() {
    match compile("int main(void) { return -1; }", Stage::Tacky, Target::Linux, &mut 0) {
        StageOutput::Tacky(r) => assert_eq!(r.unwrap().function_def.instructions.len(), 2),
        _ => panic!("wrong stage"),
    }
    match compile("int main(void) { return -1; }", Stage::Codegen, Target::Linux, &mut 0) {
        StageOutput::Codegen(r) => assert_eq!(r.unwrap().function_def.instructions.len(), 5),
        _ => panic!("wrong stage"),
    }
}

#[test]
fn compile_emit_stage() {
    match compile("int main(void) { return 3; }", Stage::Emit, Target::Linux, &mut 0) {
        StageOutput::Emit(r) => assert_eq!(
            r.unwrap(),
            "    .globl main\nmain:\n    pushq   %rbp\n    movq    %rsp, %rbp\n    subq    $0, %rsp\n    movl    $3, %eax\n    movq    %rbp, %rsp\n    popq    %rbp\n    ret\n\n.section .note.GNU-stack,\"\",@progbits"
        ),
        _ => panic!("wrong stage"),
    }
}

fn args(lex: bool, parse: bool, codegen: bool, tacky: bool) -> Args {
    Args { file_path: "a.c".into(), lex, parse, codegen, tacky }
}

#[test]
fn stage_follows_flag_priority() {
    assert_eq!(stage(&args(false, false, false, false)), Stage::Emit);
    assert_eq!(stage(&args(true, true, true, true)), Stage::Lex);
    assert_eq!(stage(&args(false, true, true, false)), Stage::Parse);
    assert_eq!(stage(&args(false, false, true, true)), Stage::Codegen);
    assert_eq!(stage(&args(false, false, false, true)), Stage::Tacky);
    assert!(Stage::Lex < Stage::Emit);
}

#[test]
fn keyword_tokens() {
    assert_eq!(token::Token::keyword(KeywordKind::Int), token::Token::Keyword(KeywordKind::Int));
    assert_eq!(token::Token::keyword(KeywordKind::Void), token::Token::Keyword(KeywordKind::Void));
    assert_eq!(token::Token::ident("main"), token::Token::Identifier("main"));
}

#[test]
fn temporaries_count_up_and_wrap() {
    let mut counter = 0usize;
    assert_eq!(make_temporary(&mut counter), "tmp.0");
    assert_eq!(make_temporary(&mut counter), "tmp.1");
    assert_eq!(counter, 2);
    let mut counter = usize::MAX;
    assert_eq!(make_temporary(&mut counter), format!("tmp.{}", usize::MAX));
    assert_eq!(counter, 0);
}

#[test]
fn reading_usize() {
    assert_eq!(parse_usize("0"), Some(0));
    assert_eq!(parse_usize("+5"), Some(5));
    assert_eq!(parse_usize("0042"), Some(42));
    assert_eq!(parse_usize("18446744073709551615"), Some(usize::MAX));
    assert_eq!(parse_usize("18446744073709551616"), None);
    assert_eq!(parse_usize(""), None);
    assert_eq!(parse_usize("+"), None);
    assert_eq!(parse_usize("-5"), None);
    assert_eq!(parse_usize("++5"), None);
    assert_eq!(parse_usize("1 "), None);
    assert_eq!(parse_usize("٣"), None);
}

#[test]
fn writing_decimals() {
    let mut s = String::from("x");
    push_decimal(&mut s, 0);
    push_decimal(&mut s, 1234567890);
    assert_eq!(s, "x01234567890");
    let mut s = String::new();
    push_signed_decimal(&mut s, isize::MIN);
    assert_eq!(s, "-9223372036854775808");
    let mut s = String::new();
    push_signed_decimal(&mut s, -40);
    push_signed_decimal(&mut s, 7);
    assert_eq!(s, "-407");
}

#[test]
fn try_compile_answers_where_compiling_does() {
    let mut counter: usize = 5;
    assert!(try_compile("int @", Stage::Parse, Target::Linux, &mut counter).is_none());
    assert!(try_compile("int main(void) { return 1 }", Stage::Tacky, Target::Linux, &mut counter).is_none());
    assert!(try_compile(
        "int main(void) { return 99999999999999999999; }",
        Stage::Codegen,
        Target::Linux,
        &mut counter
    )
    .is_none());
    assert_eq!(counter, 5);
    assert!(try_compile(
        "int main(void) { return 9223372036854775808; }",
        Stage::Parse,
        Target::Linux,
        &mut counter
    )
    .is_none());
    match try_compile("int main(void) { return 1 }", Stage::Parse, Target::Linux, &mut counter) {
        Some(StageOutput::Parse(Err(_))) => {}
        _ => panic!("expected a parse error"),
    }
    match try_compile("int main(void) { return -~1; }", Stage::Emit, Target::Linux, &mut counter) {
        Some(StageOutput::Emit(Ok(text))) => assert!(text.contains("negl")),
        _ => panic!("expected assembly"),
    }
    assert_eq!(counter, 7);
    let mut other: usize = 0;
    match try_compile("int main(void) { return -~1; }", Stage::Emit, Target::Linux, &mut other) {
        Some(StageOutput::Emit(Ok(text))) => match compile("int main(void) { return -~1; }", Stage::Emit, Target::Linux, &mut 0) {
            StageOutput::Emit(Ok(same)) => assert_eq!(text, same),
            _ => panic!("expected assembly"),
        },
        _ => panic!("expected assembly"),
    }
}

#[test]
fn try_codegen_matches_codegen() {
    let lowered = || {
        let tokens: Vec<Token> =
            lex("int main(void) { return 6 / -(2 + 1); }").into_iter().map(|t| t.unwrap()).collect();
        tacky(parse(tokens).unwrap(), &mut 0).unwrap()
    };
    let direct = codegen(lowered()).unwrap();
    assert_eq!(try_codegen(lowered()), Some(Ok(direct)));
}
