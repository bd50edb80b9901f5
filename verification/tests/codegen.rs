use compiler::codegen::codegen;
use compiler::lexer::lex;
use compiler::parser::parse;
use compiler::tacky::tacky;

#[test]
fn codegen_program() {
    let source = r"
            int main(void) {
                return 0;
            }
        ";

    let tokens = lex(source).into_iter().flatten().collect();
    let ast = parse(tokens).unwrap();
    let tacky = tacky(ast, &mut 0).unwrap();
    let _assembly_ast = codegen(tacky).unwrap();

    assert_eq!(2, 1 + 1);
}
