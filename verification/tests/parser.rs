use compiler::lexer::lex;
use compiler::parser::{parse, BinaryOperator, Expr, FunctionDef, Program, Statement};

#[test]
fn parser_program() {
    let source = r"
            int main(void) {
                return 0;
            }
        ";

    let tokens = lex(source).into_iter().flatten().collect();
    let ast = parse(tokens).unwrap();

    assert_eq!(
        ast,
        Program {
            function_def: FunctionDef {
                name: "main".into(),
                body: Statement::Return(Expr::Constant(0))
            }
        }
    )
}

#[test]
fn basic_add() {
    let source = r"
            int main(void) {
                return 1 + 2;
            }
        ";

    let tokens = lex(source).into_iter().flatten().collect();
    let ast = parse(tokens).unwrap();

    assert_eq!(
        ast,
        Program {
            function_def: FunctionDef {
                name: "main".into(),
                body: Statement::Return(Expr::Binary(
                    BinaryOperator::Add,
                    Box::new(Expr::Constant(1)),
                    Box::new(Expr::Constant(2))
                ))
            }
        }
    );
}

#[test]
fn complex_expr() {
    let source = r"
            int main(void) {
                return 1 * 2 - 3 * (4 + 5);
            }
        ";

    let tokens = lex(source).into_iter().flatten().collect();
    let ast = parse(tokens).unwrap();

    assert_eq!(
        ast,
        Program {
            function_def: FunctionDef {
                name: "main".into(),
                body: Statement::Return(Expr::Binary(
                    BinaryOperator::Subtract,
                    Box::new(Expr::Binary(
                        BinaryOperator::Multiply,
                        Box::new(Expr::Constant(1)),
                        Box::new(Expr::Constant(2))
                    )),
                    Box::new(Expr::Binary(
                        BinaryOperator::Multiply,
                        Box::new(Expr::Constant(3)),
                        Box::new(Expr::Binary(
                            BinaryOperator::Add,
                            Box::new(Expr::Constant(4)),
                            Box::new(Expr::Constant(5))
                        ))
                    ))
                )),
            }
        }
    );
}
