use compiler::codegen::{
    codegen, BinaryOperator as AsmBinary, Instruction, Operand, Register, UnaryOperator as AsmUnary,
};
use compiler::lexer::lex;
use compiler::parser::{parse, Expr, Statement};
use compiler::tacky::{self, tacky, Val};
use std::collections::HashMap;

const SOURCES: &[&str] = &[
    "int main(void) { return 0; }",
    "int main(void) { return -(~2); }",
    "int main(void) { return 1 + 2 * 3; }",
    "int main(void) { return 1 * 2 - 3 * (4 + 5); }",
    "int main(void) { return (10 - 3) % 4 / -2; }",
    "int main(void) { return ~(7 * -(3 - 8)) + 100 / 7 % 3; }",
];

fn parsed(source: &str) -> compiler::parser::Program {
    parse(lex(source).into_iter().map(|t| t.unwrap()).collect()).unwrap()
}

fn div_trunc(x: i128, y: i128) -> i128 {
    x / y
}

fn eval(e: &Expr) -> i128 {
    match e {
        Expr::Constant(v) => *v as i128,
        Expr::Unary(op, inner) => {
            let x = eval(inner);
            match op {
                compiler::parser::UnaryOperator::Complement => -x - 1,
                compiler::parser::UnaryOperator::Negate => -x,
            }
        }
        Expr::Binary(op, a, b) => {
            let (x, y) = (eval(a), eval(b));
            match op {
                compiler::parser::BinaryOperator::Add => x + y,
                compiler::parser::BinaryOperator::Subtract => x - y,
                compiler::parser::BinaryOperator::Multiply => x * y,
                compiler::parser::BinaryOperator::Divide => div_trunc(x, y),
                compiler::parser::BinaryOperator::Remainder => x - y * div_trunc(x, y),
            }
        }
    }
}

fn value(v: &Val, env: &HashMap<String, i128>) -> i128 {
    match v {
        Val::Constant(c) => *c as i128,
        Val::Var(n) => env[n],
    }
}

fn run(instructions: &[tacky::Instruction]) -> i128 {
    let mut env = HashMap::new();
    for i in instructions {
        match i {
            tacky::Instruction::Unary(op, src, Val::Var(d)) => {
                let x = value(src, &env);
                let r = match op {
                    tacky::UnaryOperator::Complement => -x - 1,
                    tacky::UnaryOperator::Negate => -x,
                };
                env.insert(d.clone(), r);
            }
            tacky::Instruction::Binary { op, src1, src2, dst: Val::Var(d) } => {
                let (x, y) = (value(src1, &env), value(src2, &env));
                let r = match op {
                    tacky::BinaryOperator::Add => x + y,
                    tacky::BinaryOperator::Subtract => x - y,
                    tacky::BinaryOperator::Multiply => x * y,
                    tacky::BinaryOperator::Divide => div_trunc(x, y),
                    tacky::BinaryOperator::Remainder => x - y * div_trunc(x, y),
                };
                env.insert(d.clone(), r);
            }
            tacky::Instruction::Return(v) => return value(v, &env),
            _ => panic!("constant destination"),
        }
    }
    panic!("no return")
}

#[test]
fn lowering_preserves_values() {
    for source in SOURCES {
        let ast = parsed(source);
        let Statement::Return(e) = &ast.function_def.body;
        let expected = eval(e);
        let lowered = tacky(parsed(source), &mut 0).unwrap();
        assert_eq!(run(&lowered.function_def.instructions), expected, "{source}");
    }
    assert_eq!(run(&tacky(parsed(SOURCES[4]), &mut 0).unwrap().function_def.instructions), -1);
}

fn operands(i: &Instruction) -> Vec<&Operand> {
    match i {
        Instruction::Mov { src, dst } => vec![src, dst],
        Instruction::Unary { operand, .. } => vec![operand],
        Instruction::Binary { operand1, operand2, .. } => vec![operand1, operand2],
        Instruction::Idiv(o) => vec![o],
        _ => vec![],
    }
}

#[test]
fn generated_code_is_well_formed() {
    for source in SOURCES {
        let lowered = tacky(parsed(source), &mut 0).unwrap();
        let mut names: Vec<String> = Vec::new();
        for i in &lowered.function_def.instructions {
            let vals: Vec<&Val> = match i {
                tacky::Instruction::Unary(_, a, b) => vec![a, b],
                tacky::Instruction::Binary { src1, src2, dst, .. } => vec![src1, src2, dst],
                tacky::Instruction::Return(v) => vec![v],
            };
            for v in vals {
                if let Val::Var(n) = v {
                    if !names.contains(n) {
                        names.push(n.clone());
                    }
                }
            }
        }
        let generated = codegen(lowered).unwrap();
        let code = &generated.function_def.instructions;
        let k = names.len() as isize;
        assert_eq!(code[0], Instruction::AllocateStack(-4 * k), "{source}");
        for i in code {
            for o in operands(i) {
                assert!(!matches!(o, Operand::Pseudo(_)), "{source}");
                if let Operand::Stack(n) = o {
                    assert!(-4 * k <= *n && *n <= -4 && n % 4 == 0, "{source}");
                }
            }
            match i {
                Instruction::Mov { src: Operand::Stack(_), dst: Operand::Stack(_) } => panic!("{source}"),
                Instruction::Idiv(Operand::Imm(_)) => panic!("{source}"),
                Instruction::Binary { operator: AsmBinary::Add | AsmBinary::Sub, operand1: Operand::Stack(_), operand2: Operand::Stack(_) } => panic!("{source}"),
                Instruction::Binary { operator: AsmBinary::Mult, operand2: Operand::Stack(_), .. } => panic!("{source}"),
                _ => {}
            }
        }
    }
}

#[test]
fn same_pseudo_same_slot() {
    let lowered = tacky::Program {
        function_def: tacky::FunctionDef {
            name: "f".into(),
            instructions: vec![
                tacky::Instruction::Unary(tacky::UnaryOperator::Negate, Val::Var("a".into()), Val::Var("b".into())),
                tacky::Instruction::Binary {
                    op: tacky::BinaryOperator::Add,
                    src1: Val::Var("b".into()),
                    src2: Val::Var("a".into()),
                    dst: Val::Var("c".into()),
                },
                tacky::Instruction::Return(Val::Var("a".into())),
            ],
        },
    };
    let code = codegen(lowered).unwrap().function_def.instructions;
    assert_eq!(
        code,
        vec![
            Instruction::AllocateStack(-12),
            Instruction::Mov { src: Operand::Stack(-4), dst: Operand::Reg(compiler::codegen::Register::R10) },
            Instruction::Mov { src: Operand::Reg(compiler::codegen::Register::R10), dst: Operand::Stack(-8) },
            Instruction::Unary { operator: compiler::codegen::UnaryOperator::Neg, operand: Operand::Stack(-8) },
            Instruction::Mov { src: Operand::Stack(-8), dst: Operand::Reg(compiler::codegen::Register::R10) },
            Instruction::Mov { src: Operand::Reg(compiler::codegen::Register::R10), dst: Operand::Stack(-12) },
            Instruction::Mov { src: Operand::Stack(-4), dst: Operand::Reg(compiler::codegen::Register::R10) },
            Instruction::Binary { operator: AsmBinary::Add, operand1: Operand::Reg(compiler::codegen::Register::R10), operand2: Operand::Stack(-12) },
            Instruction::Mov { src: Operand::Stack(-4), dst: Operand::Reg(compiler::codegen::Register::AX) },
            Instruction::Ret,
        ]
    );
}

fn reg_index(r: &Register) -> usize {
    match r {
        Register::AX => 0,
        Register::DX => 1,
        Register::R10 => 2,
        Register::R11 => 3,
    }
}

fn read(o: &Operand, regs: &[Option<i128>; 4], mem: &HashMap<isize, i128>, fit: fn(i128) -> i128) -> i128 {
    match o {
        Operand::Imm(v) => fit(*v as i128),
        Operand::Reg(r) => regs[reg_index(r)].expect("register read before write"),
        Operand::Stack(n) => mem[n],
        Operand::Pseudo(_) => panic!("pseudo-register left"),
    }
}

fn write(o: &Operand, x: i128, regs: &mut [Option<i128>; 4], mem: &mut HashMap<isize, i128>) {
    match o {
        Operand::Reg(r) => regs[reg_index(r)] = Some(x),
        Operand::Stack(n) => {
            mem.insert(*n, x);
        }
        _ => panic!("bad destination"),
    }
}

fn run_machine(code: &[Instruction]) -> i128 {
    run_machine_with(code, exact)
}

fn exact(x: i128) -> i128 {
    x
}

fn wrap32(x: i128) -> i128 {
    x as i32 as i128
}

fn run_machine_with(code: &[Instruction], fit: fn(i128) -> i128) -> i128 {
    let mut regs: [Option<i128>; 4] = [None; 4];
    let mut mem: HashMap<isize, i128> = HashMap::new();
    for i in code {
        match i {
            Instruction::Mov { src, dst } => {
                let x = read(src, &regs, &mem, fit);
                write(dst, x, &mut regs, &mut mem);
            }
            Instruction::Unary { operator, operand } => {
                let x = read(operand, &regs, &mem, fit);
                let r = match operator {
                    AsmUnary::Neg => -x,
                    AsmUnary::Not => -x - 1,
                };
                write(operand, fit(r), &mut regs, &mut mem);
            }
            Instruction::Binary { operator, operand1, operand2 } => {
                let x = read(operand2, &regs, &mem, fit);
                let y = read(operand1, &regs, &mem, fit);
                let r = match operator {
                    AsmBinary::Add => x + y,
                    AsmBinary::Sub => x - y,
                    AsmBinary::Mult => x * y,
                };
                write(operand2, fit(r), &mut regs, &mut mem);
            }
            Instruction::Cdq => {
                let a = regs[0].expect("AX unset");
                regs[1] = Some(if a < 0 { -1 } else { 0 });
            }
            Instruction::Idiv(o) => {
                let d = read(o, &regs, &mem, fit);
                let a = regs[0].expect("AX unset");
                assert_eq!(regs[1], Some(if a < 0 { -1 } else { 0 }));
                regs[0] = Some(fit(a / d));
                regs[1] = Some(fit(a % d));
            }
            Instruction::AllocateStack(_) => {}
            Instruction::Ret => return regs[0].expect("AX unset"),
        }
    }
    panic!("no ret")
}

#[test]
fn compiled_code_computes_the_value() {
    for source in SOURCES {
        let ast = parsed(source);
        let Statement::Return(e) = &ast.function_def.body;
        let expected = eval(e);
        let code = codegen(tacky(parsed(source), &mut 0).unwrap()).unwrap().function_def.instructions;
        assert_eq!(run_machine(&code), expected, "{source}");
    }
}

fn eval32(e: &Expr) -> i32 {
    match e {
        Expr::Constant(v) => *v as i32,
        Expr::Unary(op, inner) => {
            let x = eval32(inner);
            match op {
                compiler::parser::UnaryOperator::Complement => !x,
                compiler::parser::UnaryOperator::Negate => x.wrapping_neg(),
            }
        }
        Expr::Binary(op, a, b) => {
            let (x, y) = (eval32(a), eval32(b));
            match op {
                compiler::parser::BinaryOperator::Add => x.wrapping_add(y),
                compiler::parser::BinaryOperator::Subtract => x.wrapping_sub(y),
                compiler::parser::BinaryOperator::Multiply => x.wrapping_mul(y),
                compiler::parser::BinaryOperator::Divide => x.wrapping_div(y),
                compiler::parser::BinaryOperator::Remainder => x.wrapping_rem(y),
            }
        }
    }
}

#[test]
fn compiled_code_computes_the_wrapped_value() {
    let sources = [
        "int main(void) { return -(~2147483647); }",
        "int main(void) { return 2147483647 + 1; }",
        "int main(void) { return 65536 * 65536 + 7; }",
        "int main(void) { return (0 - 2147483647 - 1) / 3 - 4294967301 % 10; }",
    ];
    for source in sources {
        let ast = parsed(source);
        let Statement::Return(e) = &ast.function_def.body;
        let expected = eval32(e) as i128;
        let code = codegen(tacky(parsed(source), &mut 0).unwrap()).unwrap().function_def.instructions;
        assert_eq!(run_machine_with(&code, wrap32), expected, "{source}");
    }
    let ast = parsed(sources[0]);
    let Statement::Return(e) = &ast.function_def.body;
    assert_eq!(eval32(e), i32::MIN);
}
