use compiler::codegen::{codegen, BinaryOperator as AsmBinary, Instruction, Operand, Register};
use compiler::emit::{emit, Target};
use compiler::lexer::lex;
use compiler::parser::parse;
use compiler::tacky::{self, tacky, Val};

fn lower(source: &str) -> tacky::Program {
    let tokens = lex(source).into_iter().map(|t| t.unwrap()).collect();
    tacky(parse(tokens).unwrap(), &mut 0).unwrap()
}

fn generate(source: &str) -> compiler::codegen::Program {
    codegen(lower(source)).unwrap()
}

fn var(name: &str) -> Val {
    Val::Var(name.into())
}

#[test]
fn tacky_names_fresh_temporaries_in_order() {
    let p = lower("int main(void) { return -(~2); }");
    assert_eq!(p.function_def.name, "main");
    assert_eq!(
        p.function_def.instructions,
        vec![
            tacky::Instruction::Unary(tacky::UnaryOperator::Complement, Val::Constant(2), var("tmp.0")),
            tacky::Instruction::Unary(tacky::UnaryOperator::Negate, var("tmp.0"), var("tmp.1")),
            tacky::Instruction::Return(var("tmp.1")),
        ]
    );
}

#[test]
fn tacky_computes_operands_first() {
    let p = lower("int main(void) { return 1 + 2 * 3; }");
    assert_eq!(
        p.function_def.instructions,
        vec![
            tacky::Instruction::Binary {
                op: tacky::BinaryOperator::Multiply,
                src1: Val::Constant(2),
                src2: Val::Constant(3),
                dst: var("tmp.0")
            },
            tacky::Instruction::Binary {
                op: tacky::BinaryOperator::Add,
                src1: Val::Constant(1),
                src2: var("tmp.0"),
                dst: var("tmp.1")
            },
            tacky::Instruction::Return(var("tmp.1")),
        ]
    );
}

#[test]
fn tacky_of_a_constant_returns_it() {
    let p = lower("int main(void) { return 4; }");
    assert_eq!(p.function_def.instructions, vec![tacky::Instruction::Return(Val::Constant(4))]);
}

fn stack(n: isize) -> Operand {
    Operand::Stack(n)
}

fn reg(r: Register) -> Operand {
    Operand::Reg(r)
}

#[test]
fn codegen_assigns_slots_and_fixes_operands() {
    let p = generate("int main(void) { return 1 + 2 * 3; }");
    assert_eq!(
        p.function_def.instructions,
        vec![
            Instruction::AllocateStack(-8),
            Instruction::Mov { src: Operand::Imm(2), dst: stack(-4) },
            Instruction::Mov { src: stack(-4), dst: reg(Register::R11) },
            Instruction::Binary { operator: AsmBinary::Mult, operand1: Operand::Imm(3), operand2: reg(Register::R11) },
            Instruction::Mov { src: reg(Register::R11), dst: stack(-4) },
            Instruction::Mov { src: Operand::Imm(1), dst: stack(-8) },
            Instruction::Mov { src: stack(-4), dst: reg(Register::R10) },
            Instruction::Binary { operator: AsmBinary::Add, operand1: reg(Register::R10), operand2: stack(-8) },
            Instruction::Mov { src: stack(-8), dst: reg(Register::AX) },
            Instruction::Ret,
        ]
    );
}

#[test]
fn codegen_division_and_remainder() {
    let p = generate("int main(void) { return 7 / 2; }");
    assert_eq!(
        p.function_def.instructions,
        vec![
            Instruction::AllocateStack(-4),
            Instruction::Mov { src: Operand::Imm(7), dst: reg(Register::AX) },
            Instruction::Cdq,
            Instruction::Mov { src: Operand::Imm(2), dst: reg(Register::R10) },
            Instruction::Idiv(reg(Register::R10)),
            Instruction::Mov { src: reg(Register::AX), dst: stack(-4) },
            Instruction::Mov { src: stack(-4), dst: reg(Register::AX) },
            Instruction::Ret,
        ]
    );
    let p = generate("int main(void) { return 7 % (1 - 3); }");
    assert_eq!(
        p.function_def.instructions,
        vec![
            Instruction::AllocateStack(-8),
            Instruction::Mov { src: Operand::Imm(1), dst: stack(-4) },
            Instruction::Binary { operator: AsmBinary::Sub, operand1: Operand::Imm(3), operand2: stack(-4) },
            Instruction::Mov { src: Operand::Imm(7), dst: reg(Register::AX) },
            Instruction::Cdq,
            Instruction::Idiv(stack(-4)),
            Instruction::Mov { src: reg(Register::DX), dst: stack(-8) },
            Instruction::Mov { src: stack(-8), dst: reg(Register::AX) },
            Instruction::Ret,
        ]
    );
}

#[test]
fn codegen_of_a_constant_allocates_nothing() {
    let p = generate("int main(void) { return 0; }");
    assert_eq!(
        p.function_def.instructions,
        vec![
            Instruction::AllocateStack(0),
            Instruction::Mov { src: Operand::Imm(0), dst: reg(Register::AX) },
            Instruction::Ret,
        ]
    );
}

#[test]
fn emit_linux_text() {
    let text = emit(generate("int main(void) { return ~5; }"), Target::Linux).unwrap();
    assert_eq!(
        text,
        "    .globl main\n\
         main:\n\
         \x20   pushq   %rbp\n\
         \x20   movq    %rsp, %rbp\n\
         \x20   subq    $4, %rsp\n\
         \x20   movl    $5, -4(%rbp)\n\
         \x20   notl    -4(%rbp)\n\
         \x20   movl    -4(%rbp), %eax\n\
         \x20   movq    %rbp, %rsp\n\
         \x20   popq    %rbp\n\
         \x20   ret\n\
         \n\
         .section .note.GNU-stack,\"\",@progbits"
    );
}

#[test]
fn emit_macos_text() {
    let text = emit(generate("int main(void) { return 2 * -3; }"), Target::MacOs).unwrap();
    assert_eq!(
        text,
        "    .globl _main\n\
         _main:\n\
         \x20   pushq   %rbp\n\
         \x20   movq    %rsp, %rbp\n\
         \x20   subq    $8, %rsp\n\
         \x20   movl    $3, -4(%rbp)\n\
         \x20   negl    -4(%rbp)\n\
         \x20   movl    $2, -8(%rbp)\n\
         \x20   movl    -8(%rbp), %r11d\n\
         \x20   imull    -4(%rbp), %r11d\n\
         \x20   movl    %r11d, -8(%rbp)\n\
         \x20   movl    -8(%rbp), %eax\n\
         \x20   movq    %rbp, %rsp\n\
         \x20   popq    %rbp\n\
         \x20   ret\n\
         \n"
    );
}

#[test]
fn emit_division_and_negative_immediates() {
    let program = compiler::codegen::Program {
        function_def: compiler::codegen::FunctionDef {
            name: "f".into(),
            instructions: vec![
                Instruction::AllocateStack(-12),
                Instruction::Mov { src: Operand::Imm(-7), dst: reg(Register::AX) },
                Instruction::Cdq,
                Instruction::Idiv(stack(-12)),
                Instruction::Binary { operator: AsmBinary::Sub, operand1: reg(Register::DX), operand2: reg(Register::AX) },
                Instruction::Ret,
            ],
        },
    };
    let text = emit(program, Target::Linux).unwrap();
    assert!(text.contains("    subq    $12, %rsp\n"));
    assert!(text.contains("    movl    $-7, %eax\n"));
    assert!(text.contains("    cdq\n"));
    assert!(text.contains("    idivl    -12(%rbp)\n"));
    assert!(text.contains("    subl    %edx, %eax\n"));
}

#[test]
fn lowerings_share_the_temporary_counter() {
    let tokens = || -> Vec<compiler::lexer::Token<'static>> {
        lex("int f(void) { return ~-2; }").into_iter().map(|t| t.unwrap()).collect()
    };
    let mut counter: usize = 7;
    let first = tacky(parse(tokens()).unwrap(), &mut counter).unwrap();
    assert_eq!(counter, 9);
    assert_eq!(
        first.function_def.instructions,
        vec![
            tacky::Instruction::Unary(tacky::UnaryOperator::Negate, Val::Constant(2), var("tmp.7")),
            tacky::Instruction::Unary(tacky::UnaryOperator::Complement, var("tmp.7"), var("tmp.8")),
            tacky::Instruction::Return(var("tmp.8")),
        ]
    );
    let second = tacky(parse(tokens()).unwrap(), &mut counter).unwrap();
    assert_eq!(counter, 11);
    assert_eq!(second.function_def.instructions[2], tacky::Instruction::Return(var("tmp.10")));
    let mut top = usize::MAX;
    let wrapped = tacky(parse(tokens()).unwrap(), &mut top).unwrap();
    assert_eq!(top, 1);
    assert_eq!(wrapped.function_def.instructions[2], tacky::Instruction::Return(var("tmp.0")));
}
