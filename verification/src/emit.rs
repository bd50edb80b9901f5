//! Assembly text emission (AT&T syntax) for the generated x86-64 program.
use crate::codegen::{
    AsmView, BinaryOperator, FunctionDef, Instruction, Operand, OperandView, Program,
    ProgramView, Register, UnaryOperator, asm_view,
};
use crate::util::{decimal, push_decimal, push_signed_decimal, signed_decimal};
use vstd::prelude::*;

verus! {

/// What can go wrong in emission; it never fails on a program it accepts.
#[derive(Default, Clone, PartialEq, Debug)]
pub enum EmitError {
    #[default]
    Unknown,
}

/// The platform the assembly is written for: symbol names and the closing section
/// differ between them.
#[derive(Debug, PartialEq, Clone, Copy)]
pub enum Target {
    Linux,
    MacOs,
}

/// The text of an operand.
pub open spec fn operand_text(o: OperandView) -> Seq<char> {
    match o {
        OperandView::Imm(v) => "$"@ + signed_decimal(v as int),
        OperandView::Reg(Register::AX) => "%eax"@,
        OperandView::Reg(Register::DX) => "%edx"@,
        OperandView::Reg(Register::R10) => "%r10d"@,
        OperandView::Reg(Register::R11) => "%r11d"@,
        OperandView::Stack(n) => signed_decimal(n as int) + "(%rbp)"@,
        OperandView::Pseudo(_) => seq![],
    }
}

/// The mnemonic of a unary operator.
pub open spec fn unary_text(op: UnaryOperator) -> Seq<char> {
    match op {
        UnaryOperator::Neg => "negl"@,
        UnaryOperator::Not => "notl"@,
    }
}

/// The mnemonic of a binary operator.
pub open spec fn binary_text(op: BinaryOperator) -> Seq<char> {
    match op {
        BinaryOperator::Add => "addl"@,
        BinaryOperator::Sub => "subl"@,
        BinaryOperator::Mult => "imull"@,
    }
}

/// The magnitude of an `isize`.
pub open spec fn magnitude(n: isize) -> nat {
    if n < 0 {
        (-n) as nat
    } else {
        n as nat
    }
}

/// The text of an instruction (the return is three lines).
pub open spec fn instruction_text(i: AsmView) -> Seq<char> {
    match i {
        AsmView::Ret => "movq    %rbp, %rsp\n    popq    %rbp\n    ret"@,
        AsmView::Mov { src, dst } => "movl    "@ + operand_text(src) + ", "@ + operand_text(dst),
        AsmView::Unary { operator, operand } => unary_text(operator) + "    "@ + operand_text(
            operand,
        ),
        AsmView::Binary { operator, operand1, operand2 } => binary_text(operator) + "    "@
            + operand_text(operand1) + ", "@ + operand_text(operand2),
        AsmView::Idiv(o) => "idivl    "@ + operand_text(o),
        AsmView::Cdq => "cdq"@,
        AsmView::AllocateStack(n) => "subq    $"@ + decimal(magnitude(n)) + ", %rsp"@,
    }
}

/// The lines of a sequence of instructions, each indented by four spaces.
pub open spec fn lines_text(is: Seq<AsmView>) -> Seq<char>
    decreases is.len(),
{
    if is.len() == 0 {
        seq![]
    } else {
        lines_text(is.drop_last()) + "    "@ + instruction_text(is.last()) + "\n"@
    }
}

/// The assembler symbol of a function: macOS prefixes `_`.
pub open spec fn symbol_text(name: Seq<char>, target: Target) -> Seq<char> {
    match target {
        Target::MacOs => "_"@ + name,
        Target::Linux => name,
    }
}

/// What ends the file: on Linux, the note that the stack need not be executable.
pub open spec fn suffix_text(target: Target) -> Seq<char> {
    match target {
        Target::MacOs => ""@,
        Target::Linux => ".section .note.GNU-stack,\"\",@progbits"@,
    }
}

/// The text of a function: its global symbol, its label, the prologue, its instructions.
pub open spec fn function_text(p: ProgramView, target: Target) -> Seq<char> {
    "    .globl "@ + symbol_text(p.name, target) + "\n"@ + symbol_text(p.name, target) + ":\n"@
        + "    pushq   %rbp\n    movq    %rsp, %rbp\n"@ + lines_text(p.instructions)
}

/// The text of a program: its function, an empty line, and the closing section.
pub open spec fn program_text(p: ProgramView, target: Target) -> Seq<char> {
    function_text(p, target) + "\n"@ + suffix_text(target)
}

/// Instructions that have a text: no pseudo-register is left, and a frame size has a
/// magnitude that an `isize` holds.
pub open spec fn emittable(i: AsmView) -> bool {
    match i {
        AsmView::Mov { src, dst } => !(src is Pseudo) && !(dst is Pseudo),
        AsmView::Unary { operand, .. } => !(operand is Pseudo),
        AsmView::Binary { operand1, operand2, .. } => !(operand1 is Pseudo) && !(operand2 is Pseudo),
        AsmView::Idiv(o) => !(o is Pseudo),
        AsmView::AllocateStack(n) => n != isize::MIN,
        _ => true,
    }
}

/// All instructions of a program have a text.
pub open spec fn program_emittable(p: ProgramView) -> bool {
    forall|i: int| 0 <= i < p.instructions.len() ==> emittable(#[trigger] p.instructions[i])
}

/// The assembler symbol of a function.
fn fn_name(name: &String, target: Target) -> (s: String)
    ensures
        s@ == symbol_text(name@, target),
{
    match target {
        Target::MacOs => {
            let mut s = String::from_str("_");
            s.append(name.as_str());
            s
        },
        Target::Linux => name.clone(),
    }
}

/// The closing section of the file.
fn platform_suffix(target: Target) -> (s: String)
    ensures
        s@ == suffix_text(target),
{
    match target {
        Target::MacOs => String::from_str(""),
        Target::Linux => String::from_str(".section .note.GNU-stack,\"\",@progbits"),
    }
}

/// The text of an operand.
fn emit_operand(operand: &Operand) -> (s: String)
    requires
        !(operand@ is Pseudo),
    ensures
        s@ == operand_text(operand@),
{
    match operand {
        Operand::Imm(v) => {
            let mut s = String::from_str("$");
            push_signed_decimal(&mut s, *v);
            s
        },
        Operand::Reg(register) => match register {
            Register::AX => String::from_str("%eax"),
            Register::DX => String::from_str("%edx"),
            Register::R10 => String::from_str("%r10d"),
            Register::R11 => String::from_str("%r11d"),
        },
        Operand::Stack(stack_loc) => {
            let mut s = String::new();
            push_signed_decimal(&mut s, *stack_loc);
            s.append("(%rbp)");
            assert(s@ =~= operand_text(operand@));
            s
        },
        Operand::Pseudo(_) => String::new(),
    }
}

fn emit_unary_operator(op: UnaryOperator) -> (s: String)
    ensures
        s@ == unary_text(op),
{
    match op {
        UnaryOperator::Neg => String::from_str("negl"),
        UnaryOperator::Not => String::from_str("notl"),
    }
}

fn emit_binary_operator(op: BinaryOperator) -> (s: String)
    ensures
        s@ == binary_text(op),
{
    match op {
        BinaryOperator::Add => String::from_str("addl"),
        BinaryOperator::Sub => String::from_str("subl"),
        BinaryOperator::Mult => String::from_str("imull"),
    }
}

/// The text of an instruction.
fn emit_instruction(instruction: &Instruction) -> (s: String)
    requires
        emittable(instruction@),
    ensures
        s@ == instruction_text(instruction@),
{
    match instruction {
        Instruction::Ret => String::from_str("movq    %rbp, %rsp\n    popq    %rbp\n    ret"),
        Instruction::Mov { src, dst } => {
            let mut s = String::from_str("movl    ");
            s.append(emit_operand(src).as_str());
            s.append(", ");
            s.append(emit_operand(dst).as_str());
            assert(s@ =~= instruction_text(instruction@));
            s
        },
        Instruction::Unary { operator, operand } => {
            let mut s = emit_unary_operator(*operator);
            s.append("    ");
            s.append(emit_operand(operand).as_str());
            assert(s@ =~= instruction_text(instruction@));
            s
        },
        Instruction::Binary { operator, operand1, operand2 } => {
            let mut s = emit_binary_operator(*operator);
            s.append("    ");
            s.append(emit_operand(operand1).as_str());
            s.append(", ");
            s.append(emit_operand(operand2).as_str());
            assert(s@ =~= instruction_text(instruction@));
            s
        },
        Instruction::Idiv(o) => {
            let mut s = String::from_str("idivl    ");
            s.append(emit_operand(o).as_str());
            assert(s@ =~= instruction_text(instruction@));
            s
        },
        Instruction::Cdq => String::from_str("cdq"),
        Instruction::AllocateStack(stack_loc) => {
            let n = *stack_loc;
            let m: usize = if n < 0 {
                (-(n + 1)) as usize + 1
            } else {
                n as usize
            };
            let mut s = String::from_str("subq    $");
            push_decimal(&mut s, m);
            s.append(", %rsp");
            assert(s@ =~= instruction_text(instruction@));
            s
        },
    }
}

/// Appends each instruction's line to `output`.
fn emit_instructions(instructions: &Vec<Instruction>, output: &mut String)
    requires
        forall|i: int| 0 <= i < instructions@.len() ==> emittable(#[trigger] instructions@[i]@),
    ensures
        final(output)@ == old(output)@ + lines_text(asm_view(instructions@)),
{
    let ghost all = asm_view(instructions@);
    let mut i: usize = 0;
    assert(all.take(0) =~= Seq::<AsmView>::empty());
    assert(output@ =~= old(output)@ + lines_text(all.take(0)));
    while i < instructions.len()
        invariant
            all == asm_view(instructions@),
            i <= instructions@.len(),
            forall|j: int| 0 <= j < instructions@.len() ==> emittable(#[trigger] instructions@[j]@),
            output@ == old(output)@ + lines_text(all.take(i as int)),
        decreases instructions@.len() - i,
    {
        let line = emit_instruction(&instructions[i]);
        output.append("    ");
        output.append(line.as_str());
        output.append("\n");
        assert(all.take(i + 1).drop_last() =~= all.take(i as int));
        assert(all.take(i + 1).last() == instructions@[i as int]@);
        i = i + 1;
        assert(output@ =~= old(output)@ + lines_text(all.take(i as int)));
    }
    assert(all.take(i as int) =~= all);
}

/// Appends the text of a function to `output`.
fn emit_function(function_def: &FunctionDef, output: &mut String, target: Target)
    requires
        forall|i: int|
            0 <= i < function_def.instructions@.len() ==> emittable(
                #[trigger] function_def.instructions@[i]@,
            ),
    ensures
        final(output)@ == old(output)@ + function_text(
            ProgramView {
                name: function_def.name@,
                instructions: asm_view(function_def.instructions@),
            },
            target,
        ),
{
    let name = fn_name(&function_def.name, target);
    output.append("    .globl ");
    output.append(name.as_str());
    output.append("\n");
    output.append(name.as_str());
    output.append(":\n");
    output.append("    pushq   %rbp\n    movq    %rsp, %rbp\n");
    let ghost mid = output@;
    emit_instructions(&function_def.instructions, output);
    assert(final(output)@ =~= old(output)@ + function_text(
        ProgramView {
            name: function_def.name@,
            instructions: asm_view(function_def.instructions@),
        },
        target,
    ));
}

/// Appends the text of a program to `output`.
fn emit_program(program: &Program, output: &mut String, target: Target)
    requires
        program_emittable(program@),
    ensures
        final(output)@ == old(output)@ + program_text(program@, target),
{
    assert forall|i: int| 0 <= i < program.function_def.instructions@.len() implies emittable(
        #[trigger] program.function_def.instructions@[i]@,
    ) by {
        assert(program@.instructions[i] == program.function_def.instructions@[i]@);
    }
    emit_function(&program.function_def, output, target);
    output.append("\n");
    let suffix = platform_suffix(target);
    output.append(suffix.as_str());
    assert(final(output)@ =~= old(output)@ + program_text(program@, target));
}

/// Writes a generated program as assembly text for `target`. Every operand must be a
/// register, an immediate or a stack slot (no pseudo-register), and no frame may have
/// the size `isize::MIN`.
pub fn emit(program: Program, target: Target) -> (r: Result<String, EmitError>)
    requires
        program_emittable(program@),
    ensures
        r matches Ok(s) && s@ == program_text(program@, target),
{
    let mut output = String::new();
    emit_program(&program, &mut output, target);
    assert(output@ =~= program_text(program@, target));
    Ok(output)
}

} // verus!
