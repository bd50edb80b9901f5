//! What the emitted assembly text means: each instruction's text names, in AT&T syntax,
//! the operation that the machine model performs for it, and a function's lines follow
//! its instructions in order.
use crate::codegen::{AsmView, OperandView, Register};
use crate::emit::{emittable, instruction_text, lines_text, operand_text};
use crate::laws::{Arith, div_trunc, fit};
use crate::machine::{Machine, read, sign_of, step};
use crate::util::{decimal, signed_decimal};
use vstd::prelude::*;

verus! {

/// The operands of a two-operand instruction in AT&T order: source, then destination.
pub open spec fn operand_pair(src: OperandView, dst: OperandView) -> Seq<char> {
    "    "@ + operand_text(src) + ", "@ + operand_text(dst)
}

/// Each instruction's text names the operation that the machine performs for it, under
/// any arithmetic and from any state: `movl s, d` copies `s` to `d`; `negl d` and
/// `notl d` negate and complement `d`; `addl s, d`, `subl s, d` and `imull s, d` set `d`
/// to `d + s`, `d - s` and `d * s`; `idivl s` divides `AX` by `s` (quotient to `AX`,
/// remainder to `DX`); `cdq` sets `DX` to the sign of `AX`.
pub proof fn lemma_instruction_text_meaning(ar: Arith, i: AsmView, m: Machine)
    requires
        emittable(i),
    ensures
        match i {
            AsmView::Mov { src, dst } => {
                &&& instruction_text(i) == "movl"@ + operand_pair(src, dst)
                &&& step(ar, i, m) == Some(crate::machine::write(dst, read(ar, src, m), m))
            },
            AsmView::Unary { operand, .. } => {
                let x = read(ar, operand, m);
                let t = "    "@ + operand_text(operand);
                ||| instruction_text(i) == "negl"@ + t && step(ar, i, m) == Some(
                    crate::machine::write(operand, fit(ar, -x), m),
                )
                ||| instruction_text(i) == "notl"@ + t && step(ar, i, m) == Some(
                    crate::machine::write(operand, fit(ar, -x - 1), m),
                )
            },
            AsmView::Binary { operand1, operand2, .. } => {
                let d = read(ar, operand2, m);
                let s = read(ar, operand1, m);
                let t = operand_pair(operand1, operand2);
                ||| instruction_text(i) == "addl"@ + t && step(ar, i, m) == Some(
                    crate::machine::write(operand2, fit(ar, d + s), m),
                )
                ||| instruction_text(i) == "subl"@ + t && step(ar, i, m) == Some(
                    crate::machine::write(operand2, fit(ar, d - s), m),
                )
                ||| instruction_text(i) == "imull"@ + t && step(ar, i, m) == Some(
                    crate::machine::write(operand2, fit(ar, d * s), m),
                )
            },
            AsmView::Idiv(o) => {
                let s = read(ar, o, m);
                let a = m.regs[Register::AX];
                &&& instruction_text(i) == "idivl    "@ + operand_text(o)
                &&& s != 0 && m.regs[Register::DX] == sign_of(a) ==> step(ar, i, m) == Some(
                    Machine {
                        regs: m.regs.insert(Register::AX, fit(ar, div_trunc(a, s))).insert(
                            Register::DX,
                            fit(ar, a - s * div_trunc(a, s)),
                        ),
                        mem: m.mem,
                    },
                )
            },
            AsmView::Cdq => {
                &&& instruction_text(i) == "cdq"@
                &&& step(ar, i, m) == Some(
                    crate::machine::write(OperandView::Reg(Register::DX), sign_of(m.regs[Register::AX]), m),
                )
            },
            AsmView::AllocateStack(n) => {
                &&& instruction_text(i) == "subq    $"@ + decimal(
                    if n < 0 {
                        (-n) as nat
                    } else {
                        n as nat
                    },
                ) + ", %rsp"@
                &&& step(ar, i, m) == Some(m)
            },
            AsmView::Ret => {
                &&& instruction_text(i) == "movq    %rbp, %rsp\n    popq    %rbp\n    ret"@
                &&& step(ar, i, m) is None
            },
        },
{
    match i {
        AsmView::Mov { src, dst } => {
            reveal_strlit("movl    ");
            reveal_strlit("movl");
            reveal_strlit("    ");
            assert(instruction_text(i) =~= "movl"@ + operand_pair(src, dst));
        },
        AsmView::Unary { operand, .. } => {
            let t = "    "@ + operand_text(operand);
            assert(instruction_text(i) =~= "negl"@ + t || instruction_text(i) =~= "notl"@ + t);
        },
        AsmView::Binary { operand1, operand2, .. } => {
            let t = operand_pair(operand1, operand2);
            assert(instruction_text(i) =~= "addl"@ + t || instruction_text(i) =~= "subl"@ + t
                || instruction_text(i) =~= "imull"@ + t);
        },
        _ => {},
    }
}

/// Operands are written as AT&T syntax has them: an immediate after `$`, the 32-bit
/// names of the registers, and a stack slot as its offset from `%rbp`.
pub proof fn lemma_operand_text(o: OperandView)
    ensures
        match o {
            OperandView::Imm(v) => operand_text(o) == "$"@ + signed_decimal(v as int),
            OperandView::Reg(Register::AX) => operand_text(o) == "%eax"@,
            OperandView::Reg(Register::DX) => operand_text(o) == "%edx"@,
            OperandView::Reg(Register::R10) => operand_text(o) == "%r10d"@,
            OperandView::Reg(Register::R11) => operand_text(o) == "%r11d"@,
            OperandView::Stack(n) => operand_text(o) == signed_decimal(n as int) + "(%rbp)"@,
            OperandView::Pseudo(_) => true,
        },
{
}

/// The lines of instructions are their texts, one per line, in order: the lines of one
/// sequence after another are the lines of the first, then those of the second.
pub proof fn lemma_lines_text(a: Seq<AsmView>, b: Seq<AsmView>, i: AsmView)
    ensures
        lines_text(seq![i]) == "    "@ + instruction_text(i) + "\n"@,
        lines_text(a + b) == lines_text(a) + lines_text(b),
    decreases b.len(),
{
    assert(seq![i].drop_last() =~= Seq::<AsmView>::empty());
    assert(lines_text(Seq::<AsmView>::empty()) == Seq::<char>::empty());
    assert(lines_text(seq![i]) =~= "    "@ + instruction_text(i) + "\n"@);
    if b.len() == 0 {
        assert(a + b =~= a);
        assert(lines_text(a) + lines_text(b) =~= lines_text(a));
    } else {
        lemma_lines_text(a, b.drop_last(), i);
        assert((a + b).drop_last() =~= a + b.drop_last());
        assert((a + b).last() == b.last());
        assert(lines_text(a + b) =~= lines_text(a) + lines_text(b));
    }
}

} // verus!
