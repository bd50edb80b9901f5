//! An abstract x86-64 machine whose registers and stack slots hold integers, kept
//! exactly or wrapped around at a width (`Arith`), and the proof that generated code
//! computes on it what the three-address instructions compute under the same
//! arithmetic. A quotient and remainder are kept as the arithmetic keeps them.
use crate::codegen::{
    AsmView, BinaryOperator, OperandView, Register, UnaryOperator, find_name, fixup_all,
    fixup_spec, lemma_find_name_from, lemma_slot, lower, lower_all, max_slots, operand_of,
    slot, codegen_instructions, pseudo_names, frame_fits, replace_all,
};
use crate::codegen_laws::{covered, legal, subst, subst_operand, lemma_slots_consistent};
use crate::laws::{
    Arith, apply_binary_in, apply_unary_in, eval_in, exec_instr_in, fit, lemma_counter,
    lemma_tacky_preserves_value_in, ops, run_in, value_in,
};
use crate::parser::{Expr, Statement};
use crate::tacky::{body_instructions, expr_instructions};
use crate::util::{lemma_tmp_name_injective, tmp_name};
use crate::tacky::{self, InstructionView as TackyInstr, ValView};
use crate::codegen_laws::lemma_fixup_all_cons;
use crate::laws::div_trunc;
use vstd::prelude::*;

verus! {

/// The state of the machine: registers and stack slots (by offset).
pub struct Machine {
    pub regs: Map<Register, int>,
    pub mem: Map<int, int>,
}

/// `-1` for a negative number and `0` otherwise: what `cdq` puts in `DX`.
pub open spec fn sign_of(x: int) -> int {
    if x < 0 {
        -1
    } else {
        0
    }
}

/// The value of an operand.
pub open spec fn read(ar: Arith, o: OperandView, m: Machine) -> int {
    match o {
        OperandView::Imm(v) => fit(ar, v as int),
        OperandView::Reg(r) => m.regs[r],
        OperandView::Stack(n) => m.mem[n as int],
        OperandView::Pseudo(_) => 0,
    }
}

/// The machine after writing `x` to an operand.
pub open spec fn write(o: OperandView, x: int, m: Machine) -> Machine {
    match o {
        OperandView::Reg(r) => Machine { regs: m.regs.insert(r, x), mem: m.mem },
        OperandView::Stack(n) => Machine { regs: m.regs, mem: m.mem.insert(n as int, x) },
        _ => m,
    }
}

/// One step of the machine; `None` for a division by zero, a division whose `DX` does not
/// hold the sign of `AX`, and `ret`, which ends the run.
pub open spec fn step(ar: Arith, i: AsmView, m: Machine) -> Option<Machine> {
    match i {
        AsmView::Mov { src, dst } => Some(write(dst, read(ar, src, m), m)),
        AsmView::Unary { operator, operand } => {
            let x = read(ar, operand, m);
            Some(
                write(
                    operand,
                    fit(
                        ar,
                        match operator {
                            UnaryOperator::Neg => -x,
                            UnaryOperator::Not => -x - 1,
                        },
                    ),
                    m,
                ),
            )
        },
        AsmView::Binary { operator, operand1, operand2 } => {
            let x = read(ar, operand2, m);
            let y = read(ar, operand1, m);
            Some(
                write(
                    operand2,
                    fit(
                        ar,
                        match operator {
                            BinaryOperator::Add => x + y,
                            BinaryOperator::Sub => x - y,
                            BinaryOperator::Mult => x * y,
                        },
                    ),
                    m,
                ),
            )
        },
        AsmView::Idiv(o) => {
            let d = read(ar, o, m);
            let a = m.regs[Register::AX];
            if d == 0 || m.regs[Register::DX] != sign_of(a) {
                None
            } else {
                let q = div_trunc(a, d);
                Some(
                    Machine {
                        regs: m.regs.insert(Register::AX, fit(ar, q)).insert(
                            Register::DX,
                            fit(ar, a - d * q),
                        ),
                        mem: m.mem,
                    },
                )
            }
        },
        AsmView::Cdq => Some(write(OperandView::Reg(Register::DX), sign_of(m.regs[Register::AX]), m)),
        AsmView::AllocateStack(_) => Some(m),
        AsmView::Ret => None,
    }
}

/// Executing instructions in order.
pub open spec fn exec_machine(ar: Arith, is: Seq<AsmView>, m: Machine) -> Option<Machine>
    decreases is.len(),
{
    if is.len() == 0 {
        Some(m)
    } else {
        match step(ar, is[0], m) {
            Some(m1) => exec_machine(ar, is.drop_first(), m1),
            None => None,
        }
    }
}

/// Running a function: executing until `ret`, which returns the value in `AX`.
pub open spec fn run_machine(ar: Arith, is: Seq<AsmView>, m: Machine) -> Option<int>
    decreases is.len(),
{
    if is.len() == 0 {
        None
    } else if is[0] is Ret {
        Some(m.regs[Register::AX])
    } else {
        match step(ar, is[0], m) {
            Some(m1) => run_machine(ar, is.drop_first(), m1),
            None => None,
        }
    }
}

/// Two machines agree on everything but the scratch registers `R10` and `R11`.
pub open spec fn eqv(a: Machine, b: Machine) -> bool {
    &&& a.mem == b.mem
    &&& a.regs[Register::AX] == b.regs[Register::AX]
    &&& a.regs[Register::DX] == b.regs[Register::DX]
}

/// An operand that is not a scratch register.
pub open spec fn operand_no_scratch(o: OperandView) -> bool {
    !(o == OperandView::Reg(Register::R10) || o == OperandView::Reg(Register::R11))
}

/// No operand of the instruction is a scratch register.
pub open spec fn no_scratch(i: AsmView) -> bool {
    match i {
        AsmView::Mov { src, dst } => operand_no_scratch(src) && operand_no_scratch(dst),
        AsmView::Unary { operand, .. } => operand_no_scratch(operand),
        AsmView::Binary { operand1, operand2, .. } => operand_no_scratch(operand1)
            && operand_no_scratch(operand2),
        AsmView::Idiv(o) => operand_no_scratch(o),
        _ => true,
    }
}

/// Reading is the same on machines that agree outside the scratch registers.
proof fn lemma_read_eqv(ar: Arith, o: OperandView, a: Machine, b: Machine)
    requires
        eqv(a, b),
        operand_no_scratch(o),
    ensures
        read(ar, o, a) == read(ar, o, b),
{
    if let OperandView::Reg(r) = o {
        assert(r == Register::AX || r == Register::DX);
    }
}

/// A step keeps machines that agree outside the scratch registers in agreement.
proof fn lemma_step_eqv(ar: Arith, i: AsmView, a: Machine, b: Machine)
    requires
        eqv(a, b),
        no_scratch(i),
    ensures
        step(ar, i, a) is Some <==> step(ar, i, b) is Some,
        step(ar, i, a) is Some ==> eqv(step(ar, i, a)->0, step(ar, i, b)->0),
{
    match i {
        AsmView::Mov { src, dst } => {
            lemma_read_eqv(ar, src, a, b);
        },
        AsmView::Unary { operand, .. } => {
            lemma_read_eqv(ar, operand, a, b);
        },
        AsmView::Binary { operand1, operand2, .. } => {
            lemma_read_eqv(ar, operand1, a, b);
            lemma_read_eqv(ar, operand2, a, b);
        },
        AsmView::Idiv(o) => {
            lemma_read_eqv(ar, o, a, b);
        },
        _ => {},
    }
}

/// Executing two instructions.
proof fn lemma_exec_two(ar: Arith, x: AsmView, y: AsmView, m: Machine)
    ensures
        exec_machine(ar, seq![x, y], m) == (match step(ar, x, m) {
            Some(m1) => match step(ar, y, m1) {
                Some(m2) => Some(m2),
                None => None,
            },
            None => None,
        }),
{
    assert(seq![x, y].drop_first() =~= seq![y]);
    assert(seq![y].drop_first() =~= Seq::<AsmView>::empty());
    if let Some(m1) = step(ar, x, m) {
        assert(exec_machine(ar, seq![y], m1) == (match step(ar, y, m1) {
            Some(m2) => exec_machine(ar, Seq::<AsmView>::empty(), m2),
            None => None,
        }));
    }
}

/// Executing one instruction.
proof fn lemma_exec_one(ar: Arith, x: AsmView, m: Machine)
    ensures
        exec_machine(ar, seq![x], m) == step(ar, x, m),
{
    assert(seq![x].drop_first() =~= Seq::<AsmView>::empty());
    if let Some(m1) = step(ar, x, m) {
        assert(exec_machine(ar, Seq::<AsmView>::empty(), m1) == Some(m1));
    }
}

/// Executing three instructions.
proof fn lemma_exec_three(ar: Arith, x: AsmView, y: AsmView, z: AsmView, m: Machine)
    ensures
        exec_machine(ar, seq![x, y, z], m) == (match step(ar, x, m) {
            Some(m1) => exec_machine(ar, seq![y, z], m1),
            None => None,
        }),
{
    assert(seq![x, y, z].drop_first() =~= seq![y, z]);
}

/// A rewritten instruction computes what the instruction computes, but for the scratch
/// registers.
proof fn lemma_fixup_step(ar: Arith, i: AsmView, m: Machine)
    requires
        no_scratch(i),
        !(i is Ret),
        step(ar, i, m) is Some,
    ensures
        exec_machine(ar, fixup_spec(i), m) is Some,
        eqv(exec_machine(ar, fixup_spec(i), m)->0, step(ar, i, m)->0),
{
    let r10 = OperandView::Reg(Register::R10);
    let r11 = OperandView::Reg(Register::R11);
    match i {
        AsmView::Mov { src, dst } => {
            if src is Stack && dst is Stack {
                lemma_exec_two(ar, AsmView::Mov { src, dst: r10 }, AsmView::Mov { src: r10, dst }, m);
            } else {
                lemma_exec_one(ar, i, m);
            }
        },
        AsmView::Idiv(o) => {
            if let OperandView::Imm(v) = o {
                lemma_exec_two(ar, 
                    AsmView::Mov { src: OperandView::Imm(v), dst: r10 },
                    AsmView::Idiv(r10),
                    m,
                );
            } else {
                lemma_exec_one(ar, i, m);
            }
        },
        AsmView::Binary { operator, operand1, operand2 } => {
            if (operator == BinaryOperator::Add || operator == BinaryOperator::Sub)
                && operand1 is Stack && operand2 is Stack {
                lemma_exec_two(ar, 
                    AsmView::Mov { src: operand1, dst: r10 },
                    AsmView::Binary { operator, operand1: r10, operand2 },
                    m,
                );
            } else if operator == BinaryOperator::Mult && operand2 is Stack {
                let a = AsmView::Mov { src: operand2, dst: r11 };
                let b = AsmView::Binary { operator: BinaryOperator::Mult, operand1, operand2: r11 };
                let c = AsmView::Mov { src: r11, dst: operand2 };
                lemma_exec_three(ar, a, b, c, m);
                let m1 = step(ar, a, m)->0;
                lemma_exec_two(ar, b, c, m1);
                assert(read(ar, operand1, m1) == read(ar, operand1, m));
            } else {
                lemma_exec_one(ar, i, m);
            }
        },
        _ => {
            lemma_exec_one(ar, i, m);
        },
    }
}

/// Executing one sequence after another.
pub proof fn lemma_exec_machine_concat(ar: Arith, a: Seq<AsmView>, b: Seq<AsmView>, m: Machine)
    ensures
        exec_machine(ar, a + b, m) == (match exec_machine(ar, a, m) {
            Some(m1) => exec_machine(ar, b, m1),
            None => None,
        }),
    decreases a.len(),
{
    if a.len() == 0 {
        assert(a + b =~= b);
    } else {
        assert((a + b).drop_first() =~= a.drop_first() + b);
        assert((a + b)[0] == a[0]);
        if let Some(m1) = step(ar, a[0], m) {
            lemma_exec_machine_concat(ar, a.drop_first(), b, m1);
        }
    }
}

/// Running after a sequence without `ret`: execute the sequence first.
pub proof fn lemma_run_machine_after(ar: Arith, a: Seq<AsmView>, b: Seq<AsmView>, m: Machine)
    requires
        forall|j: int| 0 <= j < a.len() ==> !(#[trigger] a[j] is Ret),
        exec_machine(ar, a, m) is Some,
    ensures
        run_machine(ar, a + b, m) == run_machine(ar, b, exec_machine(ar, a, m)->0),
    decreases a.len(),
{
    if a.len() == 0 {
        assert(a + b =~= b);
    } else {
        assert((a + b).drop_first() =~= a.drop_first() + b);
        assert((a + b)[0] == a[0]);
        assert(!(a[0] is Ret));
        let m1 = step(ar, a[0], m)->0;
        assert forall|j: int| 0 <= j < a.drop_first().len() implies !(#[trigger] a.drop_first()[j] is Ret) by {
            assert(a.drop_first()[j] == a[j + 1]);
        }
        lemma_run_machine_after(ar, a.drop_first(), b, m1);
    }
}

/// Rewritten code computes what the code computes, but for the scratch registers.
pub proof fn lemma_fixup_all_sim(ar: Arith, x: Seq<AsmView>, m1: Machine, m2: Machine)
    requires
        eqv(m1, m2),
        forall|j: int| 0 <= j < x.len() ==> no_scratch(#[trigger] x[j]) && !(x[j] is Ret),
        exec_machine(ar, x, m2) is Some,
    ensures
        exec_machine(ar, fixup_all(x), m1) is Some,
        eqv(exec_machine(ar, fixup_all(x), m1)->0, exec_machine(ar, x, m2)->0),
    decreases x.len(),
{
    if x.len() == 0 {
        assert(fixup_all(x) =~= Seq::<AsmView>::empty());
    } else {
        let x0 = x[0];
        let rest = x.drop_first();
        assert(x =~= seq![x0] + rest);
        lemma_fixup_all_cons(x0, rest);
        assert(no_scratch(x0) && !(x0 is Ret));
        let n2 = step(ar, x0, m2)->0;
        lemma_step_eqv(ar, x0, m1, m2);
        lemma_fixup_step(ar, x0, m1);
        let n1 = exec_machine(ar, fixup_spec(x0), m1)->0;
        lemma_step_eqv(ar, x0, m1, m2);
        lemma_exec_machine_concat(ar, fixup_spec(x0), fixup_all(rest), m1);
        assert forall|j: int| 0 <= j < rest.len() implies no_scratch(#[trigger] rest[j]) && !(rest[j] is Ret) by {
            assert(rest[j] == x[j + 1]);
        }
        lemma_fixup_all_sim(ar, rest, n1, n2);
    }
}

/// Sequences whose instructions x86-64 all accepts are left as they are.
proof fn lemma_fixup_all_legal_id(x: Seq<AsmView>)
    requires
        forall|j: int| 0 <= j < x.len() ==> legal(#[trigger] x[j]),
    ensures
        fixup_all(x) == x,
    decreases x.len(),
{
    if x.len() > 0 {
        assert forall|j: int| 0 <= j < x.drop_last().len() implies legal(
            #[trigger] x.drop_last()[j],
        ) by {
            assert(x.drop_last()[j] == x[j]);
        }
        lemma_fixup_all_legal_id(x.drop_last());
        assert(legal(x[x.len() - 1]));
        assert(fixup_spec(x.last()) == seq![x.last()]);
        assert(x.drop_last() + seq![x.last()] =~= x);
    }
}

/// What rewriting one instruction does: every instruction it gives has operands that
/// x86-64 accepts; an instruction that x86-64 already accepts is kept as it is; rewriting
/// again changes nothing; and, for an instruction that does not use the scratch
/// registers `R10` and `R11`, the rewritten instructions leave the machine as the
/// instruction does, but for those scratch registers.
pub proof fn lemma_fixup_law(ar: Arith, i: AsmView, m: Machine)
    ensures
        forall|j: int| 0 <= j < fixup_spec(i).len() ==> legal(#[trigger] fixup_spec(i)[j]),
        legal(i) ==> fixup_spec(i) == seq![i],
        fixup_all(fixup_spec(i)) == fixup_spec(i),
        no_scratch(i) && !(i is Ret) && step(ar, i, m) is Some ==> {
            &&& exec_machine(ar, fixup_spec(i), m) is Some
            &&& eqv(exec_machine(ar, fixup_spec(i), m)->0, step(ar, i, m)->0)
        },
{
    assert forall|j: int| 0 <= j < fixup_spec(i).len() implies legal(#[trigger] fixup_spec(i)[j]) by {}
    lemma_fixup_all_legal_id(fixup_spec(i));
    if no_scratch(i) && !(i is Ret) && step(ar, i, m) is Some {
        lemma_fixup_step(ar, i, m);
    }
}

/// The machine's stack slots hold the values of the variables: the `k`-th name's slot
/// holds its value.
pub open spec fn related(env: Map<Seq<char>, int>, m: Machine, names: Seq<Seq<char>>) -> bool {
    forall|k: int| 0 <= k < names.len() ==> #[trigger] m.mem[slot(k as nat) as int] == env[names[k]]
}

/// Instructions with each pseudo-register replaced by the slot of its name.
pub open spec fn subst_all(x: Seq<AsmView>, names: Seq<Seq<char>>) -> Seq<AsmView> {
    x.map_values(|i: AsmView| subst(i, names))
}

/// Three-address instructions that code generation translates faithfully: results go to
/// variables, and an addition, subtraction or multiplication does not read its second
/// operand from its destination (which its first operand is copied to first).
pub open spec fn simulable(i: TackyInstr) -> bool {
    match i {
        TackyInstr::Unary(_, _, dst) => dst is Var,
        TackyInstr::Binary { op, src2, dst, .. } => dst is Var && ((op
            == tacky::BinaryOperator::Add || op == tacky::BinaryOperator::Subtract || op
            == tacky::BinaryOperator::Multiply) ==> src2 != dst),
        TackyInstr::Return(_) => true,
    }
}

/// The slots of the name list are the background facts of the relation.
pub open spec fn names_ok(names: Seq<Seq<char>>) -> bool {
    names.no_duplicates() && names.len() < max_slots()
}

/// Reading the slot of a variable gives its value.
proof fn lemma_read_subst(ar: Arith, v: ValView, env: Map<Seq<char>, int>, m: Machine, names: Seq<Seq<char>>)
    requires
        related(env, m, names),
        names_ok(names),
        v is Var ==> names.contains(v->Var_0),
    ensures
        read(ar, subst_operand(operand_of(v), names), m) == value_in(ar, v, env),
{
    if let ValView::Var(n) = v {
        lemma_find_name_from(names, n, 0);
        let j = choose|j: int| 0 <= j < names.len() && names[j] == n;
        assert(names[j] == n);
        let ki: int = find_name(names, n)->0 as int;
        assert(m.mem[slot(ki as nat) as int] == env[names[ki]]);
    }
}

/// Writing a variable's slot keeps the relation, with the variable updated.
proof fn lemma_write_related(ar: Arith, 
    env: Map<Seq<char>, int>,
    m: Machine,
    names: Seq<Seq<char>>,
    n: Seq<char>,
    x: int,
)
    requires
        related(env, m, names),
        names_ok(names),
        names.contains(n),
    ensures
        related(
            env.insert(n, x),
            write(subst_operand(OperandView::Pseudo(n), names), x, m),
            names,
        ),
{
    lemma_find_name_from(names, n, 0);
    let k = find_name(names, n)->0;
    lemma_slot(k);
    let m2 = write(subst_operand(OperandView::Pseudo(n), names), x, m);
    assert forall|j: int| 0 <= j < names.len() implies #[trigger] m2.mem[slot(j as nat) as int]
        == env.insert(n, x)[names[j]] by {
        lemma_slot(j as nat);
        if j != k {
            assert(names[j] != names[k as int]);
        }
    }
}

/// Executing four instructions.
proof fn lemma_exec_four(ar: Arith, a: AsmView, b: AsmView, c: AsmView, d: AsmView, m: Machine)
    ensures
        exec_machine(ar, seq![a, b, c, d], m) == (match step(ar, a, m) {
            Some(m1) => exec_machine(ar, seq![b, c, d], m1),
            None => None,
        }),
{
    assert(seq![a, b, c, d].drop_first() =~= seq![b, c, d]);
}

/// Each three-address instruction is translated faithfully, under any arithmetic: its
/// x86-64 instructions, with every pseudo-register in its stack slot, run on a machine
/// whose slots hold the variables, leave in the slots the variables after the
/// instruction (its destination set to the value it computes, every other variable
/// unchanged), for an instruction that writes a variable and, for `+ - *`, does not read
/// its second operand from its destination (which its first operand is copied to first).
pub proof fn lemma_block_sim(ar: Arith, i: TackyInstr, env: Map<Seq<char>, int>, m: Machine, names: Seq<Seq<char>>)
    requires
        simulable(i),
        !(i is Return),
        exec_instr_in(ar, i, env) is Some,
        related(env, m, names),
        names_ok(names),
        forall|k: int| 0 <= k < lower(i).len() ==> covered(#[trigger] lower(i)[k], names),
    ensures
        exec_machine(ar, subst_all(lower(i), names), m) is Some,
        related(exec_instr_in(ar, i, env)->0, exec_machine(ar, subst_all(lower(i), names), m)->0, names),
{
    let x = lower(i);
    let sx = subst_all(x, names);
    match i {
        TackyInstr::Unary(op, src, dst) => {
            let d = dst->Var_0;
            assert(covered(x[0], names) && covered(x[1], names));
            assert(sx =~= seq![subst(x[0], names), subst(x[1], names)]);
            lemma_exec_two(ar, subst(x[0], names), subst(x[1], names), m);
            lemma_read_subst(ar, src, env, m, names);
            let v = value_in(ar, src, env);
            let m1 = step(ar, subst(x[0], names), m)->0;
            lemma_write_related(ar, env, m, names, d, v);
            let env1 = env.insert(d, v);
            lemma_read_subst(ar, dst, env1, m1, names);
            let r = apply_unary_in(ar, op, v);
            lemma_write_related(ar, env1, m1, names, d, r);
            assert(env1.insert(d, r) =~= env.insert(d, r));
        },
        TackyInstr::Binary { op, src1, src2, dst } => {
            let d = dst->Var_0;
            let v1 = value_in(ar, src1, env);
            let v2 = value_in(ar, src2, env);
            lemma_read_subst(ar, src1, env, m, names);
            lemma_read_subst(ar, src2, env, m, names);
            if op == tacky::BinaryOperator::Divide || op == tacky::BinaryOperator::Remainder {
                assert(covered(x[0], names) && covered(x[2], names) && covered(x[3], names));
                let a = subst(x[0], names);
                let b = subst(x[1], names);
                let c = subst(x[2], names);
                let e = subst(x[3], names);
                assert(sx =~= seq![a, b, c, e]);
                lemma_exec_four(ar, a, b, c, e, m);
                let m1 = step(ar, a, m)->0;
                assert(seq![b, c, e].drop_first() =~= seq![c, e]);
                let m2 = step(ar, b, m1)->0;
                lemma_exec_two(ar, c, e, m2);
                assert(m2.mem == m.mem);
                assert(read(ar, subst_operand(operand_of(src2), names), m2) == v2);
                let m3 = step(ar, c, m2)->0;
                let q = div_trunc(v1, v2);
                assert(m3.regs[Register::AX] == fit(ar, q));
                assert(m3.regs[Register::DX] == fit(ar, v1 - v2 * q));
                assert(m3.mem == m.mem);
                assert(related(env, m3, names));
                let r = if op == tacky::BinaryOperator::Divide {
                    fit(ar, q)
                } else {
                    fit(ar, v1 - v2 * q)
                };
                lemma_write_related(ar, env, m3, names, d, r);
            } else {
                assert(covered(x[0], names) && covered(x[1], names));
                assert(sx =~= seq![subst(x[0], names), subst(x[1], names)]);
                lemma_exec_two(ar, subst(x[0], names), subst(x[1], names), m);
                let m1 = step(ar, subst(x[0], names), m)->0;
                lemma_write_related(ar, env, m, names, d, v1);
                let env1 = env.insert(d, v1);
                assert(value_in(ar, src2, env1) == v2);
                lemma_read_subst(ar, src2, env1, m1, names);
                lemma_read_subst(ar, dst, env1, m1, names);
                let r = apply_binary_in(ar, op, v1, v2)->0;
                lemma_write_related(ar, env1, m1, names, d, r);
                assert(env1.insert(d, r) =~= env.insert(d, r));
            }
        },
        TackyInstr::Return(_) => {},
    }
}

/// Rewriting a concatenation rewrites each part.
proof fn lemma_fixup_all_concat(a: Seq<AsmView>, b: Seq<AsmView>)
    ensures
        fixup_all(a + b) == fixup_all(a) + fixup_all(b),
    decreases b.len(),
{
    if b.len() == 0 {
        assert(a + b =~= a);
        assert(fixup_all(a) + fixup_all(b) =~= fixup_all(a));
    } else {
        lemma_fixup_all_concat(a, b.drop_last());
        assert((a + b).drop_last() =~= a + b.drop_last());
        assert((a + b).last() == b.last());
        assert(fixup_all(a + b) =~= fixup_all(a) + fixup_all(b));
    }
}

/// Lowering a sequence lowers its first instruction first.
proof fn lemma_lower_all_cons(x: TackyInstr, r: Seq<TackyInstr>)
    ensures
        lower_all(seq![x] + r) == lower(x) + lower_all(r),
    decreases r.len(),
{
    if r.len() == 0 {
        assert(seq![x] + r =~= seq![x]);
        assert(seq![x].drop_last() =~= Seq::<TackyInstr>::empty());
        assert(seq![x].last() == x);
        assert(lower_all(Seq::<TackyInstr>::empty()) =~= Seq::<AsmView>::empty());
        assert(lower_all(seq![x]) =~= Seq::<AsmView>::empty() + lower(x));
        assert(lower(x) + lower_all(r) =~= lower(x));
    } else {
        lemma_lower_all_cons(x, r.drop_last());
        assert((seq![x] + r).drop_last() =~= seq![x] + r.drop_last());
        assert((seq![x] + r).last() == r.last());
        assert(lower_all(seq![x] + r) =~= lower(x) + lower_all(r));
    }
}

/// The generated code of a sequence of three-address instructions, under given slots.
pub open spec fn blocks(is: Seq<TackyInstr>, names: Seq<Seq<char>>) -> Seq<AsmView> {
    fixup_all(subst_all(lower_all(is), names))
}

/// The generated code of a sequence is the code of its first instruction, then the rest.
proof fn lemma_blocks_cons(is: Seq<TackyInstr>, names: Seq<Seq<char>>)
    requires
        is.len() > 0,
    ensures
        blocks(is, names) == fixup_all(subst_all(lower(is[0]), names)) + blocks(is.drop_first(), names),
        lower_all(is) == lower(is[0]) + lower_all(is.drop_first()),
{
    assert(is =~= seq![is[0]] + is.drop_first());
    lemma_lower_all_cons(is[0], is.drop_first());
    let a = lower(is[0]);
    let b = lower_all(is.drop_first());
    assert(subst_all(a + b, names) =~= subst_all(a, names) + subst_all(b, names));
    lemma_fixup_all_concat(subst_all(a, names), subst_all(b, names));
}

/// Rewriting never introduces a `ret`.
proof fn lemma_fixup_all_no_ret(x: Seq<AsmView>)
    requires
        forall|j: int| 0 <= j < x.len() ==> !(#[trigger] x[j] is Ret),
    ensures
        forall|j: int| 0 <= j < fixup_all(x).len() ==> !(#[trigger] fixup_all(x)[j] is Ret),
    decreases x.len(),
{
    if x.len() > 0 {
        assert forall|j: int| 0 <= j < x.drop_last().len() implies !(#[trigger] x.drop_last()[j] is Ret) by {
            assert(x.drop_last()[j] == x[j]);
        }
        lemma_fixup_all_no_ret(x.drop_last());
        let a = fixup_all(x.drop_last());
        let b = fixup_spec(x.last());
        assert(!(x[x.len() - 1] is Ret));
        assert forall|j: int| 0 <= j < fixup_all(x).len() implies !(#[trigger] fixup_all(x)[j] is Ret) by {
            if j < a.len() {
                assert(fixup_all(x)[j] == a[j]);
            } else {
                assert(fixup_all(x)[j] == b[j - a.len()]);
            }
        }
    }
}

/// Running generated code from a machine whose slots hold the variables returns what
/// running the three-address instructions returns.
proof fn lemma_run_sim(ar: Arith, is: Seq<TackyInstr>, env: Map<Seq<char>, int>, m: Machine, names: Seq<Seq<char>>)
    requires
        related(env, m, names),
        names_ok(names),
        forall|j: int| 0 <= j < is.len() ==> simulable(#[trigger] is[j]),
        forall|k: int| 0 <= k < lower_all(is).len() ==> covered(#[trigger] lower_all(is)[k], names),
        run_in(ar, is, env) is Some,
    ensures
        run_machine(ar, blocks(is, names), m) == run_in(ar, is, env),
    decreases is.len(),
{
    lemma_blocks_cons(is, names);
    let i = is[0];
    let rest = is.drop_first();
    let a = lower(i);
    let sa = subst_all(a, names);
    let b = fixup_all(sa);
    assert forall|k: int| 0 <= k < a.len() implies covered(#[trigger] a[k], names) by {
        assert(lower_all(is)[k] == a[k]);
    }
    assert forall|k: int| 0 <= k < lower_all(rest).len() implies covered(#[trigger] lower_all(rest)[k], names) by {
        assert(lower_all(is)[a.len() + k] == lower_all(rest)[k]);
    }
    assert forall|j: int| 0 <= j < rest.len() implies simulable(#[trigger] rest[j]) by {
        assert(rest[j] == is[j + 1]);
    }
    if let TackyInstr::Return(v) = i {
        let mv = subst(a[0], names);
        assert(sa =~= seq![mv, AsmView::Ret]);
        lemma_fixup_all_cons(mv, seq![AsmView::Ret]);
        lemma_fixup_all_cons(AsmView::Ret, Seq::<AsmView>::empty());
        assert(seq![AsmView::Ret] =~= seq![AsmView::Ret] + Seq::<AsmView>::empty());
        assert(fixup_all(Seq::<AsmView>::empty()) =~= Seq::<AsmView>::empty());
        assert(seq![mv, AsmView::Ret] =~= seq![mv] + seq![AsmView::Ret]);
        assert(fixup_spec(mv) == seq![mv]);
        assert(b =~= seq![mv, AsmView::Ret]);
        assert(covered(a[0], names));
        lemma_read_subst(ar, v, env, m, names);
        let m1 = step(ar, mv, m)->0;
        let code = blocks(is, names);
        assert(code[0] == mv);
        assert(code[1] == AsmView::Ret);
        assert(code.drop_first()[0] == AsmView::Ret);
        assert(run_machine(ar, code.drop_first(), m1) == Some(m1.regs[Register::AX]));
    } else {
        lemma_block_sim(ar, i, env, m, names);
        let m1 = exec_machine(ar, sa, m)->0;
        assert forall|j: int| 0 <= j < sa.len() implies no_scratch(#[trigger] sa[j]) && !(sa[j] is Ret) by {
            assert(sa[j] == subst(a[j], names));
        }
        lemma_fixup_all_sim(ar, sa, m, m);
        let m2 = exec_machine(ar, b, m)->0;
        assert(related(exec_instr_in(ar, i, env)->0, m2, names));
        lemma_fixup_all_no_ret(sa);
        lemma_run_machine_after(ar, b, blocks(rest, names), m);
        lemma_run_sim(ar, rest, exec_instr_in(ar, i, env)->0, m2, names);
    }
}

/// Code generation preserves meaning, under any arithmetic `ar`: on a machine whose
/// registers and stack slots hold integers as `ar` keeps them, running the generated code from any state whose slots hold the
/// values of the variables returns what the three-address instructions return, for
/// instructions that write variables and do not read an addition's, subtraction's or
/// multiplication's second operand from its destination.
pub proof fn lemma_codegen_preserves_value(ar: Arith, is: Seq<TackyInstr>, env: Map<Seq<char>, int>, m: Machine)
    requires
        frame_fits(is),
        forall|j: int| 0 <= j < is.len() ==> simulable(#[trigger] is[j]),
        related(env, m, pseudo_names(is)),
        run_in(ar, is, env) is Some,
    ensures
        run_machine(ar, codegen_instructions(is), m) == run_in(ar, is, env),
{
    let low = lower_all(is);
    let names = pseudo_names(is);
    lemma_slots_consistent(low);
    let (replaced, _) = replace_all(low);
    assert(replaced =~= subst_all(low, names));
    let alloc = AsmView::AllocateStack((-4 * names.len()) as isize);
    lemma_fixup_all_cons(alloc, replaced);
    assert(fixup_spec(alloc) == seq![alloc]);
    let code = codegen_instructions(is);
    assert(code =~= seq![alloc] + blocks(is, names));
    assert(code.drop_first() =~= blocks(is, names));
    assert forall|k: int| 0 <= k < low.len() implies covered(#[trigger] low[k], names) by {}
    lemma_run_sim(ar, is, env, m, names);
}

/// The value an expression's instructions leave their result in is a constant or the
/// last temporary they take.
proof fn lemma_result_name(e: Expr, c: usize)
    requires
        c + ops(e) <= usize::MAX,
    ensures
        expr_instructions(e, c).1 is Var ==> ops(e) > 0 && expr_instructions(e, c).1->Var_0
            == tmp_name((c + ops(e) - 1) as nat),
    decreases e,
{
    lemma_counter(e, c);
    match e {
        Expr::Constant(_) => {},
        Expr::Unary(_, inner) => {
            lemma_counter(*inner, c);
        },
        Expr::Binary(_, a, b) => {
            lemma_counter(*a, c);
            lemma_counter(*b, (c + ops(*a)) as usize);
        },
    }
}

/// The instructions of an expression are ones code generation translates faithfully.
proof fn lemma_simulable_expr(e: Expr, c: usize)
    requires
        c + ops(e) <= usize::MAX,
    ensures
        forall|j: int|
            0 <= j < expr_instructions(e, c).0.len() ==> simulable(
                #[trigger] expr_instructions(e, c).0[j],
            ),
    decreases e,
{
    lemma_counter(e, c);
    match e {
        Expr::Constant(_) => {},
        Expr::Unary(_, inner) => {
            lemma_simulable_expr(*inner, c);
            let ii = expr_instructions(*inner, c).0;
            assert forall|j: int| 0 <= j < expr_instructions(e, c).0.len() implies simulable(
                #[trigger] expr_instructions(e, c).0[j],
            ) by {
                if j < ii.len() {
                    assert(expr_instructions(e, c).0[j] == ii[j]);
                }
            }
        },
        Expr::Binary(op, a, b) => {
            lemma_counter(*a, c);
            let c1 = (c + ops(*a)) as usize;
            lemma_simulable_expr(*a, c);
            lemma_simulable_expr(*b, c1);
            lemma_counter(*b, c1);
            lemma_result_name(*b, c1);
            let c2 = (c1 + ops(*b)) as nat;
            let vb = expr_instructions(*b, c1).1;
            if let ValView::Var(n) = vb {
                if n == tmp_name(c2) {
                    lemma_tmp_name_injective(c2, (c2 - 1) as nat);
                }
            }
            let ia = expr_instructions(*a, c).0;
            let ib = expr_instructions(*b, c1).0;
            assert forall|j: int| 0 <= j < expr_instructions(e, c).0.len() implies simulable(
                #[trigger] expr_instructions(e, c).0[j],
            ) by {
                if j < ia.len() {
                    assert(expr_instructions(e, c).0[j] == ia[j]);
                } else if j < ia.len() + ib.len() {
                    assert(expr_instructions(e, c).0[j] == ib[j - ia.len()]);
                }
            }
        },
    }
}

/// Compilation preserves meaning: for an expression with a value (no division by zero)
/// whose temporaries, numbered from `c` on, do not wrap around and whose stack frame
/// fits, the code generated for `return e;` returns that value from any starting state,
/// under any arithmetic `ar` (exact, or wrapping around at 32 bits as `movl` and `addl`
/// do), the same for the expression and for the machine.
pub proof fn lemma_compiled_expression(ar: Arith, e: Expr, c: usize, m: Machine)
    requires
        c + ops(e) <= usize::MAX,
        eval_in(ar, e) is Some,
        frame_fits(body_instructions(Statement::Return(e), c)),
    ensures
        run_machine(ar, codegen_instructions(body_instructions(Statement::Return(e), c)), m) == eval_in(ar, e),
{
    let body = Statement::Return(e);
    let is = body_instructions(body, c);
    let names = pseudo_names(is);
    lemma_slots_consistent(lower_all(is));
    let env = Map::new(
        |n: Seq<char>| true,
        |n: Seq<char>|
            match find_name(names, n) {
                Some(k) => m.mem[slot(k) as int],
                None => 0,
            },
    );
    assert forall|k: int| 0 <= k < names.len() implies #[trigger] m.mem[slot(k as nat) as int]
        == env[names[k]] by {
        lemma_find_name_from(names, names[k], 0);
        let f = find_name(names, names[k])->0 as int;
        assert(names[f] == names[k]);
    }
    lemma_tacky_preserves_value_in(ar, body, c, env);
    lemma_simulable_expr(e, c);
    let (ie, v, _) = expr_instructions(e, c);
    assert forall|j: int| 0 <= j < is.len() implies simulable(#[trigger] is[j]) by {
        if j < ie.len() {
            assert(is[j] == ie[j]);
        }
    }
    lemma_codegen_preserves_value(ar, is, env, m);
}

} // verus!
