//! Code generation: from three-address instructions to x86-64 instructions.
//!
//! Each instruction is lowered on its own; then every pseudo-register (a named
//! variable) is given its own 4-byte stack slot, in the order in which the names first
//! appear, and the frame is allocated at the start; last, instructions whose operands
//! x86-64 does not accept together are rewritten through the scratch registers
//! `R10` and `R11`.
use crate::tacky::{self, InstructionView as TackyInstr, ValView, copy_val, instructions_view};
use vstd::prelude::*;

verus! {

/// What can go wrong in code generation; it never fails on a lowered program.
#[derive(Default, Clone, PartialEq, Debug)]
pub enum CodegenError {
    #[default]
    UnknownNode,
}

#[derive(Debug, PartialEq, Clone, Copy)]
pub enum UnaryOperator {
    Neg,
    Not,
}

#[derive(Debug, PartialEq, Clone, Copy)]
pub enum BinaryOperator {
    Add,
    Sub,
    Mult,
}

#[derive(Debug, PartialEq)]
pub struct Program {
    pub function_def: FunctionDef,
}

#[derive(Debug, PartialEq)]
pub struct FunctionDef {
    pub name: String,
    pub instructions: Vec<Instruction>,
}

/// An x86-64 instruction (32-bit operations); the second operand of a two-operand
/// instruction is its destination.
#[derive(Debug, PartialEq)]
pub enum Instruction {
    Mov { src: Operand, dst: Operand },
    Unary { operator: UnaryOperator, operand: Operand },
    Binary { operator: BinaryOperator, operand1: Operand, operand2: Operand },
    Idiv(Operand),
    Cdq,
    AllocateStack(isize),
    Ret,
}

#[derive(Debug, PartialEq, Clone, Copy)]
pub enum Register {
    AX,
    DX,
    R10,
    R11,
}

/// An operand: an immediate, a register, a named pseudo-register, or a stack slot at an
/// offset from the frame base.
#[derive(Debug, PartialEq, Clone)]
pub enum Operand {
    Imm(isize),
    Reg(Register),
    Pseudo(String),
    Stack(isize),
}

/// An operand as a mathematical value.
pub enum OperandView {
    Imm(isize),
    Reg(Register),
    Pseudo(Seq<char>),
    Stack(isize),
}

/// An instruction as a mathematical value.
pub enum AsmView {
    Mov { src: OperandView, dst: OperandView },
    Unary { operator: UnaryOperator, operand: OperandView },
    Binary { operator: BinaryOperator, operand1: OperandView, operand2: OperandView },
    Idiv(OperandView),
    Cdq,
    AllocateStack(isize),
    Ret,
}

/// A program as a mathematical value: the function's name and its instructions.
pub struct ProgramView {
    pub name: Seq<char>,
    pub instructions: Seq<AsmView>,
}

impl View for Operand {
    type V = OperandView;

    open spec fn view(&self) -> OperandView {
        match self {
            Operand::Imm(v) => OperandView::Imm(*v),
            Operand::Reg(r) => OperandView::Reg(*r),
            Operand::Pseudo(s) => OperandView::Pseudo(s@),
            Operand::Stack(v) => OperandView::Stack(*v),
        }
    }
}

impl View for Instruction {
    type V = AsmView;

    open spec fn view(&self) -> AsmView {
        match self {
            Instruction::Mov { src, dst } => AsmView::Mov { src: src@, dst: dst@ },
            Instruction::Unary { operator, operand } => AsmView::Unary {
                operator: *operator,
                operand: operand@,
            },
            Instruction::Binary { operator, operand1, operand2 } => AsmView::Binary {
                operator: *operator,
                operand1: operand1@,
                operand2: operand2@,
            },
            Instruction::Idiv(o) => AsmView::Idiv(o@),
            Instruction::Cdq => AsmView::Cdq,
            Instruction::AllocateStack(n) => AsmView::AllocateStack(*n),
            Instruction::Ret => AsmView::Ret,
        }
    }
}

/// The instructions of a vector as mathematical values.
pub open spec fn asm_view(v: Seq<Instruction>) -> Seq<AsmView> {
    v.map_values(|i: Instruction| i@)
}

impl View for Program {
    type V = ProgramView;

    open spec fn view(&self) -> ProgramView {
        ProgramView {
            name: self.function_def.name@,
            instructions: asm_view(self.function_def.instructions@),
        }
    }
}

/// The operand of a three-address value: constants become immediates, variables
/// pseudo-registers.
pub open spec fn operand_of(v: ValView) -> OperandView {
    match v {
        ValView::Constant(c) => OperandView::Imm(c),
        ValView::Var(s) => OperandView::Pseudo(s),
    }
}

pub open spec fn unop_asm(op: tacky::UnaryOperator) -> UnaryOperator {
    match op {
        tacky::UnaryOperator::Complement => UnaryOperator::Not,
        tacky::UnaryOperator::Negate => UnaryOperator::Neg,
    }
}

/// The instruction of an addition, subtraction or multiplication.
pub open spec fn binop_asm(op: tacky::BinaryOperator) -> BinaryOperator {
    match op {
        tacky::BinaryOperator::Multiply => BinaryOperator::Mult,
        tacky::BinaryOperator::Subtract => BinaryOperator::Sub,
        _ => BinaryOperator::Add,
    }
}

/// The x86-64 instructions of one three-address instruction. Division and remainder go
/// through `AX` (sign-extended into `DX` by `cdq`): the quotient is left in `AX`, the
/// remainder in `DX`. The result of a function is returned in `AX`.
pub open spec fn lower(i: TackyInstr) -> Seq<AsmView> {
    match i {
        TackyInstr::Unary(op, src, dst) => seq![
            AsmView::Mov { src: operand_of(src), dst: operand_of(dst) },
            AsmView::Unary { operator: unop_asm(op), operand: operand_of(dst) },
        ],
        TackyInstr::Binary { op, src1, src2, dst } => match op {
            tacky::BinaryOperator::Divide => seq![
                AsmView::Mov { src: operand_of(src1), dst: OperandView::Reg(Register::AX) },
                AsmView::Cdq,
                AsmView::Idiv(operand_of(src2)),
                AsmView::Mov { src: OperandView::Reg(Register::AX), dst: operand_of(dst) },
            ],
            tacky::BinaryOperator::Remainder => seq![
                AsmView::Mov { src: operand_of(src1), dst: OperandView::Reg(Register::AX) },
                AsmView::Cdq,
                AsmView::Idiv(operand_of(src2)),
                AsmView::Mov { src: OperandView::Reg(Register::DX), dst: operand_of(dst) },
            ],
            _ => seq![
                AsmView::Mov { src: operand_of(src1), dst: operand_of(dst) },
                AsmView::Binary {
                    operator: binop_asm(op),
                    operand1: operand_of(src2),
                    operand2: operand_of(dst),
                },
            ],
        },
        TackyInstr::Return(v) => seq![
            AsmView::Mov { src: operand_of(v), dst: OperandView::Reg(Register::AX) },
            AsmView::Ret,
        ],
    }
}

/// The instructions of a sequence, each lowered in turn.
pub open spec fn lower_all(is: Seq<TackyInstr>) -> Seq<AsmView>
    decreases is.len(),
{
    if is.len() == 0 {
        seq![]
    } else {
        lower_all(is.drop_last()) + lower(is.last())
    }
}

/// The position of `n` among `names`, searching from `i` on.
pub open spec fn find_name_from(names: Seq<Seq<char>>, n: Seq<char>, i: int) -> Option<nat>
    decreases names.len() - i,
{
    if i < 0 || i >= names.len() {
        None
    } else if names[i] == n {
        Some(i as nat)
    } else {
        find_name_from(names, n, i + 1)
    }
}

/// A found position holds the name, and no earlier position from `i` on does.
pub proof fn lemma_find_name_from(names: Seq<Seq<char>>, n: Seq<char>, i: int)
    ensures
        match find_name_from(names, n, i) {
            Some(k) => 0 <= i <= k < names.len() && names[k as int] == n && forall|j: int|
                i <= j < k ==> names[j] != n,
            None => forall|j: int| 0 <= i <= j < names.len() ==> names[j] != n,
        },
    decreases names.len() - i,
{
    if 0 <= i < names.len() && names[i] != n {
        lemma_find_name_from(names, n, i + 1);
    }
}

/// The first position of `n` among `names`.
pub open spec fn find_name(names: Seq<Seq<char>>, n: Seq<char>) -> Option<nat> {
    find_name_from(names, n, 0)
}

/// The stack offset of the `i`-th pseudo-register: 4 bytes each, below the frame base.
pub open spec fn slot(i: nat) -> isize {
    (-4 * (i + 1)) as isize
}

/// The most pseudo-registers whose slots have offsets that an `isize` holds (with room
/// for the next free offset).
pub open spec fn max_slots() -> nat {
    ((isize::MAX as nat) + 1) / 4
}

/// A slot below the limit has the offset `-4 * (i + 1)`.
pub proof fn lemma_slot(i: nat)
    requires
        i < max_slots(),
    ensures
        slot(i) as int == -4 * (i + 1),
{
    assert(4 * max_slots() <= isize::MAX + 1);
    assert(-4 * (i + 1) >= isize::MIN);
}

/// An operand with its pseudo-register replaced by its stack slot; a name not seen
/// before takes the next slot.
pub open spec fn replace_operand(o: OperandView, names: Seq<Seq<char>>) -> (
    OperandView,
    Seq<Seq<char>>,
) {
    match o {
        OperandView::Pseudo(n) => match find_name(names, n) {
            Some(i) => (OperandView::Stack(slot(i)), names),
            None => (OperandView::Stack(slot(names.len())), names.push(n)),
        },
        other => (other, names),
    }
}

/// An instruction with its pseudo-registers replaced, first operand first.
pub open spec fn replace_instr(i: AsmView, names: Seq<Seq<char>>) -> (AsmView, Seq<Seq<char>>) {
    match i {
        AsmView::Mov { src, dst } => {
            let (s, n1) = replace_operand(src, names);
            let (d, n2) = replace_operand(dst, n1);
            (AsmView::Mov { src: s, dst: d }, n2)
        },
        AsmView::Unary { operator, operand } => {
            let (o, n1) = replace_operand(operand, names);
            (AsmView::Unary { operator, operand: o }, n1)
        },
        AsmView::Binary { operator, operand1, operand2 } => {
            let (o1, n1) = replace_operand(operand1, names);
            let (o2, n2) = replace_operand(operand2, n1);
            (AsmView::Binary { operator, operand1: o1, operand2: o2 }, n2)
        },
        AsmView::Idiv(o) => {
            let (o1, n1) = replace_operand(o, names);
            (AsmView::Idiv(o1), n1)
        },
        other => (other, names),
    }
}

/// A sequence with its pseudo-registers replaced, and the names in slot order.
pub open spec fn replace_all(is: Seq<AsmView>) -> (Seq<AsmView>, Seq<Seq<char>>)
    decreases is.len(),
{
    if is.len() == 0 {
        (seq![], seq![])
    } else {
        let (done, names) = replace_all(is.drop_last());
        let (i, names2) = replace_instr(is.last(), names);
        (done.push(i), names2)
    }
}

/// An instruction rewritten so that x86-64 accepts its operands: no memory-to-memory
/// `mov`, `add` or `sub`, no immediate divisor, no memory destination for `imul`.
pub open spec fn fixup_spec(i: AsmView) -> Seq<AsmView> {
    match i {
        AsmView::Mov { src, dst } => if src is Stack && dst is Stack {
            seq![
                AsmView::Mov { src, dst: OperandView::Reg(Register::R10) },
                AsmView::Mov { src: OperandView::Reg(Register::R10), dst },
            ]
        } else {
            seq![AsmView::Mov { src, dst }]
        },
        AsmView::Idiv(OperandView::Imm(v)) => seq![
            AsmView::Mov { src: OperandView::Imm(v), dst: OperandView::Reg(Register::R10) },
            AsmView::Idiv(OperandView::Reg(Register::R10)),
        ],
        AsmView::Binary { operator, operand1, operand2 } => if (operator == BinaryOperator::Add
            || operator == BinaryOperator::Sub) && operand1 is Stack && operand2 is Stack {
            seq![
                AsmView::Mov { src: operand1, dst: OperandView::Reg(Register::R10) },
                AsmView::Binary {
                    operator,
                    operand1: OperandView::Reg(Register::R10),
                    operand2,
                },
            ]
        } else if operator == BinaryOperator::Mult && operand2 is Stack {
            seq![
                AsmView::Mov { src: operand2, dst: OperandView::Reg(Register::R11) },
                AsmView::Binary {
                    operator: BinaryOperator::Mult,
                    operand1,
                    operand2: OperandView::Reg(Register::R11),
                },
                AsmView::Mov { src: OperandView::Reg(Register::R11), dst: operand2 },
            ]
        } else {
            seq![AsmView::Binary { operator, operand1, operand2 }]
        },
        other => seq![other],
    }
}

/// The instructions of a sequence, each rewritten in turn.
pub open spec fn fixup_all(is: Seq<AsmView>) -> Seq<AsmView>
    decreases is.len(),
{
    if is.len() == 0 {
        seq![]
    } else {
        fixup_all(is.drop_last()) + fixup_spec(is.last())
    }
}

/// The names of the pseudo-registers of a lowered sequence, in slot order.
pub open spec fn pseudo_names(is: Seq<TackyInstr>) -> Seq<Seq<char>> {
    replace_all(lower_all(is)).1
}

/// Whether the stack slots of the pseudo-registers of `is` have offsets that an `isize`
/// holds.
pub open spec fn frame_fits(is: Seq<TackyInstr>) -> bool {
    pseudo_names(is).len() < max_slots()
}

/// The x86-64 instructions of a function body: the frame allocation, then the lowered
/// instructions with stack slots in place of pseudo-registers, all rewritten into
/// forms x86-64 accepts.
pub open spec fn codegen_instructions(is: Seq<TackyInstr>) -> Seq<AsmView> {
    let (replaced, names) = replace_all(lower_all(is));
    fixup_all(seq![AsmView::AllocateStack((-4 * names.len()) as isize)] + replaced)
}

/// What code generation gives for a lowered program.
pub open spec fn codegen_spec(p: tacky::ProgramView) -> ProgramView {
    ProgramView { name: p.name, instructions: codegen_instructions(p.instructions) }
}

/// The elements of `v`, last first.
pub fn into_reversed<T>(v: Vec<T>) -> (r: Vec<T>)
    ensures
        r@.len() == v@.len(),
        forall|i: int| 0 <= i < v@.len() ==> r@[i] == v@[v@.len() - 1 - i],
{
    let ghost orig = v@;
    let mut v = v;
    let mut r: Vec<T> = Vec::new();
    while v.len() > 0
        invariant
            v@ == orig.take(v@.len() as int),
            v@.len() <= orig.len(),
            r@.len() == orig.len() - v@.len(),
            forall|i: int| 0 <= i < r@.len() ==> r@[i] == orig[orig.len() - 1 - i],
        decreases v@.len(),
    {
        let x = v.pop().unwrap();
        r.push(x);
        assert(v@ =~= orig.take(v@.len() as int));
    }
    r
}

fn operand_from(value: tacky::Val) -> (o: Operand)
    ensures
        o@ == operand_of(value@),
{
    match value {
        tacky::Val::Constant(v) => Operand::Imm(v),
        tacky::Val::Var(ident) => Operand::Pseudo(ident),
    }
}

fn unary_operator_from(value: tacky::UnaryOperator) -> (op: UnaryOperator)
    ensures
        op == unop_asm(value),
{
    match value {
        tacky::UnaryOperator::Complement => UnaryOperator::Not,
        tacky::UnaryOperator::Negate => UnaryOperator::Neg,
    }
}

fn binary_operator_from(value: tacky::BinaryOperator) -> (op: BinaryOperator)
    requires
        value != tacky::BinaryOperator::Divide,
        value != tacky::BinaryOperator::Remainder,
    ensures
        op == binop_asm(value),
{
    match value {
        tacky::BinaryOperator::Add => BinaryOperator::Add,
        tacky::BinaryOperator::Multiply => BinaryOperator::Mult,
        _ => BinaryOperator::Sub,
    }
}

/// The x86-64 instructions of one three-address instruction.
fn handle_instruction(instruction: tacky::Instruction) -> (v: Vec<Instruction>)
    ensures
        asm_view(v@) == lower(instruction@),
{
    let v = match instruction {
        tacky::Instruction::Unary(unary_operator, src, dst) => {
            let d2 = copy_val(&dst);
            vec![
                Instruction::Mov { src: operand_from(src), dst: operand_from(d2) },
                Instruction::Unary {
                    operator: unary_operator_from(unary_operator),
                    operand: operand_from(dst),
                },
            ]
        },
        tacky::Instruction::Binary { op, src1, src2, dst } => {
            match op {
                tacky::BinaryOperator::Divide => vec![
                    Instruction::Mov { src: operand_from(src1), dst: Operand::Reg(Register::AX) },
                    Instruction::Cdq,
                    Instruction::Idiv(operand_from(src2)),
                    Instruction::Mov { src: Operand::Reg(Register::AX), dst: operand_from(dst) },
                ],
                tacky::BinaryOperator::Remainder => vec![
                    Instruction::Mov { src: operand_from(src1), dst: Operand::Reg(Register::AX) },
                    Instruction::Cdq,
                    Instruction::Idiv(operand_from(src2)),
                    Instruction::Mov { src: Operand::Reg(Register::DX), dst: operand_from(dst) },
                ],
                _ => {
                    let d2 = copy_val(&dst);
                    vec![
                        Instruction::Mov { src: operand_from(src1), dst: operand_from(d2) },
                        Instruction::Binary {
                            operator: binary_operator_from(op),
                            operand1: operand_from(src2),
                            operand2: operand_from(dst),
                        },
                    ]
                },
            }
        },
        tacky::Instruction::Return(val) => vec![
            Instruction::Mov { src: operand_from(val), dst: Operand::Reg(Register::AX) },
            Instruction::Ret,
        ],
    };
    assert(asm_view(v@) =~= lower(instruction@));
    v
}

/// The names of an association list from pseudo-register names to stack offsets.
pub open spec fn map_names(map: Seq<(String, isize)>) -> Seq<Seq<char>> {
    map.map_values(|e: (String, isize)| e.0@)
}

/// The association list gives the `i`-th name the `i`-th slot, and the next free
/// offset is the slot after the last.
pub open spec fn slots_wf(map: Seq<(String, isize)>, stack_loc: isize) -> bool {
    &&& map.len() < max_slots()
    &&& forall|i: int| 0 <= i < map.len() ==> (#[trigger] map[i]).1 == slot(i as nat)
    &&& stack_loc == slot(map.len())
}

/// Looks `ident` up in the association list.
fn lookup(map: &Vec<(String, isize)>, ident: &String) -> (r: Option<isize>)
    ensures
        match find_name(map_names(map@), ident@) {
            Some(i) => r == Some(map@[i as int].1),
            None => r is None,
        },
{
    let ghost names = map_names(map@);
    let mut i: usize = 0;
    while i < map.len()
        invariant
            i <= map@.len(),
            names == map_names(map@),
            find_name(names, ident@) == find_name_from(names, ident@, i as int),
        decreases map@.len() - i,
    {
        if map[i].0 == *ident {
            return Some(map[i].1);
        }
        i = i + 1;
    }
    None
}

/// Whether handling `operand` has room for what it does: a name that the association
/// list does not hold takes the offset `stack_loc`, and the next free offset,
/// `stack_loc - 4`, must be an `isize`.
pub open spec fn room_for(operand: Operand, map: Seq<(String, isize)>, stack_loc: isize) -> bool {
    (operand matches Operand::Pseudo(id) && find_name(map_names(map), id@) is None) ==> stack_loc
        >= isize::MIN + 4
}

/// A well-formed association list has room for an operand whose replacement keeps the
/// names within the limit.
proof fn lemma_wf_room(operand: Operand, map: Seq<(String, isize)>, stack_loc: isize)
    requires
        slots_wf(map, stack_loc),
        replace_operand(operand@, map_names(map)).1.len() < max_slots(),
    ensures
        room_for(operand, map, stack_loc),
{
    if operand is Pseudo && find_name(map_names(map), operand->Pseudo_0@) is None {
        lemma_slot(map.len());
        assert(4 * max_slots() <= isize::MAX + 1);
    }
}

/// Replaces a pseudo-register by the stack offset that the association list gives its
/// name (the first entry with that name); a name it does not hold is added with the
/// offset `stack_loc`, which then moves down by 4. Any other operand is kept.
fn handle_pseudo_operand(
    operand: Operand,
    hash_map: &mut Vec<(String, isize)>,
    stack_loc: &mut isize,
) -> (o: Operand)
    requires
        room_for(operand, old(hash_map)@, *old(stack_loc)),
    ensures
        match operand {
            Operand::Pseudo(id) => match find_name(map_names(old(hash_map)@), id@) {
                Some(i) => {
                    &&& o@ == OperandView::Stack(old(hash_map)@[i as int].1)
                    &&& final(hash_map)@ == old(hash_map)@
                    &&& *final(stack_loc) == *old(stack_loc)
                },
                None => {
                    &&& o@ == OperandView::Stack(*old(stack_loc))
                    &&& final(hash_map)@ == old(hash_map)@.push((id, *old(stack_loc)))
                    &&& *final(stack_loc) == *old(stack_loc) - 4
                },
            },
            _ => {
                &&& o == operand
                &&& final(hash_map)@ == old(hash_map)@
                &&& *final(stack_loc) == *old(stack_loc)
            },
        },
        slots_wf(old(hash_map)@, *old(stack_loc)) && replace_operand(
            operand@,
            map_names(old(hash_map)@),
        ).1.len() < max_slots() ==> {
            &&& slots_wf(final(hash_map)@, *final(stack_loc))
            &&& (o@, map_names(final(hash_map)@)) == replace_operand(
                operand@,
                map_names(old(hash_map)@),
            )
        },
{
    let ghost wf = slots_wf(hash_map@, *stack_loc) && replace_operand(
        operand@,
        map_names(hash_map@),
    ).1.len() < max_slots();
    match operand {
        Operand::Pseudo(ident) => match lookup(hash_map, &ident) {
            Some(loc) => {
                proof {
                    if wf {
                        lemma_find_name_from(map_names(hash_map@), ident@, 0);
                        let i = find_name(map_names(hash_map@), ident@)->0;
                        assert(hash_map@[i as int].1 == slot(i));
                    }
                }
                Operand::Stack(loc)
            },
            None => {
                let op = Operand::Stack(*stack_loc);
                let ghost old_map = hash_map@;
                proof {
                    if wf {
                        lemma_slot(old_map.len());
                        lemma_slot(old_map.len() + 1);
                    }
                }
                hash_map.push((ident, *stack_loc));
                assert(map_names(hash_map@) =~= map_names(old_map).push(ident@));
                *stack_loc = *stack_loc - 4;
                op
            },
        },
        other => other,
    }
}

/// The association list and next free offset of a state of the replacement.
pub open spec fn replace_state_ok(
    map: Seq<(String, isize)>,
    stack_loc: isize,
    names: Seq<Seq<char>>,
) -> bool {
    slots_wf(map, stack_loc) && map_names(map) == names
}

/// The names grow as the replacement goes on.
pub proof fn lemma_replace_operand_grows(o: OperandView, names: Seq<Seq<char>>)
    ensures
        names.len() <= replace_operand(o, names).1.len(),
{
}

/// The names of a prefix are no more than the names of the whole.
pub proof fn lemma_replace_all_prefix(is: Seq<AsmView>, k: int)
    requires
        0 <= k <= is.len(),
    ensures
        replace_all(is.take(k)).1.len() <= replace_all(is).1.len(),
    decreases is.len(),
{
    if k == is.len() {
        assert(is.take(k) =~= is);
    } else {
        assert(is.drop_last().take(k) =~= is.take(k));
        lemma_replace_all_prefix(is.drop_last(), k);
        let (_, names) = replace_all(is.drop_last());
        match is.last() {
            AsmView::Mov { src, dst } => {
                lemma_replace_operand_grows(src, names);
                lemma_replace_operand_grows(dst, replace_operand(src, names).1);
            },
            AsmView::Binary { operator, operand1, operand2 } => {
                lemma_replace_operand_grows(operand1, names);
                lemma_replace_operand_grows(operand2, replace_operand(operand1, names).1);
            },
            _ => {},
        }
    }
}

/// Replaces every pseudo-register by a stack slot; gives the instructions and the next
/// free offset.
fn replace_pseudo_registers(instructions: Vec<Instruction>) -> (r: (Vec<Instruction>, isize))
    requires
        replace_all(asm_view(instructions@)).1.len() < max_slots(),
    ensures
        asm_view(r.0@) == replace_all(asm_view(instructions@)).0,
        r.1 == slot(replace_all(asm_view(instructions@)).1.len()),
{
    let ghost all = asm_view(instructions@);
    let mut stack_loc: isize = -4;
    let mut hash_map: Vec<(String, isize)> = Vec::new();
    let mut out: Vec<Instruction> = Vec::new();
    let n = instructions.len();
    let mut rest = into_reversed(instructions);
    let mut k: usize = 0;
    assert(all.take(0) =~= Seq::<AsmView>::empty());
    assert(map_names(hash_map@) =~= Seq::<Seq<char>>::empty());
    while k < n
        invariant
            n == all.len(),
            k <= n,
            rest@.len() == n - k,
            forall|i: int| 0 <= i < rest@.len() ==> (#[trigger] rest@[i])@ == all[n - 1 - i],
            replace_state_ok(hash_map@, stack_loc, replace_all(all.take(k as int)).1),
            asm_view(out@) == replace_all(all.take(k as int)).0,
            replace_all(all).1.len() < max_slots(),
        decreases n - k,
    {
        let inst = rest.pop().unwrap();
        proof {
            assert(inst@ == all[k as int]);
            assert(all.take(k + 1).drop_last() =~= all.take(k as int));
            assert(all.take(k + 1).last() == all[k as int]);
            lemma_replace_all_prefix(all, k + 1);
            let (_, names) = replace_all(all.take(k as int));
            match inst@ {
                AsmView::Mov { src, dst } => {
                    lemma_replace_operand_grows(dst, replace_operand(src, names).1);
                },
                AsmView::Binary { operator, operand1, operand2 } => {
                    lemma_replace_operand_grows(operand2, replace_operand(operand1, names).1);
                },
                _ => {},
            }
        }
        let new_inst = match inst {
            Instruction::Mov { src, dst } => {
                proof {
                    lemma_wf_room(src, hash_map@, stack_loc);
                }
                let s = handle_pseudo_operand(src, &mut hash_map, &mut stack_loc);
                proof {
                    lemma_wf_room(dst, hash_map@, stack_loc);
                }
                let d = handle_pseudo_operand(dst, &mut hash_map, &mut stack_loc);
                Instruction::Mov { src: s, dst: d }
            },
            Instruction::Unary { operator, operand } => {
                proof {
                    lemma_wf_room(operand, hash_map@, stack_loc);
                }
                let o = handle_pseudo_operand(operand, &mut hash_map, &mut stack_loc);
                Instruction::Unary { operator: operator, operand: o }
            },
            Instruction::Binary { operator, operand1, operand2 } => {
                proof {
                    lemma_wf_room(operand1, hash_map@, stack_loc);
                }
                let o1 = handle_pseudo_operand(operand1, &mut hash_map, &mut stack_loc);
                proof {
                    lemma_wf_room(operand2, hash_map@, stack_loc);
                }
                let o2 = handle_pseudo_operand(operand2, &mut hash_map, &mut stack_loc);
                Instruction::Binary { operator: operator, operand1: o1, operand2: o2 }
            },
            Instruction::Idiv(o) => {
                proof {
                    lemma_wf_room(o, hash_map@, stack_loc);
                }
                Instruction::Idiv(handle_pseudo_operand(o, &mut hash_map, &mut stack_loc))
            },
            other => other,
        };
        let ghost old_out = asm_view(out@);
        let ghost nv = new_inst@;
        out.push(new_inst);
        assert(asm_view(out@) =~= old_out.push(nv));
        k = k + 1;
    }
    assert(all.take(n as int) =~= all);
    (out, stack_loc)
}

/// The instructions of `mov` with both operands on the stack and the like, rewritten.
fn fixup(instruction: Instruction) -> (v: Vec<Instruction>)
    ensures
        asm_view(v@) == fixup_spec(instruction@),
{
    let v = match instruction {
        Instruction::Mov { src, dst } => match (&src, &dst) {
            (Operand::Stack(_), Operand::Stack(_)) => vec![
                Instruction::Mov { src: src, dst: Operand::Reg(Register::R10) },
                Instruction::Mov { src: Operand::Reg(Register::R10), dst: dst },
            ],
            _ => vec![Instruction::Mov { src: src, dst: dst }],
        },
        Instruction::Idiv(Operand::Imm(v)) => vec![
            Instruction::Mov { src: Operand::Imm(v), dst: Operand::Reg(Register::R10) },
            Instruction::Idiv(Operand::Reg(Register::R10)),
        ],
        Instruction::Binary { operator, operand1, operand2 } => {
            match (operator, &operand1, &operand2) {
                (BinaryOperator::Add, Operand::Stack(_), Operand::Stack(_)) | (
                    BinaryOperator::Sub,
                    Operand::Stack(_),
                    Operand::Stack(_),
                ) => vec![
                    Instruction::Mov { src: operand1, dst: Operand::Reg(Register::R10) },
                    Instruction::Binary {
                        operator: operator,
                        operand1: Operand::Reg(Register::R10),
                        operand2: operand2,
                    },
                ],
                (BinaryOperator::Mult, _, Operand::Stack(loc)) => {
                    let loc = *loc;
                    vec![
                        Instruction::Mov { src: Operand::Stack(loc), dst: Operand::Reg(Register::R11) },
                        Instruction::Binary {
                            operator: BinaryOperator::Mult,
                            operand1: operand1,
                            operand2: Operand::Reg(Register::R11),
                        },
                        Instruction::Mov { src: Operand::Reg(Register::R11), dst: operand2 },
                    ]
                },
                _ => vec![Instruction::Binary { operator, operand1, operand2 }],
            }
        },
        other => vec![other],
    };
    assert(asm_view(v@) =~= fixup_spec(instruction@));
    v
}

/// The x86-64 instructions of a function body.
fn handle_instructions(instructions: Vec<tacky::Instruction>) -> (v: Vec<Instruction>)
    requires
        frame_fits(instructions_view(instructions@)),
    ensures
        asm_view(v@) == codegen_instructions(instructions_view(instructions@)),
{
    let lowered = lower_instructions(instructions);
    finish_instructions(lowered)
}

/// Adds the name of a pseudo-register operand to the list, when it is not there yet.
fn note_operand(o: &Operand, names: &mut Vec<(String, isize)>)
    ensures
        map_names(final(names)@) == replace_operand(o@, map_names(old(names)@)).1,
{
    match o {
        Operand::Pseudo(id) => {
            match lookup(names, id) {
                Some(_) => {},
                None => {
                    let ghost before = names@;
                    names.push((id.clone(), 0));
                    assert(map_names(names@) =~= map_names(before).push(id@));
                },
            }
        },
        _ => {},
    }
}

/// The number of stack slots that an `isize` offset can address (`max_slots`).
fn slot_limit() -> (n: usize)
    ensures
        n == max_slots(),
{
    assert(isize::MAX == 0x7fff_ffff || isize::MAX == 0x7fff_ffff_ffff_ffff);
    ((isize::MAX as usize) / 4) + 1
}

/// Whether the distinct pseudo-registers of lowered code get stack slots whose offsets
/// an `isize` holds.
fn names_fit(lowered: &Vec<Instruction>) -> (b: bool)
    ensures
        b == (replace_all(asm_view(lowered@)).1.len() < max_slots()),
{
    let ghost all = asm_view(lowered@);
    let limit = slot_limit();
    let mut names: Vec<(String, isize)> = Vec::new();
    let n = lowered.len();
    let mut k: usize = 0;
    assert(all.take(0) =~= Seq::<AsmView>::empty());
    assert(map_names(names@) =~= Seq::<Seq<char>>::empty());
    while k < n
        invariant
            n == all.len(),
            all == asm_view(lowered@),
            limit == max_slots(),
            k <= n,
            map_names(names@) == replace_all(all.take(k as int)).1,
            names@.len() < max_slots(),
        decreases n - k,
    {
        proof {
            assert(lowered@[k as int]@ == all[k as int]);
            assert(all.take(k + 1).drop_last() =~= all.take(k as int));
            assert(all.take(k + 1).last() == all[k as int]);
        }
        match &lowered[k] {
            Instruction::Mov { src, dst } => {
                note_operand(src, &mut names);
                note_operand(dst, &mut names);
            },
            Instruction::Unary { operand, .. } => {
                note_operand(operand, &mut names);
            },
            Instruction::Binary { operand1, operand2, .. } => {
                note_operand(operand1, &mut names);
                note_operand(operand2, &mut names);
            },
            Instruction::Idiv(o) => {
                note_operand(o, &mut names);
            },
            _ => {},
        }
        k = k + 1;
        if names.len() >= limit {
            proof {
                lemma_replace_all_prefix(all, k as int);
            }
            return false;
        }
    }
    assert(all.take(n as int) =~= all);
    true
}

/// The x86-64 instructions of a function body, with pseudo-registers.
fn lower_instructions(instructions: Vec<tacky::Instruction>) -> (v: Vec<Instruction>)
    ensures
        asm_view(v@) == lower_all(instructions_view(instructions@)),
{
    let ghost all = instructions_view(instructions@);
    let mut lowered: Vec<Instruction> = Vec::new();
    let n = instructions.len();
    let mut rest = into_reversed(instructions);
    let mut k: usize = 0;
    assert(all.take(0) =~= Seq::<TackyInstr>::empty());
    assert(asm_view(lowered@) =~= Seq::<AsmView>::empty());
    while k < n
        invariant
            n == all.len(),
            k <= n,
            rest@.len() == n - k,
            forall|i: int| 0 <= i < rest@.len() ==> (#[trigger] rest@[i])@ == all[n - 1 - i],
            asm_view(lowered@) == lower_all(all.take(k as int)),
        decreases n - k,
    {
        let inst = rest.pop().unwrap();
        proof {
            assert(inst@ == all[k as int]);
            assert(all.take(k + 1).drop_last() =~= all.take(k as int));
            assert(all.take(k + 1).last() == all[k as int]);
        }
        let ghost before = asm_view(lowered@);
        let mut part = handle_instruction(inst);
        let ghost pv = asm_view(part@);
        lowered.append(&mut part);
        assert(asm_view(lowered@) =~= before + pv);
        k = k + 1;
    }
    assert(all.take(n as int) =~= all);
    lowered
}

/// The x86-64 instructions of lowered code: the frame allocation, then the
/// instructions with stack slots in place of pseudo-registers, rewritten into forms
/// x86-64 accepts.
fn finish_instructions(lowered: Vec<Instruction>) -> (v: Vec<Instruction>)
    requires
        replace_all(asm_view(lowered@)).1.len() < max_slots(),
    ensures
        asm_view(v@) == fixup_all(
            seq![AsmView::AllocateStack((-4 * replace_all(asm_view(lowered@)).1.len()) as isize)]
                + replace_all(asm_view(lowered@)).0,
        ),
{
    let ghost low = asm_view(lowered@);
    let (mut replaced, stack_loc) = replace_pseudo_registers(lowered);
    let ghost names = replace_all(low).1;
    proof {
        lemma_slot(names.len());
    }
    assert(stack_loc + 4 == -4 * names.len());
    let ghost rv = asm_view(replaced@);
    replaced.insert(0, Instruction::AllocateStack(stack_loc + 4));
    let ghost full = asm_view(replaced@);
    assert(full =~= seq![AsmView::AllocateStack((-4 * names.len()) as isize)] + rv);
    let mut out: Vec<Instruction> = Vec::new();
    let m = replaced.len();
    let mut rest2 = into_reversed(replaced);
    let mut j: usize = 0;
    assert(full.take(0) =~= Seq::<AsmView>::empty());
    assert(asm_view(out@) =~= Seq::<AsmView>::empty());
    while j < m
        invariant
            m == full.len(),
            j <= m,
            rest2@.len() == m - j,
            forall|i: int| 0 <= i < rest2@.len() ==> (#[trigger] rest2@[i])@ == full[m - 1 - i],
            asm_view(out@) == fixup_all(full.take(j as int)),
        decreases m - j,
    {
        let inst = rest2.pop().unwrap();
        proof {
            assert(inst@ == full[j as int]);
            assert(full.take(j + 1).drop_last() =~= full.take(j as int));
            assert(full.take(j + 1).last() == full[j as int]);
        }
        let ghost before = asm_view(out@);
        let mut part = fixup(inst);
        let ghost pv = asm_view(part@);
        out.append(&mut part);
        assert(asm_view(out@) =~= before + pv);
        j = j + 1;
    }
    assert(full.take(m as int) =~= full);
    out
}

fn function_definition(function_def: tacky::FunctionDef) -> (f: FunctionDef)
    requires
        frame_fits(instructions_view(function_def.instructions@)),
    ensures
        f.name == function_def.name,
        asm_view(f.instructions@) == codegen_instructions(
            instructions_view(function_def.instructions@),
        ),
{
    FunctionDef {
        name: function_def.name,
        instructions: handle_instructions(function_def.instructions),
    }
}

fn program(ast: tacky::Program) -> (p: Program)
    requires
        frame_fits(ast@.instructions),
    ensures
        p@ == codegen_spec(ast@),
{
    Program { function_def: function_definition(ast.function_def) }
}

/// Generates x86-64 code for a lowered program; `None` where its pseudo-registers are too
/// many for stack slots that an `isize` offset addresses (where `codegen` would have no
/// answer).
pub fn try_codegen(ast: tacky::Program) -> (r: Option<Result<Program, CodegenError>>)
    ensures
        r is None <==> !frame_fits(ast@.instructions),
        r matches Some(x) ==> (x matches Ok(p) && p@ == codegen_spec(ast@)),
{
    let name = ast.function_def.name;
    let lowered = lower_instructions(ast.function_def.instructions);
    if !names_fit(&lowered) {
        return None;
    }
    let instructions = finish_instructions(lowered);
    Some(Ok(Program { function_def: FunctionDef { name, instructions } }))
}

/// Generates x86-64 code for a lowered program. Every pseudo-register needs a stack slot
/// whose offset an `isize` holds: `frame_fits` (fewer than 2^61 distinct names).
pub fn codegen(ast: tacky::Program) -> (r: Result<Program, CodegenError>)
    requires
        frame_fits(ast@.instructions),
    ensures
        r matches Ok(p) && p@ == codegen_spec(ast@),
{
    Ok(program(ast))
}

/// No operand of the instruction is a pseudo-register.
pub open spec fn no_pseudo(i: AsmView) -> bool {
    match i {
        AsmView::Mov { src, dst } => !(src is Pseudo) && !(dst is Pseudo),
        AsmView::Unary { operand, .. } => !(operand is Pseudo),
        AsmView::Binary { operand1, operand2, .. } => !(operand1 is Pseudo) && !(operand2 is Pseudo),
        AsmView::Idiv(o) => !(o is Pseudo),
        _ => true,
    }
}

/// Every frame allocation of the instruction has a size other than `isize::MIN`.
pub open spec fn frame_ok(i: AsmView) -> bool {
    match i {
        AsmView::AllocateStack(n) => n != isize::MIN,
        _ => true,
    }
}

/// Lowering never allocates a frame.
proof fn lemma_lower_all_no_frame(is: Seq<TackyInstr>)
    ensures
        forall|j: int| 0 <= j < lower_all(is).len() ==> !(#[trigger] lower_all(is)[j] is AllocateStack),
    decreases is.len(),
{
    if is.len() > 0 {
        lemma_lower_all_no_frame(is.drop_last());
        let a = lower_all(is.drop_last());
        let b = lower(is.last());
        assert forall|j: int| 0 <= j < lower_all(is).len() implies !(#[trigger] lower_all(
            is,
        )[j] is AllocateStack) by {
            if j < a.len() {
                assert(lower_all(is)[j] == a[j]);
            } else {
                assert(lower_all(is)[j] == b[j - a.len()]);
            }
        }
    }
}

/// Replacement leaves no pseudo-register and keeps every frame allocation as it was.
proof fn lemma_replace_all_clean(is: Seq<AsmView>)
    requires
        forall|j: int| 0 <= j < is.len() ==> frame_ok(#[trigger] is[j]),
    ensures
        replace_all(is).0.len() == is.len(),
        forall|j: int|
            0 <= j < replace_all(is).0.len() ==> no_pseudo(#[trigger] replace_all(is).0[j])
                && frame_ok(replace_all(is).0[j]),
    decreases is.len(),
{
    if is.len() > 0 {
        assert forall|j: int| 0 <= j < is.drop_last().len() implies frame_ok(
            #[trigger] is.drop_last()[j],
        ) by {
            assert(is.drop_last()[j] == is[j]);
        }
        lemma_replace_all_clean(is.drop_last());
        assert(frame_ok(is[is.len() - 1]));
    }
}

/// A rewritten instruction keeps the property of having no pseudo-register and a
/// frame size other than `isize::MIN`.
proof fn lemma_fixup_all_clean(is: Seq<AsmView>)
    requires
        forall|j: int| 0 <= j < is.len() ==> no_pseudo(#[trigger] is[j]) && frame_ok(is[j]),
    ensures
        forall|j: int|
            0 <= j < fixup_all(is).len() ==> no_pseudo(#[trigger] fixup_all(is)[j]) && frame_ok(
                fixup_all(is)[j],
            ),
    decreases is.len(),
{
    if is.len() > 0 {
        assert forall|j: int| 0 <= j < is.drop_last().len() implies no_pseudo(
            #[trigger] is.drop_last()[j],
        ) && frame_ok(is.drop_last()[j]) by {
            assert(is.drop_last()[j] == is[j]);
        }
        lemma_fixup_all_clean(is.drop_last());
        let a = fixup_all(is.drop_last());
        let b = fixup_spec(is.last());
        assert(no_pseudo(is[is.len() - 1]) && frame_ok(is[is.len() - 1]));
        assert forall|j: int| 0 <= j < fixup_all(is).len() implies no_pseudo(
            #[trigger] fixup_all(is)[j],
        ) && frame_ok(fixup_all(is)[j]) by {
            if j < a.len() {
                assert(fixup_all(is)[j] == a[j]);
            } else {
                assert(fixup_all(is)[j] == b[j - a.len()]);
            }
        }
    }
}

/// Code generation leaves no pseudo-register: every operand of its output is an
/// immediate, a register or a stack slot; and the frame it allocates has a size other
/// than `isize::MIN`.
pub proof fn lemma_codegen_no_pseudo(is: Seq<TackyInstr>)
    requires
        frame_fits(is),
    ensures
        forall|j: int|
            0 <= j < codegen_instructions(is).len() ==> no_pseudo(
                #[trigger] codegen_instructions(is)[j],
            ) && frame_ok(codegen_instructions(is)[j]),
{
    let low = lower_all(is);
    lemma_lower_all_no_frame(is);
    lemma_replace_all_clean(low);
    let (replaced, names) = replace_all(low);
    let full = seq![AsmView::AllocateStack((-4 * names.len()) as isize)] + replaced;
    assert(4 * max_slots() <= isize::MAX + 1);
    assert(frame_ok(full[0]));
    assert forall|j: int| 0 <= j < full.len() implies no_pseudo(#[trigger] full[j]) && frame_ok(
        full[j],
    ) by {
        if j > 0 {
            assert(full[j] == replaced[j - 1]);
        }
    }
    lemma_fixup_all_clean(full);
}

} // verus!
