//! Lowering of the syntax tree to three-address instructions ("tacky"): each operator
//! application computes its operands first and writes its result to a fresh temporary.
use crate::parser::{self, Expr, Statement};
use crate::util::{make_temporary, next_counter, tmp_name};
use vstd::prelude::*;

verus! {

/// What can go wrong while lowering; lowering a parsed program never fails.
#[derive(Default, Clone, PartialEq, Debug)]
pub enum TackyError {
    #[default]
    UnknownNode,
}

#[derive(Debug, PartialEq)]
pub struct Program {
    pub function_def: FunctionDef,
}

#[derive(Debug, PartialEq)]
pub struct FunctionDef {
    pub name: String,
    pub instructions: Vec<Instruction>,
}

#[derive(Debug, PartialEq)]
pub enum UnaryOperator {
    Complement,
    Negate,
}

#[derive(Debug, PartialEq)]
pub enum BinaryOperator {
    Add,
    Subtract,
    Multiply,
    Divide,
    Remainder,
}

/// An instruction: `Unary(op, src, dst)` computes `dst = op src`, `Binary` computes
/// `dst = src1 op src2`, and `Return` ends the function with a value.
#[derive(Debug, PartialEq)]
pub enum Instruction {
    Unary(UnaryOperator, Val, Val),
    Binary { op: BinaryOperator, src1: Val, src2: Val, dst: Val },
    Return(Val),
}

/// A value: a constant or a named variable.
#[derive(Debug, PartialEq, Clone)]
pub enum Val {
    Constant(isize),
    Var(String),
}

/// A value as a mathematical value.
pub enum ValView {
    Constant(isize),
    Var(Seq<char>),
}

/// An instruction as a mathematical value.
pub enum InstructionView {
    Unary(UnaryOperator, ValView, ValView),
    Binary { op: BinaryOperator, src1: ValView, src2: ValView, dst: ValView },
    Return(ValView),
}

/// A program as a mathematical value: the function's name and its instructions.
pub struct ProgramView {
    pub name: Seq<char>,
    pub instructions: Seq<InstructionView>,
}

impl View for Val {
    type V = ValView;

    open spec fn view(&self) -> ValView {
        match self {
            Val::Constant(v) => ValView::Constant(*v),
            Val::Var(s) => ValView::Var(s@),
        }
    }
}

impl View for Instruction {
    type V = InstructionView;

    open spec fn view(&self) -> InstructionView {
        match self {
            Instruction::Unary(op, src, dst) => InstructionView::Unary(*op, src@, dst@),
            Instruction::Binary { op, src1, src2, dst } => InstructionView::Binary {
                op: *op,
                src1: src1@,
                src2: src2@,
                dst: dst@,
            },
            Instruction::Return(v) => InstructionView::Return(v@),
        }
    }
}

/// The instructions of a vector as mathematical values.
pub open spec fn instructions_view(v: Seq<Instruction>) -> Seq<InstructionView> {
    v.map_values(|i: Instruction| i@)
}

impl View for Program {
    type V = ProgramView;

    open spec fn view(&self) -> ProgramView {
        ProgramView {
            name: self.function_def.name@,
            instructions: instructions_view(self.function_def.instructions@),
        }
    }
}

/// The tacky operator of a syntax-tree unary operator.
pub open spec fn unop_spec(op: parser::UnaryOperator) -> UnaryOperator {
    match op {
        parser::UnaryOperator::Complement => UnaryOperator::Complement,
        parser::UnaryOperator::Negate => UnaryOperator::Negate,
    }
}

/// The tacky operator of a syntax-tree binary operator.
pub open spec fn binop_spec(op: parser::BinaryOperator) -> BinaryOperator {
    match op {
        parser::BinaryOperator::Add => BinaryOperator::Add,
        parser::BinaryOperator::Subtract => BinaryOperator::Subtract,
        parser::BinaryOperator::Multiply => BinaryOperator::Multiply,
        parser::BinaryOperator::Divide => BinaryOperator::Divide,
        parser::BinaryOperator::Remainder => BinaryOperator::Remainder,
    }
}

/// The instructions that compute `e`, the value that holds its result, and the
/// temporary counter afterwards, when temporaries are numbered from `c` on.
pub open spec fn expr_instructions(e: Expr, c: usize) -> (Seq<InstructionView>, ValView, usize)
    decreases e,
{
    match e {
        Expr::Constant(v) => (seq![], ValView::Constant(v), c),
        Expr::Unary(op, inner) => {
            let (is, src, c1) = expr_instructions(*inner, c);
            let dst = ValView::Var(tmp_name(c1 as nat));
            (is.push(InstructionView::Unary(unop_spec(op), src, dst)), dst, next_counter(c1))
        },
        Expr::Binary(op, a, b) => {
            let (ia, va, c1) = expr_instructions(*a, c);
            let (ib, vb, c2) = expr_instructions(*b, c1);
            let dst = ValView::Var(tmp_name(c2 as nat));
            (
                (ia + ib).push(InstructionView::Binary { op: binop_spec(op), src1: va, src2: vb, dst }),
                dst,
                next_counter(c2),
            )
        },
    }
}

/// The instructions of a function body, temporaries numbered from `c` on: the
/// expression's, then the return of its value.
pub open spec fn body_instructions(s: Statement, c: usize) -> Seq<InstructionView> {
    match s {
        Statement::Return(e) => {
            let (is, v, _) = expr_instructions(e, c);
            is.push(InstructionView::Return(v))
        },
    }
}

/// The temporary counter after lowering a function body from counter `c`.
pub open spec fn body_counter(s: Statement, c: usize) -> usize {
    match s {
        Statement::Return(e) => expr_instructions(e, c).2,
    }
}

/// What lowering a parsed program gives, temporaries numbered from `c` on.
pub open spec fn tacky_spec(p: parser::ProgramView, c: usize) -> ProgramView {
    ProgramView { name: p.name, instructions: body_instructions(p.body, c) }
}

/// A copy of a value.
pub fn copy_val(v: &Val) -> (r: Val)
    ensures
        r@ == v@,
{
    match v {
        Val::Constant(c) => Val::Constant(*c),
        Val::Var(s) => Val::Var(s.clone()),
    }
}

fn convert_unop(unop: &parser::UnaryOperator) -> (r: UnaryOperator)
    ensures
        r == unop_spec(*unop),
{
    match unop {
        parser::UnaryOperator::Complement => UnaryOperator::Complement,
        parser::UnaryOperator::Negate => UnaryOperator::Negate,
    }
}

fn convert_binop(binop: &parser::BinaryOperator) -> (r: BinaryOperator)
    ensures
        r == binop_spec(*binop),
{
    match binop {
        parser::BinaryOperator::Add => BinaryOperator::Add,
        parser::BinaryOperator::Subtract => BinaryOperator::Subtract,
        parser::BinaryOperator::Multiply => BinaryOperator::Multiply,
        parser::BinaryOperator::Divide => BinaryOperator::Divide,
        parser::BinaryOperator::Remainder => BinaryOperator::Remainder,
    }
}

/// Appends the instructions that compute `expr` and gives the value holding its result.
fn handle_expr(expr: &Expr, instructions: &mut Vec<Instruction>, counter: &mut usize) -> (v: Val)
    ensures
        instructions_view(final(instructions)@) == instructions_view(old(instructions)@)
            + expr_instructions(*expr, *old(counter)).0,
        v@ == expr_instructions(*expr, *old(counter)).1,
        *final(counter) == expr_instructions(*expr, *old(counter)).2,
    decreases expr,
{
    let ghost before = instructions_view(instructions@);
    match expr {
        Expr::Constant(val) => {
            assert(instructions_view(instructions@) =~= before + seq![]);
            Val::Constant(*val)
        },
        Expr::Unary(unary_operator, inner_expr) => {
            let src = handle_expr(inner_expr, instructions, counter);
            let dst = Val::Var(make_temporary(counter));
            let tacky_op = convert_unop(unary_operator);
            let d2 = copy_val(&dst);
            let ghost mid = instructions_view(instructions@);
            let ghost (is, _, _) = expr_instructions(**inner_expr, *old(counter));
            assert(mid =~= before + is);
            let inst = Instruction::Unary(tacky_op, src, d2);
            let ghost iv = inst@;
            instructions.push(inst);
            assert(instructions_view(instructions@) =~= mid.push(iv));
            assert(instructions_view(instructions@) =~= before + expr_instructions(
                *expr,
                *old(counter),
            ).0);
            dst
        },
        Expr::Binary(binary_operator, e1, e2) => {
            let src1 = handle_expr(e1, instructions, counter);
            let src2 = handle_expr(e2, instructions, counter);
            let dst = Val::Var(make_temporary(counter));
            let tacky_op = convert_binop(binary_operator);
            let d2 = copy_val(&dst);
            let ghost mid = instructions_view(instructions@);
            let inst = Instruction::Binary { op: tacky_op, src1, src2, dst: d2 };
            let ghost iv = inst@;
            instructions.push(inst);
            assert(instructions_view(instructions@) =~= mid.push(iv));
            assert(instructions_view(instructions@) =~= before + expr_instructions(
                *expr,
                *old(counter),
            ).0);
            dst
        },
    }
}

/// The instructions of a function body, taking temporaries from `counter`.
fn instructions(statement: Statement, counter: &mut usize) -> (insts: Vec<Instruction>)
    ensures
        instructions_view(insts@) == body_instructions(statement, *old(counter)),
        *final(counter) == body_counter(statement, *old(counter)),
{
    let ghost c0 = *counter;
    let mut insts: Vec<Instruction> = Vec::new();
    let ret_val = match &statement {
        Statement::Return(expr) => handle_expr(expr, &mut insts, counter),
    };
    insts.push(Instruction::Return(ret_val));
    proof {
        let ghost e = match statement {
            Statement::Return(e) => e,
        };
        assert(instructions_view(insts@) =~= (Seq::<InstructionView>::empty() + expr_instructions(
            e,
            c0,
        ).0).push(InstructionView::Return(ret_val@)));
    }
    insts
}

fn function_definition(function_def: parser::FunctionDef, counter: &mut usize) -> (f: FunctionDef)
    ensures
        f.name == function_def.name,
        instructions_view(f.instructions@) == body_instructions(function_def.body, *old(counter)),
        *final(counter) == body_counter(function_def.body, *old(counter)),
{
    FunctionDef { name: function_def.name, instructions: instructions(function_def.body, counter) }
}

fn program(ast: parser::Program, counter: &mut usize) -> (p: Program)
    ensures
        p@ == tacky_spec(ast@, *old(counter)),
        *final(counter) == body_counter(ast@.body, *old(counter)),
{
    Program { function_def: function_definition(ast.function_def, counter) }
}

/// Lowers a parsed program to three-address instructions; this always succeeds. The
/// temporaries are named `tmp.N`, `N` taken from `counter` on, which moves past them
/// (wrapping around like an atomic `fetch_add`), so that lowerings that share a counter
/// never reuse a name before it wraps.
pub fn tacky(ast: parser::Program, counter: &mut usize) -> (r: Result<Program, TackyError>)
    ensures
        r matches Ok(p) && p@ == tacky_spec(ast@, *old(counter)),
        *final(counter) == body_counter(ast@.body, *old(counter)),
{
    Ok(program(ast, counter))
}

} // verus!
