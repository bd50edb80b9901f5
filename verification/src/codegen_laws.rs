//! Properties of code generation that hold for every lowered program.
use crate::codegen::{
    AsmView, BinaryOperator, OperandView, codegen_instructions, find_name, find_name_from, fixup_all,
    fixup_spec, lemma_find_name_from, lower, lower_all, max_slots, pseudo_names, replace_all,
    replace_instr, replace_operand, slot, lemma_slot, frame_fits,
};
use crate::tacky::InstructionView as TackyInstr;
use vstd::prelude::*;

verus! {

/// Operands that x86-64 accepts together: no memory-to-memory `mov`, `add` or `sub`, no
/// immediate divisor, no memory destination for `imul`.
pub open spec fn legal(i: AsmView) -> bool {
    match i {
        AsmView::Mov { src, dst } => !(src is Stack && dst is Stack),
        AsmView::Idiv(o) => !(o is Imm),
        AsmView::Binary { operator, operand1, operand2 } => {
            &&& (operator == BinaryOperator::Add || operator == BinaryOperator::Sub) ==> !(operand1 is Stack
                && operand2 is Stack)
            &&& operator == BinaryOperator::Mult ==> !(operand2 is Stack)
        },
        _ => true,
    }
}

/// Every rewritten instruction has operands that x86-64 accepts.
proof fn lemma_fixup_all_legal(is: Seq<AsmView>)
    ensures
        forall|j: int| 0 <= j < fixup_all(is).len() ==> legal(#[trigger] fixup_all(is)[j]),
    decreases is.len(),
{
    if is.len() > 0 {
        lemma_fixup_all_legal(is.drop_last());
        let a = fixup_all(is.drop_last());
        let b = fixup_spec(is.last());
        assert forall|j: int| 0 <= j < b.len() implies legal(#[trigger] b[j]) by {}
        assert forall|j: int| 0 <= j < fixup_all(is).len() implies legal(
            #[trigger] fixup_all(is)[j],
        ) by {
            if j < a.len() {
                assert(fixup_all(is)[j] == a[j]);
            } else {
                assert(fixup_all(is)[j] == b[j - a.len()]);
            }
        }
    }
}

/// Code generation only writes instructions whose operands x86-64 accepts together.
pub proof fn lemma_codegen_legal(is: Seq<TackyInstr>)
    ensures
        forall|j: int|
            0 <= j < codegen_instructions(is).len() ==> legal(#[trigger] codegen_instructions(is)[j]),
{
    let (replaced, names) = replace_all(lower_all(is));
    lemma_fixup_all_legal(seq![AsmView::AllocateStack((-4 * names.len()) as isize)] + replaced);
}

/// `a` is a prefix of `b`.
pub open spec fn prefix(a: Seq<Seq<char>>, b: Seq<Seq<char>>) -> bool {
    a.len() <= b.len() && b.take(a.len() as int) == a
}

/// An operand with its pseudo-register replaced by the slot of the name's position.
pub open spec fn subst_operand(o: OperandView, names: Seq<Seq<char>>) -> OperandView {
    match o {
        OperandView::Pseudo(n) => OperandView::Stack(slot(find_name(names, n)->0)),
        other => other,
    }
}

/// An instruction with each pseudo-register replaced by the slot of its name's position.
pub open spec fn subst(i: AsmView, names: Seq<Seq<char>>) -> AsmView {
    match i {
        AsmView::Mov { src, dst } => AsmView::Mov {
            src: subst_operand(src, names),
            dst: subst_operand(dst, names),
        },
        AsmView::Unary { operator, operand } => AsmView::Unary {
            operator,
            operand: subst_operand(operand, names),
        },
        AsmView::Binary { operator, operand1, operand2 } => AsmView::Binary {
            operator,
            operand1: subst_operand(operand1, names),
            operand2: subst_operand(operand2, names),
        },
        AsmView::Idiv(o) => AsmView::Idiv(subst_operand(o, names)),
        other => other,
    }
}

/// The name of a pseudo-register operand is among `names`.
pub open spec fn operand_covered(o: OperandView, names: Seq<Seq<char>>) -> bool {
    o is Pseudo ==> names.contains(o->Pseudo_0)
}

/// The names of all pseudo-register operands of the instruction are among `names`.
pub open spec fn covered(i: AsmView, names: Seq<Seq<char>>) -> bool {
    match i {
        AsmView::Mov { src, dst } => operand_covered(src, names) && operand_covered(dst, names),
        AsmView::Unary { operand, .. } => operand_covered(operand, names),
        AsmView::Binary { operand1, operand2, .. } => operand_covered(operand1, names)
            && operand_covered(operand2, names),
        AsmView::Idiv(o) => operand_covered(o, names),
        _ => true,
    }
}

/// The first position of a name is the one with no earlier occurrence.
proof fn lemma_find_exact(names: Seq<Seq<char>>, n: Seq<char>, k: int, i: int)
    requires
        0 <= i <= k < names.len(),
        names[k] == n,
        forall|j: int| i <= j < k ==> names[j] != n,
    ensures
        find_name_from(names, n, i) == Some(k as nat),
    decreases k - i,
{
    if i < k {
        lemma_find_exact(names, n, k, i + 1);
    }
}

/// Positions of names already present do not change as the list grows.
proof fn lemma_find_prefix(a: Seq<Seq<char>>, b: Seq<Seq<char>>, n: Seq<char>)
    requires
        prefix(a, b),
        a.contains(n),
    ensures
        find_name(b, n) == find_name(a, n),
        b.contains(n),
{
    lemma_find_name_from(a, n, 0);
    let k = find_name(a, n)->0 as int;
    assert(b[k] == b.take(a.len() as int)[k]);
    assert forall|j: int| 0 <= j < k implies b[j] != n by {
        assert(b[j] == b.take(a.len() as int)[j]);
    }
    lemma_find_exact(b, n, k, 0);
}

/// Prefixes compose.
proof fn lemma_prefix_trans(a: Seq<Seq<char>>, b: Seq<Seq<char>>, c: Seq<Seq<char>>)
    requires
        prefix(a, b),
        prefix(b, c),
    ensures
        prefix(a, c),
{
    assert forall|j: int| 0 <= j < a.len() implies c.take(a.len() as int)[j] == a[j] by {
        assert(c[j] == c.take(b.len() as int)[j]);
        assert(b[j] == b.take(a.len() as int)[j]);
    }
    assert(c.take(a.len() as int) =~= a);
}

/// Replacing one operand: the names only grow, stay distinct, and the operand becomes
/// the slot of its name.
proof fn lemma_replace_operand_props(o: OperandView, names: Seq<Seq<char>>)
    requires
        names.no_duplicates(),
    ensures
        prefix(names, replace_operand(o, names).1),
        replace_operand(o, names).1.no_duplicates(),
        operand_covered(o, replace_operand(o, names).1),
        replace_operand(o, names).0 == subst_operand(o, replace_operand(o, names).1),
{
    assert(names.take(names.len() as int) =~= names);
    if let OperandView::Pseudo(n) = o {
        lemma_find_name_from(names, n, 0);
        if find_name(names, n) is Some {
            let k = find_name(names, n)->0 as int;
            assert(names.contains(n));
        } else {
            let n2 = names.push(n);
            assert(n2.take(names.len() as int) =~= names);
            assert(n2[names.len() as int] == n);
            lemma_find_exact(n2, n, names.len() as int, 0);
            assert(n2.contains(n));
        }
    }
}

/// Substitution under a longer list of names gives the same operand, for a covered one.
proof fn lemma_subst_operand_prefix(o: OperandView, a: Seq<Seq<char>>, b: Seq<Seq<char>>)
    requires
        prefix(a, b),
        operand_covered(o, a),
    ensures
        subst_operand(o, b) == subst_operand(o, a),
        operand_covered(o, b),
{
    if let OperandView::Pseudo(n) = o {
        lemma_find_prefix(a, b, n);
    }
}

/// Substitution under a longer list of names gives the same instruction, for a covered
/// one.
proof fn lemma_subst_prefix(i: AsmView, a: Seq<Seq<char>>, b: Seq<Seq<char>>)
    requires
        prefix(a, b),
        covered(i, a),
    ensures
        subst(i, b) == subst(i, a),
        covered(i, b),
{
    match i {
        AsmView::Mov { src, dst } => {
            lemma_subst_operand_prefix(src, a, b);
            lemma_subst_operand_prefix(dst, a, b);
        },
        AsmView::Unary { operand, .. } => {
            lemma_subst_operand_prefix(operand, a, b);
        },
        AsmView::Binary { operand1, operand2, .. } => {
            lemma_subst_operand_prefix(operand1, a, b);
            lemma_subst_operand_prefix(operand2, a, b);
        },
        AsmView::Idiv(o) => {
            lemma_subst_operand_prefix(o, a, b);
        },
        _ => {},
    }
}

/// Replacing one instruction: the names only grow and stay distinct, and the
/// instruction becomes its substitution under the new names.
proof fn lemma_replace_instr_props(i: AsmView, names: Seq<Seq<char>>)
    requires
        names.no_duplicates(),
    ensures
        prefix(names, replace_instr(i, names).1),
        replace_instr(i, names).1.no_duplicates(),
        covered(i, replace_instr(i, names).1),
        replace_instr(i, names).0 == subst(i, replace_instr(i, names).1),
{
    assert(names.take(names.len() as int) =~= names);
    match i {
        AsmView::Mov { src, dst } => {
            lemma_replace_operand_props(src, names);
            let n1 = replace_operand(src, names).1;
            lemma_replace_operand_props(dst, n1);
            let n2 = replace_operand(dst, n1).1;
            lemma_subst_operand_prefix(src, n1, n2);
            lemma_prefix_trans(names, n1, n2);
        },
        AsmView::Unary { operand, .. } => {
            lemma_replace_operand_props(operand, names);
        },
        AsmView::Binary { operand1, operand2, .. } => {
            lemma_replace_operand_props(operand1, names);
            let n1 = replace_operand(operand1, names).1;
            lemma_replace_operand_props(operand2, n1);
            let n2 = replace_operand(operand2, n1).1;
            lemma_subst_operand_prefix(operand1, n1, n2);
            lemma_prefix_trans(names, n1, n2);
        },
        AsmView::Idiv(o) => {
            lemma_replace_operand_props(o, names);
        },
        _ => {},
    }
}

/// Stack slots are assigned consistently: the names of the pseudo-registers are listed
/// without repetition, every pseudo-register's name is listed, and each instruction
/// becomes itself with every pseudo-register replaced by the slot of its name's
/// position; so the same name always gets the same slot, and different names get
/// different positions.
pub proof fn lemma_slots_consistent(is: Seq<AsmView>)
    ensures
        replace_all(is).1.no_duplicates(),
        replace_all(is).0.len() == is.len(),
        forall|j: int|
            0 <= j < is.len() ==> covered(#[trigger] is[j], replace_all(is).1)
                && replace_all(is).0[j] == subst(is[j], replace_all(is).1),
    decreases is.len(),
{
    if is.len() > 0 {
        lemma_slots_consistent(is.drop_last());
        let (done, names) = replace_all(is.drop_last());
        lemma_replace_instr_props(is.last(), names);
        let names2 = replace_instr(is.last(), names).1;
        assert forall|j: int| 0 <= j < is.len() implies covered(#[trigger] is[j], names2)
            && replace_all(is).0[j] == subst(is[j], names2) by {
            if j < is.len() - 1 {
                assert(is[j] == is.drop_last()[j]);
                lemma_subst_prefix(is[j], names, names2);
            }
        }
    }
}

/// A stack operand lies in a frame of `k` slots: between `-4 * k` and `-4`.
pub open spec fn operand_in_frame(o: OperandView, k: nat) -> bool {
    o is Stack ==> -4 * k <= o->Stack_0 <= -4
}

/// Every stack operand of the instruction lies in a frame of `k` slots.
pub open spec fn in_frame(i: AsmView, k: nat) -> bool {
    match i {
        AsmView::Mov { src, dst } => operand_in_frame(src, k) && operand_in_frame(dst, k),
        AsmView::Unary { operand, .. } => operand_in_frame(operand, k),
        AsmView::Binary { operand1, operand2, .. } => operand_in_frame(operand1, k)
            && operand_in_frame(operand2, k),
        AsmView::Idiv(o) => operand_in_frame(o, k),
        _ => true,
    }
}

/// Lowering writes no stack operand.
proof fn lemma_lower_all_in_frame(is: Seq<TackyInstr>)
    ensures
        forall|j: int| 0 <= j < lower_all(is).len() ==> in_frame(#[trigger] lower_all(is)[j], 0),
    decreases is.len(),
{
    if is.len() > 0 {
        lemma_lower_all_in_frame(is.drop_last());
        let a = lower_all(is.drop_last());
        let b = lower(is.last());
        assert forall|j: int| 0 <= j < lower_all(is).len() implies in_frame(
            #[trigger] lower_all(is)[j],
            0,
        ) by {
            if j < a.len() {
                assert(lower_all(is)[j] == a[j]);
            } else {
                assert(lower_all(is)[j] == b[j - a.len()]);
            }
        }
    }
}

/// Substituting slots from a list of fewer than the maximum of names keeps stack
/// operands in the frame of that many slots.
proof fn lemma_subst_in_frame(i: AsmView, names: Seq<Seq<char>>)
    requires
        in_frame(i, 0),
        covered(i, names),
        names.len() < max_slots(),
    ensures
        in_frame(subst(i, names), names.len()),
{
    assert forall|o: OperandView| operand_in_frame(o, 0) && operand_covered(o, names) implies operand_in_frame(
        #[trigger] subst_operand(o, names),
        names.len(),
    ) by {
        if let OperandView::Pseudo(n) = o {
            lemma_find_name_from(names, n, 0);
            let k = find_name(names, n)->0;
            lemma_slot(k);
        }
    }
    match i {
        AsmView::Mov { src, dst } => {
            assert(operand_in_frame(subst_operand(src, names), names.len()));
            assert(operand_in_frame(subst_operand(dst, names), names.len()));
        },
        AsmView::Unary { operand, .. } => {
            assert(operand_in_frame(subst_operand(operand, names), names.len()));
        },
        AsmView::Binary { operand1, operand2, .. } => {
            assert(operand_in_frame(subst_operand(operand1, names), names.len()));
            assert(operand_in_frame(subst_operand(operand2, names), names.len()));
        },
        AsmView::Idiv(o) => {
            assert(operand_in_frame(subst_operand(o, names), names.len()));
        },
        _ => {},
    }
}

/// Rewriting keeps stack operands in the frame.
proof fn lemma_fixup_all_in_frame(is: Seq<AsmView>, k: nat)
    requires
        forall|j: int| 0 <= j < is.len() ==> in_frame(#[trigger] is[j], k),
    ensures
        forall|j: int| 0 <= j < fixup_all(is).len() ==> in_frame(#[trigger] fixup_all(is)[j], k),
    decreases is.len(),
{
    if is.len() > 0 {
        assert forall|j: int| 0 <= j < is.drop_last().len() implies in_frame(
            #[trigger] is.drop_last()[j],
            k,
        ) by {
            assert(is.drop_last()[j] == is[j]);
        }
        lemma_fixup_all_in_frame(is.drop_last(), k);
        let a = fixup_all(is.drop_last());
        let b = fixup_spec(is.last());
        assert(in_frame(is[is.len() - 1], k));
        assert forall|j: int| 0 <= j < fixup_all(is).len() implies in_frame(
            #[trigger] fixup_all(is)[j],
            k,
        ) by {
            if j < a.len() {
                assert(fixup_all(is)[j] == a[j]);
            } else {
                assert(fixup_all(is)[j] == b[j - a.len()]);
            }
        }
    }
}

/// Rewriting a sequence rewrites its first instruction first.
pub proof fn lemma_fixup_all_cons(x: AsmView, rest: Seq<AsmView>)
    ensures
        fixup_all(seq![x] + rest) == fixup_spec(x) + fixup_all(rest),
    decreases rest.len(),
{
    if rest.len() == 0 {
        assert(seq![x] + rest =~= seq![x]);
        assert(seq![x].drop_last() =~= Seq::<AsmView>::empty());
        assert(fixup_all(Seq::<AsmView>::empty()) == Seq::<AsmView>::empty());
        assert(fixup_spec(x) + fixup_all(rest) =~= fixup_spec(x));
        assert(fixup_all(seq![x]) =~= Seq::<AsmView>::empty() + fixup_spec(x));
    } else {
        lemma_fixup_all_cons(x, rest.drop_last());
        assert((seq![x] + rest).drop_last() =~= seq![x] + rest.drop_last());
        assert((seq![x] + rest).last() == rest.last());
        assert(fixup_all(seq![x] + rest) =~= fixup_spec(x) + fixup_all(rest));
    }
}

/// The frame covers every slot: the generated code starts by allocating `4 * k` bytes,
/// `k` being the number of distinct pseudo-registers, and every stack operand it uses
/// lies between `-4 * k` and `-4`.
pub proof fn lemma_codegen_frame(is: Seq<TackyInstr>)
    requires
        frame_fits(is),
    ensures
        codegen_instructions(is).len() > 0,
        codegen_instructions(is)[0] == AsmView::AllocateStack((-4 * pseudo_names(is).len()) as isize),
        (-4 * pseudo_names(is).len()) as isize as int == -4 * pseudo_names(is).len(),
        forall|j: int|
            0 <= j < codegen_instructions(is).len() ==> in_frame(
                #[trigger] codegen_instructions(is)[j],
                pseudo_names(is).len(),
            ),
{
    let low = lower_all(is);
    let (replaced, names) = replace_all(low);
    let k = names.len();
    let alloc = AsmView::AllocateStack((-4 * k) as isize);
    let full = seq![alloc] + replaced;
    assert(4 * max_slots() <= isize::MAX + 1);
    lemma_lower_all_in_frame(is);
    lemma_slots_consistent(low);
    assert forall|j: int| 0 <= j < full.len() implies in_frame(#[trigger] full[j], k) by {
        if j > 0 {
            assert(full[j] == replaced[j - 1]);
            lemma_subst_in_frame(low[j - 1], names);
        }
    }
    lemma_fixup_all_in_frame(full, k);
    assert(full =~= seq![alloc] + replaced);
    lemma_fixup_all_cons(alloc, replaced);
    assert(fixup_spec(alloc) == seq![alloc]);
}

} // verus!
