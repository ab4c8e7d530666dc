//! The assembly over pseudo-registers does what the three-address code
//! does that it was built from: the processor goes through the code of
//! every instruction while the machine of the three-address code takes
//! one step.
use vstd::prelude::*;
use crate::assembly::{
    arithmetic_of, build_code, build_instruction, can_build_all, cond_code_of, operand_of,
    BinaryOperator, CondCode, InstructionView, OperandView, Reg, UnaryOperator,
};
use crate::machine::{
    binary_operation, execute, go_to, holds, is_label_at, lemma_execute_then, lemma_proceed_on,
    load, proceed, register, sign_bits, unary_operation, Cells, Cpu, Running,
};
use crate::semantics::{
    binary_value, is_label_position, jump, read, run, step, truth, unary_value, Machine, Store,
};
use crate::tac::{
    BinaryOperator as TacBinaryOperator, InstructionView as TacInstructionView,
    UnaryOperator as TacUnaryOperator, ValView,
};

verus! {

/// Whether every name of the three-address code that has a value has it
/// in its pseudo-register.
pub open spec fn mirrors(cells: Cells, store: Store) -> bool {
    forall|x: Seq<char>| #[trigger]
        store.contains_key(x) ==> cells.contains_key(OperandView::Pseudo(x))
            && cells[OperandView::Pseudo(x)] == store[x]
}

/// The length of the assembly in front of the code of instruction
/// number `i`.
pub open spec fn built_start(tac: Seq<TacInstructionView>, i: int) -> nat {
    build_code(tac.subrange(0, i)).len()
}

/// The assembly that an instruction is built into; nothing where there
/// is none.
pub open spec fn built_part(i: TacInstructionView) -> Seq<InstructionView> {
    match build_instruction(i) {
        Ok(part) => part,
        Err(_) => Seq::empty(),
    }
}

/// Whether `part` stands in `code` from the position `base` on.
pub open spec fn holds_part(
    code: Seq<InstructionView>,
    base: nat,
    part: Seq<InstructionView>,
) -> bool {
    base + part.len() <= code.len() && code.subrange(base as int, (base + part.len()) as int)
        == part
}

/// An instruction of a part stands in the code.
pub proof fn lemma_part_index(
    code: Seq<InstructionView>,
    base: nat,
    part: Seq<InstructionView>,
    i: int,
)
    requires
        holds_part(code, base, part),
        0 <= i < part.len(),
    ensures
        base + i < code.len(),
        code[base + i] == part[i],
{
    assert(code.subrange(base as int, (base + part.len()) as int)[i] == part[i]);
}

/// The code of every instruction stands in the assembly, behind the
/// code of the instructions before it.
pub proof fn lemma_built_segment(tac: Seq<TacInstructionView>, i: int)
    requires
        0 <= i < tac.len(),
    ensures
        holds_part(build_code(tac), built_start(tac, i), built_part(tac[i])),
        built_start(tac, i + 1) == built_start(tac, i) + built_part(tac[i]).len(),
        built_start(tac, tac.len() as int) == build_code(tac).len(),
    decreases tac.len(),
{
    let earlier = tac.drop_last();
    let before = build_code(earlier);
    let last = built_part(tac.last());
    assert(tac.subrange(0, tac.len() as int) =~= tac);
    assert(tac.subrange(0, tac.len() - 1) =~= earlier);
    assert(build_code(tac) == before + last);
    if i == tac.len() - 1 {
        assert((before + last).subrange(before.len() as int, (before.len() + last.len()) as int)
            =~= last);
    } else {
        lemma_built_segment(earlier, i);
        assert(earlier.subrange(0, i) =~= tac.subrange(0, i));
        assert(earlier.subrange(0, i + 1) =~= tac.subrange(0, i + 1));
        assert(earlier[i] == tac[i]);
        let base = built_start(tac, i);
        let part = built_part(tac[i]);
        assert((before + last).subrange(base as int, (base + part.len()) as int)
            =~= before.subrange(base as int, (base + part.len()) as int));
    }
}

/// A later instruction starts no earlier in the assembly.
pub proof fn lemma_built_start_grows(tac: Seq<TacInstructionView>, i: int, j: int)
    requires
        0 <= i <= j <= tac.len(),
    ensures
        built_start(tac, i) <= built_start(tac, j),
    decreases j - i,
{
    if i < j {
        lemma_built_segment(tac, j - 1);
        lemma_built_start_grows(tac, i, j - 1);
    }
}

/// No instruction but a label is built into a label.
pub proof fn lemma_part_label(i: TacInstructionView, k: int, label: Seq<char>)
    requires
        0 <= k < built_part(i).len(),
        built_part(i)[k] == InstructionView::Label(label),
    ensures
        i == (TacInstructionView::Label { label }),
        k == 0,
{
}

/// Every label of the assembly is the code of a label of the
/// three-address code.
pub proof fn lemma_label_origin(tac: Seq<TacInstructionView>, at: int, label: Seq<char>) -> (i: int)
    requires
        0 <= at < build_code(tac).len(),
        build_code(tac)[at] == InstructionView::Label(label),
    ensures
        0 <= i < tac.len(),
        at == built_start(tac, i),
        tac[i] == (TacInstructionView::Label { label }),
    decreases tac.len(),
{
    let earlier = tac.drop_last();
    let before = build_code(earlier);
    let last = built_part(tac.last());
    assert(build_code(tac) == before + last);
    assert(tac.subrange(0, tac.len() - 1) =~= earlier);
    if at < before.len() {
        assert((before + last)[at] == before[at]);
        let i = lemma_label_origin(earlier, at, label);
        assert(earlier.subrange(0, i) =~= tac.subrange(0, i));
        assert(earlier[i] == tac[i]);
        i
    } else {
        assert((before + last)[at] == last[at - before.len()]);
        lemma_part_label(tac.last(), at - before.len(), label);
        tac.len() - 1
    }
}

/// A jump of the processor arrives at the code of the label where the
/// jump of the three-address code arrives.
pub proof fn lemma_go_to_arrives(
    tac: Seq<TacInstructionView>,
    label: Seq<char>,
    target: nat,
    cpu: Cpu,
)
    requires
        is_label_position(tac, label, target),
    ensures
        go_to(build_code(tac), label, cpu) == Running::At(built_start(tac, target as int), cpu),
{
    let built = build_code(tac);
    let at = built_start(tac, target as int);
    lemma_built_segment(tac, target as int);
    lemma_part_index(built, at, built_part(tac[target as int]), 0);
    assert(is_label_at(built, label, at)) by {
        assert forall|j: int| 0 <= j < at implies #[trigger] built[j] != InstructionView::Label(
            label,
        ) by {
            if built[j] == InstructionView::Label(label) {
                let i = lemma_label_origin(tac, j, label);
                if i < target {
                    assert(tac[i] != (TacInstructionView::Label { label }));
                } else {
                    lemma_built_start_grows(tac, target as int, i);
                }
            }
        }
    }
    let found = choose|found: nat| is_label_at(built, label, found);
    if found < at {
        assert(built[found as int] != InstructionView::Label(label));
    } else if found > at {
        assert(built[at as int] != InstructionView::Label(label));
    }
}

/// The jump of the three-address code arrives where its label first stands.
pub proof fn lemma_jump_target(tac: Seq<TacInstructionView>, label: Seq<char>, store: Store)
    requires
        jump(tac, label, store) !is Stuck,
    ensures
        jump(tac, label, store) matches Machine::At(target, after) && after == store
            && is_label_position(tac, label, target),
{
}

/// Whether `after` holds `v` in the pseudo-register `name` and what
/// `before` holds in every other pseudo-register.
pub open spec fn updates(after: Cells, before: Cells, name: Seq<char>, v: i32) -> bool {
    &&& after.contains_key(OperandView::Pseudo(name))
    &&& after[OperandView::Pseudo(name)] == v
    &&& forall|x: Seq<char>|
        x != name && #[trigger] before.contains_key(OperandView::Pseudo(x))
            ==> after.contains_key(OperandView::Pseudo(x)) && after[OperandView::Pseudo(x)]
            == before[OperandView::Pseudo(x)]
}

/// The cells still mirror the names when one name and its
/// pseudo-register get the same value.
pub proof fn lemma_mirrors_update(
    after: Cells,
    before: Cells,
    store: Store,
    name: Seq<char>,
    v: i32,
)
    requires
        mirrors(before, store),
        updates(after, before, name, v),
    ensures
        mirrors(after, store.insert(name, v)),
{
    let store2 = store.insert(name, v);
    assert forall|x: Seq<char>| #[trigger] store2.contains_key(x) implies after.contains_key(
        OperandView::Pseudo(x),
    ) && after[OperandView::Pseudo(x)] == store2[x] by {
        if x != name {
            assert(store.contains_key(x));
            assert(before.contains_key(OperandView::Pseudo(x)));
        }
    }
}

/// The operand of a value holds the value of it.
pub proof fn lemma_load_mirrors(v: ValView, store: Store, cells: Cells)
    requires
        mirrors(cells, store),
        read(v, store) is Some,
    ensures
        load(operand_of(v), cells) == read(v, store),
{
    if let ValView::Identifier(x) = v {
        assert(store.contains_key(x));
    }
}

/// `Mov v, AX` and `Ret` return the value.
pub proof fn lemma_return_proceeds(
    code: Seq<InstructionView>,
    at: nat,
    src: OperandView,
    k: i32,
    cpu: Cpu,
)
    requires
        at + 1 < code.len(),
        code[at as int] == InstructionView::Mov(src, register(Reg::AX)),
        code[(at + 1) as int] == InstructionView::Ret,
        load(src, cpu.cells) == Some(k),
    ensures
        proceed(code, at, cpu, 2) == Running::Returned(k),
{
    let mid = Cpu { cells: cpu.cells.insert(register(Reg::AX), k), compared: cpu.compared };
    assert(execute(code, at, cpu) == Running::At(at + 1, mid));
    assert(execute(code, at + 1, mid) == Running::Returned(k));
    assert(proceed(code, at + 1, mid, 1) == Running::Returned(k));
    lemma_execute_then(code, at, cpu, at + 1, mid, 1);
}

/// `Mov s, d` puts the value of `s` in the pseudo-register `d`.
pub proof fn lemma_mov_proceeds(
    code: Seq<InstructionView>,
    at: nat,
    src: OperandView,
    name: Seq<char>,
    v: i32,
    cpu: Cpu,
) -> (after: Cpu)
    requires
        at < code.len(),
        code[at as int] == InstructionView::Mov(src, OperandView::Pseudo(name)),
        load(src, cpu.cells) == Some(v),
    ensures
        proceed(code, at, cpu, 1) == Running::At(at + 1, after),
        updates(after.cells, cpu.cells, name, v),
{
    let after = Cpu {
        cells: cpu.cells.insert(OperandView::Pseudo(name), v),
        compared: cpu.compared,
    };
    assert(execute(code, at, cpu) == Running::At(at + 1, after));
    lemma_execute_then(code, at, cpu, at + 1, after, 0);
    after
}

/// `Mov s, d` and a unary instruction on `d` put the value of the
/// operation on `s` in the pseudo-register `d`.
pub proof fn lemma_unary_proceeds(
    code: Seq<InstructionView>,
    at: nat,
    op: UnaryOperator,
    src: OperandView,
    name: Seq<char>,
    a: i32,
    cpu: Cpu,
) -> (after: Cpu)
    requires
        at + 1 < code.len(),
        code[at as int] == InstructionView::Mov(src, OperandView::Pseudo(name)),
        code[(at + 1) as int] == InstructionView::Unary(op, OperandView::Pseudo(name)),
        load(src, cpu.cells) == Some(a),
    ensures
        proceed(code, at, cpu, 2) == Running::At(at + 2, after),
        updates(after.cells, cpu.cells, name, unary_value(unary_operation(op), a)),
{
    let d = OperandView::Pseudo(name);
    let mid = Cpu { cells: cpu.cells.insert(d, a), compared: cpu.compared };
    let after = Cpu {
        cells: mid.cells.insert(d, unary_value(unary_operation(op), a)),
        compared: None,
    };
    assert(execute(code, at, cpu) == Running::At(at + 1, mid));
    assert(execute(code, at + 1, mid) == Running::At(at + 2, after));
    lemma_execute_then(code, at + 1, mid, at + 2, after, 0);
    lemma_execute_then(code, at, cpu, at + 1, mid, 1);
    after
}

/// `Cmp b, a`, `Mov 0, d` and `SetCC cc, d` put the truth of the
/// condition on `a` and `b` in the pseudo-register `d`.
pub proof fn lemma_compare_proceeds(
    code: Seq<InstructionView>,
    at: nat,
    cc: CondCode,
    right: OperandView,
    left: OperandView,
    name: Seq<char>,
    a: i32,
    b: i32,
    cpu: Cpu,
) -> (after: Cpu)
    requires
        at + 2 < code.len(),
        code[at as int] == InstructionView::Cmp(right, left),
        code[(at + 1) as int] == InstructionView::Mov(
            OperandView::Imm(0),
            OperandView::Pseudo(name),
        ),
        code[(at + 2) as int] == InstructionView::SetCC(cc, OperandView::Pseudo(name)),
        load(left, cpu.cells) == Some(a),
        load(right, cpu.cells) == Some(b),
    ensures
        proceed(code, at, cpu, 3) == Running::At(at + 3, after),
        updates(after.cells, cpu.cells, name, truth(holds(cc, (a, b)))),
{
    let d = OperandView::Pseudo(name);
    let t = truth(holds(cc, (a, b)));
    let s1 = Cpu { cells: cpu.cells, compared: Some((a, b)) };
    let s2 = Cpu { cells: cpu.cells.insert(d, 0), compared: Some((a, b)) };
    let after = Cpu {
        cells: s2.cells.insert(d, t).insert(register(Reg::AX), t),
        compared: Some((a, b)),
    };
    assert(execute(code, at, cpu) == Running::At(at + 1, s1));
    assert(execute(code, at + 1, s1) == Running::At(at + 2, s2));
    assert(execute(code, at + 2, s2) == Running::At(at + 3, after));
    lemma_execute_then(code, at + 2, s2, at + 3, after, 0);
    lemma_execute_then(code, at + 1, s1, at + 2, s2, 1);
    lemma_execute_then(code, at, cpu, at + 1, s1, 2);
    after
}

/// `Mov a, AX`, `Cdq`, `Idiv b` and a `Mov` from `AX` or `DX` put the
/// quotient or the remainder of `a` and `b` in the pseudo-register `d`.
pub proof fn lemma_divide_proceeds(
    code: Seq<InstructionView>,
    at: nat,
    remainder: bool,
    left: OperandView,
    right: OperandView,
    name: Seq<char>,
    a: i32,
    b: i32,
    cpu: Cpu,
) -> (after: Cpu)
    requires
        at + 3 < code.len(),
        code[at as int] == InstructionView::Mov(left, register(Reg::AX)),
        code[(at + 1) as int] == InstructionView::Cdq,
        code[(at + 2) as int] == InstructionView::Idiv(right),
        code[(at + 3) as int] == InstructionView::Mov(
            register(
                if remainder {
                    Reg::DX
                } else {
                    Reg::AX
                },
            ),
            OperandView::Pseudo(name),
        ),
        !(left is Reg),
        !(right is Reg),
        load(left, cpu.cells) == Some(a),
        load(right, cpu.cells) == Some(b),
        binary_value(TacBinaryOperator::Divide, a, b) is Some,
    ensures
        proceed(code, at, cpu, 4) == Running::At(at + 4, after),
        updates(
            after.cells,
            cpu.cells,
            name,
            binary_value(
                if remainder {
                    TacBinaryOperator::Modulo
                } else {
                    TacBinaryOperator::Divide
                },
                a,
                b,
            )->Some_0,
        ),
{
    let d = OperandView::Pseudo(name);
    let q = binary_value(TacBinaryOperator::Divide, a, b)->Some_0;
    let r = binary_value(TacBinaryOperator::Modulo, a, b)->Some_0;
    let v = if remainder {
        r
    } else {
        q
    };
    let s1 = Cpu { cells: cpu.cells.insert(register(Reg::AX), a), compared: cpu.compared };
    let s2 = Cpu { cells: s1.cells.insert(register(Reg::DX), sign_bits(a)), compared: cpu.compared };
    let s3 = Cpu {
        cells: s2.cells.insert(register(Reg::AX), q).insert(register(Reg::DX), r),
        compared: None,
    };
    let after = Cpu { cells: s3.cells.insert(d, v), compared: None };
    assert(execute(code, at, cpu) == Running::At(at + 1, s1));
    assert(execute(code, at + 1, s1) == Running::At(at + 2, s2));
    assert(load(right, s2.cells) == Some(b));
    assert(execute(code, at + 2, s2) == Running::At(at + 3, s3));
    assert(execute(code, at + 3, s3) == Running::At(at + 4, after));
    lemma_execute_then(code, at + 3, s3, at + 4, after, 0);
    lemma_execute_then(code, at + 2, s2, at + 3, s3, 1);
    lemma_execute_then(code, at + 1, s1, at + 2, s2, 2);
    lemma_execute_then(code, at, cpu, at + 1, s1, 3);
    after
}

/// `Mov a, d` and a binary instruction with the source `b` on `d` put
/// the value of the operation on `a` and `b` in the pseudo-register `d`,
/// where `b` is not `d` itself.
pub proof fn lemma_arithmetic_proceeds(
    code: Seq<InstructionView>,
    at: nat,
    op: BinaryOperator,
    left: OperandView,
    right: OperandView,
    name: Seq<char>,
    a: i32,
    b: i32,
    cpu: Cpu,
) -> (after: Cpu)
    requires
        at + 1 < code.len(),
        code[at as int] == InstructionView::Mov(left, OperandView::Pseudo(name)),
        code[(at + 1) as int] == InstructionView::Binary(op, right, OperandView::Pseudo(name)),
        right != OperandView::Pseudo(name),
        load(left, cpu.cells) == Some(a),
        load(right, cpu.cells) == Some(b),
        binary_value(binary_operation(op), a, b) is Some,
    ensures
        proceed(code, at, cpu, 2) == Running::At(at + 2, after),
        updates(after.cells, cpu.cells, name, binary_value(binary_operation(op), a, b)->Some_0),
{
    let d = OperandView::Pseudo(name);
    let v = binary_value(binary_operation(op), a, b)->Some_0;
    let mid = Cpu { cells: cpu.cells.insert(d, a), compared: cpu.compared };
    let after = Cpu { cells: mid.cells.insert(d, v), compared: None };
    assert(load(right, mid.cells) == Some(b));
    assert(execute(code, at, cpu) == Running::At(at + 1, mid));
    assert(execute(code, at + 1, mid) == Running::At(at + 2, after));
    lemma_execute_then(code, at + 1, mid, at + 2, after, 0);
    lemma_execute_then(code, at, cpu, at + 1, mid, 1);
    after
}

/// `Cmp s, 0` and a jump on a condition go to the label where the
/// condition holds of 0 and `s`, and to the next instruction otherwise.
pub proof fn lemma_branch_proceeds(
    code: Seq<InstructionView>,
    at: nat,
    cc: CondCode,
    src: OperandView,
    label: Seq<char>,
    a: i32,
    target: nat,
    cpu: Cpu,
) -> (after: Cpu)
    requires
        at + 1 < code.len(),
        code[at as int] == InstructionView::Cmp(src, OperandView::Imm(0)),
        code[(at + 1) as int] == InstructionView::JmpCC(cc, label),
        load(src, cpu.cells) == Some(a),
        holds(cc, (0, a)) ==> go_to(code, label, Cpu { cells: cpu.cells, compared: Some((0, a)) })
            == Running::At(target, Cpu { cells: cpu.cells, compared: Some((0, a)) }),
    ensures
        proceed(code, at, cpu, 2) == Running::At(
            if holds(cc, (0, a)) {
                target
            } else {
                at + 2
            },
            after,
        ),
        after.cells == cpu.cells,
{
    let after = Cpu { cells: cpu.cells, compared: Some((0, a)) };
    assert(execute(code, at, cpu) == Running::At(at + 1, after));
    let next = if holds(cc, (0, a)) {
        target
    } else {
        at + 2
    };
    assert(execute(code, at + 1, after) == Running::At(next, after));
    lemma_execute_then(code, at + 1, after, next, after, 0);
    lemma_execute_then(code, at, cpu, at + 1, after, 1);
    after
}

/// Whether the instruction does not take the second operand of an
/// arithmetic operation from its own destination.
pub open spec fn has_fresh_destination(i: TacInstructionView) -> bool {
    i matches TacInstructionView::Binary { operator, src2, dst, .. } ==> arithmetic_of(operator)
        is Some ==> src2 != dst
}

/// Whether no instruction takes the second operand of an arithmetic
/// operation from its own destination.
pub open spec fn all_fresh(tac: Seq<TacInstructionView>) -> bool {
    forall|i: int| 0 <= i < tac.len() ==> has_fresh_destination(#[trigger] tac[i])
}

/// How the processor went: the number of instructions and its state
/// behind them.
pub ghost struct Went {
    pub steps: nat,
    pub cpu: Cpu,
}

/// Whether the way `went` of the processor through the assembly does
/// what one step `stepped` of the three-address code from the position
/// `pc` does.
pub open spec fn follows_step(
    tac: Seq<TacInstructionView>,
    pc: nat,
    cpu: Cpu,
    stepped: Machine,
    went: Went,
) -> bool {
    let start = built_start(tac, pc as int);
    match stepped {
        Machine::At(next, after) => {
            &&& next <= tac.len()
            &&& proceed(build_code(tac), start, cpu, went.steps) == Running::At(
                built_start(tac, next as int),
                went.cpu,
            )
            &&& mirrors(went.cpu.cells, after)
        },
        Machine::Returned(v) => proceed(build_code(tac), start, cpu, went.steps)
            == Running::Returned(v),
        Machine::Stuck => true,
    }
}

/// The code of a binary instruction does what the instruction does.
pub proof fn lemma_binary_simulated(
    tac: Seq<TacInstructionView>,
    pc: nat,
    store: Store,
    cpu: Cpu,
) -> (went: Went)
    requires
        pc < tac.len(),
        tac[pc as int] is Binary,
        step(tac, pc, store) !is Stuck,
        mirrors(cpu.cells, store),
        has_fresh_destination(tac[pc as int]),
        build_instruction(tac[pc as int]) is Ok,
    ensures
        follows_step(tac, pc, cpu, step(tac, pc, store), went),
{
    let code = build_code(tac);
    let at = built_start(tac, pc as int);
    let part = built_part(tac[pc as int]);
    lemma_built_segment(tac, pc as int);
    if let TacInstructionView::Binary { operator, src1, src2, dst } = tac[pc as int] {
        let name = dst->Identifier_0;
        let a = read(src1, store)->Some_0;
        let b = read(src2, store)->Some_0;
        let v = binary_value(operator, a, b)->Some_0;
        lemma_load_mirrors(src1, store, cpu.cells);
        lemma_load_mirrors(src2, store, cpu.cells);
        lemma_part_index(code, at, part, 0);
        lemma_part_index(code, at, part, 1);
        if operator == TacBinaryOperator::Divide || operator == TacBinaryOperator::Modulo {
            lemma_part_index(code, at, part, 2);
            lemma_part_index(code, at, part, 3);
            let after = lemma_divide_proceeds(
                code,
                at,
                operator == TacBinaryOperator::Modulo,
                operand_of(src1),
                operand_of(src2),
                name,
                a,
                b,
                cpu,
            );
            lemma_mirrors_update(after.cells, cpu.cells, store, name, v);
            Went { steps: 4, cpu: after }
        } else if let Some(cc) = cond_code_of(operator) {
            lemma_part_index(code, at, part, 2);
            let after = lemma_compare_proceeds(
                code,
                at,
                cc,
                operand_of(src2),
                operand_of(src1),
                name,
                a,
                b,
                cpu,
            );
            lemma_mirrors_update(after.cells, cpu.cells, store, name, v);
            Went { steps: 3, cpu: after }
        } else {
            let op = arithmetic_of(operator)->Some_0;
            assert(binary_operation(op) == operator);
            let after = lemma_arithmetic_proceeds(
                code,
                at,
                op,
                operand_of(src1),
                operand_of(src2),
                name,
                a,
                b,
                cpu,
            );
            lemma_mirrors_update(after.cells, cpu.cells, store, name, v);
            Went { steps: 2, cpu: after }
        }
    } else {
        Went { steps: 0, cpu }
    }
}

/// The code of a jump on a value does what the jump does.
pub proof fn lemma_branch_simulated(
    tac: Seq<TacInstructionView>,
    pc: nat,
    store: Store,
    cpu: Cpu,
) -> (went: Went)
    requires
        pc < tac.len(),
        tac[pc as int] is JumpIfZero || tac[pc as int] is JumpIfNotZero,
        step(tac, pc, store) !is Stuck,
        mirrors(cpu.cells, store),
    ensures
        follows_step(tac, pc, cpu, step(tac, pc, store), went),
{
    let code = build_code(tac);
    let at = built_start(tac, pc as int);
    let part = built_part(tac[pc as int]);
    lemma_built_segment(tac, pc as int);
    lemma_part_index(code, at, part, 0);
    lemma_part_index(code, at, part, 1);
    let (src, label, cc) = match tac[pc as int] {
        TacInstructionView::JumpIfZero { src, label } => (src, label, CondCode::E),
        TacInstructionView::JumpIfNotZero { src, label } => (src, label, CondCode::NE),
        _ => (ValView::Constant(0), Seq::empty(), CondCode::E),
    };
    let a = read(src, store)->Some_0;
    lemma_load_mirrors(src, store, cpu.cells);
    let compared = Cpu { cells: cpu.cells, compared: Some((0i32, a)) };
    let target = if holds(cc, (0i32, a)) {
        lemma_jump_target(tac, label, store);
        let target = jump(tac, label, store)->At_0;
        lemma_go_to_arrives(tac, label, target, compared);
        target
    } else {
        pc + 1
    };
    let after = lemma_branch_proceeds(
        code,
        at,
        cc,
        operand_of(src),
        label,
        a,
        built_start(tac, target as int),
        cpu,
    );
    Went { steps: 2, cpu: after }
}

/// The code of an instruction does what the instruction does: while the
/// machine of the three-address code takes one step, the processor goes
/// through the code of the instruction and arrives where the machine
/// arrives, with every name mirrored in its pseudo-register.
pub proof fn lemma_step_simulated(
    tac: Seq<TacInstructionView>,
    pc: nat,
    store: Store,
    cpu: Cpu,
) -> (went: Went)
    requires
        pc < tac.len(),
        step(tac, pc, store) !is Stuck,
        mirrors(cpu.cells, store),
        has_fresh_destination(tac[pc as int]),
        build_instruction(tac[pc as int]) is Ok,
    ensures
        follows_step(tac, pc, cpu, step(tac, pc, store), went),
{
    let code = build_code(tac);
    let at = built_start(tac, pc as int);
    let part = built_part(tac[pc as int]);
    lemma_built_segment(tac, pc as int);
    match tac[pc as int] {
        TacInstructionView::Return(v) => {
            lemma_load_mirrors(v, store, cpu.cells);
            lemma_part_index(code, at, part, 0);
            lemma_part_index(code, at, part, 1);
            lemma_return_proceeds(code, at, operand_of(v), read(v, store)->Some_0, cpu);
            Went { steps: 2, cpu }
        },
        TacInstructionView::Unary { operator, src, dst } => {
            let name = dst->Identifier_0;
            let a = read(src, store)->Some_0;
            lemma_load_mirrors(src, store, cpu.cells);
            lemma_part_index(code, at, part, 0);
            lemma_part_index(code, at, part, 1);
            if operator == TacUnaryOperator::LogicalNot {
                lemma_part_index(code, at, part, 2);
                let after = lemma_compare_proceeds(
                    code,
                    at,
                    CondCode::E,
                    OperandView::Imm(0),
                    operand_of(src),
                    name,
                    a,
                    0,
                    cpu,
                );
                lemma_mirrors_update(
                    after.cells,
                    cpu.cells,
                    store,
                    name,
                    unary_value(operator, a),
                );
                Went { steps: 3, cpu: after }
            } else {
                let op = if operator == TacUnaryOperator::Negate {
                    UnaryOperator::Neg
                } else {
                    UnaryOperator::Not
                };
                let after = lemma_unary_proceeds(code, at, op, operand_of(src), name, a, cpu);
                lemma_mirrors_update(
                    after.cells,
                    cpu.cells,
                    store,
                    name,
                    unary_value(operator, a),
                );
                Went { steps: 2, cpu: after }
            }
        },
        TacInstructionView::Binary { .. } => lemma_binary_simulated(tac, pc, store, cpu),
        TacInstructionView::Copy { src, dst } => {
            let name = dst->Identifier_0;
            let a = read(src, store)->Some_0;
            lemma_load_mirrors(src, store, cpu.cells);
            lemma_part_index(code, at, part, 0);
            let after = lemma_mov_proceeds(code, at, operand_of(src), name, a, cpu);
            lemma_mirrors_update(after.cells, cpu.cells, store, name, a);
            Went { steps: 1, cpu: after }
        },
        TacInstructionView::Jump { label } => {
            lemma_part_index(code, at, part, 0);
            lemma_jump_target(tac, label, store);
            let target = jump(tac, label, store)->At_0;
            lemma_go_to_arrives(tac, label, target, cpu);
            assert(execute(code, at, cpu) == Running::At(built_start(tac, target as int), cpu));
            lemma_execute_then(code, at, cpu, built_start(tac, target as int), cpu, 0);
            Went { steps: 1, cpu }
        },
        TacInstructionView::JumpIfZero { .. } => lemma_branch_simulated(tac, pc, store, cpu),
        TacInstructionView::JumpIfNotZero { .. } => lemma_branch_simulated(tac, pc, store, cpu),
        TacInstructionView::Label { .. } => {
            lemma_part_index(code, at, part, 0);
            assert(execute(code, at, cpu) == Running::At(at + 1, cpu));
            lemma_execute_then(code, at, cpu, at + 1, cpu, 0);
            Went { steps: 1, cpu }
        },
    }
}

/// The assembly returns what the three-address code returns: where the
/// machine of the three-address code returns a value after some steps,
/// the processor, started at the code of the same instruction with every
/// name mirrored in its pseudo-register, returns the same value.
pub proof fn lemma_run_simulated(
    tac: Seq<TacInstructionView>,
    pc: nat,
    store: Store,
    steps: nat,
    cpu: Cpu,
) -> (went: nat)
    requires
        pc <= tac.len(),
        run(tac, pc, store, steps) is Returned,
        mirrors(cpu.cells, store),
        all_fresh(tac),
        can_build_all(tac),
    ensures
        proceed(build_code(tac), built_start(tac, pc as int), cpu, went) == Running::Returned(
            run(tac, pc, store, steps)->Returned_0,
        ),
    decreases steps,
{
    assert(steps > 0);
    assert(pc < tac.len());
    assert(has_fresh_destination(tac[pc as int]));
    assert(build_instruction(tac[pc as int]) is Ok);
    let first = lemma_step_simulated(tac, pc, store, cpu);
    match step(tac, pc, store) {
        Machine::At(next, after) => {
            let rest = lemma_run_simulated(tac, next, after, (steps - 1) as nat, first.cpu);
            lemma_proceed_on(
                build_code(tac),
                built_start(tac, pc as int),
                cpu,
                first.steps,
                built_start(tac, next as int),
                first.cpu,
                rest,
            );
            first.steps + rest
        },
        _ => first.steps,
    }
}

} // verus!
