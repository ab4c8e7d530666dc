//! Legal forms change nothing but scratch registers: the processor goes
//! through the legal form of every instruction and arrives where the
//! instruction itself would have taken it, with the same value in every
//! place but `R10`, `R11` and `CX`.
use vstd::prelude::*;
use crate::assembly::{BinaryOperator, InstructionView, OperandView, Reg};
use crate::legalize::{
    fix_code, is_shift, is_shift_count, is_two_address, legalize_code, legalize_instruction,
};
use crate::machine::{
    binary_operation, execute, go_to, holds, is_label_at, lemma_execute_then, lemma_proceed_on,
    load, proceed, register, Cpu, Running,
};
use crate::semantics::binary_value;
use crate::simulation::{holds_part, lemma_part_index};

verus! {

/// Whether the operand is one of the registers that legal forms use on
/// the way: `R10`, `R11` or `CX`.
pub open spec fn is_scratch(o: OperandView) -> bool {
    o == register(Reg::R10) || o == register(Reg::R11) || o == register(Reg::CX)
}

/// Whether no operand of the instruction is a scratch register.
pub open spec fn uses_no_scratch(i: InstructionView) -> bool {
    match i {
        InstructionView::Mov(src, dst) => !is_scratch(src) && !is_scratch(dst),
        InstructionView::Binary(_, src, dst) => !is_scratch(src) && !is_scratch(dst),
        InstructionView::Cmp(src, dst) => !is_scratch(src) && !is_scratch(dst),
        InstructionView::Unary(_, dst) => !is_scratch(dst),
        InstructionView::Idiv(src) => !is_scratch(src),
        InstructionView::SetCC(_, dst) => !is_scratch(dst),
        _ => true,
    }
}

/// Whether no operand of the code is a scratch register.
pub open spec fn all_without_scratch(code: Seq<InstructionView>) -> bool {
    forall|i: int| 0 <= i < code.len() ==> uses_no_scratch(#[trigger] code[i])
}

/// Whether the two states hold the same in every place but the scratch
/// registers, and the same flags.
pub open spec fn alike(legal: Cpu, cpu: Cpu) -> bool {
    &&& legal.compared == cpu.compared
    &&& forall|o: OperandView|
        !is_scratch(o) ==> (#[trigger] legal.cells.contains_key(o)) == cpu.cells.contains_key(o)
            && (cpu.cells.contains_key(o) ==> legal.cells[o] == cpu.cells[o])
}

/// The state with a value in a place.
pub open spec fn with_value(cpu: Cpu, o: OperandView, v: i32) -> Cpu {
    Cpu { cells: cpu.cells.insert(o, v), compared: cpu.compared }
}

/// The state with a value in a place and the flags overwritten.
pub open spec fn with_result(cpu: Cpu, o: OperandView, v: i32) -> Cpu {
    Cpu { cells: cpu.cells.insert(o, v), compared: None }
}

/// An operand that is no scratch register has the same value in alike
/// states.
pub proof fn lemma_load_alike(o: OperandView, legal: Cpu, cpu: Cpu)
    requires
        alike(legal, cpu),
        !is_scratch(o),
    ensures
        load(o, legal.cells) == load(o, cpu.cells),
{
    assert(legal.cells.contains_key(o) == cpu.cells.contains_key(o));
}

/// The state with the flags overwritten.
pub open spec fn with_flags(cpu: Cpu, compared: Option<(i32, i32)>) -> Cpu {
    Cpu { cells: cpu.cells, compared }
}

/// The same value in the same place keeps states alike.
pub proof fn lemma_store_alike(o: OperandView, v: i32, legal: Cpu, cpu: Cpu)
    requires
        alike(legal, cpu),
    ensures
        alike(with_value(legal, o, v), with_value(cpu, o, v)),
        alike(with_result(legal, o, v), with_result(cpu, o, v)),
{
    let l2 = legal.cells.insert(o, v);
    let c2 = cpu.cells.insert(o, v);
    assert forall|p: OperandView| !is_scratch(p) implies (#[trigger] l2.contains_key(p))
        == c2.contains_key(p) && (c2.contains_key(p) ==> l2[p] == c2[p]) by {
        assert(legal.cells.contains_key(p) == cpu.cells.contains_key(p));
    }
}

/// A value in a scratch register keeps states alike.
pub proof fn lemma_scratch_alike(o: OperandView, v: i32, legal: Cpu, cpu: Cpu)
    requires
        alike(legal, cpu),
        is_scratch(o),
    ensures
        alike(with_value(legal, o, v), cpu),
        alike(with_result(legal, o, v), with_flags(cpu, None)),
{
    let l2 = legal.cells.insert(o, v);
    assert forall|p: OperandView| !is_scratch(p) implies (#[trigger] l2.contains_key(p))
        == cpu.cells.contains_key(p) && (cpu.cells.contains_key(p) ==> l2[p] == cpu.cells[p]) by {
        assert(legal.cells.contains_key(p) == cpu.cells.contains_key(p));
    }
}

/// The same flags keep states alike.
pub proof fn lemma_flags_alike(compared: Option<(i32, i32)>, legal: Cpu, cpu: Cpu)
    requires
        alike(legal, cpu),
    ensures
        alike(with_flags(legal, compared), with_flags(cpu, compared)),
{
}

/// The position where the legal form of instruction number `i` starts,
/// behind the allocation of the frame.
pub open spec fn legal_start(code: Seq<InstructionView>, i: int) -> nat {
    1 + legalize_code(code.subrange(0, i)).len()
}

/// The legal form of every instruction stands in the fixed code, behind
/// the legal forms of the instructions before it.
pub proof fn lemma_legal_segment(code: Seq<InstructionView>, size: i32, i: int)
    requires
        0 <= i < code.len(),
    ensures
        holds_part(fix_code(code, size), legal_start(code, i), legalize_instruction(code[i])),
        legal_start(code, i + 1) == legal_start(code, i) + legalize_instruction(code[i]).len(),
        legal_start(code, code.len() as int) == fix_code(code, size).len(),
        legalize_instruction(code[i]).len() > 0,
    decreases code.len(),
{
    let earlier = code.drop_last();
    let before = legalize_code(earlier);
    let last = legalize_instruction(code.last());
    let first = seq![InstructionView::AllocateStack(size)];
    assert(code.subrange(0, code.len() as int) =~= code);
    assert(code.subrange(0, code.len() - 1) =~= earlier);
    assert(legalize_code(code) == before + last);
    let fixed = fix_code(code, size);
    let base = legal_start(code, i);
    let part = legalize_instruction(code[i]);
    if i == code.len() - 1 {
        assert(fixed.subrange(base as int, (base + part.len()) as int) =~= part);
    } else {
        lemma_legal_segment(earlier, size, i);
        assert(earlier.subrange(0, i) =~= code.subrange(0, i));
        assert(earlier.subrange(0, i + 1) =~= code.subrange(0, i + 1));
        assert(earlier[i] == code[i]);
        assert(fixed.subrange(base as int, (base + part.len()) as int) =~= fix_code(
            earlier,
            size,
        ).subrange(base as int, (base + part.len()) as int));
    }
}

/// A later instruction starts no earlier in the fixed code.
pub proof fn lemma_legal_start_grows(code: Seq<InstructionView>, i: int, j: int)
    requires
        0 <= i <= j <= code.len(),
    ensures
        legal_start(code, i) <= legal_start(code, j),
    decreases j - i,
{
    if i < j {
        lemma_legal_segment(code, 0, j - 1);
        lemma_legal_start_grows(code, i, j - 1);
    }
}

/// Every label of the fixed code is the legal form of a label.
pub proof fn lemma_legal_label_origin(
    code: Seq<InstructionView>,
    size: i32,
    at: int,
    label: Seq<char>,
) -> (i: int)
    requires
        0 <= at < fix_code(code, size).len(),
        fix_code(code, size)[at] == InstructionView::Label(label),
    ensures
        0 <= i < code.len(),
        at == legal_start(code, i),
        code[i] == InstructionView::Label(label),
    decreases code.len(),
{
    let earlier = code.drop_last();
    let before = legalize_code(earlier);
    let last = legalize_instruction(code.last());
    let first = seq![InstructionView::AllocateStack(size)];
    if code.len() == 0 {
        assert(fix_code(code, size) =~= first);
        0
    } else {
        assert(legalize_code(code) == before + last);
        assert(code.subrange(0, code.len() - 1) =~= earlier);
        if at < 1 + before.len() {
            assert(fix_code(code, size)[at] == fix_code(earlier, size)[at]);
            let i = lemma_legal_label_origin(earlier, size, at, label);
            assert(earlier.subrange(0, i) =~= code.subrange(0, i));
            assert(earlier[i] == code[i]);
            i
        } else {
            assert(fix_code(code, size)[at] == last[at - 1 - before.len()]);
            code.len() - 1
        }
    }
}

/// A jump arrives in the fixed code at the legal form of the label where
/// it arrived before.
pub proof fn lemma_go_to_legal(
    code: Seq<InstructionView>,
    size: i32,
    label: Seq<char>,
    cpu: Cpu,
    legal: Cpu,
)
    requires
        go_to(code, label, cpu) !is Stuck,
    ensures
        go_to(code, label, cpu) matches Running::At(target, after) && after == cpu && target
            < code.len() && go_to(fix_code(code, size), label, legal) == Running::At(
            legal_start(code, target as int),
            legal,
        ),
{
    let target = choose|at: nat| is_label_at(code, label, at);
    let fixed = fix_code(code, size);
    let at = legal_start(code, target as int);
    lemma_legal_segment(code, size, target as int);
    lemma_part_index(fixed, at, legalize_instruction(code[target as int]), 0);
    assert(is_label_at(fixed, label, at)) by {
        assert forall|j: int| 0 <= j < at implies #[trigger] fixed[j] != InstructionView::Label(
            label,
        ) by {
            if fixed[j] == InstructionView::Label(label) {
                let i = lemma_legal_label_origin(code, size, j, label);
                if i < target {
                    assert(code[i] != InstructionView::Label(label));
                } else {
                    lemma_legal_start_grows(code, target as int, i);
                }
            }
        }
    }
    let found = choose|found: nat| is_label_at(fixed, label, found);
    if found < at {
        assert(fixed[found as int] != InstructionView::Label(label));
    } else if found > at {
        assert(fixed[at as int] != InstructionView::Label(label));
    }
}

/// How the processor went: the number of instructions and its state
/// behind them.
pub ghost struct Gone {
    pub steps: nat,
    pub cpu: Cpu,
}

/// Whether the way `gone` through the fixed code does what the
/// instruction at `pc`, which leaves the processor as `left`, does.
pub open spec fn follows(
    code: Seq<InstructionView>,
    size: i32,
    pc: nat,
    legal: Cpu,
    left: Running,
    gone: Gone,
) -> bool {
    let fixed = fix_code(code, size);
    let start = legal_start(code, pc as int);
    match left {
        Running::At(next, after) => {
            &&& next <= code.len()
            &&& proceed(fixed, start, legal, gone.steps) == Running::At(
                legal_start(code, next as int),
                gone.cpu,
            )
            &&& alike(gone.cpu, after)
        },
        Running::Returned(v) => proceed(fixed, start, legal, gone.steps) == Running::Returned(v),
        Running::Stuck => true,
    }
}

/// Whether the instruction goes on with the next one: it is no jump.
pub open spec fn is_straight(i: InstructionView) -> bool {
    !(i is Jmp) && !(i is JmpCC)
}

/// An instruction that is no jump does the same in alike states,
/// wherever it stands.
pub proof fn lemma_kept_executes(
    code: Seq<InstructionView>,
    pc: nat,
    cpu: Cpu,
    fixed: Seq<InstructionView>,
    at: nat,
    legal: Cpu,
) -> (after: Cpu)
    requires
        pc < code.len(),
        at < fixed.len(),
        fixed[at as int] == code[pc as int],
        is_straight(code[pc as int]),
        uses_no_scratch(code[pc as int]),
        alike(legal, cpu),
        execute(code, pc, cpu) !is Stuck,
    ensures
        match execute(code, pc, cpu) {
            Running::At(next, cpu2) => next == pc + 1 && execute(fixed, at, legal) == Running::At(
                at + 1,
                after,
            ) && alike(after, cpu2),
            Running::Returned(v) => execute(fixed, at, legal) == Running::Returned(v),
            Running::Stuck => true,
        },
{
    let ax = register(Reg::AX);
    let dx = register(Reg::DX);
    match code[pc as int] {
        InstructionView::Mov(src, dst) => {
            lemma_load_alike(src, legal, cpu);
            let v = load(src, cpu.cells)->Some_0;
            lemma_store_alike(dst, v, legal, cpu);
            assert(execute(code, pc, cpu) == Running::At(pc + 1, with_value(cpu, dst, v)));
            with_value(legal, dst, v)
        },
        InstructionView::Unary(_, dst) => {
            lemma_load_alike(dst, legal, cpu);
            let v = execute(code, pc, cpu)->At_1.cells[dst];
            lemma_store_alike(dst, v, legal, cpu);
            assert(execute(code, pc, cpu) == Running::At(pc + 1, with_result(cpu, dst, v)));
            with_result(legal, dst, v)
        },
        InstructionView::Binary(_, src, dst) => {
            lemma_load_alike(src, legal, cpu);
            lemma_load_alike(dst, legal, cpu);
            let v = execute(code, pc, cpu)->At_1.cells[dst];
            lemma_store_alike(dst, v, legal, cpu);
            assert(execute(code, pc, cpu) == Running::At(pc + 1, with_result(cpu, dst, v)));
            with_result(legal, dst, v)
        },
        InstructionView::Cmp(src, dst) => {
            lemma_load_alike(src, legal, cpu);
            lemma_load_alike(dst, legal, cpu);
            let compared = execute(code, pc, cpu)->At_1.compared;
            lemma_flags_alike(compared, legal, cpu);
            assert(execute(code, pc, cpu) == Running::At(pc + 1, with_flags(cpu, compared)));
            with_flags(legal, compared)
        },
        InstructionView::Idiv(src) => {
            lemma_load_alike(src, legal, cpu);
            lemma_load_alike(ax, legal, cpu);
            lemma_load_alike(dx, legal, cpu);
            let cells2 = execute(code, pc, cpu)->At_1.cells;
            let q = cells2[ax];
            let r = cells2[dx];
            lemma_store_alike(ax, q, legal, cpu);
            lemma_store_alike(dx, r, with_value(legal, ax, q), with_value(cpu, ax, q));
            assert(execute(code, pc, cpu) == Running::At(
                pc + 1,
                with_result(with_value(cpu, ax, q), dx, r),
            ));
            with_result(with_value(legal, ax, q), dx, r)
        },
        InstructionView::Cdq => {
            lemma_load_alike(ax, legal, cpu);
            let v = execute(code, pc, cpu)->At_1.cells[dx];
            lemma_store_alike(dx, v, legal, cpu);
            assert(execute(code, pc, cpu) == Running::At(pc + 1, with_value(cpu, dx, v)));
            with_value(legal, dx, v)
        },
        InstructionView::SetCC(cc, dst) => {
            let t = crate::semantics::truth(holds(cc, cpu.compared->Some_0));
            lemma_store_alike(dst, t, legal, cpu);
            lemma_store_alike(ax, t, with_value(legal, dst, t), with_value(cpu, dst, t));
            assert(execute(code, pc, cpu) == Running::At(
                pc + 1,
                with_value(with_value(cpu, dst, t), ax, t),
            ));
            with_value(with_value(legal, dst, t), ax, t)
        },
        InstructionView::Ret => {
            lemma_load_alike(ax, legal, cpu);
            legal
        },
        _ => legal,
    }
}

/// The legal form of an instruction that stays as it is does what the
/// instruction does.
pub proof fn lemma_kept_follows(
    code: Seq<InstructionView>,
    size: i32,
    pc: nat,
    cpu: Cpu,
    legal: Cpu,
) -> (gone: Gone)
    requires
        pc < code.len(),
        legalize_instruction(code[pc as int]) == seq![code[pc as int]],
        uses_no_scratch(code[pc as int]),
        alike(legal, cpu),
        execute(code, pc, cpu) !is Stuck,
    ensures
        follows(code, size, pc, legal, execute(code, pc, cpu), gone),
{
    let fixed = fix_code(code, size);
    let at = legal_start(code, pc as int);
    lemma_legal_segment(code, size, pc as int);
    lemma_part_index(fixed, at, legalize_instruction(code[pc as int]), 0);
    match code[pc as int] {
        InstructionView::Jmp(label) => {
            lemma_go_to_legal(code, size, label, cpu, legal);
            let target = legal_start(code, go_to(code, label, cpu)->At_0 as int);
            assert(execute(fixed, at, legal) == Running::At(target, legal));
            lemma_execute_then(fixed, at, legal, target, legal, 0);
            Gone { steps: 1, cpu: legal }
        },
        InstructionView::JmpCC(cc, label) => {
            let target = if holds(cc, cpu.compared->Some_0) {
                lemma_go_to_legal(code, size, label, cpu, legal);
                legal_start(code, go_to(code, label, cpu)->At_0 as int)
            } else {
                at + 1
            };
            assert(execute(fixed, at, legal) == Running::At(target, legal));
            lemma_execute_then(fixed, at, legal, target, legal, 0);
            Gone { steps: 1, cpu: legal }
        },
        _ => {
            let after = lemma_kept_executes(code, pc, cpu, fixed, at, legal);
            if execute(code, pc, cpu) is At {
                lemma_execute_then(fixed, at, legal, at + 1, after, 0);
            } else {
                assert(proceed(fixed, at, legal, 1) == execute(fixed, at, legal));
            }
            Gone { steps: 1, cpu: after }
        },
    }
}

/// A value that goes to a place through a scratch register arrives as
/// if it had gone there directly.
pub proof fn lemma_through_scratch(
    fixed: Seq<InstructionView>,
    at: nat,
    src: OperandView,
    scratch: OperandView,
    dst: OperandView,
    v: i32,
    legal: Cpu,
    cpu: Cpu,
) -> (after: Cpu)
    requires
        at + 1 < fixed.len(),
        fixed[at as int] == InstructionView::Mov(src, scratch),
        fixed[(at + 1) as int] == InstructionView::Mov(scratch, dst),
        is_scratch(scratch),
        !is_scratch(src),
        !(dst is Imm),
        alike(legal, cpu),
        load(src, cpu.cells) == Some(v),
    ensures
        proceed(fixed, at, legal, 2) == Running::At(at + 2, after),
        alike(after, with_value(cpu, dst, v)),
{
    lemma_load_alike(src, legal, cpu);
    let mid = with_value(legal, scratch, v);
    let after = with_value(mid, dst, v);
    assert(execute(fixed, at, legal) == Running::At(at + 1, mid));
    assert(execute(fixed, at + 1, mid) == Running::At(at + 2, after));
    lemma_execute_then(fixed, at + 1, mid, at + 2, after, 0);
    lemma_execute_then(fixed, at, legal, at + 1, mid, 1);
    lemma_scratch_alike(scratch, v, legal, cpu);
    lemma_store_alike(dst, v, mid, cpu);
    after
}

/// An operation whose source goes through a scratch register has the
/// result that it has on the source itself.
pub proof fn lemma_source_through_scratch(
    fixed: Seq<InstructionView>,
    at: nat,
    op: BinaryOperator,
    src: OperandView,
    scratch: OperandView,
    dst: OperandView,
    a: i32,
    b: i32,
    v: i32,
    legal: Cpu,
    cpu: Cpu,
) -> (after: Cpu)
    requires
        at + 1 < fixed.len(),
        fixed[at as int] == InstructionView::Mov(src, scratch),
        fixed[(at + 1) as int] == InstructionView::Binary(op, scratch, dst),
        is_scratch(scratch),
        !is_scratch(src),
        !is_scratch(dst),
        !(dst is Imm),
        alike(legal, cpu),
        load(dst, cpu.cells) == Some(a),
        load(src, cpu.cells) == Some(b),
        binary_value(binary_operation(op), a, b) == Some(v),
    ensures
        proceed(fixed, at, legal, 2) == Running::At(at + 2, after),
        alike(after, with_result(cpu, dst, v)),
{
    lemma_load_alike(src, legal, cpu);
    lemma_load_alike(dst, legal, cpu);
    let mid = with_value(legal, scratch, b);
    let after = with_result(mid, dst, v);
    assert(execute(fixed, at, legal) == Running::At(at + 1, mid));
    assert(load(dst, mid.cells) == Some(a));
    assert(execute(fixed, at + 1, mid) == Running::At(at + 2, after));
    lemma_execute_then(fixed, at + 1, mid, at + 2, after, 0);
    lemma_execute_then(fixed, at, legal, at + 1, mid, 1);
    lemma_scratch_alike(scratch, b, legal, cpu);
    lemma_store_alike(dst, v, mid, cpu);
    after
}

/// A product formed in `R11` and moved to its place is the product
/// formed in place.
pub proof fn lemma_product_in_scratch(
    fixed: Seq<InstructionView>,
    at: nat,
    src: OperandView,
    dst: OperandView,
    a: i32,
    b: i32,
    v: i32,
    legal: Cpu,
    cpu: Cpu,
) -> (after: Cpu)
    requires
        at + 2 < fixed.len(),
        fixed[at as int] == InstructionView::Mov(dst, register(Reg::R11)),
        fixed[(at + 1) as int] == InstructionView::Binary(
            BinaryOperator::Mul,
            src,
            register(Reg::R11),
        ),
        fixed[(at + 2) as int] == InstructionView::Mov(register(Reg::R11), dst),
        src != register(Reg::R11),
        !is_scratch(dst),
        !(dst is Imm),
        alike(legal, cpu),
        load(dst, legal.cells) == Some(a),
        load(src, legal.cells) == Some(b),
        binary_value(binary_operation(BinaryOperator::Mul), a, b) == Some(v),
    ensures
        proceed(fixed, at, legal, 3) == Running::At(at + 3, after),
        alike(after, with_result(cpu, dst, v)),
{
    let r11 = register(Reg::R11);
    let s1 = with_value(legal, r11, a);
    let s2 = with_result(s1, r11, v);
    let after = with_value(s2, dst, v);
    assert(execute(fixed, at, legal) == Running::At(at + 1, s1));
    assert(load(src, s1.cells) == Some(b));
    assert(execute(fixed, at + 1, s1) == Running::At(at + 2, s2));
    assert(execute(fixed, at + 2, s2) == Running::At(at + 3, after));
    lemma_execute_then(fixed, at + 2, s2, at + 3, after, 0);
    lemma_execute_then(fixed, at + 1, s1, at + 2, s2, 1);
    lemma_execute_then(fixed, at, legal, at + 1, s1, 2);
    lemma_scratch_alike(r11, a, legal, cpu);
    lemma_scratch_alike(r11, v, s1, cpu);
    lemma_store_alike(dst, v, s2, with_flags(cpu, None));
    assert(with_value(with_flags(cpu, None), dst, v) == with_result(cpu, dst, v));
    after
}

/// A division by a constant that went to `R10` is the division by the
/// constant.
pub proof fn lemma_divisor_in_scratch(
    code: Seq<InstructionView>,
    pc: nat,
    fixed: Seq<InstructionView>,
    at: nat,
    k: i32,
    legal: Cpu,
    cpu: Cpu,
) -> (after: Cpu)
    requires
        pc < code.len(),
        code[pc as int] == InstructionView::Idiv(OperandView::Imm(k)),
        at + 1 < fixed.len(),
        fixed[at as int] == InstructionView::Mov(OperandView::Imm(k), register(Reg::R10)),
        fixed[(at + 1) as int] == InstructionView::Idiv(register(Reg::R10)),
        alike(legal, cpu),
        execute(code, pc, cpu) !is Stuck,
    ensures
        execute(code, pc, cpu) matches Running::At(next, cpu2) && next == pc + 1 && proceed(
            fixed,
            at,
            legal,
            2,
        ) == Running::At(at + 2, after) && alike(after, cpu2),
{
    let ax = register(Reg::AX);
    let dx = register(Reg::DX);
    let r10 = register(Reg::R10);
    lemma_load_alike(ax, legal, cpu);
    lemma_load_alike(dx, legal, cpu);
    let cells2 = execute(code, pc, cpu)->At_1.cells;
    let q = cells2[ax];
    let r = cells2[dx];
    let mid = with_value(legal, r10, k);
    let after = with_result(with_value(mid, ax, q), dx, r);
    assert(execute(code, pc, cpu) == Running::At(pc + 1, with_result(with_value(cpu, ax, q), dx, r)));
    assert(execute(fixed, at, legal) == Running::At(at + 1, mid));
    assert(load(ax, mid.cells) == load(ax, cpu.cells));
    assert(load(dx, mid.cells) == load(dx, cpu.cells));
    assert(execute(fixed, at + 1, mid) == Running::At(at + 2, after));
    lemma_execute_then(fixed, at + 1, mid, at + 2, after, 0);
    lemma_execute_then(fixed, at, legal, at + 1, mid, 1);
    lemma_scratch_alike(r10, k, legal, cpu);
    lemma_store_alike(ax, q, mid, cpu);
    lemma_store_alike(dx, r, with_value(mid, ax, q), with_value(cpu, ax, q));
    after
}

/// A comparison whose one operand went to a scratch register is the
/// comparison of the operands themselves.
pub proof fn lemma_compare_through_scratch(
    fixed: Seq<InstructionView>,
    at: nat,
    source_moves: bool,
    scratch: OperandView,
    src: OperandView,
    dst: OperandView,
    a: i32,
    b: i32,
    legal: Cpu,
    cpu: Cpu,
) -> (after: Cpu)
    requires
        at + 1 < fixed.len(),
        fixed[at as int] == InstructionView::Mov(
            if source_moves {
                src
            } else {
                dst
            },
            scratch,
        ),
        fixed[(at + 1) as int] == InstructionView::Cmp(
            if source_moves {
                scratch
            } else {
                src
            },
            if source_moves {
                dst
            } else {
                scratch
            },
        ),
        is_scratch(scratch),
        !is_scratch(src),
        !is_scratch(dst),
        alike(legal, cpu),
        load(dst, cpu.cells) == Some(a),
        load(src, cpu.cells) == Some(b),
    ensures
        proceed(fixed, at, legal, 2) == Running::At(at + 2, after),
        alike(after, with_flags(cpu, Some((a, b)))),
{
    lemma_load_alike(src, legal, cpu);
    lemma_load_alike(dst, legal, cpu);
    let v = if source_moves {
        b
    } else {
        a
    };
    let mid = with_value(legal, scratch, v);
    let after = with_flags(mid, Some((a, b)));
    assert(execute(fixed, at, legal) == Running::At(at + 1, mid));
    assert(load(src, mid.cells) == Some(b));
    assert(load(dst, mid.cells) == Some(a));
    assert(execute(fixed, at + 1, mid) == Running::At(at + 2, after));
    lemma_execute_then(fixed, at + 1, mid, at + 2, after, 0);
    lemma_execute_then(fixed, at, legal, at + 1, mid, 1);
    lemma_scratch_alike(scratch, v, legal, cpu);
    lemma_flags_alike(Some((a, b)), mid, cpu);
    after
}

/// The legal form of a binary instruction does what the instruction does.
pub proof fn lemma_legal_binary(
    code: Seq<InstructionView>,
    size: i32,
    pc: nat,
    cpu: Cpu,
    legal: Cpu,
) -> (gone: Gone)
    requires
        pc < code.len(),
        code[pc as int] is Binary,
        uses_no_scratch(code[pc as int]),
        alike(legal, cpu),
        execute(code, pc, cpu) !is Stuck,
    ensures
        follows(code, size, pc, legal, execute(code, pc, cpu), gone),
{
    let fixed = fix_code(code, size);
    let at = legal_start(code, pc as int);
    let part = legalize_instruction(code[pc as int]);
    lemma_legal_segment(code, size, pc as int);
    if let InstructionView::Binary(op, src, dst) = code[pc as int] {
        let a = load(dst, cpu.cells)->Some_0;
        let b = load(src, cpu.cells)->Some_0;
        let v = binary_value(binary_operation(op), a, b)->Some_0;
        assert(execute(code, pc, cpu) == Running::At(pc + 1, with_result(cpu, dst, v)));
        if is_two_address(op) && src is Stack && dst is Stack {
            lemma_part_index(fixed, at, part, 0);
            lemma_part_index(fixed, at, part, 1);
            let after = lemma_source_through_scratch(
                fixed,
                at,
                op,
                src,
                register(Reg::R10),
                dst,
                a,
                b,
                v,
                legal,
                cpu,
            );
            Gone { steps: 2, cpu: after }
        } else if op == BinaryOperator::Mul && dst is Stack {
            lemma_load_alike(src, legal, cpu);
            lemma_load_alike(dst, legal, cpu);
            if src is Stack {
                lemma_part_index(fixed, at, part, 0);
                lemma_part_index(fixed, at, part, 1);
                lemma_part_index(fixed, at, part, 2);
                lemma_part_index(fixed, at, part, 3);
                let r10 = register(Reg::R10);
                let first = with_value(legal, r10, b);
                assert(execute(fixed, at, legal) == Running::At(at + 1, first));
                lemma_scratch_alike(r10, b, legal, cpu);
                lemma_load_alike(dst, first, cpu);
                let after = lemma_product_in_scratch(fixed, at + 1, r10, dst, a, b, v, first, cpu);
                lemma_execute_then(fixed, at, legal, at + 1, first, 3);
                Gone { steps: 4, cpu: after }
            } else {
                lemma_part_index(fixed, at, part, 0);
                lemma_part_index(fixed, at, part, 1);
                lemma_part_index(fixed, at, part, 2);
                let after = lemma_product_in_scratch(fixed, at, src, dst, a, b, v, legal, cpu);
                Gone { steps: 3, cpu: after }
            }
        } else if is_shift(op) && dst is Stack && !is_shift_count(src) {
            lemma_part_index(fixed, at, part, 0);
            lemma_part_index(fixed, at, part, 1);
            let after = lemma_source_through_scratch(
                fixed,
                at,
                op,
                src,
                register(Reg::CX),
                dst,
                a,
                b,
                v,
                legal,
                cpu,
            );
            Gone { steps: 2, cpu: after }
        } else {
            lemma_kept_follows(code, size, pc, cpu, legal)
        }
    } else {
        Gone { steps: 0, cpu: legal }
    }
}

/// The legal form of an instruction does what the instruction does:
/// the processor goes through it and arrives where the instruction would
/// have taken it, in a state that is alike but for scratch registers.
pub proof fn lemma_legal_step(
    code: Seq<InstructionView>,
    size: i32,
    pc: nat,
    cpu: Cpu,
    legal: Cpu,
) -> (gone: Gone)
    requires
        pc < code.len(),
        uses_no_scratch(code[pc as int]),
        alike(legal, cpu),
        execute(code, pc, cpu) !is Stuck,
    ensures
        follows(code, size, pc, legal, execute(code, pc, cpu), gone),
{
    let fixed = fix_code(code, size);
    let at = legal_start(code, pc as int);
    let part = legalize_instruction(code[pc as int]);
    lemma_legal_segment(code, size, pc as int);
    match code[pc as int] {
        InstructionView::Mov(src, dst) => {
            if src is Stack && dst is Stack {
                lemma_part_index(fixed, at, part, 0);
                lemma_part_index(fixed, at, part, 1);
                let v = load(src, cpu.cells)->Some_0;
                assert(execute(code, pc, cpu) == Running::At(pc + 1, with_value(cpu, dst, v)));
                let after = lemma_through_scratch(
                    fixed,
                    at,
                    src,
                    register(Reg::R10),
                    dst,
                    v,
                    legal,
                    cpu,
                );
                Gone { steps: 2, cpu: after }
            } else {
                lemma_kept_follows(code, size, pc, cpu, legal)
            }
        },
        InstructionView::Binary(_, _, _) => lemma_legal_binary(code, size, pc, cpu, legal),
        InstructionView::Idiv(src) => {
            if let OperandView::Imm(k) = src {
                lemma_part_index(fixed, at, part, 0);
                lemma_part_index(fixed, at, part, 1);
                let after = lemma_divisor_in_scratch(code, pc, fixed, at, k, legal, cpu);
                Gone { steps: 2, cpu: after }
            } else {
                lemma_kept_follows(code, size, pc, cpu, legal)
            }
        },
        InstructionView::Cmp(src, dst) => {
            let a = load(dst, cpu.cells)->Some_0;
            let b = load(src, cpu.cells)->Some_0;
            assert(execute(code, pc, cpu) == Running::At(pc + 1, with_flags(cpu, Some((a, b)))));
            if src is Stack && dst is Stack {
                lemma_part_index(fixed, at, part, 0);
                lemma_part_index(fixed, at, part, 1);
                let after = lemma_compare_through_scratch(
                    fixed,
                    at,
                    true,
                    register(Reg::R10),
                    src,
                    dst,
                    a,
                    b,
                    legal,
                    cpu,
                );
                Gone { steps: 2, cpu: after }
            } else if dst is Imm {
                lemma_part_index(fixed, at, part, 0);
                lemma_part_index(fixed, at, part, 1);
                let after = lemma_compare_through_scratch(
                    fixed,
                    at,
                    false,
                    register(Reg::R11),
                    src,
                    dst,
                    a,
                    b,
                    legal,
                    cpu,
                );
                Gone { steps: 2, cpu: after }
            } else {
                lemma_kept_follows(code, size, pc, cpu, legal)
            }
        },
        _ => lemma_kept_follows(code, size, pc, cpu, legal),
    }
}

/// The fixed code returns what the code returns: where the processor
/// returns a value from the code, it returns the same value from the
/// code with the frame allocated and every instruction in a legal form.
pub proof fn lemma_legal_run(
    code: Seq<InstructionView>,
    size: i32,
    pc: nat,
    cpu: Cpu,
    legal: Cpu,
    steps: nat,
) -> (gone: nat)
    requires
        pc <= code.len(),
        all_without_scratch(code),
        alike(legal, cpu),
        proceed(code, pc, cpu, steps) is Returned,
    ensures
        proceed(fix_code(code, size), legal_start(code, pc as int), legal, gone) == proceed(
            code,
            pc,
            cpu,
            steps,
        ),
    decreases steps,
{
    assert(steps > 0);
    assert(pc < code.len());
    assert(uses_no_scratch(code[pc as int]));
    let first = lemma_legal_step(code, size, pc, cpu, legal);
    match execute(code, pc, cpu) {
        Running::At(next, cpu2) => {
            let rest = lemma_legal_run(code, size, next, cpu2, first.cpu, (steps - 1) as nat);
            lemma_proceed_on(
                fix_code(code, size),
                legal_start(code, pc as int),
                legal,
                first.steps,
                legal_start(code, next as int),
                first.cpu,
                rest,
            );
            first.steps + rest
        },
        _ => first.steps,
    }
}

/// The fixed code, run from its first instruction, returns what the code
/// returns, run from its first.
pub proof fn lemma_fixed_returns(
    code: Seq<InstructionView>,
    size: i32,
    cpu: Cpu,
    steps: nat,
) -> (gone: nat)
    requires
        all_without_scratch(code),
        proceed(code, 0, cpu, steps) is Returned,
    ensures
        proceed(fix_code(code, size), 0, cpu, gone) == proceed(code, 0, cpu, steps),
{
    let fixed = fix_code(code, size);
    let rest = lemma_legal_run(code, size, 0, cpu, cpu, steps);
    assert(code.subrange(0, 0) =~= Seq::<InstructionView>::empty());
    assert(legal_start(code, 0) == 1);
    assert(fixed[0] == InstructionView::AllocateStack(size));
    assert(execute(fixed, 0, cpu) == Running::At(1, cpu));
    lemma_execute_then(fixed, 0, cpu, 1, cpu, rest);
    rest + 1
}

} // verus!
