//! Stack slots in place of pseudo-registers change nothing: the
//! processor does with every slot what it did with the pseudo-register
//! that the slot stands for.
use vstd::prelude::*;
use crate::assembly::{build_code, build_instruction, InstructionView, OperandView, Reg};
use crate::legality::{all_without_scratch, uses_no_scratch};
use crate::tac::InstructionView as TacInstructionView;
use crate::machine::{execute, go_to, is_label_at, load, proceed, register, Cells, Cpu, Running};
use crate::pseudo::{
    instruction_covered, operand_covered, place_code, place_instruction, place_operand,
    slots_in_order, Slots, MAX_SLOTS,
};

verus! {

/// Whether the operand is an immediate, a register, or a
/// pseudo-register.
pub open spec fn is_unplaced(o: OperandView) -> bool {
    !(o is Stack)
}

/// Whether no operand of the instruction is a stack slot.
pub open spec fn has_no_slot(i: InstructionView) -> bool {
    match i {
        InstructionView::Mov(src, dst) => is_unplaced(src) && is_unplaced(dst),
        InstructionView::Binary(_, src, dst) => is_unplaced(src) && is_unplaced(dst),
        InstructionView::Cmp(src, dst) => is_unplaced(src) && is_unplaced(dst),
        InstructionView::Unary(_, dst) => is_unplaced(dst),
        InstructionView::Idiv(src) => is_unplaced(src),
        InstructionView::SetCC(_, dst) => is_unplaced(dst),
        _ => true,
    }
}

/// Whether no operand of the code is a stack slot.
pub open spec fn all_unplaced(code: Seq<InstructionView>) -> bool {
    forall|i: int| 0 <= i < code.len() ==> has_no_slot(#[trigger] code[i])
}

/// Whether the slots are in order and their offsets fit in 32 bits.
pub open spec fn slots_fit(slots: Slots) -> bool {
    slots_in_order(slots) && slots.len() <= MAX_SLOTS
}

/// Whether `placed` holds in every register what `cells` holds in it,
/// and in every slot what `cells` holds in the pseudo-register that the
/// slot stands for.
pub open spec fn stands_for(placed: Cells, cells: Cells, slots: Slots) -> bool {
    &&& forall|r: Reg| #[trigger]
        placed.contains_key(register(r)) == cells.contains_key(register(r)) && (
        cells.contains_key(register(r)) ==> placed[register(r)] == cells[register(r)])
    &&& forall|x: Seq<char>| #[trigger]
        slots.contains_key(x) ==> placed.contains_key(OperandView::Stack(slots[x] as i32))
            == cells.contains_key(OperandView::Pseudo(x)) && (cells.contains_key(
            OperandView::Pseudo(x),
        ) ==> placed[OperandView::Stack(slots[x] as i32)] == cells[OperandView::Pseudo(x)])
}

/// The slot of a pseudo-register fits in 32 bits.
pub proof fn lemma_slot_fits(slots: Slots, x: Seq<char>)
    requires
        slots_fit(slots),
        slots.contains_key(x),
    ensures
        i32::MIN <= slots[x] <= -4,
        (slots[x] as i32) as int == slots[x],
{
    let k = choose|k: nat| k < slots.len() && slots[x] == crate::pseudo::slot_offset(k);
}

/// Different pseudo-registers have different slots, also as 32-bit
/// offsets.
pub proof fn lemma_slots_apart(slots: Slots, x: Seq<char>, y: Seq<char>)
    requires
        slots_fit(slots),
        slots.contains_key(x),
        slots.contains_key(y),
        x != y,
    ensures
        slots[x] as i32 != slots[y] as i32,
{
    lemma_slot_fits(slots, x);
    lemma_slot_fits(slots, y);
}

/// A covered operand without a slot of its own has, once placed, the
/// value that it had.
pub proof fn lemma_load_placed(o: OperandView, placed: Cells, cells: Cells, slots: Slots)
    requires
        stands_for(placed, cells, slots),
        is_unplaced(o),
        operand_covered(o, slots),
    ensures
        load(place_operand(o, slots), placed) == load(o, cells),
{
    match o {
        OperandView::Reg(r) => {
            assert(placed.contains_key(register(r)) == cells.contains_key(register(r)));
        },
        OperandView::Pseudo(x) => {
            assert(slots.contains_key(x));
        },
        _ => {},
    }
}

/// Putting a value in a covered place and in what it is placed as keeps
/// the two states standing for each other.
pub proof fn lemma_store_placed(
    o: OperandView,
    v: i32,
    placed: Cells,
    cells: Cells,
    slots: Slots,
)
    requires
        stands_for(placed, cells, slots),
        slots_fit(slots),
        is_unplaced(o),
        !(o is Imm),
        operand_covered(o, slots),
    ensures
        stands_for(placed.insert(place_operand(o, slots), v), cells.insert(o, v), slots),
{
    let placed2 = placed.insert(place_operand(o, slots), v);
    let cells2 = cells.insert(o, v);
    assert forall|r: Reg| #[trigger]
        placed2.contains_key(register(r)) == cells2.contains_key(register(r)) && (
        cells2.contains_key(register(r)) ==> placed2[register(r)] == cells2[register(r)]) by {
        assert(placed.contains_key(register(r)) == cells.contains_key(register(r)));
    }
    assert forall|x: Seq<char>| #[trigger] slots.contains_key(x) implies placed2.contains_key(
        OperandView::Stack(slots[x] as i32),
    ) == cells2.contains_key(OperandView::Pseudo(x)) && (cells2.contains_key(
        OperandView::Pseudo(x),
    ) ==> placed2[OperandView::Stack(slots[x] as i32)] == cells2[OperandView::Pseudo(x)]) by {
        if let OperandView::Pseudo(y) = o {
            if x != y {
                lemma_slots_apart(slots, x, y);
            }
        }
    }
}

/// The state of the processor with slots in place of pseudo-registers.
pub open spec fn related(placed: Cpu, cpu: Cpu, slots: Slots) -> bool {
    stands_for(placed.cells, cpu.cells, slots) && placed.compared == cpu.compared
}

/// A label stands in the placed code where it stood before.
pub proof fn lemma_go_to_placed(
    code: Seq<InstructionView>,
    slots: Slots,
    label: Seq<char>,
    cpu: Cpu,
    placed: Cpu,
)
    requires
        go_to(code, label, cpu) !is Stuck,
    ensures
        go_to(code, label, cpu) matches Running::At(target, after) && after == cpu && go_to(
            place_code(code, slots),
            label,
            placed,
        ) == Running::At(target, placed),
{
    let target = choose|at: nat| is_label_at(code, label, at);
    let placed_code = place_code(code, slots);
    assert(is_label_at(placed_code, label, target)) by {
        assert(placed_code[target as int] == place_instruction(code[target as int], slots));
        assert forall|i: int| 0 <= i < target implies #[trigger] placed_code[i]
            != InstructionView::Label(label) by {
            assert(placed_code[i] == place_instruction(code[i], slots));
            assert(code[i] != InstructionView::Label(label));
        }
    }
    let found = choose|at: nat| is_label_at(placed_code, label, at);
    if found < target {
        assert(placed_code[found as int] != InstructionView::Label(label));
    } else if found > target {
        assert(placed_code[target as int] != InstructionView::Label(label));
    }
}

/// The placed instruction does to the placed state what the instruction
/// does to the state.
pub proof fn lemma_placed_step(
    code: Seq<InstructionView>,
    slots: Slots,
    pc: nat,
    cpu: Cpu,
    placed: Cpu,
) -> (after: Cpu)
    requires
        slots_fit(slots),
        pc < code.len(),
        has_no_slot(code[pc as int]),
        instruction_covered(code[pc as int], slots),
        related(placed, cpu, slots),
        execute(code, pc, cpu) !is Stuck,
    ensures
        match execute(code, pc, cpu) {
            Running::At(next, cpu2) => execute(place_code(code, slots), pc, placed) == Running::At(
                next,
                after,
            ) && related(after, cpu2, slots),
            Running::Returned(v) => execute(place_code(code, slots), pc, placed)
                == Running::Returned(v),
            Running::Stuck => true,
        },
{
    let placed_code = place_code(code, slots);
    assert(placed_code[pc as int] == place_instruction(code[pc as int], slots));
    let ax = register(Reg::AX);
    let dx = register(Reg::DX);
    match code[pc as int] {
        InstructionView::Mov(src, dst) => {
            lemma_load_placed(src, placed.cells, cpu.cells, slots);
            let v = load(src, cpu.cells)->Some_0;
            lemma_store_placed(dst, v, placed.cells, cpu.cells, slots);
            Cpu {
                cells: placed.cells.insert(place_operand(dst, slots), v),
                compared: placed.compared,
            }
        },
        InstructionView::Unary(op, dst) => {
            lemma_load_placed(dst, placed.cells, cpu.cells, slots);
            let v = execute(code, pc, cpu)->At_1.cells[dst];
            lemma_store_placed(dst, v, placed.cells, cpu.cells, slots);
            Cpu { cells: placed.cells.insert(place_operand(dst, slots), v), compared: None }
        },
        InstructionView::Binary(op, src, dst) => {
            lemma_load_placed(src, placed.cells, cpu.cells, slots);
            lemma_load_placed(dst, placed.cells, cpu.cells, slots);
            let v = execute(code, pc, cpu)->At_1.cells[dst];
            lemma_store_placed(dst, v, placed.cells, cpu.cells, slots);
            Cpu { cells: placed.cells.insert(place_operand(dst, slots), v), compared: None }
        },
        InstructionView::Cmp(src, dst) => {
            lemma_load_placed(src, placed.cells, cpu.cells, slots);
            lemma_load_placed(dst, placed.cells, cpu.cells, slots);
            Cpu { cells: placed.cells, compared: execute(code, pc, cpu)->At_1.compared }
        },
        InstructionView::Idiv(src) => {
            lemma_load_placed(src, placed.cells, cpu.cells, slots);
            lemma_load_placed(ax, placed.cells, cpu.cells, slots);
            lemma_load_placed(dx, placed.cells, cpu.cells, slots);
            let cells2 = execute(code, pc, cpu)->At_1.cells;
            let q = cells2[ax];
            let r = cells2[dx];
            lemma_store_placed(ax, q, placed.cells, cpu.cells, slots);
            lemma_store_placed(dx, r, placed.cells.insert(ax, q), cpu.cells.insert(ax, q), slots);
            Cpu { cells: placed.cells.insert(ax, q).insert(dx, r), compared: None }
        },
        InstructionView::Cdq => {
            lemma_load_placed(ax, placed.cells, cpu.cells, slots);
            let v = execute(code, pc, cpu)->At_1.cells[dx];
            lemma_store_placed(dx, v, placed.cells, cpu.cells, slots);
            Cpu { cells: placed.cells.insert(dx, v), compared: placed.compared }
        },
        InstructionView::Jmp(label) => {
            lemma_go_to_placed(code, slots, label, cpu, placed);
            placed
        },
        InstructionView::JmpCC(cc, label) => {
            if crate::machine::holds(cc, cpu.compared->Some_0) {
                lemma_go_to_placed(code, slots, label, cpu, placed);
            }
            placed
        },
        InstructionView::SetCC(cc, dst) => {
            let t = crate::semantics::truth(crate::machine::holds(cc, cpu.compared->Some_0));
            lemma_store_placed(dst, t, placed.cells, cpu.cells, slots);
            lemma_store_placed(
                ax,
                t,
                placed.cells.insert(place_operand(dst, slots), t),
                cpu.cells.insert(dst, t),
                slots,
            );
            Cpu {
                cells: placed.cells.insert(place_operand(dst, slots), t).insert(ax, t),
                compared: placed.compared,
            }
        },
        InstructionView::Ret => {
            lemma_load_placed(ax, placed.cells, cpu.cells, slots);
            placed
        },
        _ => placed,
    }
}

/// The placed code returns what the code returns: where the processor
/// returns a value from the code over pseudo-registers, it returns the
/// same value, after as many instructions, from the code with slots in
/// their place.
pub proof fn lemma_placed_run(
    code: Seq<InstructionView>,
    slots: Slots,
    pc: nat,
    cpu: Cpu,
    placed: Cpu,
    steps: nat,
)
    requires
        slots_fit(slots),
        all_unplaced(code),
        forall|i: int| 0 <= i < code.len() ==> instruction_covered(#[trigger] code[i], slots),
        related(placed, cpu, slots),
        proceed(code, pc, cpu, steps) is Returned,
    ensures
        proceed(place_code(code, slots), pc, placed, steps) == proceed(code, pc, cpu, steps),
    decreases steps,
{
    assert(steps > 0);
    assert(pc < code.len());
    assert(has_no_slot(code[pc as int]));
    let after = lemma_placed_step(code, slots, pc, cpu, placed);
    match execute(code, pc, cpu) {
        Running::At(next, cpu2) => {
            lemma_placed_run(code, slots, next, cpu2, after, (steps - 1) as nat);
        },
        _ => {},
    }
}

/// Whether the instruction holds neither a stack slot nor a scratch
/// register.
pub open spec fn is_plain(i: InstructionView) -> bool {
    has_no_slot(i) && uses_no_scratch(i)
}

/// Assembly built from three-address code holds neither stack slots nor
/// scratch registers.
pub proof fn lemma_built_is_plain(tac: Seq<TacInstructionView>, i: int)
    requires
        0 <= i < build_code(tac).len(),
    ensures
        is_plain(build_code(tac)[i]),
    decreases tac.len(),
{
    let earlier = tac.drop_last();
    let before = build_code(earlier);
    if i < before.len() {
        lemma_built_is_plain(earlier, i);
    } else {
        let part = build_instruction(tac.last())->Ok_0;
        assert(build_code(tac)[i] == part[i - before.len()]);
    }
}

/// Slots in place of pseudo-registers bring no scratch register in.
pub proof fn lemma_placed_without_scratch(code: Seq<InstructionView>, slots: Slots)
    requires
        all_without_scratch(code),
    ensures
        all_without_scratch(place_code(code, slots)),
{
    let placed = place_code(code, slots);
    assert forall|i: int| 0 <= i < placed.len() implies uses_no_scratch(#[trigger] placed[i]) by {
        assert(uses_no_scratch(code[i]));
        assert(placed[i] == place_instruction(code[i], slots));
    }
}

} // verus!
