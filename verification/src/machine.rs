//! A model of the processor: what the instructions of the assembly do
//! to registers, pseudo-registers and stack slots, one instruction
//! after the other.
use vstd::prelude::*;
use crate::assembly::{BinaryOperator, CondCode, InstructionView, OperandView, Reg, UnaryOperator};
use crate::semantics::{binary_value, truth, unary_value};
use crate::tac::{BinaryOperator as TacBinaryOperator, UnaryOperator as TacUnaryOperator};

verus! {

/// The values in the registers, pseudo-registers and stack slots that
/// have one.
pub type Cells = Map<OperandView, i32>;

/// The state of the processor.
pub ghost struct Cpu {
    /// The values in the places that have one.
    pub cells: Cells,
    /// The destination and the source of the last comparison, as long as
    /// the flags still tell of it.
    pub compared: Option<(i32, i32)>,
}

/// Where the processor is.
pub ghost enum Running {
    /// Before the instruction at the position.
    At(nat, Cpu),
    /// Behind a `Ret`, with the value of `AX`.
    Returned(i32),
    /// Nowhere: the last instruction had no meaning.
    Stuck,
}

/// The value of an operand; `None` for a place without a value.
pub open spec fn load(o: OperandView, cells: Cells) -> Option<i32> {
    match o {
        OperandView::Imm(k) => Some(k),
        _ => {
            if cells.contains_key(o) {
                Some(cells[o])
            } else {
                None
            }
        },
    }
}

/// A register as an operand.
pub open spec fn register(r: Reg) -> OperandView {
    OperandView::Reg(r)
}

/// Whether a condition holds of a compared destination and source.
pub open spec fn holds(cc: CondCode, compared: (i32, i32)) -> bool {
    let (dst, src) = compared;
    match cc {
        CondCode::E => dst == src,
        CondCode::NE => dst != src,
        CondCode::G => dst > src,
        CondCode::GE => dst >= src,
        CondCode::L => dst < src,
        CondCode::LE => dst <= src,
    }
}

/// The operation that a unary instruction does.
pub open spec fn unary_operation(op: UnaryOperator) -> TacUnaryOperator {
    match op {
        UnaryOperator::Neg => TacUnaryOperator::Negate,
        UnaryOperator::Not => TacUnaryOperator::Complement,
    }
}

/// The operation that a binary instruction does.
pub open spec fn binary_operation(op: BinaryOperator) -> TacBinaryOperator {
    match op {
        BinaryOperator::Add => TacBinaryOperator::Add,
        BinaryOperator::Sub => TacBinaryOperator::Subtract,
        BinaryOperator::Mul => TacBinaryOperator::Multiply,
        BinaryOperator::And => TacBinaryOperator::Ampersand,
        BinaryOperator::Or => TacBinaryOperator::Pipe,
        BinaryOperator::Xor => TacBinaryOperator::Caret,
        BinaryOperator::Shl => TacBinaryOperator::ShiftLeft,
        BinaryOperator::Shr => TacBinaryOperator::ShiftRight,
    }
}

/// All bits of a register set to the sign of the value.
pub open spec fn sign_bits(a: i32) -> i32 {
    if a < 0 {
        (-1) as i32
    } else {
        0
    }
}

/// Whether the instruction at `at` is the label `label` and no earlier
/// one is.
pub open spec fn is_label_at(code: Seq<InstructionView>, label: Seq<char>, at: nat) -> bool {
    &&& at < code.len()
    &&& code[at as int] == InstructionView::Label(label)
    &&& forall|i: int| 0 <= i < at ==> #[trigger] code[i] != InstructionView::Label(label)
}

/// The processor behind a jump to `label`.
pub open spec fn go_to(code: Seq<InstructionView>, label: Seq<char>, cpu: Cpu) -> Running {
    if exists|at: nat| is_label_at(code, label, at) {
        Running::At(choose|at: nat| is_label_at(code, label, at), cpu)
    } else {
        Running::Stuck
    }
}

/// The processor with a value in a place; stuck where the place is a
/// constant.
pub open spec fn store_to(dst: OperandView, v: i32, next: nat, cpu: Cpu) -> Running {
    if dst is Imm {
        Running::Stuck
    } else {
        Running::At(next, Cpu { cells: cpu.cells.insert(dst, v), compared: cpu.compared })
    }
}

/// The processor with a value in a place and the flags overwritten.
pub open spec fn compute_to(dst: OperandView, v: i32, next: nat, cpu: Cpu) -> Running {
    if dst is Imm {
        Running::Stuck
    } else {
        Running::At(next, Cpu { cells: cpu.cells.insert(dst, v), compared: None })
    }
}

/// The processor behind the instruction at `pc`.
///
/// An arithmetic instruction overwrites the flags. A division takes its
/// dividend from `AX`, with the sign of it in every bit of `DX` as `Cdq`
/// leaves it, and leaves the quotient in `AX` and the remainder in
/// `DX`. A `SetCC` leaves the truth of its condition in its destination
/// and, as it is written out, in `AX` too.
pub open spec fn execute(code: Seq<InstructionView>, pc: nat, cpu: Cpu) -> Running {
    if pc >= code.len() {
        Running::Stuck
    } else {
        let next = pc + 1;
        match code[pc as int] {
            InstructionView::Mov(src, dst) => match load(src, cpu.cells) {
                Some(v) => store_to(dst, v, next, cpu),
                None => Running::Stuck,
            },
            InstructionView::Unary(op, dst) => match load(dst, cpu.cells) {
                Some(a) => compute_to(dst, unary_value(unary_operation(op), a), next, cpu),
                None => Running::Stuck,
            },
            InstructionView::Binary(op, src, dst) => match (
                load(dst, cpu.cells),
                load(src, cpu.cells),
            ) {
                (Some(a), Some(b)) => match binary_value(binary_operation(op), a, b) {
                    Some(v) => compute_to(dst, v, next, cpu),
                    None => Running::Stuck,
                },
                _ => Running::Stuck,
            },
            InstructionView::Cmp(src, dst) => match (load(dst, cpu.cells), load(src, cpu.cells)) {
                (Some(a), Some(b)) => Running::At(
                    next,
                    Cpu { cells: cpu.cells, compared: Some((a, b)) },
                ),
                _ => Running::Stuck,
            },
            InstructionView::Idiv(src) => match (
                load(register(Reg::AX), cpu.cells),
                load(register(Reg::DX), cpu.cells),
                load(src, cpu.cells),
            ) {
                (Some(a), Some(high), Some(b)) => match (
                    binary_value(TacBinaryOperator::Divide, a, b),
                    binary_value(TacBinaryOperator::Modulo, a, b),
                ) {
                    (Some(q), Some(r)) => {
                        if high == sign_bits(a) {
                            Running::At(
                                next,
                                Cpu {
                                    cells: cpu.cells.insert(register(Reg::AX), q).insert(
                                        register(Reg::DX),
                                        r,
                                    ),
                                    compared: None,
                                },
                            )
                        } else {
                            Running::Stuck
                        }
                    },
                    _ => Running::Stuck,
                },
                _ => Running::Stuck,
            },
            InstructionView::Cdq => match load(register(Reg::AX), cpu.cells) {
                Some(a) => store_to(register(Reg::DX), sign_bits(a), next, cpu),
                None => Running::Stuck,
            },
            InstructionView::Jmp(label) => go_to(code, label, cpu),
            InstructionView::JmpCC(cc, label) => match cpu.compared {
                Some(compared) => {
                    if holds(cc, compared) {
                        go_to(code, label, cpu)
                    } else {
                        Running::At(next, cpu)
                    }
                },
                None => Running::Stuck,
            },
            InstructionView::SetCC(cc, dst) => match cpu.compared {
                Some(compared) => {
                    if dst is Imm {
                        Running::Stuck
                    } else {
                        let t = truth(holds(cc, compared));
                        Running::At(
                            next,
                            Cpu {
                                cells: cpu.cells.insert(dst, t).insert(register(Reg::AX), t),
                                compared: cpu.compared,
                            },
                        )
                    }
                },
                None => Running::Stuck,
            },
            InstructionView::Label(_) => Running::At(next, cpu),
            InstructionView::AllocateStack(_) => Running::At(next, cpu),
            InstructionView::Ret => match load(register(Reg::AX), cpu.cells) {
                Some(v) => Running::Returned(v),
                None => Running::Stuck,
            },
        }
    }
}

/// The processor after `steps` instructions from the position `pc`, or
/// where it stopped before.
pub open spec fn proceed(code: Seq<InstructionView>, pc: nat, cpu: Cpu, steps: nat) -> Running
    decreases steps,
{
    if steps == 0 {
        Running::At(pc, cpu)
    } else {
        match execute(code, pc, cpu) {
            Running::At(next, after) => proceed(code, next, after, (steps - 1) as nat),
            other => other,
        }
    }
}

/// Going on from where the processor arrived is one longer way.
pub proof fn lemma_proceed_on(
    code: Seq<InstructionView>,
    pc: nat,
    cpu: Cpu,
    first: nat,
    middle: nat,
    between: Cpu,
    second: nat,
)
    requires
        proceed(code, pc, cpu, first) == Running::At(middle, between),
    ensures
        proceed(code, pc, cpu, first + second) == proceed(code, middle, between, second),
    decreases first,
{
    if first > 0 {
        match execute(code, pc, cpu) {
            Running::At(next, after) => {
                lemma_proceed_on(code, next, after, (first - 1) as nat, middle, between, second);
            },
            _ => {},
        }
    }
}

/// One instruction and then a way is a way that is one instruction longer.
pub proof fn lemma_execute_then(
    code: Seq<InstructionView>,
    pc: nat,
    cpu: Cpu,
    next: nat,
    after: Cpu,
    steps: nat,
)
    requires
        execute(code, pc, cpu) == Running::At(next, after),
    ensures
        proceed(code, pc, cpu, steps + 1) == proceed(code, next, after, steps),
{
}

} // verus!
