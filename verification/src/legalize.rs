//! Legalization: instructions whose operands the processor does not take
//! in that form are made to go through a scratch register.
use vstd::prelude::*;
use crate::assembly::{
    instruction_views, BinaryOperator, Function, FunctionView, Instruction, InstructionView,
    Operand, OperandView, Program, Reg,
};
use crate::error::{CompileError, CompileErrorView};
use crate::pseudo::{assign_code, frame_size, place_code};

verus! {

/// Whether an operator takes a source in memory only with a destination
/// in a register: `add`, `sub`, `and`, `or`, `xor`.
pub open spec fn is_two_address(op: BinaryOperator) -> bool {
    op == BinaryOperator::Add || op == BinaryOperator::Sub || op == BinaryOperator::And || op
        == BinaryOperator::Or || op == BinaryOperator::Xor
}

/// Whether an operator is a shift.
pub open spec fn is_shift(op: BinaryOperator) -> bool {
    op == BinaryOperator::Shl || op == BinaryOperator::Shr
}

/// Whether an operand can be the count of a shift: an immediate, or the
/// register `CX`.
pub open spec fn is_shift_count(o: OperandView) -> bool {
    o is Imm || o == OperandView::Reg(Reg::CX)
}

/// Whether the processor takes the instruction with these operands.
pub open spec fn is_legal(i: InstructionView) -> bool {
    match i {
        InstructionView::Mov(src, dst) => !(src is Stack && dst is Stack),
        InstructionView::Binary(op, src, dst) => {
            &&& is_two_address(op) ==> !(src is Stack && dst is Stack)
            &&& op == BinaryOperator::Mul ==> !(dst is Stack)
            &&& is_shift(op) && dst is Stack ==> is_shift_count(src)
        },
        InstructionView::Idiv(src) => !(src is Imm),
        InstructionView::Cmp(src, dst) => !(dst is Imm) && !(src is Stack && dst is Stack),
        _ => true,
    }
}

/// The register as an operand.
pub open spec fn reg(r: Reg) -> OperandView {
    OperandView::Reg(r)
}

/// The instructions that do the work of a binary instruction in forms
/// that the processor takes.
pub open spec fn legalize_binary(op: BinaryOperator, src: OperandView, dst: OperandView) -> Seq<
    InstructionView,
> {
    if is_two_address(op) && src is Stack && dst is Stack {
        seq![
            InstructionView::Mov(src, reg(Reg::R10)),
            InstructionView::Binary(op, reg(Reg::R10), dst),
        ]
    } else if op == BinaryOperator::Mul && dst is Stack {
        if src is Stack {
            seq![
                InstructionView::Mov(src, reg(Reg::R10)),
                InstructionView::Mov(dst, reg(Reg::R11)),
                InstructionView::Binary(op, reg(Reg::R10), reg(Reg::R11)),
                InstructionView::Mov(reg(Reg::R11), dst),
            ]
        } else {
            seq![
                InstructionView::Mov(dst, reg(Reg::R11)),
                InstructionView::Binary(op, src, reg(Reg::R11)),
                InstructionView::Mov(reg(Reg::R11), dst),
            ]
        }
    } else if is_shift(op) && dst is Stack && !is_shift_count(src) {
        seq![
            InstructionView::Mov(src, reg(Reg::CX)),
            InstructionView::Binary(op, reg(Reg::CX), dst),
        ]
    } else {
        seq![InstructionView::Binary(op, src, dst)]
    }
}

/// The instructions that do the work of `i` in forms that the processor
/// takes: a move between two stack slots, or an operation on two, goes
/// through `R10`; a product is formed in `R11`; a shift count goes to
/// `CX`; a divisor that is a constant goes to `R10`; a comparison with a
/// constant on the right goes through `R11`.
pub open spec fn legalize_instruction(i: InstructionView) -> Seq<InstructionView> {
    match i {
        InstructionView::Mov(src, dst) => {
            if src is Stack && dst is Stack {
                seq![
                    InstructionView::Mov(src, reg(Reg::R10)),
                    InstructionView::Mov(reg(Reg::R10), dst),
                ]
            } else {
                seq![i]
            }
        },
        InstructionView::Binary(op, src, dst) => legalize_binary(op, src, dst),
        InstructionView::Idiv(src) => {
            if src is Imm {
                seq![
                    InstructionView::Mov(src, reg(Reg::R10)),
                    InstructionView::Idiv(reg(Reg::R10)),
                ]
            } else {
                seq![i]
            }
        },
        InstructionView::Cmp(src, dst) => {
            if src is Stack && dst is Stack {
                seq![
                    InstructionView::Mov(src, reg(Reg::R10)),
                    InstructionView::Cmp(reg(Reg::R10), dst),
                ]
            } else if dst is Imm {
                seq![
                    InstructionView::Mov(dst, reg(Reg::R11)),
                    InstructionView::Cmp(src, reg(Reg::R11)),
                ]
            } else {
                seq![i]
            }
        },
        _ => seq![i],
    }
}

/// The legal forms of the instructions, one behind the other.
pub open spec fn legalize_code(code: Seq<InstructionView>) -> Seq<InstructionView>
    decreases code.len(),
{
    if code.len() == 0 {
        Seq::empty()
    } else {
        legalize_code(code.drop_last()) + legalize_instruction(code.last())
    }
}

/// The body of a function ready to be written out: the allocation of
/// its frame, then its instructions in legal forms.
pub open spec fn fix_code(code: Seq<InstructionView>, stack_size: i32) -> Seq<InstructionView> {
    seq![InstructionView::AllocateStack(stack_size)] + legalize_code(code)
}

/// Whether every instruction of the code is legal.
pub open spec fn all_legal(code: Seq<InstructionView>) -> bool {
    forall|k: int| 0 <= k < code.len() ==> is_legal(#[trigger] code[k])
}

/// What legalization makes of one instruction is legal.
pub proof fn lemma_legalize_instruction(i: InstructionView)
    ensures
        all_legal(legalize_instruction(i)),
{
}

/// What legalization makes of a code is legal.
pub proof fn lemma_legalize_code(code: Seq<InstructionView>)
    ensures
        all_legal(legalize_code(code)),
    decreases code.len(),
{
    if code.len() > 0 {
        lemma_legalize_code(code.drop_last());
        lemma_legalize_instruction(code.last());
    }
}

/// After legalization no move, `add`, `sub`, `and`, `or`, `xor` or
/// comparison has two stack operands, no product is formed in a stack
/// slot, no division has a constant divisor, no comparison has a
/// constant on the right, and every shift of a stack slot has its count
/// in a constant or in `CX`.
pub proof fn lemma_fixed_is_legal(code: Seq<InstructionView>, stack_size: i32)
    ensures
        all_legal(fix_code(code, stack_size)),
{
    lemma_legalize_code(code);
}

fn is_stack(operand: &Operand) -> (b: bool)
    ensures
        b == (operand@ is Stack),
{
    match operand {
        Operand::Stack(_) => true,
        _ => false,
    }
}

fn is_imm(operand: &Operand) -> (b: bool)
    ensures
        b == (operand@ is Imm),
{
    match operand {
        Operand::Imm(_) => true,
        _ => false,
    }
}

fn can_be_shift_count(operand: &Operand) -> (b: bool)
    ensures
        b == is_shift_count(operand@),
{
    match operand {
        Operand::Imm(_) => true,
        Operand::Reg(Reg::CX) => true,
        _ => false,
    }
}

fn operator_is_two_address(op: BinaryOperator) -> (b: bool)
    ensures
        b == is_two_address(op),
{
    match op {
        BinaryOperator::Add
        | BinaryOperator::Sub
        | BinaryOperator::And
        | BinaryOperator::Or
        | BinaryOperator::Xor => true,
        _ => false,
    }
}

fn operator_is_shift(op: BinaryOperator) -> (b: bool)
    ensures
        b == is_shift(op),
{
    match op {
        BinaryOperator::Shl | BinaryOperator::Shr => true,
        _ => false,
    }
}

/// Appends one instruction.
fn put(out: &mut Vec<Instruction>, instruction: Instruction)
    ensures
        instruction_views(final(out)@) == instruction_views(old(out)@).push(instruction@),
{
    out.push(instruction);
    assert(instruction_views(out@) =~= instruction_views(old(out)@).push(instruction@));
}

/// Appends the legal forms of a binary instruction.
fn fix_binary(op: BinaryOperator, src: &Operand, dst: &Operand, out: &mut Vec<Instruction>)
    ensures
        instruction_views(final(out)@) == instruction_views(old(out)@) + legalize_binary(
            op,
            src@,
            dst@,
        ),
{
    let ghost before = instruction_views(out@);
    if operator_is_two_address(op) && is_stack(src) && is_stack(dst) {
        put(out, Instruction::Mov(src.clone(), Operand::Reg(Reg::R10)));
        put(out, Instruction::Binary(op, Operand::Reg(Reg::R10), dst.clone()));
    } else if op == BinaryOperator::Mul && is_stack(dst) {
        if is_stack(src) {
            put(out, Instruction::Mov(src.clone(), Operand::Reg(Reg::R10)));
            put(out, Instruction::Mov(dst.clone(), Operand::Reg(Reg::R11)));
            put(out, Instruction::Binary(op, Operand::Reg(Reg::R10), Operand::Reg(Reg::R11)));
            put(out, Instruction::Mov(Operand::Reg(Reg::R11), dst.clone()));
        } else {
            put(out, Instruction::Mov(dst.clone(), Operand::Reg(Reg::R11)));
            put(out, Instruction::Binary(op, src.clone(), Operand::Reg(Reg::R11)));
            put(out, Instruction::Mov(Operand::Reg(Reg::R11), dst.clone()));
        }
    } else if operator_is_shift(op) && is_stack(dst) && !can_be_shift_count(src) {
        put(out, Instruction::Mov(src.clone(), Operand::Reg(Reg::CX)));
        put(out, Instruction::Binary(op, Operand::Reg(Reg::CX), dst.clone()));
    } else {
        put(out, Instruction::Binary(op, src.clone(), dst.clone()));
    }
    assert(instruction_views(out@) =~= before + legalize_binary(op, src@, dst@));
}

/// Appends the legal forms of an instruction.
fn fix_instruction(instr: &Instruction, out: &mut Vec<Instruction>)
    ensures
        instruction_views(final(out)@) == instruction_views(old(out)@) + legalize_instruction(
            instr@,
        ),
{
    let ghost before = instruction_views(out@);
    match instr {
        Instruction::Mov(src, dst) => {
            if is_stack(src) && is_stack(dst) {
                put(out, Instruction::Mov(src.clone(), Operand::Reg(Reg::R10)));
                put(out, Instruction::Mov(Operand::Reg(Reg::R10), dst.clone()));
            } else {
                put(out, instr.clone());
            }
        },
        Instruction::Binary(op, src, dst) => {
            fix_binary(*op, src, dst, out);
        },
        Instruction::Idiv(src) => {
            if is_imm(src) {
                put(out, Instruction::Mov(src.clone(), Operand::Reg(Reg::R10)));
                put(out, Instruction::Idiv(Operand::Reg(Reg::R10)));
            } else {
                put(out, instr.clone());
            }
        },
        Instruction::Cmp(src, dst) => {
            if is_stack(src) && is_stack(dst) {
                put(out, Instruction::Mov(src.clone(), Operand::Reg(Reg::R10)));
                put(out, Instruction::Cmp(Operand::Reg(Reg::R10), dst.clone()));
            } else if is_imm(dst) {
                put(out, Instruction::Mov(dst.clone(), Operand::Reg(Reg::R11)));
                put(out, Instruction::Cmp(src.clone(), Operand::Reg(Reg::R11)));
            } else {
                put(out, instr.clone());
            }
        },
        _ => {
            put(out, instr.clone());
        },
    }
    assert(instruction_views(out@) =~= before + legalize_instruction(instr@));
}

impl Function {
    /// Puts the allocation of `stack_size` bytes first and replaces every
    /// instruction that the processor does not take as it stands; what
    /// is left is legal.
    pub fn fix_mov(&mut self, stack_size: i32)
        ensures
            final(self)@.name == old(self)@.name,
            final(self)@.instructions == fix_code(old(self)@.instructions, stack_size),
            all_legal(final(self)@.instructions),
    {
        let mut new_instructions: Vec<Instruction> = Vec::new();
        let ghost code = instruction_views(self.instructions@);
        put(&mut new_instructions, Instruction::AllocateStack(stack_size));
        let mut i: usize = 0;
        proof {
            assert(instruction_views(new_instructions@) =~= fix_code(
                code.subrange(0, 0),
                stack_size,
            ));
        }
        while i < self.instructions.len()
            invariant
                0 <= i <= self.instructions.len(),
                *self == *old(self),
                code == instruction_views(self.instructions@),
                instruction_views(new_instructions@) == fix_code(
                    code.subrange(0, i as int),
                    stack_size,
                ),
            decreases self.instructions.len() - i,
        {
            proof {
                let longer = code.subrange(0, i + 1);
                assert(longer.drop_last() =~= code.subrange(0, i as int));
                assert(longer.last() == self.instructions@[i as int]@);
            }
            fix_instruction(&self.instructions[i], &mut new_instructions);
            proof {
                assert(instruction_views(new_instructions@) =~= fix_code(
                    code.subrange(0, i + 1),
                    stack_size,
                ));
            }
            i = i + 1;
        }
        proof {
            assert(code.subrange(0, self.instructions.len() as int) =~= code);
            lemma_fixed_is_legal(code, stack_size);
        }
        self.instructions = new_instructions;
    }
}

/// The function with a slot for every pseudo-register, the allocation of
/// its frame in front, and every instruction in a legal form.
pub open spec fn fixed_function(f: FunctionView) -> FunctionView {
    FunctionView {
        name: f.name,
        instructions: fix_code(
            place_code(f.instructions, assign_code(f.instructions)),
            frame_size(f.instructions) as i32,
        ),
    }
}

impl Program {
    /// Gives every pseudo-register its stack slot, then makes every
    /// instruction legal and puts the allocation of the frame first.
    ///
    /// Fails with `InternalInvariantViolation`, and changes nothing,
    /// where the frame would not fit in 32 signed bits.
    pub fn apply_fixes(&mut self) -> (r: Result<(), CompileError>)
        ensures
            match r {
                Ok(_) => {
                    &&& frame_size(old(self)@.function.instructions) <= i32::MAX
                    &&& final(self)@.function == fixed_function(old(self)@.function)
                    &&& all_legal(final(self)@.function.instructions)
                },
                Err(e) => {
                    &&& e@ == CompileErrorView::InternalInvariantViolation
                    &&& frame_size(old(self)@.function.instructions) > i32::MAX
                    &&& final(self)@ == old(self)@
                },
            },
    {
        let stack_size = match self.function.replace_pseudo() {
            Ok(size) => size,
            Err(e) => {
                return Err(e);
            },
        };
        self.function.fix_mov(stack_size);
        Ok(())
    }
}

} // verus!
