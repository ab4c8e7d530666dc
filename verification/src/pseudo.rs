//! Stack allocation: every pseudo-register gets a stack slot of its own,
//! four bytes below the one before it, in the order in which the names
//! first occur.
use vstd::prelude::*;
use vstd::hash_map::StringHashMap;
use vstd::string::*;
use crate::assembly::{
    instruction_views, Function, Instruction, InstructionView, Operand, OperandView,
};
use crate::error::{CompileError, CompileErrorView};

verus! {

/// The stack slots given out so far: from the name of a pseudo-register
/// to the offset of its slot from the frame pointer.
pub type Slots = Map<Seq<char>, int>;

/// The most pseudo-registers that a frame can hold: with one more, the
/// size of the frame would not fit in 32 signed bits.
pub const MAX_SLOTS: usize = 0x1fff_fffe;

/// The offset of the slot given out when `taken` slots are in use.
pub open spec fn slot_offset(taken: nat) -> int {
    -4 * (taken + 1)
}

/// The slots after the operand got one, if it is a pseudo-register that
/// had none.
pub open spec fn assign_operand(o: OperandView, slots: Slots) -> Slots {
    match o {
        OperandView::Pseudo(name) => {
            if slots.contains_key(name) {
                slots
            } else {
                slots.insert(name, slot_offset(slots.len()))
            }
        },
        _ => slots,
    }
}

/// The slots after the operands of the instruction got theirs, the source
/// before the destination.
pub open spec fn assign_instruction(i: InstructionView, slots: Slots) -> Slots {
    match i {
        InstructionView::Mov(src, dst) => assign_operand(dst, assign_operand(src, slots)),
        InstructionView::Binary(_, src, dst) => assign_operand(dst, assign_operand(src, slots)),
        InstructionView::Cmp(src, dst) => assign_operand(dst, assign_operand(src, slots)),
        InstructionView::Unary(_, dst) => assign_operand(dst, slots),
        InstructionView::Idiv(src) => assign_operand(src, slots),
        InstructionView::SetCC(_, dst) => assign_operand(dst, slots),
        _ => slots,
    }
}

/// The slots of all pseudo-registers of the code.
pub open spec fn assign_code(code: Seq<InstructionView>) -> Slots
    decreases code.len(),
{
    if code.len() == 0 {
        Map::empty()
    } else {
        assign_instruction(code.last(), assign_code(code.drop_last()))
    }
}

/// The operand with its slot in place of a pseudo-register.
pub open spec fn place_operand(o: OperandView, slots: Slots) -> OperandView {
    match o {
        OperandView::Pseudo(name) => OperandView::Stack(slots[name] as i32),
        _ => o,
    }
}

/// The instruction with slots in place of its pseudo-registers.
pub open spec fn place_instruction(i: InstructionView, slots: Slots) -> InstructionView {
    match i {
        InstructionView::Mov(src, dst) => InstructionView::Mov(
            place_operand(src, slots),
            place_operand(dst, slots),
        ),
        InstructionView::Binary(op, src, dst) => InstructionView::Binary(
            op,
            place_operand(src, slots),
            place_operand(dst, slots),
        ),
        InstructionView::Cmp(src, dst) => InstructionView::Cmp(
            place_operand(src, slots),
            place_operand(dst, slots),
        ),
        InstructionView::Unary(op, dst) => InstructionView::Unary(op, place_operand(dst, slots)),
        InstructionView::Idiv(src) => InstructionView::Idiv(place_operand(src, slots)),
        InstructionView::SetCC(cc, dst) => InstructionView::SetCC(cc, place_operand(dst, slots)),
        _ => i,
    }
}

/// The code with slots in place of its pseudo-registers.
pub open spec fn place_code(code: Seq<InstructionView>, slots: Slots) -> Seq<InstructionView> {
    Seq::new(code.len(), |k: int| place_instruction(code[k], slots))
}

/// The bytes of stack that are set aside for the code: the distance from
/// the frame pointer to the slot that the next pseudo-register would
/// get. It is never zero.
pub open spec fn frame_size(code: Seq<InstructionView>) -> int {
    -slot_offset(assign_code(code).len())
}

/// Whether the slots are what handing them out one by one gives: finitely
/// many, and the offsets are the first multiples of -4, each used once.
pub open spec fn slots_in_order(slots: Slots) -> bool {
    &&& slots.dom().finite()
    &&& forall|name: Seq<char>| #[trigger]
        slots.contains_key(name) ==> exists|k: nat| k < slots.len() && slots[name] == slot_offset(k)
    &&& forall|a: Seq<char>, b: Seq<char>|
        slots.contains_key(a) && slots.contains_key(b) && a != b ==> slots[a] != slots[b]
}

/// Whether `larger` holds every slot of `smaller`, at the same offset.
pub open spec fn extends(larger: Slots, smaller: Slots) -> bool {
    forall|name: Seq<char>| #[trigger]
        smaller.contains_key(name) ==> larger.contains_key(name) && larger[name] == smaller[name]
}

/// Whether the operand is no pseudo-register without a slot.
pub open spec fn operand_covered(o: OperandView, slots: Slots) -> bool {
    o matches OperandView::Pseudo(name) ==> slots.contains_key(name)
}

/// Whether every pseudo-register of the instruction has a slot.
pub open spec fn instruction_covered(i: InstructionView, slots: Slots) -> bool {
    match i {
        InstructionView::Mov(src, dst) => operand_covered(src, slots) && operand_covered(
            dst,
            slots,
        ),
        InstructionView::Binary(_, src, dst) => operand_covered(src, slots) && operand_covered(
            dst,
            slots,
        ),
        InstructionView::Cmp(src, dst) => operand_covered(src, slots) && operand_covered(
            dst,
            slots,
        ),
        InstructionView::Unary(_, dst) => operand_covered(dst, slots),
        InstructionView::Idiv(src) => operand_covered(src, slots),
        InstructionView::SetCC(_, dst) => operand_covered(dst, slots),
        _ => true,
    }
}

/// Giving an operand its slot keeps the slots in order, keeps every
/// earlier slot, and covers the operand.
pub proof fn lemma_assign_operand(o: OperandView, slots: Slots)
    requires
        slots_in_order(slots),
    ensures
        slots_in_order(assign_operand(o, slots)),
        extends(assign_operand(o, slots), slots),
        operand_covered(o, assign_operand(o, slots)),
        slots.len() <= assign_operand(o, slots).len() <= slots.len() + 1,
{
    if let OperandView::Pseudo(name) = o {
        if !slots.contains_key(name) {
            let after = assign_operand(o, slots);
            assert(after.dom() =~= slots.dom().insert(name));
            assert(after.len() == slots.len() + 1);
            assert forall|other: Seq<char>| #[trigger] after.contains_key(other) implies exists|
                k: nat,
            |
                k < after.len() && after[other] == slot_offset(k) by {
                if other == name {
                    assert(slots.len() < after.len() && after[other] == slot_offset(slots.len()));
                } else {
                    assert(slots.contains_key(other));
                    let k = choose|k: nat| k < slots.len() && slots[other] == slot_offset(k);
                    assert(k < after.len() && after[other] == slot_offset(k));
                }
            }
            assert forall|a: Seq<char>, b: Seq<char>|
                after.contains_key(a) && after.contains_key(b) && a != b implies after[a]
                != after[b] by {
                if a != name {
                    assert(slots.contains_key(a));
                }
                if b != name {
                    assert(slots.contains_key(b));
                }
            }
        }
    }
}

/// Giving the operands of an instruction their slots keeps the slots in
/// order, keeps every earlier slot, and covers the instruction.
pub proof fn lemma_assign_instruction(i: InstructionView, slots: Slots)
    requires
        slots_in_order(slots),
    ensures
        slots_in_order(assign_instruction(i, slots)),
        extends(assign_instruction(i, slots), slots),
        instruction_covered(i, assign_instruction(i, slots)),
        slots.len() <= assign_instruction(i, slots).len() <= slots.len() + 2,
{
    match i {
        InstructionView::Mov(src, dst)
        | InstructionView::Binary(_, src, dst)
        | InstructionView::Cmp(src, dst) => {
            lemma_assign_operand(src, slots);
            lemma_assign_operand(dst, assign_operand(src, slots));
        },
        InstructionView::Unary(_, dst) | InstructionView::SetCC(_, dst) => {
            lemma_assign_operand(dst, slots);
        },
        InstructionView::Idiv(src) => {
            lemma_assign_operand(src, slots);
        },
        _ => {},
    }
}

/// The slots of a code are in order, and they cover every instruction of it.
pub proof fn lemma_assign_code(code: Seq<InstructionView>)
    ensures
        slots_in_order(assign_code(code)),
        forall|k: int| 0 <= k < code.len() ==> instruction_covered(#[trigger] code[k], assign_code(code)),
        assign_code(code).len() <= 2 * code.len(),
    decreases code.len(),
{
    if code.len() > 0 {
        let before = assign_code(code.drop_last());
        lemma_assign_code(code.drop_last());
        lemma_assign_instruction(code.last(), before);
        let after = assign_code(code);
        assert forall|k: int| 0 <= k < code.len() implies instruction_covered(
            #[trigger] code[k],
            after,
        ) by {
            if k < code.len() - 1 {
                assert(code[k] == code.drop_last()[k]);
                lemma_covered_extends(code[k], before, after);
            }
        }
    }
}

/// An instruction that some slots cover is covered by all slots that extend them.
pub proof fn lemma_covered_extends(i: InstructionView, smaller: Slots, larger: Slots)
    requires
        instruction_covered(i, smaller),
        extends(larger, smaller),
    ensures
        instruction_covered(i, larger),
        place_instruction(i, larger) == place_instruction(i, smaller),
{
}

/// The slots of a prefix of the code are among the slots of the code,
/// at the same offsets.
pub proof fn lemma_assign_code_extends(code: Seq<InstructionView>, k: int)
    requires
        0 <= k <= code.len(),
    ensures
        extends(assign_code(code), assign_code(code.subrange(0, k))),
        assign_code(code.subrange(0, k)).len() <= assign_code(code).len(),
    decreases code.len() - k,
{
    if k == code.len() {
        assert(code.subrange(0, k) =~= code);
    } else {
        let shorter = code.subrange(0, k);
        let longer = code.subrange(0, k + 1);
        assert(longer.drop_last() =~= shorter);
        lemma_assign_code(shorter);
        lemma_assign_instruction(longer.last(), assign_code(shorter));
        lemma_assign_code_extends(code, k + 1);
    }
}

/// Two pseudo-registers of the code with different names have different slots.
pub proof fn lemma_slots_distinct(code: Seq<InstructionView>, a: Seq<char>, b: Seq<char>)
    requires
        assign_code(code).contains_key(a),
        assign_code(code).contains_key(b),
        a != b,
    ensures
        assign_code(code)[a] != assign_code(code)[b],
{
    lemma_assign_code(code);
}

/// The slot of a pseudo-register of the code lies inside the frame, at a
/// negative multiple of four.
pub proof fn lemma_slot_in_frame(code: Seq<InstructionView>, name: Seq<char>)
    requires
        assign_code(code).contains_key(name),
    ensures
        -frame_size(code) <= assign_code(code)[name] <= -4,
        assign_code(code)[name] % 4 == 0,
{
    lemma_assign_code(code);
    let slots = assign_code(code);
    let k = choose|k: nat| k < slots.len() && slots[name] == slot_offset(k);
    assert(slots[name] == -4 * (k + 1));
}

/// Whether no operand of the instruction is a pseudo-register.
pub open spec fn is_placed(i: InstructionView) -> bool {
    match i {
        InstructionView::Mov(src, dst) => !(src is Pseudo) && !(dst is Pseudo),
        InstructionView::Binary(_, src, dst) => !(src is Pseudo) && !(dst is Pseudo),
        InstructionView::Cmp(src, dst) => !(src is Pseudo) && !(dst is Pseudo),
        InstructionView::Unary(_, dst) => !(dst is Pseudo),
        InstructionView::Idiv(src) => !(src is Pseudo),
        InstructionView::SetCC(_, dst) => !(dst is Pseudo),
        _ => true,
    }
}

/// Whether no operand of the code is a pseudo-register.
pub open spec fn all_placed(code: Seq<InstructionView>) -> bool {
    forall|k: int| 0 <= k < code.len() ==> is_placed(#[trigger] code[k])
}

/// No pseudo-register is left in code whose pseudo-registers were
/// replaced by slots.
pub proof fn lemma_placed_code_has_no_pseudo(code: Seq<InstructionView>, slots: Slots)
    ensures
        all_placed(place_code(code, slots)),
{
}

/// The slots that a table of offsets stands for.
pub open spec fn slots_of(table: Map<Seq<char>, i32>) -> Slots {
    table.map_values(|offset: i32| offset as int)
}

/// Gives the operand its slot: the one the table holds for its name, or
/// a new one, which the table then holds.
fn replace_operand(operand: &Operand, pseudo_map: &mut StringHashMap<i32>) -> (r: Result<
    Operand,
    CompileError,
>)
    requires
        old(pseudo_map)@.dom().finite(),
        slots_of(old(pseudo_map)@).len() <= MAX_SLOTS,
    ensures
        final(pseudo_map)@.dom().finite(),
        match r {
            Ok(placed) => slots_of(final(pseudo_map)@) == assign_operand(
                operand@,
                slots_of(old(pseudo_map)@),
            ) && placed@ == place_operand(operand@, slots_of(final(pseudo_map)@)) && slots_of(
                final(pseudo_map)@,
            ).len() <= MAX_SLOTS,
            Err(e) => e@ == CompileErrorView::InternalInvariantViolation && !(operand@
                is Pseudo && slots_of(old(pseudo_map)@).contains_key(operand@->Pseudo_0))
                && operand@ is Pseudo && slots_of(old(pseudo_map)@).len() == MAX_SLOTS,
        },
{
    let ghost before = pseudo_map@;
    assert(slots_of(before).dom() =~= before.dom());
    match operand {
        Operand::Pseudo(id) => {
            match pseudo_map.get(id.as_str()) {
                Some(offset) => Ok(Operand::Stack(*offset)),
                None => {
                    let taken: usize = pseudo_map.len();
                    if taken >= MAX_SLOTS {
                        return Err(CompileError::InternalInvariantViolation);
                    }
                    let offset: i32 = -4 * (taken as i32 + 1);
                    pseudo_map.insert(id.clone(), offset);
                    proof {
                        assert(slots_of(pseudo_map@).dom() =~= pseudo_map@.dom());
                        assert(pseudo_map@.dom() =~= before.dom().insert(id@));
                        assert(slots_of(pseudo_map@) =~= slots_of(before).insert(
                            id@,
                            offset as int,
                        ));
                    }
                    Ok(Operand::Stack(offset))
                },
            }
        },
        _ => Ok(operand.clone()),
    }
}

/// Gives the operands of the instruction their slots, the source before
/// the destination.
fn replace_instruction(instr: &Instruction, pseudo_map: &mut StringHashMap<i32>) -> (r: Result<
    Instruction,
    CompileError,
>)
    requires
        old(pseudo_map)@.dom().finite(),
        slots_in_order(slots_of(old(pseudo_map)@)),
        slots_of(old(pseudo_map)@).len() <= MAX_SLOTS,
    ensures
        final(pseudo_map)@.dom().finite(),
        match r {
            Ok(placed) => slots_of(final(pseudo_map)@) == assign_instruction(
                instr@,
                slots_of(old(pseudo_map)@),
            ) && placed@ == place_instruction(instr@, slots_of(final(pseudo_map)@)) && slots_of(
                final(pseudo_map)@,
            ).len() <= MAX_SLOTS,
            Err(e) => e@ == CompileErrorView::InternalInvariantViolation && assign_instruction(
                instr@,
                slots_of(old(pseudo_map)@),
            ).len() > MAX_SLOTS,
        },
{
    let ghost s0 = slots_of(pseudo_map@);
    match instr {
        Instruction::Mov(src, dst) => {
            proof {
                lemma_assign_operand(src@, s0);
                lemma_assign_operand(dst@, assign_operand(src@, s0));
            }
            let new_src = match replace_operand(src, pseudo_map) {
                Ok(placed) => placed,
                Err(e) => {
                    return Err(e);
                },
            };
            let new_dst = match replace_operand(dst, pseudo_map) {
                Ok(placed) => placed,
                Err(e) => {
                    return Err(e);
                },
            };
            Ok(Instruction::Mov(new_src, new_dst))
        },
        Instruction::Binary(op, src, dst) => {
            proof {
                lemma_assign_operand(src@, s0);
                lemma_assign_operand(dst@, assign_operand(src@, s0));
            }
            let new_src = match replace_operand(src, pseudo_map) {
                Ok(placed) => placed,
                Err(e) => {
                    return Err(e);
                },
            };
            let new_dst = match replace_operand(dst, pseudo_map) {
                Ok(placed) => placed,
                Err(e) => {
                    return Err(e);
                },
            };
            Ok(Instruction::Binary(*op, new_src, new_dst))
        },
        Instruction::Cmp(src, dst) => {
            proof {
                lemma_assign_operand(src@, s0);
                lemma_assign_operand(dst@, assign_operand(src@, s0));
            }
            let new_src = match replace_operand(src, pseudo_map) {
                Ok(placed) => placed,
                Err(e) => {
                    return Err(e);
                },
            };
            let new_dst = match replace_operand(dst, pseudo_map) {
                Ok(placed) => placed,
                Err(e) => {
                    return Err(e);
                },
            };
            Ok(Instruction::Cmp(new_src, new_dst))
        },
        Instruction::Unary(op, dst) => {
            proof {
                lemma_assign_operand(dst@, s0);
            }
            match replace_operand(dst, pseudo_map) {
                Ok(placed) => Ok(Instruction::Unary(*op, placed)),
                Err(e) => Err(e),
            }
        },
        Instruction::Idiv(src) => {
            proof {
                lemma_assign_operand(src@, s0);
            }
            match replace_operand(src, pseudo_map) {
                Ok(placed) => Ok(Instruction::Idiv(placed)),
                Err(e) => Err(e),
            }
        },
        Instruction::SetCC(code, dst) => {
            proof {
                lemma_assign_operand(dst@, s0);
            }
            match replace_operand(dst, pseudo_map) {
                Ok(placed) => Ok(Instruction::SetCC(*code, placed)),
                Err(e) => Err(e),
            }
        },
        _ => Ok(instr.clone()),
    }
}

impl Function {
    /// Replaces every pseudo-register by a stack slot and gives the size
    /// of the frame in bytes. The same name gets the same slot wherever
    /// it stands; a new name gets the slot four bytes below the last one.
    /// The frame reaches down to the slot that the next name would get.
    ///
    /// Fails with `InternalInvariantViolation`, and changes nothing,
    /// where the frame would not fit in 32 signed bits.
    pub fn replace_pseudo(&mut self) -> (r: Result<i32, CompileError>)
        ensures
            match r {
                Ok(size) => {
                    &&& size == frame_size(old(self)@.instructions)
                    &&& final(self)@.name == old(self)@.name
                    &&& final(self)@.instructions == place_code(
                        old(self)@.instructions,
                        assign_code(old(self)@.instructions),
                    )
                    &&& all_placed(final(self)@.instructions)
                },
                Err(e) => {
                    &&& e@ == CompileErrorView::InternalInvariantViolation
                    &&& frame_size(old(self)@.instructions) > i32::MAX
                    &&& final(self)@ == old(self)@
                },
            },
    {
        let mut pseudo_map: StringHashMap<i32> = StringHashMap::new();
        let mut new_instructions: Vec<Instruction> = Vec::new();
        let ghost code = instruction_views(self.instructions@);
        let mut i: usize = 0;
        proof {
            assert(slots_of(pseudo_map@) =~= assign_code(code.subrange(0, 0)));
            assert(instruction_views(new_instructions@) =~= place_code(
                code.subrange(0, 0),
                slots_of(pseudo_map@),
            ));
            lemma_assign_code(code.subrange(0, 0));
            assert(pseudo_map@.dom() =~= Set::<Seq<char>>::empty());
        }
        while i < self.instructions.len()
            invariant
                0 <= i <= self.instructions.len(),
                *self == *old(self),
                code == instruction_views(self.instructions@),
                pseudo_map@.dom().finite(),
                slots_of(pseudo_map@) == assign_code(code.subrange(0, i as int)),
                slots_of(pseudo_map@).len() <= MAX_SLOTS,
                instruction_views(new_instructions@) == place_code(
                    code.subrange(0, i as int),
                    slots_of(pseudo_map@),
                ),
            decreases self.instructions.len() - i,
        {
            let ghost shorter = code.subrange(0, i as int);
            let ghost longer = code.subrange(0, i + 1);
            let ghost before = slots_of(pseudo_map@);
            let ghost done = instruction_views(new_instructions@);
            proof {
                assert(shorter.len() == i);
                assert(done == place_code(shorter, before));
                assert(place_code(shorter, before).len() == shorter.len());
                assert(done.len() == new_instructions@.len());
                assert(longer.drop_last() =~= shorter);
                assert(longer.last() == self.instructions@[i as int]@);
                lemma_assign_code(shorter);
                lemma_assign_instruction(longer.last(), before);
                lemma_assign_code_extends(code, i + 1);
            }
            let placed = match replace_instruction(&self.instructions[i], &mut pseudo_map) {
                Ok(placed) => placed,
                Err(e) => {
                    return Err(e);
                },
            };
            assert(done.len() == i && new_instructions@.len() == i);
            new_instructions.push(placed);
            proof {
                let after = slots_of(pseudo_map@);
                assert(instruction_views(new_instructions@).len() == i + 1);
                assert forall|k: int| 0 <= k < longer.len() implies #[trigger] instruction_views(
                    new_instructions@,
                )[k] == place_instruction(longer[k], after) by {
                    if k < i {
                        assert(instruction_views(new_instructions@)[k] == done[k]);
                        assert(shorter[k] == longer[k]);
                        lemma_covered_extends(shorter[k], before, after);
                    }
                }
                assert(instruction_views(new_instructions@) =~= place_code(longer, after));
            }
            i = i + 1;
        }
        proof {
            assert(code.subrange(0, self.instructions.len() as int) =~= code);
        }
        proof {
            assert(slots_of(pseudo_map@).dom() =~= pseudo_map@.dom());
            lemma_placed_code_has_no_pseudo(code, slots_of(pseudo_map@));
        }
        let size: i32 = 4 * (pseudo_map.len() as i32 + 1);
        self.instructions = new_instructions;
        Ok(size)
    }
}

} // verus!
