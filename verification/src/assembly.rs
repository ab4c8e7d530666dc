//! The assembly of the target, x86-64, as data: instructions over
//! immediates, registers, named pseudo-registers and stack slots; and the
//! instructions that three-address code is built into.
use vstd::prelude::*;
use vstd::string::*;
use crate::error::{CompileError, CompileErrorView};
use crate::tac::{
    code_is_sound, instruction_is_sound, instruction_views as tac_instruction_views,
    BinaryOperator as TacBinaryOperator,
    Function as TacFunction, FunctionView as TacFunctionView, Instruction as TacInstruction,
    InstructionView as TacInstructionView, Program as TacProgram, ProgramView as TacProgramView,
    UnaryOperator as TacUnaryOperator, Val, ValView,
};

verus! {

/// The condition that a conditional jump or set tests.
#[derive(Debug, Clone, Copy, PartialEq, Eq, Structural)]
pub enum CondCode {
    E,
    NE,
    G,
    GE,
    L,
    LE,
}

/// A register. `AX` and `DX` serve the division and the result, `CX`
/// holds the count of a shift, `R10` and `R11` are scratch.
#[derive(Debug, Clone, Copy, PartialEq, Eq, Structural)]
pub enum Reg {
    AX,
    CX,
    DX,
    R10,
    R11,
}

/// An operand of an instruction.
#[derive(Debug, PartialEq, Eq)]
pub enum Operand {
    /// A constant.
    Imm(i32),
    /// A register.
    Reg(Reg),
    /// A variable or temporary that has no place yet.
    Pseudo(String),
    /// The stack slot at the given offset from the frame pointer.
    Stack(i32),
}

/// The operator of a unary instruction.
#[derive(Debug, Clone, Copy, PartialEq, Eq, Structural)]
pub enum UnaryOperator {
    Neg,
    Not,
}

/// The operator of a binary instruction.
#[derive(Debug, Clone, Copy, PartialEq, Eq, Structural)]
pub enum BinaryOperator {
    Add,
    Sub,
    Mul,
    And,
    Or,
    Xor,
    Shl,
    Shr,
}

/// An instruction. Where there are two operands, the source comes first.
#[derive(Debug, PartialEq, Eq)]
pub enum Instruction {
    Mov(Operand, Operand),
    Unary(UnaryOperator, Operand),
    Binary(BinaryOperator, Operand, Operand),
    Cmp(Operand, Operand),
    Idiv(Operand),
    Cdq,
    Jmp(String),
    JmpCC(CondCode, String),
    SetCC(CondCode, Operand),
    Label(String),
    AllocateStack(i32),
    Ret,
}

/// A function in assembly.
#[derive(Debug, PartialEq, Eq)]
pub struct Function {
    pub name: String,
    pub instructions: Vec<Instruction>,
}

/// A program in assembly.
#[derive(Debug, PartialEq, Eq)]
pub struct Program {
    pub function: Function,
}

/// The mathematical value of an [`Operand`].
pub ghost enum OperandView {
    Imm(i32),
    Reg(Reg),
    Pseudo(Seq<char>),
    Stack(i32),
}

/// The mathematical value of an [`Instruction`].
pub ghost enum InstructionView {
    Mov(OperandView, OperandView),
    Unary(UnaryOperator, OperandView),
    Binary(BinaryOperator, OperandView, OperandView),
    Cmp(OperandView, OperandView),
    Idiv(OperandView),
    Cdq,
    Jmp(Seq<char>),
    JmpCC(CondCode, Seq<char>),
    SetCC(CondCode, OperandView),
    Label(Seq<char>),
    AllocateStack(i32),
    Ret,
}

/// The mathematical value of a [`Function`].
pub ghost struct FunctionView {
    pub name: Seq<char>,
    pub instructions: Seq<InstructionView>,
}

/// The mathematical value of a [`Program`].
pub ghost struct ProgramView {
    pub function: FunctionView,
}

impl View for Operand {
    type V = OperandView;

    open spec fn view(&self) -> OperandView {
        match self {
            Operand::Imm(k) => OperandView::Imm(*k),
            Operand::Reg(r) => OperandView::Reg(*r),
            Operand::Pseudo(name) => OperandView::Pseudo(name@),
            Operand::Stack(offset) => OperandView::Stack(*offset),
        }
    }
}

impl Clone for Operand {
    fn clone(&self) -> (r: Operand)
        ensures
            r@ == self@,
    {
        match self {
            Operand::Imm(k) => Operand::Imm(*k),
            Operand::Reg(r) => Operand::Reg(*r),
            Operand::Pseudo(name) => Operand::Pseudo(name.clone()),
            Operand::Stack(offset) => Operand::Stack(*offset),
        }
    }
}

impl View for Instruction {
    type V = InstructionView;

    open spec fn view(&self) -> InstructionView {
        match self {
            Instruction::Mov(src, dst) => InstructionView::Mov(src@, dst@),
            Instruction::Unary(op, dst) => InstructionView::Unary(*op, dst@),
            Instruction::Binary(op, src, dst) => InstructionView::Binary(*op, src@, dst@),
            Instruction::Cmp(src, dst) => InstructionView::Cmp(src@, dst@),
            Instruction::Idiv(src) => InstructionView::Idiv(src@),
            Instruction::Cdq => InstructionView::Cdq,
            Instruction::Jmp(label) => InstructionView::Jmp(label@),
            Instruction::JmpCC(cc, label) => InstructionView::JmpCC(*cc, label@),
            Instruction::SetCC(cc, dst) => InstructionView::SetCC(*cc, dst@),
            Instruction::Label(label) => InstructionView::Label(label@),
            Instruction::AllocateStack(size) => InstructionView::AllocateStack(*size),
            Instruction::Ret => InstructionView::Ret,
        }
    }
}

impl Clone for Instruction {
    fn clone(&self) -> (r: Instruction)
        ensures
            r@ == self@,
    {
        match self {
            Instruction::Mov(src, dst) => Instruction::Mov(src.clone(), dst.clone()),
            Instruction::Unary(op, dst) => Instruction::Unary(*op, dst.clone()),
            Instruction::Binary(op, src, dst) => Instruction::Binary(*op, src.clone(), dst.clone()),
            Instruction::Cmp(src, dst) => Instruction::Cmp(src.clone(), dst.clone()),
            Instruction::Idiv(src) => Instruction::Idiv(src.clone()),
            Instruction::Cdq => Instruction::Cdq,
            Instruction::Jmp(label) => Instruction::Jmp(label.clone()),
            Instruction::JmpCC(cc, label) => Instruction::JmpCC(*cc, label.clone()),
            Instruction::SetCC(cc, dst) => Instruction::SetCC(*cc, dst.clone()),
            Instruction::Label(label) => Instruction::Label(label.clone()),
            Instruction::AllocateStack(size) => Instruction::AllocateStack(*size),
            Instruction::Ret => Instruction::Ret,
        }
    }
}

/// The values of a sequence of instructions.
pub open spec fn instruction_views(code: Seq<Instruction>) -> Seq<InstructionView> {
    code.map_values(|i: Instruction| i@)
}

impl View for Function {
    type V = FunctionView;

    open spec fn view(&self) -> FunctionView {
        FunctionView { name: self.name@, instructions: instruction_views(self.instructions@) }
    }
}

impl View for Program {
    type V = ProgramView;

    open spec fn view(&self) -> ProgramView {
        ProgramView { function: self.function@ }
    }
}

/// The operand that stands for a value of three-address code: an
/// immediate for a constant, a pseudo-register for a name.
pub open spec fn operand_of(v: ValView) -> OperandView {
    match v {
        ValView::Constant(k) => OperandView::Imm(k),
        ValView::Identifier(name) => OperandView::Pseudo(name),
    }
}

/// The condition code of a comparison; `None` for other operators.
pub open spec fn cond_code_of(op: TacBinaryOperator) -> Option<CondCode> {
    match op {
        TacBinaryOperator::Equal => Some(CondCode::E),
        TacBinaryOperator::NotEqual => Some(CondCode::NE),
        TacBinaryOperator::LessThan => Some(CondCode::L),
        TacBinaryOperator::LessThanOrEqual => Some(CondCode::LE),
        TacBinaryOperator::GreaterThan => Some(CondCode::G),
        TacBinaryOperator::GreaterThanOrEqual => Some(CondCode::GE),
        _ => None,
    }
}

/// The instruction operator of an operator that one two-operand
/// instruction computes; `None` for division, remainder, comparisons and
/// the operators that three-address code has no instruction for.
pub open spec fn arithmetic_of(op: TacBinaryOperator) -> Option<BinaryOperator> {
    match op {
        TacBinaryOperator::Add => Some(BinaryOperator::Add),
        TacBinaryOperator::Subtract => Some(BinaryOperator::Sub),
        TacBinaryOperator::Multiply => Some(BinaryOperator::Mul),
        TacBinaryOperator::Ampersand => Some(BinaryOperator::And),
        TacBinaryOperator::Pipe => Some(BinaryOperator::Or),
        TacBinaryOperator::Caret => Some(BinaryOperator::Xor),
        TacBinaryOperator::ShiftLeft => Some(BinaryOperator::Shl),
        TacBinaryOperator::ShiftRight => Some(BinaryOperator::Shr),
        _ => None,
    }
}

/// The instructions that compute `src1 op src2` into `dst`.
pub open spec fn build_binary(
    op: TacBinaryOperator,
    src1: OperandView,
    src2: OperandView,
    dst: OperandView,
) -> Result<Seq<InstructionView>, CompileErrorView> {
    if op == TacBinaryOperator::Divide {
        Ok(
            seq![
                InstructionView::Mov(src1, OperandView::Reg(Reg::AX)),
                InstructionView::Cdq,
                InstructionView::Idiv(src2),
                InstructionView::Mov(OperandView::Reg(Reg::AX), dst),
            ],
        )
    } else if op == TacBinaryOperator::Modulo {
        Ok(
            seq![
                InstructionView::Mov(src1, OperandView::Reg(Reg::AX)),
                InstructionView::Cdq,
                InstructionView::Idiv(src2),
                InstructionView::Mov(OperandView::Reg(Reg::DX), dst),
            ],
        )
    } else if let Some(cc) = cond_code_of(op) {
        Ok(
            seq![
                InstructionView::Cmp(src2, src1),
                InstructionView::Mov(OperandView::Imm(0), dst),
                InstructionView::SetCC(cc, dst),
            ],
        )
    } else if let Some(arithmetic) = arithmetic_of(op) {
        Ok(seq![InstructionView::Mov(src1, dst), InstructionView::Binary(arithmetic, src2, dst)])
    } else {
        Err(CompileErrorView::InternalInvariantViolation)
    }
}

/// The instructions that one instruction of three-address code becomes.
pub open spec fn build_instruction(i: TacInstructionView) -> Result<
    Seq<InstructionView>,
    CompileErrorView,
> {
    match i {
        TacInstructionView::Return(v) => Ok(
            seq![InstructionView::Mov(operand_of(v), OperandView::Reg(Reg::AX)), InstructionView::Ret],
        ),
        TacInstructionView::Unary { operator, src, dst } => match operator {
            TacUnaryOperator::LogicalNot => Ok(
                seq![
                    InstructionView::Cmp(OperandView::Imm(0), operand_of(src)),
                    InstructionView::Mov(OperandView::Imm(0), operand_of(dst)),
                    InstructionView::SetCC(CondCode::E, operand_of(dst)),
                ],
            ),
            TacUnaryOperator::Negate => Ok(
                seq![
                    InstructionView::Mov(operand_of(src), operand_of(dst)),
                    InstructionView::Unary(UnaryOperator::Neg, operand_of(dst)),
                ],
            ),
            TacUnaryOperator::Complement => Ok(
                seq![
                    InstructionView::Mov(operand_of(src), operand_of(dst)),
                    InstructionView::Unary(UnaryOperator::Not, operand_of(dst)),
                ],
            ),
        },
        TacInstructionView::Binary { operator, src1, src2, dst } => build_binary(
            operator,
            operand_of(src1),
            operand_of(src2),
            operand_of(dst),
        ),
        TacInstructionView::Copy { src, dst } => Ok(
            seq![InstructionView::Mov(operand_of(src), operand_of(dst))],
        ),
        TacInstructionView::Jump { label } => Ok(seq![InstructionView::Jmp(label)]),
        TacInstructionView::JumpIfZero { src, label } => Ok(
            seq![
                InstructionView::Cmp(operand_of(src), OperandView::Imm(0)),
                InstructionView::JmpCC(CondCode::E, label),
            ],
        ),
        TacInstructionView::JumpIfNotZero { src, label } => Ok(
            seq![
                InstructionView::Cmp(operand_of(src), OperandView::Imm(0)),
                InstructionView::JmpCC(CondCode::NE, label),
            ],
        ),
        TacInstructionView::Label { label } => Ok(seq![InstructionView::Label(label)]),
    }
}

/// Whether every instruction of the code can be built into assembly.
pub open spec fn can_build_all(code: Seq<TacInstructionView>) -> bool {
    forall|i: int| 0 <= i < code.len() ==> #[trigger] build_instruction(code[i]) is Ok
}

/// What the instructions are built into, one behind the other.
pub open spec fn build_code(code: Seq<TacInstructionView>) -> Seq<InstructionView>
    decreases code.len(),
{
    if code.len() == 0 {
        Seq::empty()
    } else {
        build_code(code.drop_last()) + match build_instruction(code.last()) {
            Ok(instructions) => instructions,
            Err(_) => Seq::empty(),
        }
    }
}

/// The function in assembly, over pseudo-registers.
pub open spec fn build_function(f: TacFunctionView) -> Result<FunctionView, CompileErrorView> {
    if can_build_all(f.body) {
        Ok(FunctionView { name: f.identifier, instructions: build_code(f.body) })
    } else {
        Err(CompileErrorView::InternalInvariantViolation)
    }
}

/// The program in assembly, over pseudo-registers.
pub open spec fn build_program(p: TacProgramView) -> Result<ProgramView, CompileErrorView> {
    match build_function(p.function) {
        Ok(function) => Ok(ProgramView { function }),
        Err(e) => Err(e),
    }
}

impl From<&Val> for Operand {
    fn from(val: &Val) -> (r: Self) {
        match val {
            Val::Constant(k) => Operand::Imm(*k),
            Val::Identifier(name) => Operand::Pseudo(name.clone()),
        }
    }
}

impl vstd::std_specs::convert::FromSpecImpl<&Val> for Operand {
    open spec fn obeys_from_spec() -> bool {
        true
    }

    open spec fn from_spec(val: &Val) -> Self {
        match val {
            Val::Constant(k) => Operand::Imm(*k),
            Val::Identifier(name) => Operand::Pseudo(*name),
        }
    }
}

/// The operand that stands for a value of three-address code.
fn operand(val: &Val) -> (r: Operand)
    ensures
        r@ == operand_of(val@),
{
    Operand::from(val)
}

/// The condition code of a comparison.
fn condition_code(op: TacBinaryOperator) -> (r: Option<CondCode>)
    ensures
        r == cond_code_of(op),
{
    match op {
        TacBinaryOperator::Equal => Some(CondCode::E),
        TacBinaryOperator::NotEqual => Some(CondCode::NE),
        TacBinaryOperator::LessThan => Some(CondCode::L),
        TacBinaryOperator::LessThanOrEqual => Some(CondCode::LE),
        TacBinaryOperator::GreaterThan => Some(CondCode::G),
        TacBinaryOperator::GreaterThanOrEqual => Some(CondCode::GE),
        _ => None,
    }
}

/// The instruction operator of an operator that one instruction computes.
fn arithmetic(op: TacBinaryOperator) -> (r: Option<BinaryOperator>)
    ensures
        r == arithmetic_of(op),
{
    match op {
        TacBinaryOperator::Add => Some(BinaryOperator::Add),
        TacBinaryOperator::Subtract => Some(BinaryOperator::Sub),
        TacBinaryOperator::Multiply => Some(BinaryOperator::Mul),
        TacBinaryOperator::Ampersand => Some(BinaryOperator::And),
        TacBinaryOperator::Pipe => Some(BinaryOperator::Or),
        TacBinaryOperator::Caret => Some(BinaryOperator::Xor),
        TacBinaryOperator::ShiftLeft => Some(BinaryOperator::Shl),
        TacBinaryOperator::ShiftRight => Some(BinaryOperator::Shr),
        _ => None,
    }
}

/// Whether the outcome `r` of the executable builder is the outcome `expected`.
pub open spec fn built_as(
    expected: Result<Seq<InstructionView>, CompileErrorView>,
    r: Result<Vec<Instruction>, CompileError>,
) -> bool {
    match r {
        Ok(code) => expected == Ok::<Seq<InstructionView>, CompileErrorView>(
            instruction_views(code@),
        ),
        Err(e) => expected == Err::<Seq<InstructionView>, CompileErrorView>(e@),
    }
}

/// The instructions that compute `src1 op src2` into `dst`.
fn binary_instructions(op: TacBinaryOperator, src1: &Val, src2: &Val, dst: &Val) -> (r: Result<
    Vec<Instruction>,
    CompileError,
>)
    ensures
        built_as(build_binary(op, operand_of(src1@), operand_of(src2@), operand_of(dst@)), r),
{
    let mut code: Vec<Instruction> = Vec::new();
    match op {
        TacBinaryOperator::Divide => {
            code.push(Instruction::Mov(operand(src1), Operand::Reg(Reg::AX)));
            code.push(Instruction::Cdq);
            code.push(Instruction::Idiv(operand(src2)));
            code.push(Instruction::Mov(Operand::Reg(Reg::AX), operand(dst)));
        },
        TacBinaryOperator::Modulo => {
            code.push(Instruction::Mov(operand(src1), Operand::Reg(Reg::AX)));
            code.push(Instruction::Cdq);
            code.push(Instruction::Idiv(operand(src2)));
            code.push(Instruction::Mov(Operand::Reg(Reg::DX), operand(dst)));
        },
        _ => {
            if let Some(cc) = condition_code(op) {
                code.push(Instruction::Cmp(operand(src2), operand(src1)));
                code.push(Instruction::Mov(Operand::Imm(0), operand(dst)));
                code.push(Instruction::SetCC(cc, operand(dst)));
            } else if let Some(operator) = arithmetic(op) {
                code.push(Instruction::Mov(operand(src1), operand(dst)));
                code.push(Instruction::Binary(operator, operand(src2), operand(dst)));
            } else {
                return Err(CompileError::InternalInvariantViolation);
            }
        },
    }
    assert(instruction_views(code@) =~= build_binary(
        op,
        operand_of(src1@),
        operand_of(src2@),
        operand_of(dst@),
    )->Ok_0);
    Ok(code)
}

impl TacInstruction {
    /// The instructions that this instruction of three-address code
    /// becomes. Fails with `InternalInvariantViolation` on a binary
    /// instruction whose operator is `&&`, `||` or `=`.
    pub fn to_assembly_instructions(&self) -> (r: Result<Vec<Instruction>, CompileError>)
        ensures
            built_as(build_instruction(self@), r),
    {
        let mut code: Vec<Instruction> = Vec::new();
        match self {
            TacInstruction::Return(val) => {
                code.push(Instruction::Mov(operand(val), Operand::Reg(Reg::AX)));
                code.push(Instruction::Ret);
            },
            TacInstruction::Unary { operator, src, dst } => {
                match operator {
                    TacUnaryOperator::LogicalNot => {
                        code.push(Instruction::Cmp(Operand::Imm(0), operand(src)));
                        code.push(Instruction::Mov(Operand::Imm(0), operand(dst)));
                        code.push(Instruction::SetCC(CondCode::E, operand(dst)));
                    },
                    TacUnaryOperator::Negate => {
                        code.push(Instruction::Mov(operand(src), operand(dst)));
                        code.push(Instruction::Unary(UnaryOperator::Neg, operand(dst)));
                    },
                    TacUnaryOperator::Complement => {
                        code.push(Instruction::Mov(operand(src), operand(dst)));
                        code.push(Instruction::Unary(UnaryOperator::Not, operand(dst)));
                    },
                }
            },
            TacInstruction::Binary { operator, src1, src2, dst } => {
                return binary_instructions(*operator, src1, src2, dst);
            },
            TacInstruction::JumpIfZero { src, label } => {
                code.push(Instruction::Cmp(operand(src), Operand::Imm(0)));
                code.push(Instruction::JmpCC(CondCode::E, label.clone()));
            },
            TacInstruction::JumpIfNotZero { src, label } => {
                code.push(Instruction::Cmp(operand(src), Operand::Imm(0)));
                code.push(Instruction::JmpCC(CondCode::NE, label.clone()));
            },
            TacInstruction::Jump { label } => {
                code.push(Instruction::Jmp(label.clone()));
            },
            TacInstruction::Label { label } => {
                code.push(Instruction::Label(label.clone()));
            },
            TacInstruction::Copy { src, dst } => {
                code.push(Instruction::Mov(operand(src), operand(dst)));
            },
        }
        assert(instruction_views(code@) =~= build_instruction(self@)->Ok_0);
        Ok(code)
    }
}

impl TacFunction {
    /// The function in assembly, over pseudo-registers.
    pub fn to_assembly_function(&self) -> (r: Result<Function, CompileError>)
        ensures
            match r {
                Ok(function) => build_function(self@) == Ok::<FunctionView, CompileErrorView>(
                    function@,
                ),
                Err(e) => build_function(self@) == Err::<FunctionView, CompileErrorView>(e@),
            },
    {
        let mut instructions: Vec<Instruction> = Vec::new();
        let ghost body = tac_instruction_views(self.body@);
        let mut i: usize = 0;
        assert(instruction_views(instructions@) =~= build_code(body.subrange(0, 0)));
        while i < self.body.len()
            invariant
                0 <= i <= self.body.len(),
                body == tac_instruction_views(self.body@),
                can_build_all(body.subrange(0, i as int)),
                instruction_views(instructions@) == build_code(body.subrange(0, i as int)),
            decreases self.body.len() - i,
        {
            let ghost done = instruction_views(instructions@);
            proof {
                let longer = body.subrange(0, i + 1);
                assert(longer.drop_last() =~= body.subrange(0, i as int));
                assert(longer.last() == self.body@[i as int]@);
            }
            let mut built = match self.body[i].to_assembly_instructions() {
                Ok(built) => built,
                Err(e) => {
                    assert(build_instruction(body[i as int]) is Err);
                    return Err(e);
                },
            };
            let ghost added = instruction_views(built@);
            instructions.append(&mut built);
            proof {
                assert(instruction_views(instructions@) =~= done + added);
                let longer = body.subrange(0, i + 1);
                assert forall|j: int| 0 <= j < longer.len() implies #[trigger] build_instruction(
                    longer[j],
                ) is Ok by {
                    if j < i {
                        assert(longer[j] == body.subrange(0, i as int)[j]);
                    }
                }
            }
            i = i + 1;
        }
        assert(body.subrange(0, self.body.len() as int) =~= body);
        Ok(Function { name: self.identifier.clone(), instructions })
    }
}

impl TacProgram {
    /// The program in assembly, over pseudo-registers.
    pub fn to_assembly_program(&self) -> (r: Result<Program, CompileError>)
        ensures
            match r {
                Ok(program) => build_program(self@) == Ok::<ProgramView, CompileErrorView>(
                    program@,
                ),
                Err(e) => build_program(self@) == Err::<ProgramView, CompileErrorView>(e@),
            },
    {
        match self.function.to_assembly_function() {
            Ok(function) => Ok(Program { function }),
            Err(e) => Err(e),
        }
    }
}

/// Builds assembly over pseudo-registers from three-address code.
/// Fails with `InternalInvariantViolation` where a binary instruction
/// has the operator `&&`, `||` or `=`.
pub fn generate_assembly_ast(program: TacProgram) -> (r: Result<Program, CompileError>)
    ensures
        match r {
            Ok(assembly) => build_program(program@) == Ok::<ProgramView, CompileErrorView>(
                assembly@,
            ),
            Err(e) => build_program(program@) == Err::<ProgramView, CompileErrorView>(e@),
        },
{
    program.to_assembly_program()
}

/// Sound three-address code can be built into assembly.
pub proof fn lemma_sound_code_builds(code: Seq<TacInstructionView>)
    requires
        code_is_sound(code),
    ensures
        can_build_all(code),
{
    assert forall|i: int| 0 <= i < code.len() implies #[trigger] build_instruction(code[i]) is Ok by {
        assert(instruction_is_sound(code[i]));
    }
}

} // verus!
