//! The emitter: assembly as AT&T text, the source before the destination.
use vstd::prelude::*;
use vstd::string::*;
use crate::assembly::{
    instruction_views, BinaryOperator, CondCode, Function, FunctionView, Instruction,
    InstructionView, Operand, OperandView, Program, ProgramView, Reg, UnaryOperator,
};
use crate::legalize::is_shift;
use crate::text::{push_signed_decimal, signed_decimal};

verus! {

/// The platform whose naming of symbols the text follows.
#[derive(Debug, Clone, Copy, PartialEq, Eq, Structural)]
pub enum Target {
    /// macOS: the name of a function gets a leading underscore.
    Darwin,
    /// Linux and other System V platforms: the name stands as it is.
    SystemV,
}

/// The 32-bit name of a register.
pub open spec fn reg_text(r: Reg) -> Seq<char> {
    match r {
        Reg::AX => "%eax"@,
        Reg::CX => "%ecx"@,
        Reg::DX => "%edx"@,
        Reg::R10 => "%r10d"@,
        Reg::R11 => "%r11d"@,
    }
}

/// The name of the lowest byte of a register.
pub open spec fn reg_byte_text(r: Reg) -> Seq<char> {
    match r {
        Reg::AX => "%al"@,
        Reg::CX => "%cl"@,
        Reg::DX => "%dl"@,
        Reg::R10 => "%r10b"@,
        Reg::R11 => "%r11b"@,
    }
}

/// An operand as text: `$k`, `offset(%rbp)`, the 32-bit name of a
/// register, or the bare name of a pseudo-register.
pub open spec fn operand_text(o: OperandView) -> Seq<char> {
    match o {
        OperandView::Imm(k) => "$"@ + signed_decimal(k as int),
        OperandView::Reg(r) => reg_text(r),
        OperandView::Pseudo(name) => name,
        OperandView::Stack(offset) => signed_decimal(offset as int) + "(%rbp)"@,
    }
}

/// An operand as text where one byte is meant: as [`operand_text`], but
/// a register by the name of its lowest byte.
pub open spec fn operand_byte_text(o: OperandView) -> Seq<char> {
    match o {
        OperandView::Reg(r) => reg_byte_text(r),
        _ => operand_text(o),
    }
}

/// The suffix that a condition code gives to `j` and `set`.
pub open spec fn cond_text(cc: CondCode) -> Seq<char> {
    match cc {
        CondCode::E => "e"@,
        CondCode::NE => "ne"@,
        CondCode::G => "g"@,
        CondCode::GE => "ge"@,
        CondCode::L => "l"@,
        CondCode::LE => "le"@,
    }
}

/// The mnemonic of a unary operator.
pub open spec fn unary_text(op: UnaryOperator) -> Seq<char> {
    match op {
        UnaryOperator::Neg => "negl "@,
        UnaryOperator::Not => "notl "@,
    }
}

/// The mnemonic of a binary operator.
pub open spec fn binary_text(op: BinaryOperator) -> Seq<char> {
    match op {
        BinaryOperator::Add => "addl "@,
        BinaryOperator::Sub => "subl "@,
        BinaryOperator::Mul => "imull "@,
        BinaryOperator::And => "andl "@,
        BinaryOperator::Or => "orl "@,
        BinaryOperator::Xor => "xorl "@,
        BinaryOperator::Shl => "sall "@,
        BinaryOperator::Shr => "sarl "@,
    }
}

/// The source of a binary instruction as text; the count of a shift is
/// one byte.
pub open spec fn source_text(op: BinaryOperator, src: OperandView) -> Seq<char> {
    if is_shift(op) {
        operand_byte_text(src)
    } else {
        operand_text(src)
    }
}

/// The lines of a `set`: the destination is cleared, its lowest byte
/// set on the condition, and the byte widened through `%eax`.
pub open spec fn set_text(cc: CondCode, dst: OperandView) -> Seq<char> {
    "movl $0, "@ + operand_text(dst) + "\n"@ + "set"@ + cond_text(cc) + " "@ + operand_byte_text(
        dst,
    ) + "\n"@ + "movzbl "@ + operand_byte_text(dst) + ", %eax\n"@ + "movl %eax, "@ + operand_text(
        dst,
    ) + "\n"@
}

/// The lines of an instruction, each closed by a line feed.
pub open spec fn instruction_text(i: InstructionView) -> Seq<char> {
    match i {
        InstructionView::Mov(src, dst) => "movl "@ + operand_text(src) + ", "@ + operand_text(dst)
            + "\n"@,
        InstructionView::Unary(op, dst) => unary_text(op) + operand_text(dst) + "\n"@,
        InstructionView::Binary(op, src, dst) => binary_text(op) + source_text(op, src) + ", "@
            + operand_text(dst) + "\n"@,
        InstructionView::Cmp(src, dst) => "cmpl "@ + operand_text(src) + ", "@ + operand_text(dst)
            + "\n"@,
        InstructionView::Idiv(src) => "idivl "@ + operand_text(src) + "\n"@,
        InstructionView::Cdq => "cdq\n"@,
        InstructionView::Jmp(label) => "jmp L"@ + label + "\n"@,
        InstructionView::JmpCC(cc, label) => "j"@ + cond_text(cc) + " L"@ + label + "\n"@,
        InstructionView::SetCC(cc, dst) => set_text(cc, dst),
        InstructionView::Label(label) => "L"@ + label + ":\n"@,
        InstructionView::AllocateStack(size) => "subq $"@ + signed_decimal(size as int)
            + ", %rsp\n"@,
        InstructionView::Ret => "movq %rbp, %rsp\npopq %rbp\nret\n"@,
    }
}

/// The lines of the instructions, one behind the other.
pub open spec fn code_text(code: Seq<InstructionView>) -> Seq<char>
    decreases code.len(),
{
    if code.len() == 0 {
        Seq::empty()
    } else {
        code_text(code.drop_last()) + instruction_text(code.last())
    }
}

/// The symbol of a function on the target.
pub open spec fn symbol_text(name: Seq<char>, target: Target) -> Seq<char> {
    match target {
        Target::Darwin => "_"@ + name,
        Target::SystemV => name,
    }
}

/// The text of a function: its symbol made global, its label, the
/// prologue that sets up the frame pointer, and its instructions.
pub open spec fn function_text(f: FunctionView, target: Target) -> Seq<char> {
    ".globl "@ + symbol_text(f.name, target) + "\n"@ + symbol_text(f.name, target) + ":\n"@
        + "pushq %rbp\n"@ + "movq %rsp, %rbp\n"@ + code_text(f.instructions)
}

/// The text of a program.
pub open spec fn program_text(p: ProgramView, target: Target) -> Seq<char> {
    function_text(p.function, target)
}

fn write_reg(out: &mut String, r: Reg)
    ensures
        final(out)@ == old(out)@ + reg_text(r),
{
    match r {
        Reg::AX => out.append("%eax"),
        Reg::CX => out.append("%ecx"),
        Reg::DX => out.append("%edx"),
        Reg::R10 => out.append("%r10d"),
        Reg::R11 => out.append("%r11d"),
    }
}

fn write_reg_byte(out: &mut String, r: Reg)
    ensures
        final(out)@ == old(out)@ + reg_byte_text(r),
{
    match r {
        Reg::AX => out.append("%al"),
        Reg::CX => out.append("%cl"),
        Reg::DX => out.append("%dl"),
        Reg::R10 => out.append("%r10b"),
        Reg::R11 => out.append("%r11b"),
    }
}

fn write_operand(out: &mut String, operand: &Operand)
    ensures
        final(out)@ == old(out)@ + operand_text(operand@),
{
    match operand {
        Operand::Imm(k) => {
            out.append("$");
            push_signed_decimal(out, *k);
            assert(out@ =~= old(out)@ + operand_text(operand@));
        },
        Operand::Reg(r) => write_reg(out, *r),
        Operand::Pseudo(name) => out.append(name.as_str()),
        Operand::Stack(offset) => {
            push_signed_decimal(out, *offset);
            out.append("(%rbp)");
            assert(out@ =~= old(out)@ + operand_text(operand@));
        },
    }
}

fn write_operand_byte(out: &mut String, operand: &Operand)
    ensures
        final(out)@ == old(out)@ + operand_byte_text(operand@),
{
    match operand {
        Operand::Reg(r) => write_reg_byte(out, *r),
        _ => write_operand(out, operand),
    }
}

fn write_cond(out: &mut String, cc: CondCode)
    ensures
        final(out)@ == old(out)@ + cond_text(cc),
{
    match cc {
        CondCode::E => out.append("e"),
        CondCode::NE => out.append("ne"),
        CondCode::G => out.append("g"),
        CondCode::GE => out.append("ge"),
        CondCode::L => out.append("l"),
        CondCode::LE => out.append("le"),
    }
}

fn write_binary_mnemonic(out: &mut String, op: BinaryOperator)
    ensures
        final(out)@ == old(out)@ + binary_text(op),
{
    match op {
        BinaryOperator::Add => out.append("addl "),
        BinaryOperator::Sub => out.append("subl "),
        BinaryOperator::Mul => out.append("imull "),
        BinaryOperator::And => out.append("andl "),
        BinaryOperator::Or => out.append("orl "),
        BinaryOperator::Xor => out.append("xorl "),
        BinaryOperator::Shl => out.append("sall "),
        BinaryOperator::Shr => out.append("sarl "),
    }
}

fn write_set(out: &mut String, cc: CondCode, dst: &Operand)
    ensures
        final(out)@ == old(out)@ + set_text(cc, dst@),
{
    out.append("movl $0, ");
    write_operand(out, dst);
    out.append("\n");
    out.append("set");
    write_cond(out, cc);
    out.append(" ");
    write_operand_byte(out, dst);
    out.append("\n");
    out.append("movzbl ");
    write_operand_byte(out, dst);
    out.append(", %eax\n");
    out.append("movl %eax, ");
    write_operand(out, dst);
    out.append("\n");
    assert(out@ =~= old(out)@ + set_text(cc, dst@));
}

fn write_instruction(out: &mut String, instr: &Instruction)
    ensures
        final(out)@ == old(out)@ + instruction_text(instr@),
{
    match instr {
        Instruction::Mov(src, dst) => {
            out.append("movl ");
            write_operand(out, src);
            out.append(", ");
            write_operand(out, dst);
            out.append("\n");
        },
        Instruction::Unary(op, dst) => {
            match op {
                UnaryOperator::Neg => out.append("negl "),
                UnaryOperator::Not => out.append("notl "),
            }
            write_operand(out, dst);
            out.append("\n");
        },
        Instruction::Binary(op, src, dst) => {
            write_binary_mnemonic(out, *op);
            match op {
                BinaryOperator::Shl | BinaryOperator::Shr => write_operand_byte(out, src),
                _ => write_operand(out, src),
            }
            out.append(", ");
            write_operand(out, dst);
            out.append("\n");
        },
        Instruction::Cmp(src, dst) => {
            out.append("cmpl ");
            write_operand(out, src);
            out.append(", ");
            write_operand(out, dst);
            out.append("\n");
        },
        Instruction::Idiv(src) => {
            out.append("idivl ");
            write_operand(out, src);
            out.append("\n");
        },
        Instruction::Cdq => {
            out.append("cdq\n");
        },
        Instruction::Jmp(label) => {
            out.append("jmp L");
            out.append(label.as_str());
            out.append("\n");
        },
        Instruction::JmpCC(cc, label) => {
            out.append("j");
            write_cond(out, *cc);
            out.append(" L");
            out.append(label.as_str());
            out.append("\n");
        },
        Instruction::SetCC(cc, dst) => {
            write_set(out, *cc, dst);
        },
        Instruction::Label(label) => {
            out.append("L");
            out.append(label.as_str());
            out.append(":\n");
        },
        Instruction::AllocateStack(size) => {
            out.append("subq $");
            push_signed_decimal(out, *size);
            out.append(", %rsp\n");
        },
        Instruction::Ret => {
            out.append("movq %rbp, %rsp\npopq %rbp\nret\n");
        },
    }
    assert(out@ =~= old(out)@ + instruction_text(instr@));
}

impl Operand {
    /// The operand as text, a register by its 32-bit name.
    pub fn to_assembly_file(&self) -> (text: String)
        ensures
            text@ == operand_text(self@),
    {
        let mut text = String::new();
        write_operand(&mut text, self);
        assert(text@ =~= operand_text(self@));
        text
    }

    /// The operand as text, a register by the name of its lowest byte.
    pub fn to_assembly_file_byte(&self) -> (text: String)
        ensures
            text@ == operand_byte_text(self@),
    {
        let mut text = String::new();
        write_operand_byte(&mut text, self);
        assert(text@ =~= operand_byte_text(self@));
        text
    }
}

impl Function {
    /// Appends the text of the function to `result`.
    pub fn to_assembly_file(&self, result: &mut String, target: Target)
        ensures
            final(result)@ == old(result)@ + function_text(self@, target),
    {
        let ghost code = instruction_views(self.instructions@);
        result.append(".globl ");
        match target {
            Target::Darwin => {
                result.append("_");
            },
            Target::SystemV => {},
        }
        result.append(self.name.as_str());
        result.append("\n");
        match target {
            Target::Darwin => {
                result.append("_");
            },
            Target::SystemV => {},
        }
        result.append(self.name.as_str());
        result.append(":\n");
        result.append("pushq %rbp\n");
        result.append("movq %rsp, %rbp\n");
        let ghost head = ".globl "@ + symbol_text(self@.name, target) + "\n"@ + symbol_text(
            self@.name,
            target,
        ) + ":\n"@ + "pushq %rbp\n"@ + "movq %rsp, %rbp\n"@;
        assert(result@ =~= old(result)@ + head);
        let mut i: usize = 0;
        assert(code_text(code.subrange(0, 0)) =~= Seq::<char>::empty());
        while i < self.instructions.len()
            invariant
                0 <= i <= self.instructions.len(),
                code == instruction_views(self.instructions@),
                result@ == old(result)@ + head + code_text(code.subrange(0, i as int)),
            decreases self.instructions.len() - i,
        {
            let ghost before = result@;
            proof {
                let longer = code.subrange(0, i + 1);
                assert(longer.drop_last() =~= code.subrange(0, i as int));
                assert(longer.last() == self.instructions@[i as int]@);
            }
            write_instruction(result, &self.instructions[i]);
            assert(result@ =~= old(result)@ + head + code_text(code.subrange(0, i + 1)));
            i = i + 1;
        }
        assert(code.subrange(0, self.instructions.len() as int) =~= code);
        assert(result@ =~= old(result)@ + function_text(self@, target));
    }
}

impl Program {
    /// The text of the program for the target.
    pub fn to_assembly_file(&self, target: Target) -> (text: String)
        ensures
            text@ == program_text(self@, target),
    {
        let mut result = String::new();
        self.function.to_assembly_file(&mut result, target);
        assert(result@ =~= program_text(self@, target));
        result
    }
}

} // verus!
