use c_compiler::assembly::{
    BinaryOperator, CondCode, Function, Instruction, Operand, Program, Reg, UnaryOperator,
};
use c_compiler::emit::Target;

const PROLOGUE: &str = ".globl _main\n_main:\npushq %rbp\nmovq %rsp, %rbp\n";

fn imm(k: i32) -> Operand {
    Operand::Imm(k)
}

fn reg(r: Reg) -> Operand {
    Operand::Reg(r)
}

fn stack(offset: i32) -> Operand {
    Operand::Stack(offset)
}

fn text_of(instructions: Vec<Instruction>) -> String {
    let program = Program { function: Function { name: "main".to_string(), instructions } };
    let text = program.to_assembly_file(Target::Darwin);
    assert!(text.starts_with(PROLOGUE));
    text[PROLOGUE.len()..].to_string()
}

#[test]
fn operands_as_text() {
    assert_eq!(imm(5).to_assembly_file(), "$5");
    assert_eq!(imm(-5).to_assembly_file(), "$-5");
    assert_eq!(imm(0).to_assembly_file(), "$0");
    assert_eq!(imm(i32::MIN).to_assembly_file(), "$-2147483648");
    assert_eq!(stack(-4).to_assembly_file(), "-4(%rbp)");
    assert_eq!(stack(-120).to_assembly_file(), "-120(%rbp)");
    assert_eq!(reg(Reg::AX).to_assembly_file(), "%eax");
    assert_eq!(reg(Reg::CX).to_assembly_file(), "%ecx");
    assert_eq!(reg(Reg::DX).to_assembly_file(), "%edx");
    assert_eq!(reg(Reg::R10).to_assembly_file(), "%r10d");
    assert_eq!(reg(Reg::R11).to_assembly_file(), "%r11d");
    assert_eq!(Operand::Pseudo("tmp.1".to_string()).to_assembly_file(), "tmp.1");
}

#[test]
fn operands_as_bytes() {
    assert_eq!(reg(Reg::AX).to_assembly_file_byte(), "%al");
    assert_eq!(reg(Reg::CX).to_assembly_file_byte(), "%cl");
    assert_eq!(reg(Reg::DX).to_assembly_file_byte(), "%dl");
    assert_eq!(reg(Reg::R10).to_assembly_file_byte(), "%r10b");
    assert_eq!(reg(Reg::R11).to_assembly_file_byte(), "%r11b");
    assert_eq!(stack(-8).to_assembly_file_byte(), "-8(%rbp)");
    assert_eq!(imm(3).to_assembly_file_byte(), "$3");
}

#[test]
fn the_symbol_follows_the_target() {
    let program = Program { function: Function { name: "main".to_string(), instructions: vec![] } };
    assert_eq!(
        program.to_assembly_file(Target::Darwin),
        ".globl _main\n_main:\npushq %rbp\nmovq %rsp, %rbp\n"
    );
    assert_eq!(
        program.to_assembly_file(Target::SystemV),
        ".globl main\nmain:\npushq %rbp\nmovq %rsp, %rbp\n"
    );
}

#[test]
fn a_function_appends_to_the_text_it_is_given() {
    let f = Function { name: "f".to_string(), instructions: vec![Instruction::Cdq] };
    let mut text = "# head\n".to_string();
    f.to_assembly_file(&mut text, Target::SystemV);
    assert_eq!(text, "# head\n.globl f\nf:\npushq %rbp\nmovq %rsp, %rbp\ncdq\n");
}

#[test]
fn moves_and_unary_instructions() {
    assert_eq!(text_of(vec![Instruction::Mov(imm(2), reg(Reg::AX))]), "movl $2, %eax\n");
    assert_eq!(text_of(vec![Instruction::Mov(stack(-4), reg(Reg::R10))]), "movl -4(%rbp), %r10d\n");
    assert_eq!(text_of(vec![Instruction::Unary(UnaryOperator::Neg, stack(-4))]), "negl -4(%rbp)\n");
    assert_eq!(text_of(vec![Instruction::Unary(UnaryOperator::Not, reg(Reg::AX))]), "notl %eax\n");
}

#[test]
fn binary_instructions() {
    let cases = [
        (BinaryOperator::Add, "addl"),
        (BinaryOperator::Sub, "subl"),
        (BinaryOperator::Mul, "imull"),
        (BinaryOperator::And, "andl"),
        (BinaryOperator::Or, "orl"),
        (BinaryOperator::Xor, "xorl"),
    ];
    for (op, mnemonic) in cases {
        assert_eq!(
            text_of(vec![Instruction::Binary(op, reg(Reg::R10), stack(-8))]),
            format!("{} %r10d, -8(%rbp)\n", mnemonic)
        );
    }
}

#[test]
fn a_shift_takes_its_count_as_a_byte() {
    assert_eq!(
        text_of(vec![Instruction::Binary(BinaryOperator::Shl, reg(Reg::CX), stack(-4))]),
        "sall %cl, -4(%rbp)\n"
    );
    assert_eq!(
        text_of(vec![Instruction::Binary(BinaryOperator::Shr, reg(Reg::CX), stack(-4))]),
        "sarl %cl, -4(%rbp)\n"
    );
    assert_eq!(
        text_of(vec![Instruction::Binary(BinaryOperator::Shl, imm(3), stack(-4))]),
        "sall $3, -4(%rbp)\n"
    );
}

#[test]
fn division_and_comparison() {
    assert_eq!(text_of(vec![Instruction::Idiv(reg(Reg::R10))]), "idivl %r10d\n");
    assert_eq!(text_of(vec![Instruction::Cdq]), "cdq\n");
    assert_eq!(
        text_of(vec![Instruction::Cmp(imm(2), stack(-4))]),
        "cmpl $2, -4(%rbp)\n"
    );
}

#[test]
fn jumps_and_labels_get_the_prefix_l() {
    assert_eq!(text_of(vec![Instruction::Jmp("label.3".to_string())]), "jmp Llabel.3\n");
    assert_eq!(text_of(vec![Instruction::Label("label.3".to_string())]), "Llabel.3:\n");
    let cases = [
        (CondCode::E, "je"),
        (CondCode::NE, "jne"),
        (CondCode::G, "jg"),
        (CondCode::GE, "jge"),
        (CondCode::L, "jl"),
        (CondCode::LE, "jle"),
    ];
    for (cc, mnemonic) in cases {
        assert_eq!(
            text_of(vec![Instruction::JmpCC(cc, "x".to_string())]),
            format!("{} Lx\n", mnemonic)
        );
    }
}

#[test]
fn set_clears_sets_and_widens() {
    assert_eq!(
        text_of(vec![Instruction::SetCC(CondCode::E, stack(-4))]),
        "movl $0, -4(%rbp)\nsete -4(%rbp)\nmovzbl -4(%rbp), %eax\nmovl %eax, -4(%rbp)\n"
    );
    assert_eq!(
        text_of(vec![Instruction::SetCC(CondCode::GE, reg(Reg::R11))]),
        "movl $0, %r11d\nsetge %r11b\nmovzbl %r11b, %eax\nmovl %eax, %r11d\n"
    );
    let cases = [
        (CondCode::NE, "setne"),
        (CondCode::G, "setg"),
        (CondCode::L, "setl"),
        (CondCode::LE, "setle"),
    ];
    for (cc, mnemonic) in cases {
        assert!(text_of(vec![Instruction::SetCC(cc, reg(Reg::DX))])
            .contains(&format!("\n{} %dl\n", mnemonic)));
    }
}

#[test]
fn allocation_and_return() {
    assert_eq!(text_of(vec![Instruction::AllocateStack(16)]), "subq $16, %rsp\n");
    assert_eq!(text_of(vec![Instruction::Ret]), "movq %rbp, %rsp\npopq %rbp\nret\n");
}

#[test]
fn instructions_follow_each_other_in_order() {
    assert_eq!(
        text_of(vec![
            Instruction::AllocateStack(4),
            Instruction::Mov(imm(1), stack(-4)),
            Instruction::Mov(stack(-4), reg(Reg::AX)),
            Instruction::Ret,
        ]),
        "subq $4, %rsp\nmovl $1, -4(%rbp)\nmovl -4(%rbp), %eax\nmovq %rbp, %rsp\npopq %rbp\nret\n"
    );
}
