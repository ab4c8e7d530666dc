use c_compiler::assembly::{
    generate_assembly_ast, BinaryOperator, CondCode, Function, Instruction, Operand, Program, Reg,
    UnaryOperator,
};
use c_compiler::error::CompileError;
use c_compiler::tac::{
    BinaryOperator as TacBinary, Function as TacFunction, Instruction as TacInstruction,
    Program as TacProgram, UnaryOperator as TacUnary, Val,
};

fn id(name: &str) -> Val {
    Val::Identifier(name.to_string())
}

fn c(k: i32) -> Val {
    Val::Constant(k)
}

fn pseudo(name: &str) -> Operand {
    Operand::Pseudo(name.to_string())
}

fn imm(k: i32) -> Operand {
    Operand::Imm(k)
}

fn reg(r: Reg) -> Operand {
    Operand::Reg(r)
}

fn stack(offset: i32) -> Operand {
    Operand::Stack(offset)
}

fn built(i: TacInstruction) -> Vec<Instruction> {
    i.to_assembly_instructions().unwrap()
}

fn function(instructions: Vec<Instruction>) -> Function {
    Function { name: "main".to_string(), instructions }
}

fn binary(operator: TacBinary) -> TacInstruction {
    TacInstruction::Binary { operator, src1: id("a"), src2: c(2), dst: id("d") }
}

fn legal(i: &Instruction) -> bool {
    let is_stack = |o: &Operand| matches!(o, Operand::Stack(_));
    let is_imm = |o: &Operand| matches!(o, Operand::Imm(_));
    match i {
        Instruction::Mov(src, dst) => !(is_stack(src) && is_stack(dst)),
        Instruction::Binary(op, src, dst) => match op {
            BinaryOperator::Add
            | BinaryOperator::Sub
            | BinaryOperator::And
            | BinaryOperator::Or
            | BinaryOperator::Xor => !(is_stack(src) && is_stack(dst)),
            BinaryOperator::Mul => !is_stack(dst),
            BinaryOperator::Shl | BinaryOperator::Shr => {
                !is_stack(dst) || is_imm(src) || *src == Operand::Reg(Reg::CX)
            }
        },
        Instruction::Idiv(src) => !is_imm(src),
        Instruction::Cmp(src, dst) => !is_imm(dst) && !(is_stack(src) && is_stack(dst)),
        _ => true,
    }
}

fn fixed(instructions: Vec<Instruction>, stack_size: i32) -> Vec<Instruction> {
    let mut f = function(instructions);
    f.fix_mov(stack_size);
    for i in &f.instructions {
        assert!(legal(i), "{:?} is not legal", i);
    }
    assert_eq!(f.name, "main");
    f.instructions
}

fn fixed_one(i: Instruction) -> Vec<Instruction> {
    let mut all = fixed(vec![i], 0);
    assert_eq!(all.remove(0), Instruction::AllocateStack(0));
    all
}

#[test]
fn return_moves_the_value_to_ax() {
    assert_eq!(
        built(TacInstruction::Return(c(2))),
        vec![Instruction::Mov(imm(2), reg(Reg::AX)), Instruction::Ret]
    );
    assert_eq!(
        built(TacInstruction::Return(id("x"))),
        vec![Instruction::Mov(pseudo("x"), reg(Reg::AX)), Instruction::Ret]
    );
}

#[test]
fn negate_and_complement_work_in_place() {
    assert_eq!(
        built(TacInstruction::Unary { operator: TacUnary::Negate, src: c(5), dst: id("d") }),
        vec![
            Instruction::Mov(imm(5), pseudo("d")),
            Instruction::Unary(UnaryOperator::Neg, pseudo("d"))
        ]
    );
    assert_eq!(
        built(TacInstruction::Unary { operator: TacUnary::Complement, src: id("s"), dst: id("d") }),
        vec![
            Instruction::Mov(pseudo("s"), pseudo("d")),
            Instruction::Unary(UnaryOperator::Not, pseudo("d"))
        ]
    );
}

#[test]
fn logical_not_compares_with_zero() {
    assert_eq!(
        built(TacInstruction::Unary { operator: TacUnary::LogicalNot, src: id("s"), dst: id("d") }),
        vec![
            Instruction::Cmp(imm(0), pseudo("s")),
            Instruction::Mov(imm(0), pseudo("d")),
            Instruction::SetCC(CondCode::E, pseudo("d")),
        ]
    );
}

#[test]
fn division_takes_the_quotient_from_ax() {
    assert_eq!(
        built(binary(TacBinary::Divide)),
        vec![
            Instruction::Mov(pseudo("a"), reg(Reg::AX)),
            Instruction::Cdq,
            Instruction::Idiv(imm(2)),
            Instruction::Mov(reg(Reg::AX), pseudo("d")),
        ]
    );
}

#[test]
fn remainder_takes_the_rest_from_dx() {
    assert_eq!(
        built(binary(TacBinary::Modulo)),
        vec![
            Instruction::Mov(pseudo("a"), reg(Reg::AX)),
            Instruction::Cdq,
            Instruction::Idiv(imm(2)),
            Instruction::Mov(reg(Reg::DX), pseudo("d")),
        ]
    );
}

#[test]
fn comparisons_compare_the_second_with_the_first() {
    let cases = [
        (TacBinary::Equal, CondCode::E),
        (TacBinary::NotEqual, CondCode::NE),
        (TacBinary::LessThan, CondCode::L),
        (TacBinary::LessThanOrEqual, CondCode::LE),
        (TacBinary::GreaterThan, CondCode::G),
        (TacBinary::GreaterThanOrEqual, CondCode::GE),
    ];
    for (operator, cc) in cases {
        assert_eq!(
            built(binary(operator)),
            vec![
                Instruction::Cmp(imm(2), pseudo("a")),
                Instruction::Mov(imm(0), pseudo("d")),
                Instruction::SetCC(cc, pseudo("d")),
            ]
        );
    }
}

#[test]
fn arithmetic_works_on_a_copy_of_the_first_operand() {
    let cases = [
        (TacBinary::Add, BinaryOperator::Add),
        (TacBinary::Subtract, BinaryOperator::Sub),
        (TacBinary::Multiply, BinaryOperator::Mul),
        (TacBinary::Ampersand, BinaryOperator::And),
        (TacBinary::Pipe, BinaryOperator::Or),
        (TacBinary::Caret, BinaryOperator::Xor),
        (TacBinary::ShiftLeft, BinaryOperator::Shl),
        (TacBinary::ShiftRight, BinaryOperator::Shr),
    ];
    for (operator, op) in cases {
        assert_eq!(
            built(binary(operator)),
            vec![
                Instruction::Mov(pseudo("a"), pseudo("d")),
                Instruction::Binary(op, imm(2), pseudo("d")),
            ]
        );
    }
}

#[test]
fn operators_without_an_instruction_are_an_internal_error() {
    for operator in [TacBinary::LogicalAnd, TacBinary::LogicalOr, TacBinary::Assign] {
        assert_eq!(
            binary(operator).to_assembly_instructions(),
            Err(CompileError::InternalInvariantViolation)
        );
    }
}

#[test]
fn jumps_and_labels() {
    assert_eq!(
        built(TacInstruction::JumpIfZero { src: id("s"), label: "l".to_string() }),
        vec![
            Instruction::Cmp(pseudo("s"), imm(0)),
            Instruction::JmpCC(CondCode::E, "l".to_string())
        ]
    );
    assert_eq!(
        built(TacInstruction::JumpIfNotZero { src: id("s"), label: "l".to_string() }),
        vec![
            Instruction::Cmp(pseudo("s"), imm(0)),
            Instruction::JmpCC(CondCode::NE, "l".to_string())
        ]
    );
    assert_eq!(
        built(TacInstruction::Jump { label: "l".to_string() }),
        vec![Instruction::Jmp("l".to_string())]
    );
    assert_eq!(
        built(TacInstruction::Label { label: "l".to_string() }),
        vec![Instruction::Label("l".to_string())]
    );
}

#[test]
fn copy_is_a_move() {
    assert_eq!(
        built(TacInstruction::Copy { src: c(1), dst: id("d") }),
        vec![Instruction::Mov(imm(1), pseudo("d"))]
    );
}

#[test]
fn a_value_becomes_an_immediate_or_a_pseudo_register() {
    assert_eq!(Operand::from(&c(-3)), imm(-3));
    assert_eq!(Operand::from(&id("tmp.1")), pseudo("tmp.1"));
}

#[test]
fn a_function_is_built_in_order() {
    let tac = TacProgram {
        function: TacFunction {
            identifier: "main".to_string(),
            body: vec![
                TacInstruction::Copy { src: c(1), dst: id("a") },
                TacInstruction::Return(id("a")),
            ],
        },
    };
    assert_eq!(
        generate_assembly_ast(tac),
        Ok(Program {
            function: function(vec![
                Instruction::Mov(imm(1), pseudo("a")),
                Instruction::Mov(pseudo("a"), reg(Reg::AX)),
                Instruction::Ret,
            ])
        })
    );
}

#[test]
fn one_bad_instruction_fails_the_function() {
    let f = TacFunction {
        identifier: "main".to_string(),
        body: vec![TacInstruction::Return(c(1)), binary(TacBinary::Assign)],
    };
    assert_eq!(f.to_assembly_function(), Err(CompileError::InternalInvariantViolation));
    let p = TacProgram { function: f };
    assert_eq!(p.to_assembly_program(), Err(CompileError::InternalInvariantViolation));
}

#[test]
fn pseudo_registers_get_slots_in_order_of_first_use() {
    let mut f = function(vec![
        Instruction::Mov(imm(1), pseudo("a")),
        Instruction::Mov(pseudo("a"), pseudo("b")),
        Instruction::Binary(BinaryOperator::Add, pseudo("c"), pseudo("a")),
        Instruction::Unary(UnaryOperator::Neg, pseudo("b")),
        Instruction::Cmp(pseudo("d"), pseudo("c")),
        Instruction::Idiv(pseudo("e")),
        Instruction::SetCC(CondCode::L, pseudo("f")),
        Instruction::Mov(pseudo("f"), reg(Reg::AX)),
        Instruction::Ret,
    ]);
    assert_eq!(f.replace_pseudo(), Ok(28));
    assert_eq!(
        f.instructions,
        vec![
            Instruction::Mov(imm(1), stack(-4)),
            Instruction::Mov(stack(-4), stack(-8)),
            Instruction::Binary(BinaryOperator::Add, stack(-12), stack(-4)),
            Instruction::Unary(UnaryOperator::Neg, stack(-8)),
            Instruction::Cmp(stack(-16), stack(-12)),
            Instruction::Idiv(stack(-20)),
            Instruction::SetCC(CondCode::L, stack(-24)),
            Instruction::Mov(stack(-24), reg(Reg::AX)),
            Instruction::Ret,
        ]
    );
    assert_eq!(f.name, "main");
}

#[test]
fn the_source_gets_its_slot_before_the_destination() {
    let mut f = function(vec![Instruction::Mov(pseudo("s"), pseudo("d"))]);
    assert_eq!(f.replace_pseudo(), Ok(12));
    assert_eq!(f.instructions, vec![Instruction::Mov(stack(-4), stack(-8))]);
}

#[test]
fn a_function_without_pseudo_registers_has_the_smallest_frame() {
    let code = vec![
        Instruction::Mov(imm(2), reg(Reg::AX)),
        Instruction::Cdq,
        Instruction::Jmp("l".to_string()),
        Instruction::Label("l".to_string()),
        Instruction::AllocateStack(4),
        Instruction::Mov(stack(-4), reg(Reg::DX)),
        Instruction::Ret,
    ];
    let mut f = function(code.clone());
    assert_eq!(f.replace_pseudo(), Ok(4));
    assert_eq!(f.instructions, code);
}

#[test]
fn different_names_get_different_slots_and_one_name_one_slot() {
    let names = ["a", "b", "a", "c", "b", "tmp.1", "a@0", "c"];
    let mut f = function(
        names.iter().map(|n| Instruction::Unary(UnaryOperator::Not, pseudo(n))).collect(),
    );
    let size = f.replace_pseudo().unwrap();
    assert_eq!(size, 24);
    let mut seen: Vec<(&str, i32)> = Vec::new();
    for (name, instruction) in names.iter().zip(&f.instructions) {
        let offset = match instruction {
            Instruction::Unary(_, Operand::Stack(offset)) => *offset,
            other => panic!("{:?} holds no slot", other),
        };
        assert!(offset % 4 == 0 && -size < offset && offset <= -4);
        for (other, slot) in &seen {
            assert_eq!(other == name, *slot == offset);
        }
        seen.push((name, offset));
    }
}

#[test]
fn move_between_two_slots_goes_through_r10() {
    assert_eq!(
        fixed_one(Instruction::Mov(stack(-4), stack(-8))),
        vec![
            Instruction::Mov(stack(-4), reg(Reg::R10)),
            Instruction::Mov(reg(Reg::R10), stack(-8))
        ]
    );
    assert_eq!(
        fixed_one(Instruction::Mov(imm(1), stack(-8))),
        vec![Instruction::Mov(imm(1), stack(-8))]
    );
    assert_eq!(
        fixed_one(Instruction::Mov(stack(-4), reg(Reg::AX))),
        vec![Instruction::Mov(stack(-4), reg(Reg::AX))]
    );
}

#[test]
fn two_address_operations_on_two_slots_go_through_r10() {
    for op in [
        BinaryOperator::Add,
        BinaryOperator::Sub,
        BinaryOperator::And,
        BinaryOperator::Or,
        BinaryOperator::Xor,
    ] {
        assert_eq!(
            fixed_one(Instruction::Binary(op, stack(-4), stack(-8))),
            vec![
                Instruction::Mov(stack(-4), reg(Reg::R10)),
                Instruction::Binary(op, reg(Reg::R10), stack(-8))
            ]
        );
        assert_eq!(
            fixed_one(Instruction::Binary(op, imm(3), stack(-8))),
            vec![Instruction::Binary(op, imm(3), stack(-8))]
        );
    }
}

#[test]
fn a_product_is_formed_in_r11() {
    assert_eq!(
        fixed_one(Instruction::Binary(BinaryOperator::Mul, imm(3), stack(-4))),
        vec![
            Instruction::Mov(stack(-4), reg(Reg::R11)),
            Instruction::Binary(BinaryOperator::Mul, imm(3), reg(Reg::R11)),
            Instruction::Mov(reg(Reg::R11), stack(-4)),
        ]
    );
    assert_eq!(
        fixed_one(Instruction::Binary(BinaryOperator::Mul, stack(-8), stack(-4))),
        vec![
            Instruction::Mov(stack(-8), reg(Reg::R10)),
            Instruction::Mov(stack(-4), reg(Reg::R11)),
            Instruction::Binary(BinaryOperator::Mul, reg(Reg::R10), reg(Reg::R11)),
            Instruction::Mov(reg(Reg::R11), stack(-4)),
        ]
    );
    assert_eq!(
        fixed_one(Instruction::Binary(BinaryOperator::Mul, stack(-8), reg(Reg::AX))),
        vec![Instruction::Binary(BinaryOperator::Mul, stack(-8), reg(Reg::AX))]
    );
}

#[test]
fn a_shift_count_goes_to_cx() {
    for op in [BinaryOperator::Shl, BinaryOperator::Shr] {
        assert_eq!(
            fixed_one(Instruction::Binary(op, stack(-8), stack(-4))),
            vec![
                Instruction::Mov(stack(-8), reg(Reg::CX)),
                Instruction::Binary(op, reg(Reg::CX), stack(-4))
            ]
        );
        assert_eq!(
            fixed_one(Instruction::Binary(op, reg(Reg::R10), stack(-4))),
            vec![
                Instruction::Mov(reg(Reg::R10), reg(Reg::CX)),
                Instruction::Binary(op, reg(Reg::CX), stack(-4))
            ]
        );
        assert_eq!(
            fixed_one(Instruction::Binary(op, imm(3), stack(-4))),
            vec![Instruction::Binary(op, imm(3), stack(-4))]
        );
        assert_eq!(
            fixed_one(Instruction::Binary(op, reg(Reg::CX), stack(-4))),
            vec![Instruction::Binary(op, reg(Reg::CX), stack(-4))]
        );
    }
}

#[test]
fn a_constant_divisor_goes_to_r10() {
    assert_eq!(
        fixed_one(Instruction::Idiv(imm(3))),
        vec![Instruction::Mov(imm(3), reg(Reg::R10)), Instruction::Idiv(reg(Reg::R10))]
    );
    assert_eq!(fixed_one(Instruction::Idiv(stack(-4))), vec![Instruction::Idiv(stack(-4))]);
}

#[test]
fn a_comparison_of_two_slots_goes_through_r10() {
    assert_eq!(
        fixed_one(Instruction::Cmp(stack(-4), stack(-8))),
        vec![
            Instruction::Mov(stack(-4), reg(Reg::R10)),
            Instruction::Cmp(reg(Reg::R10), stack(-8))
        ]
    );
}

#[test]
fn a_comparison_with_a_constant_on_the_right_goes_through_r11() {
    assert_eq!(
        fixed_one(Instruction::Cmp(stack(-4), imm(0))),
        vec![
            Instruction::Mov(imm(0), reg(Reg::R11)),
            Instruction::Cmp(stack(-4), reg(Reg::R11))
        ]
    );
    assert_eq!(
        fixed_one(Instruction::Cmp(imm(2), imm(1))),
        vec![Instruction::Mov(imm(1), reg(Reg::R11)), Instruction::Cmp(imm(2), reg(Reg::R11))]
    );
    assert_eq!(
        fixed_one(Instruction::Cmp(imm(0), stack(-4))),
        vec![Instruction::Cmp(imm(0), stack(-4))]
    );
}

#[test]
fn other_instructions_stay_as_they_are() {
    let code = vec![
        Instruction::Unary(UnaryOperator::Neg, stack(-4)),
        Instruction::Cdq,
        Instruction::Jmp("a".to_string()),
        Instruction::JmpCC(CondCode::GE, "a".to_string()),
        Instruction::SetCC(CondCode::LE, stack(-4)),
        Instruction::Label("a".to_string()),
        Instruction::Ret,
    ];
    let mut expected = vec![Instruction::AllocateStack(16)];
    expected.extend(code.clone());
    assert_eq!(fixed(code, 16), expected);
}

#[test]
fn the_allocation_comes_first() {
    assert_eq!(fixed(vec![], 8), vec![Instruction::AllocateStack(8)]);
}

#[test]
fn apply_fixes_allocates_then_legalizes() {
    let mut p = Program {
        function: function(vec![
            Instruction::Mov(imm(3), pseudo("a")),
            Instruction::Mov(pseudo("a"), pseudo("b")),
            Instruction::Binary(BinaryOperator::Mul, pseudo("a"), pseudo("b")),
            Instruction::Cmp(pseudo("b"), imm(0)),
            Instruction::Mov(pseudo("b"), reg(Reg::AX)),
            Instruction::Ret,
        ]),
    };
    assert_eq!(p.apply_fixes(), Ok(()));
    assert_eq!(
        p.function.instructions,
        vec![
            Instruction::AllocateStack(12),
            Instruction::Mov(imm(3), stack(-4)),
            Instruction::Mov(stack(-4), reg(Reg::R10)),
            Instruction::Mov(reg(Reg::R10), stack(-8)),
            Instruction::Mov(stack(-4), reg(Reg::R10)),
            Instruction::Mov(stack(-8), reg(Reg::R11)),
            Instruction::Binary(BinaryOperator::Mul, reg(Reg::R10), reg(Reg::R11)),
            Instruction::Mov(reg(Reg::R11), stack(-8)),
            Instruction::Mov(imm(0), reg(Reg::R11)),
            Instruction::Cmp(stack(-8), reg(Reg::R11)),
            Instruction::Mov(stack(-8), reg(Reg::AX)),
            Instruction::Ret,
        ]
    );
    for i in &p.function.instructions {
        assert!(legal(i));
    }
}

#[test]
fn operand_and_instruction_clones_are_equal() {
    for o in [imm(1), reg(Reg::CX), pseudo("p"), stack(-4)] {
        assert_eq!(o.clone(), o);
    }
    let i = Instruction::Binary(BinaryOperator::Xor, pseudo("p"), stack(-4));
    assert_eq!(i.clone(), i);
}
