use c_compiler::lex::{strip_comments, Lex, Token};
use c_compiler::parser::{
    parse_and_resolve_program, BinaryOp, BlockItem, Declaration, Exp, Factor,
    FunctionDeclaration, Program as ParserProgram, Statement, UnaryOp,
};
use c_compiler::tac::{
    generate_tac, BinaryOperator, Function, Instruction, Program, UnaryOperator, Val,
};

fn tokens_of(text: &str) -> Vec<Token> {
    strip_comments(Lex::new(text).get_tokens().unwrap())
}

fn lowered(text: &str) -> Vec<Instruction> {
    let program = parse_and_resolve_program(&mut tokens_of(text)).unwrap();
    generate_tac(program).function.body
}

fn id(name: &str) -> Val {
    Val::Identifier(name.to_string())
}

fn c(k: i32) -> Val {
    Val::Constant(k)
}

fn binary(operator: BinaryOperator, src1: Val, src2: Val, dst: Val) -> Instruction {
    Instruction::Binary { operator, src1, src2, dst }
}

fn unary(operator: UnaryOperator, src: Val, dst: Val) -> Instruction {
    Instruction::Unary { operator, src, dst }
}

fn copy(src: Val, dst: Val) -> Instruction {
    Instruction::Copy { src, dst }
}

fn num(k: i32) -> Exp {
    Exp::Factor(Factor::Int(k))
}

fn var(name: &str) -> Exp {
    Exp::Factor(Factor::Var(name.to_string()))
}

#[test]
fn return_of_a_constant() {
    assert_eq!(lowered("int main(void){ return 2; }"), vec![Instruction::Return(c(2))]);
}

#[test]
fn the_function_keeps_its_name() {
    let program = parse_and_resolve_program(&mut tokens_of("int main(void){ return 2; }")).unwrap();
    assert_eq!(
        generate_tac(program),
        Program {
            function: Function {
                identifier: "main".to_string(),
                body: vec![Instruction::Return(c(2))]
            }
        }
    );
}

#[test]
fn temporaries_are_named_after_the_length_of_the_list() {
    assert_eq!(
        lowered("int main(void){ return 1 + 2 * 3; }"),
        vec![
            binary(BinaryOperator::Multiply, c(2), c(3), id("tmp.0")),
            binary(BinaryOperator::Add, c(1), id("tmp.0"), id("tmp.1")),
            Instruction::Return(id("tmp.1")),
        ]
    );
}

#[test]
fn unary_operators_from_the_inside_out() {
    assert_eq!(
        lowered("int main(void){ return -(~5); }"),
        vec![
            unary(UnaryOperator::Complement, c(5), id("tmp.0")),
            unary(UnaryOperator::Negate, id("tmp.0"), id("tmp.1")),
            Instruction::Return(id("tmp.1")),
        ]
    );
    assert_eq!(
        lowered("int main(void){ return !7; }"),
        vec![unary(UnaryOperator::LogicalNot, c(7), id("tmp.0")), Instruction::Return(id("tmp.0"))]
    );
}

#[test]
fn a_declaration_with_an_initializer_is_a_copy() {
    assert_eq!(
        lowered("int main(void){ int a = 3; int b = 4; return a * b + 1; }"),
        vec![
            copy(c(3), id("a@0")),
            copy(c(4), id("b@1")),
            binary(BinaryOperator::Multiply, id("a@0"), id("b@1"), id("tmp.2")),
            binary(BinaryOperator::Add, id("tmp.2"), c(1), id("tmp.3")),
            Instruction::Return(id("tmp.3")),
        ]
    );
}

#[test]
fn a_declaration_without_an_initializer_is_nothing() {
    assert_eq!(
        lowered("int main(void){ int a; return 1; }"),
        vec![Instruction::Return(c(1))]
    );
}

#[test]
fn an_assignment_evaluates_the_right_side_and_copies() {
    assert_eq!(
        lowered("int main(void){ int x = 5; x = x + 10; return x; }"),
        vec![
            copy(c(5), id("x@0")),
            binary(BinaryOperator::Add, id("x@0"), c(10), id("tmp.1")),
            copy(id("tmp.1"), id("x@0")),
            Instruction::Return(id("x@0")),
        ]
    );
}

#[test]
fn the_value_of_an_assignment_is_its_target() {
    assert_eq!(
        lowered("int main(void){ int a; int b; a = b = 3; return a; }"),
        vec![copy(c(3), id("b@1")), copy(id("b@1"), id("a@0")), Instruction::Return(id("a@0"))]
    );
}

#[test]
fn logical_and_jumps_over_the_right_operand_on_zero() {
    assert_eq!(
        lowered("int main(void){ return (1 < 2) && (3 == 3); }"),
        vec![
            binary(BinaryOperator::LessThan, c(1), c(2), id("tmp.0")),
            binary(BinaryOperator::NotEqual, id("tmp.0"), c(0), id("tmp.2")),
            copy(id("tmp.2"), id("tmp.1")),
            Instruction::JumpIfZero { src: id("tmp.2"), label: "label.1".to_string() },
            binary(BinaryOperator::Equal, c(3), c(3), id("tmp.4")),
            binary(BinaryOperator::NotEqual, id("tmp.4"), c(0), id("tmp.1")),
            Instruction::Label { label: "label.1".to_string() },
            Instruction::Return(id("tmp.1")),
        ]
    );
}

#[test]
fn logical_or_jumps_over_the_right_operand_on_nonzero() {
    assert_eq!(
        lowered("int main(void){ return 0 || 5; }"),
        vec![
            binary(BinaryOperator::NotEqual, c(0), c(0), id("tmp.1")),
            copy(id("tmp.1"), id("tmp.0")),
            Instruction::JumpIfNotZero { src: id("tmp.1"), label: "label.0".to_string() },
            binary(BinaryOperator::NotEqual, c(5), c(0), id("tmp.0")),
            Instruction::Label { label: "label.0".to_string() },
            Instruction::Return(id("tmp.0")),
        ]
    );
}

#[test]
fn the_right_operand_of_a_short_circuit_sits_between_the_jump_and_its_label() {
    let code = lowered("int main(void){ int a = 0; int b = 1; return a && (b = b + 1); }");
    let jump = code
        .iter()
        .position(|i| matches!(i, Instruction::JumpIfZero { .. }))
        .unwrap();
    let target = match &code[jump] {
        Instruction::JumpIfZero { label, .. } => label.clone(),
        _ => unreachable!(),
    };
    let landing = code
        .iter()
        .position(|i| matches!(i, Instruction::Label { label } if *label == target))
        .unwrap();
    let right = code
        .iter()
        .position(|i| matches!(i, Instruction::Binary { operator: BinaryOperator::Add, .. }))
        .unwrap();
    assert!(jump < right && right < landing);
    let labels = code.iter().filter(|i| matches!(i, Instruction::Label { .. })).count();
    assert_eq!(labels, 1);
}

#[test]
fn nested_short_circuits_have_labels_of_their_own() {
    let code = lowered("int main(void){ return (1 && 2) || (3 && 4); }");
    let mut labels: Vec<String> = Vec::new();
    for instruction in &code {
        if let Instruction::Label { label } = instruction {
            assert!(!labels.contains(label));
            labels.push(label.clone());
        }
    }
    assert_eq!(labels.len(), 3);
}

#[test]
fn every_ordinary_operator_has_its_instruction() {
    let cases = [
        ("-", BinaryOperator::Subtract),
        ("/", BinaryOperator::Divide),
        ("%", BinaryOperator::Modulo),
        ("&", BinaryOperator::Ampersand),
        ("|", BinaryOperator::Pipe),
        ("^", BinaryOperator::Caret),
        ("<<", BinaryOperator::ShiftLeft),
        (">>", BinaryOperator::ShiftRight),
        ("!=", BinaryOperator::NotEqual),
        (">", BinaryOperator::GreaterThan),
        (">=", BinaryOperator::GreaterThanOrEqual),
        ("<=", BinaryOperator::LessThanOrEqual),
    ];
    for (text, operator) in cases {
        assert_eq!(
            lowered(&format!("int main(void){{ return 7 {} 2; }}", text)),
            vec![binary(operator, c(7), c(2), id("tmp.0")), Instruction::Return(id("tmp.0"))]
        );
    }
}

#[test]
fn main_without_return_returns_zero() {
    assert_eq!(lowered("int main(void){ }"), vec![Instruction::Return(c(0))]);
    assert_eq!(
        lowered("int main(void){ int a = 1; a = 2; }"),
        vec![copy(c(1), id("a@0")), copy(c(2), id("a@0")), Instruction::Return(c(0))]
    );
}

#[test]
fn main_with_a_return_gets_no_second_one() {
    assert_eq!(
        lowered("int main(void){ return 1; ; }"),
        vec![Instruction::Return(c(1))]
    );
}

#[test]
fn a_function_that_is_not_main_gets_no_return() {
    let f = FunctionDeclaration::Function(
        "other".to_string(),
        vec![BlockItem::Statement(Statement::ExpressionStatement(num(1)))],
    );
    assert_eq!(f.generate_tac(), Function { identifier: "other".to_string(), body: vec![] });
}

#[test]
fn an_expression_statement_keeps_its_code() {
    assert_eq!(
        lowered("int main(void){ 1 + 2; return 0; }"),
        vec![binary(BinaryOperator::Add, c(1), c(2), id("tmp.0")), Instruction::Return(c(0))]
    );
}

#[test]
fn lowering_appends_to_the_list_it_is_given() {
    let mut body = vec![Instruction::Return(c(9))];
    let e = Exp::Binary(Box::new(num(1)), BinaryOp::Add, Box::new(var("v")));
    assert_eq!(e.generate_tac(&mut body), id("tmp.1"));
    assert_eq!(
        body,
        vec![Instruction::Return(c(9)), binary(BinaryOperator::Add, c(1), id("v"), id("tmp.1"))]
    );
    let f = Factor::Unary(UnaryOp::Negation, Box::new(Factor::Int(4)));
    assert_eq!(f.generate_tac(&mut body), id("tmp.2"));
    assert_eq!(body.len(), 3);
    assert_eq!(body[2], unary(UnaryOperator::Negate, c(4), id("tmp.2")));
}

#[test]
fn a_declaration_gives_its_variable_where_it_has_an_initializer() {
    let mut body = Vec::new();
    let d = Declaration::Declaration("a".to_string(), Some(num(1)));
    assert_eq!(d.generate_tac(&mut body), Some(id("a")));
    assert_eq!(body, vec![copy(c(1), id("a"))]);
    let d = Declaration::Declaration("b".to_string(), None);
    assert_eq!(d.generate_tac(&mut body), None);
    assert_eq!(body.len(), 1);
}

#[test]
fn statements_and_block_items_append_their_code() {
    let mut body = Vec::new();
    Statement::Null.generate_tac(&mut body);
    assert!(body.is_empty());
    Statement::Return(num(3)).generate_tac(&mut body);
    BlockItem::Statement(Statement::ExpressionStatement(var("a"))).generate_tac(&mut body);
    BlockItem::Declaration(Declaration::Declaration("a".to_string(), Some(num(1))))
        .generate_tac(&mut body);
    assert_eq!(body, vec![Instruction::Return(c(3)), copy(c(1), id("a"))]);
}

#[test]
fn the_program_method_and_the_function_agree() {
    let text = "int main(void){ return (1 << 3) | 1; }";
    let a = parse_and_resolve_program(&mut tokens_of(text)).unwrap();
    let b = parse_and_resolve_program(&mut tokens_of(text)).unwrap();
    let ParserProgram::Program(function) = &a;
    assert_eq!(a.generate_tac().function, function.generate_tac());
    assert_eq!(a.generate_tac(), generate_tac(b));
}

#[test]
fn operators_convert_one_for_one() {
    assert_eq!(UnaryOperator::from(&UnaryOp::Negation), UnaryOperator::Negate);
    assert_eq!(UnaryOperator::from(&UnaryOp::BitwiseComplement), UnaryOperator::Complement);
    assert_eq!(UnaryOperator::from(&UnaryOp::LogicalNot), UnaryOperator::LogicalNot);
    assert_eq!(BinaryOperator::from(&BinaryOp::Add), BinaryOperator::Add);
    assert_eq!(BinaryOperator::from(&BinaryOp::BitwiseAnd), BinaryOperator::Ampersand);
    assert_eq!(BinaryOperator::from(&BinaryOp::BitwiseOr), BinaryOperator::Pipe);
    assert_eq!(BinaryOperator::from(&BinaryOp::BitwiseXor), BinaryOperator::Caret);
    assert_eq!(BinaryOperator::from(&BinaryOp::LeftShift), BinaryOperator::ShiftLeft);
    assert_eq!(BinaryOperator::from(&BinaryOp::RightShift), BinaryOperator::ShiftRight);
    assert_eq!(BinaryOperator::from(&BinaryOp::LogicalAnd), BinaryOperator::LogicalAnd);
    assert_eq!(BinaryOperator::from(&BinaryOp::LogicalOr), BinaryOperator::LogicalOr);
    assert_eq!(BinaryOperator::from(&BinaryOp::Assignment), BinaryOperator::Assign);
    assert_eq!(BinaryOperator::from(&BinaryOp::LessThan), BinaryOperator::LessThan);
}

#[test]
fn a_value_as_text() {
    assert_eq!(c(0).to_string(), "0");
    assert_eq!(c(42).to_string(), "42");
    assert_eq!(c(-7).to_string(), "-7");
    assert_eq!(c(i32::MAX).to_string(), "2147483647");
    assert_eq!(c(i32::MIN).to_string(), "-2147483648");
    assert_eq!(id("tmp.3").to_string(), "tmp.3");
}

#[test]
fn a_value_clone_is_equal() {
    assert_eq!(id("a").clone(), id("a"));
    assert_eq!(c(5).clone(), c(5));
}

#[test]
fn every_destination_of_a_compiled_program_is_a_name() {
    let code = lowered(
        "int main(void){ int a = 1; int b; b = (a = 2) + !a; return (a || b) && -b < a * 3; }",
    );
    for instruction in &code {
        match instruction {
            Instruction::Unary { dst, .. } | Instruction::Copy { dst, .. } => {
                assert!(matches!(dst, Val::Identifier(_)))
            }
            Instruction::Binary { operator, dst, .. } => {
                assert!(matches!(dst, Val::Identifier(_)));
                assert!(!matches!(
                    operator,
                    BinaryOperator::LogicalAnd | BinaryOperator::LogicalOr | BinaryOperator::Assign
                ));
            }
            _ => {}
        }
    }
}
