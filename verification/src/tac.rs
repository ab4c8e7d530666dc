//! Three-address code: a flat list of instructions, each with at most two
//! sources and one destination, and the lowering of the syntax tree to it.
//!
//! A temporary or a label is named after the length of the instruction
//! list at the moment it is made, so the names depend on the tree alone.
use vstd::prelude::*;
use vstd::string::*;
use crate::parser::{
    block_item_views, BinaryOp, BlockItem, BlockItemView, Declaration, DeclarationView, Exp,
    ExpView, Factor, FactorView, FunctionDeclaration, FunctionDeclarationView,
    Program as ParserProgram, ProgramView as ParserProgramView, Statement, StatementView, UnaryOp,
};
use crate::resolver::{
    body_is_sound, exp_is_sound, factor_is_sound, is_lvalue, item_is_sound,
};
use crate::text::{
    decimal, lemma_decimal_injective, push_decimal, push_signed_decimal, same_text,
    signed_decimal,
};

verus! {

/// The operator of a unary instruction.
#[derive(Clone, Copy, Debug, PartialEq, Eq, Structural)]
pub enum UnaryOperator {
    Negate,
    Complement,
    LogicalNot,
}

/// The operator of a binary instruction.
#[derive(Clone, Copy, Debug, PartialEq, Eq, Structural)]
pub enum BinaryOperator {
    Add,
    Subtract,
    Multiply,
    Divide,
    Modulo,
    Ampersand,
    Pipe,
    Caret,
    ShiftLeft,
    ShiftRight,
    LogicalAnd,
    LogicalOr,
    Equal,
    NotEqual,
    GreaterThan,
    GreaterThanOrEqual,
    LessThan,
    LessThanOrEqual,
    Assign,
}

/// The instruction operator that a prefix operator of the source becomes.
pub open spec fn unary_operator_of(op: UnaryOp) -> UnaryOperator {
    match op {
        UnaryOp::Negation => UnaryOperator::Negate,
        UnaryOp::BitwiseComplement => UnaryOperator::Complement,
        UnaryOp::LogicalNot => UnaryOperator::LogicalNot,
    }
}

/// The instruction operator that an infix operator of the source becomes.
pub open spec fn binary_operator_of(op: BinaryOp) -> BinaryOperator {
    match op {
        BinaryOp::Add => BinaryOperator::Add,
        BinaryOp::Subtract => BinaryOperator::Subtract,
        BinaryOp::Multiply => BinaryOperator::Multiply,
        BinaryOp::Divide => BinaryOperator::Divide,
        BinaryOp::Modulo => BinaryOperator::Modulo,
        BinaryOp::BitwiseAnd => BinaryOperator::Ampersand,
        BinaryOp::BitwiseOr => BinaryOperator::Pipe,
        BinaryOp::BitwiseXor => BinaryOperator::Caret,
        BinaryOp::LeftShift => BinaryOperator::ShiftLeft,
        BinaryOp::RightShift => BinaryOperator::ShiftRight,
        BinaryOp::LogicalAnd => BinaryOperator::LogicalAnd,
        BinaryOp::LogicalOr => BinaryOperator::LogicalOr,
        BinaryOp::Equal => BinaryOperator::Equal,
        BinaryOp::NotEqual => BinaryOperator::NotEqual,
        BinaryOp::GreaterThan => BinaryOperator::GreaterThan,
        BinaryOp::GreaterThanOrEqual => BinaryOperator::GreaterThanOrEqual,
        BinaryOp::LessThan => BinaryOperator::LessThan,
        BinaryOp::LessThanOrEqual => BinaryOperator::LessThanOrEqual,
        BinaryOp::Assignment => BinaryOperator::Assign,
    }
}

impl From<&UnaryOp> for UnaryOperator {
    fn from(op: &UnaryOp) -> (r: Self) {
        match op {
            UnaryOp::Negation => UnaryOperator::Negate,
            UnaryOp::BitwiseComplement => UnaryOperator::Complement,
            UnaryOp::LogicalNot => UnaryOperator::LogicalNot,
        }
    }
}

impl vstd::std_specs::convert::FromSpecImpl<&UnaryOp> for UnaryOperator {
    open spec fn obeys_from_spec() -> bool {
        true
    }

    open spec fn from_spec(op: &UnaryOp) -> Self {
        unary_operator_of(*op)
    }
}

impl From<&BinaryOp> for BinaryOperator {
    fn from(op: &BinaryOp) -> (r: Self) {
        match op {
            BinaryOp::Add => BinaryOperator::Add,
            BinaryOp::Subtract => BinaryOperator::Subtract,
            BinaryOp::Multiply => BinaryOperator::Multiply,
            BinaryOp::Divide => BinaryOperator::Divide,
            BinaryOp::Modulo => BinaryOperator::Modulo,
            BinaryOp::BitwiseAnd => BinaryOperator::Ampersand,
            BinaryOp::BitwiseOr => BinaryOperator::Pipe,
            BinaryOp::BitwiseXor => BinaryOperator::Caret,
            BinaryOp::LeftShift => BinaryOperator::ShiftLeft,
            BinaryOp::RightShift => BinaryOperator::ShiftRight,
            BinaryOp::LogicalAnd => BinaryOperator::LogicalAnd,
            BinaryOp::LogicalOr => BinaryOperator::LogicalOr,
            BinaryOp::Equal => BinaryOperator::Equal,
            BinaryOp::NotEqual => BinaryOperator::NotEqual,
            BinaryOp::GreaterThan => BinaryOperator::GreaterThan,
            BinaryOp::GreaterThanOrEqual => BinaryOperator::GreaterThanOrEqual,
            BinaryOp::LessThan => BinaryOperator::LessThan,
            BinaryOp::LessThanOrEqual => BinaryOperator::LessThanOrEqual,
            BinaryOp::Assignment => BinaryOperator::Assign,
        }
    }
}

impl vstd::std_specs::convert::FromSpecImpl<&BinaryOp> for BinaryOperator {
    open spec fn obeys_from_spec() -> bool {
        true
    }

    open spec fn from_spec(op: &BinaryOp) -> Self {
        binary_operator_of(*op)
    }
}

/// An operand: a constant, or a variable or temporary by its name.
#[derive(Debug, PartialEq, Eq)]
pub enum Val {
    Identifier(String),
    Constant(i32),
}

/// An instruction of three-address code.
#[derive(Debug, PartialEq, Eq)]
#[allow(inconsistent_fields)]
pub enum Instruction {
    Return(Val),
    Unary { operator: UnaryOperator, src: Val, dst: Val },
    Binary { operator: BinaryOperator, src1: Val, src2: Val, dst: Val },
    Copy { src: Val, dst: Val },
    Jump { label: String },
    JumpIfZero { src: Val, label: String },
    JumpIfNotZero { src: Val, label: String },
    Label { label: String },
}

/// A function in three-address code.
#[derive(Debug, PartialEq, Eq)]
pub struct Function {
    pub identifier: String,
    pub body: Vec<Instruction>,
}

/// A program in three-address code.
#[derive(Debug, PartialEq, Eq)]
pub struct Program {
    pub function: Function,
}

/// The mathematical value of a [`Val`].
pub ghost enum ValView {
    Identifier(Seq<char>),
    Constant(i32),
}

/// The mathematical value of an [`Instruction`].
#[allow(inconsistent_fields)]
pub ghost enum InstructionView {
    Return(ValView),
    Unary { operator: UnaryOperator, src: ValView, dst: ValView },
    Binary { operator: BinaryOperator, src1: ValView, src2: ValView, dst: ValView },
    Copy { src: ValView, dst: ValView },
    Jump { label: Seq<char> },
    JumpIfZero { src: ValView, label: Seq<char> },
    JumpIfNotZero { src: ValView, label: Seq<char> },
    Label { label: Seq<char> },
}

/// The mathematical value of a [`Function`].
pub ghost struct FunctionView {
    pub identifier: Seq<char>,
    pub body: Seq<InstructionView>,
}

/// The mathematical value of a [`Program`].
pub ghost struct ProgramView {
    pub function: FunctionView,
}

impl View for Val {
    type V = ValView;

    open spec fn view(&self) -> ValView {
        match self {
            Val::Identifier(name) => ValView::Identifier(name@),
            Val::Constant(k) => ValView::Constant(*k),
        }
    }
}

impl Clone for Val {
    fn clone(&self) -> (r: Val)
        ensures
            r@ == self@,
    {
        match self {
            Val::Identifier(name) => Val::Identifier(name.clone()),
            Val::Constant(k) => Val::Constant(*k),
        }
    }
}

impl View for Instruction {
    type V = InstructionView;

    open spec fn view(&self) -> InstructionView {
        match self {
            Instruction::Return(v) => InstructionView::Return(v@),
            Instruction::Unary { operator, src, dst } => InstructionView::Unary {
                operator: *operator,
                src: src@,
                dst: dst@,
            },
            Instruction::Binary { operator, src1, src2, dst } => InstructionView::Binary {
                operator: *operator,
                src1: src1@,
                src2: src2@,
                dst: dst@,
            },
            Instruction::Copy { src, dst } => InstructionView::Copy { src: src@, dst: dst@ },
            Instruction::Jump { label } => InstructionView::Jump { label: label@ },
            Instruction::JumpIfZero { src, label } => InstructionView::JumpIfZero {
                src: src@,
                label: label@,
            },
            Instruction::JumpIfNotZero { src, label } => InstructionView::JumpIfNotZero {
                src: src@,
                label: label@,
            },
            Instruction::Label { label } => InstructionView::Label { label: label@ },
        }
    }
}

/// The values of a sequence of instructions.
pub open spec fn instruction_views(code: Seq<Instruction>) -> Seq<InstructionView> {
    code.map_values(|i: Instruction| i@)
}

impl View for Function {
    type V = FunctionView;

    open spec fn view(&self) -> FunctionView {
        FunctionView { identifier: self.identifier@, body: instruction_views(self.body@) }
    }
}

impl View for Program {
    type V = ProgramView;

    open spec fn view(&self) -> ProgramView {
        ProgramView { function: self.function@ }
    }
}

/// The text of an operand: the numeral of a constant, the name of an identifier.
pub open spec fn val_text(v: ValView) -> Seq<char> {
    match v {
        ValView::Constant(k) => signed_decimal(k as int),
        ValView::Identifier(name) => name,
    }
}

impl Val {
    /// The text of the operand.
    pub fn to_string(&self) -> (s: String)
        ensures
            s@ == val_text(self@),
    {
        match self {
            Val::Constant(k) => {
                let mut s = String::new();
                push_signed_decimal(&mut s, *k);
                assert(s@ =~= signed_decimal(*k as int));
                s
            },
            Val::Identifier(name) => name.clone(),
        }
    }
}

/// The name of the temporary made when the instruction list is `n` long.
pub open spec fn temp_name(n: nat) -> Seq<char> {
    "tmp."@ + decimal(n)
}

/// The name of the label made when the instruction list is `n` long.
pub open spec fn label_name(n: nat) -> Seq<char> {
    "label."@ + decimal(n)
}

/// The code of an expression and the operand that holds its value.
pub ghost struct Lowered {
    pub code: Seq<InstructionView>,
    pub val: ValView,
}

/// Whether an operator evaluates its right operand only when the left
/// one does not decide the result.
pub open spec fn is_short_circuit(op: BinaryOp) -> bool {
    op == BinaryOp::LogicalAnd || op == BinaryOp::LogicalOr
}

/// The jump over the right operand of a short-circuit operator: `&&` is
/// decided by a zero on the left, `||` by anything else.
pub open spec fn short_circuit_jump(op: BinaryOp, src: ValView, label: Seq<char>) -> InstructionView {
    if op == BinaryOp::LogicalAnd {
        InstructionView::JumpIfZero { src, label }
    } else {
        InstructionView::JumpIfNotZero { src, label }
    }
}

/// The instruction that turns `src` into 0 or 1 in `dst`.
pub open spec fn truth_of(src: ValView, dst: ValView) -> InstructionView {
    InstructionView::Binary {
        operator: BinaryOperator::NotEqual,
        src1: src,
        src2: ValView::Constant(0),
        dst,
    }
}

/// The code of a factor, appended to an instruction list that is `base` long.
pub open spec fn lower_factor(f: FactorView, base: nat) -> Lowered
    decreases f,
{
    match f {
        FactorView::Int(k) => Lowered { code: Seq::empty(), val: ValView::Constant(k) },
        FactorView::Unary(op, inner) => {
            let operand = lower_factor(*inner, base);
            let dst = ValView::Identifier(temp_name(base + operand.code.len()));
            Lowered {
                code: operand.code.push(
                    InstructionView::Unary {
                        operator: unary_operator_of(op),
                        src: operand.val,
                        dst,
                    },
                ),
                val: dst,
            }
        },
        FactorView::Var(name) => Lowered { code: Seq::empty(), val: ValView::Identifier(name) },
        FactorView::Parenthesized(inner) => lower_expression(*inner, base),
    }
}

/// The code of an expression, appended to an instruction list that is
/// `base` long.
pub open spec fn lower_expression(e: ExpView, base: nat) -> Lowered
    decreases e,
{
    match e {
        ExpView::Factor(f) => lower_factor(f, base),
        ExpView::Binary(left, op, right) => {
            let l = lower_expression(*left, base);
            let n = base + l.code.len();
            if is_short_circuit(op) {
                let dst = ValView::Identifier(temp_name(n));
                let label = label_name(n);
                let bool_dst = ValView::Identifier(temp_name(n + 1));
                let r = lower_expression(*right, n + 3);
                Lowered {
                    code: l.code + seq![
                        truth_of(l.val, bool_dst),
                        InstructionView::Copy { src: bool_dst, dst },
                        short_circuit_jump(op, bool_dst, label),
                    ] + r.code + seq![truth_of(r.val, dst), InstructionView::Label { label }],
                    val: dst,
                }
            } else {
                let r = lower_expression(*right, n);
                let dst = ValView::Identifier(temp_name(n + r.code.len()));
                Lowered {
                    code: l.code + r.code + seq![
                        InstructionView::Binary {
                            operator: binary_operator_of(op),
                            src1: l.val,
                            src2: r.val,
                            dst,
                        },
                    ],
                    val: dst,
                }
            }
        },
        ExpView::Assignment(left, right) => {
            let r = lower_expression(*right, base);
            let l = lower_expression(*left, base + r.code.len());
            Lowered {
                code: r.code + l.code + seq![InstructionView::Copy { src: r.val, dst: l.val }],
                val: l.val,
            }
        },
    }
}

/// The code of a declaration: its initializer, copied to the variable, or
/// nothing where it has none.
pub open spec fn lower_declaration(d: DeclarationView, base: nat) -> Seq<InstructionView> {
    match d.init {
        Some(init) => {
            let value = lower_expression(init, base);
            value.code.push(
                InstructionView::Copy { src: value.val, dst: ValView::Identifier(d.name) },
            )
        },
        None => Seq::empty(),
    }
}

/// The code of a statement.
pub open spec fn lower_statement(s: StatementView, base: nat) -> Seq<InstructionView> {
    match s {
        StatementView::Return(e) => {
            let value = lower_expression(e, base);
            value.code.push(InstructionView::Return(value.val))
        },
        StatementView::ExpressionStatement(e) => lower_expression(e, base).code,
        StatementView::Null => Seq::empty(),
    }
}

/// The code of a block item.
pub open spec fn lower_block_item(item: BlockItemView, base: nat) -> Seq<InstructionView> {
    match item {
        BlockItemView::Declaration(d) => lower_declaration(d, base),
        BlockItemView::Statement(s) => lower_statement(s, base),
    }
}

/// The code of the block items, one behind the other.
pub open spec fn lower_body(items: Seq<BlockItemView>) -> Seq<InstructionView>
    decreases items.len(),
{
    if items.len() == 0 {
        Seq::empty()
    } else {
        let before = lower_body(items.drop_last());
        before + lower_block_item(items.last(), before.len())
    }
}

/// Whether one of the instructions is a `Return`.
pub open spec fn has_return(code: Seq<InstructionView>) -> bool {
    exists|i: int| 0 <= i < code.len() && #[trigger] code[i] is Return
}

/// The function in three-address code. `main` returns 0 where its body
/// holds no `Return`.
pub open spec fn lower_function(f: FunctionDeclarationView) -> FunctionView {
    let body = lower_body(f.body);
    if f.name == "main"@ && !has_return(body) {
        FunctionView {
            identifier: f.name,
            body: body.push(InstructionView::Return(ValView::Constant(0))),
        }
    } else {
        FunctionView { identifier: f.name, body }
    }
}

/// The program in three-address code.
pub open spec fn lower_program(p: ParserProgramView) -> ProgramView {
    ProgramView { function: lower_function(p.function) }
}

/// Whether `body` extended by an expression's code is `after`, with the
/// value of the expression in `val`.
pub open spec fn appended(
    lowered: Lowered,
    before: Seq<Instruction>,
    after: Seq<Instruction>,
    val: Val,
) -> bool {
    instruction_views(after) == instruction_views(before) + lowered.code && val@ == lowered.val
}

/// Makes the name of a temporary.
fn make_temp(n: usize, offset: u8) -> (val: Val)
    ensures
        val@ == ValView::Identifier(temp_name((n + offset) as nat)),
{
    let mut name = "tmp.".to_owned();
    push_decimal(&mut name, n as u128 + offset as u128);
    Val::Identifier(name)
}

/// Makes the name of a label.
fn make_label(n: usize) -> (label: String)
    ensures
        label@ == label_name(n as nat),
{
    let mut name = "label.".to_owned();
    push_decimal(&mut name, n as u128);
    name
}

/// Appends one instruction.
fn emit(body: &mut Vec<Instruction>, instruction: Instruction)
    ensures
        instruction_views(final(body)@) == instruction_views(old(body)@).push(instruction@),
        final(body)@.len() == old(body)@.len() + 1,
{
    body.push(instruction);
    assert(instruction_views(body@) =~= instruction_views(old(body)@).push(instruction@));
}

impl Factor {
    /// Appends the code of the factor to `body` and gives the operand that
    /// holds its value.
    pub fn generate_tac(&self, body: &mut Vec<Instruction>) -> (val: Val)
        ensures
            appended(lower_factor(self@, old(body)@.len() as nat), old(body)@, final(body)@, val),
        decreases self, 1int,
    {
        match self {
            Factor::Int(value) => {
                assert(instruction_views(body@) + Seq::<InstructionView>::empty()
                    =~= instruction_views(body@));
                Val::Constant(*value)
            },
            Factor::Unary(op, exp) => {
                let val = exp.generate_tac(body);
                let dst = make_temp(body.len(), 0);
                let ghost operand = lower_factor(exp@, old(body)@.len() as nat);
                let ghost mid = instruction_views(body@);
                assert(mid.len() == old(body)@.len() + operand.code.len());
                let instruction = Instruction::Unary {
                    operator: UnaryOperator::from(op),
                    src: val,
                    dst: dst.clone(),
                };
                emit(body, instruction);
                assert(instruction_views(body@) =~= instruction_views(old(body)@)
                    + operand.code.push(instruction@));
                dst
            },
            Factor::Var(identifier) => {
                assert(instruction_views(body@) + Seq::<InstructionView>::empty()
                    =~= instruction_views(body@));
                Val::Identifier(identifier.clone())
            },
            Factor::Parenthesized(exp) => exp.generate_tac(body),
        }
    }
}

impl Exp {
    /// Appends the code of the expression to `body` and gives the operand
    /// that holds its value. `&&` and `||` jump over their right operand
    /// when the left one decides.
    pub fn generate_tac(&self, body: &mut Vec<Instruction>) -> (val: Val)
        ensures
            appended(
                lower_expression(self@, old(body)@.len() as nat),
                old(body)@,
                final(body)@,
                val,
            ),
        decreases self, 1int,
    {
        match self {
            Exp::Factor(factor) => factor.generate_tac(body),
            Exp::Binary(left, op, right) => {
                if *op == BinaryOp::LogicalAnd || *op == BinaryOp::LogicalOr {
                    generate_short_circuit(left, *op, right, body, Ghost(*self))
                } else {
                    let ghost start = instruction_views(body@);
                    let ghost base = body@.len() as nat;
                    let left_val = left.generate_tac(body);
                    let ghost l = lower_expression(left@, base);
                    assert(body@.len() == base + l.code.len()) by {
                        assert(instruction_views(body@).len() == (start + l.code).len());
                    }
                    let ghost at_right = instruction_views(body@);
                    let right_val = right.generate_tac(body);
                    let ghost r = lower_expression(right@, base + l.code.len());
                    assert(body@.len() == base + l.code.len() + r.code.len()) by {
                        assert(instruction_views(body@).len() == (at_right + r.code).len());
                    }
                    let dst = make_temp(body.len(), 0);
                    let instruction = Instruction::Binary {
                        operator: BinaryOperator::from(op),
                        src1: left_val,
                        src2: right_val,
                        dst: dst.clone(),
                    };
                    emit(body, instruction);
                    assert(instruction_views(body@) =~= start + (l.code + r.code
                        + seq![instruction@]));
                    dst
                }
            },
            Exp::Assignment(left, right) => {
                let ghost start = instruction_views(body@);
                let ghost base = body@.len() as nat;
                let rhs_val = right.generate_tac(body);
                let ghost r = lower_expression(right@, base);
                assert(body@.len() == base + r.code.len()) by {
                    assert(instruction_views(body@).len() == (start + r.code).len());
                }
                let left_val = left.generate_tac(body);
                let ghost l = lower_expression(left@, base + r.code.len());
                let instruction = Instruction::Copy { src: rhs_val, dst: left_val.clone() };
                emit(body, instruction);
                assert(instruction_views(body@) =~= start + (r.code + l.code + seq![
                    instruction@,
                ]));
                left_val
            },
        }
    }
}

/// Appends the code of an `&&` or `||`: the truth value of the left
/// operand is the result unless the right operand has to be looked at.
/// `whole` is the expression that the operands are taken from.
fn generate_short_circuit(
    left: &Exp,
    op: BinaryOp,
    right: &Exp,
    body: &mut Vec<Instruction>,
    Ghost(whole): Ghost<Exp>,
) -> (val: Val)
    requires
        is_short_circuit(op),
        decreases_to!(whole => *left),
        decreases_to!(whole => *right),
    ensures
        appended(
            lower_expression(
                ExpView::Binary(Box::new(left@), op, Box::new(right@)),
                old(body)@.len() as nat,
            ),
            old(body)@,
            final(body)@,
            val,
        ),
    decreases whole, 0int,
{
    let ghost start = instruction_views(body@);
    let ghost base = body@.len() as nat;
    let left_val = left.generate_tac(body);
    let ghost l = lower_expression(left@, base);
    assert(body@.len() == base + l.code.len()) by {
        assert(instruction_views(body@).len() == (start + l.code).len());
    }
    let dst = make_temp(body.len(), 0);
    let label = make_label(body.len());
    let bool_dst = make_temp(body.len(), 1);
    let first = Instruction::Binary {
        operator: BinaryOperator::NotEqual,
        src1: left_val,
        src2: Val::Constant(0),
        dst: bool_dst.clone(),
    };
    let second = Instruction::Copy { src: bool_dst.clone(), dst: dst.clone() };
    let third = if op == BinaryOp::LogicalAnd {
        Instruction::JumpIfZero { src: bool_dst, label: label.clone() }
    } else {
        Instruction::JumpIfNotZero { src: bool_dst, label: label.clone() }
    };
    let ghost head = seq![first@, second@, third@];
    emit(body, first);
    emit(body, second);
    emit(body, third);
    let ghost at_right = instruction_views(body@);
    assert(at_right =~= start + (l.code + head));
    let right_val = right.generate_tac(body);
    let ghost r = lower_expression(right@, base + l.code.len() + 3);
    let ghost after_right = instruction_views(body@);
    assert(after_right =~= start + (l.code + head + r.code));
    let fourth = Instruction::Binary {
        operator: BinaryOperator::NotEqual,
        src1: right_val,
        src2: Val::Constant(0),
        dst: dst.clone(),
    };
    let fifth = Instruction::Label { label };
    let ghost tail = seq![fourth@, fifth@];
    emit(body, fourth);
    emit(body, fifth);
    assert(instruction_views(body@) =~= after_right + tail);
    assert(after_right + tail =~= start + (l.code + head + r.code + tail));
    dst
}

impl Declaration {
    /// Appends the code of the declaration to `body`; gives the variable
    /// where it has an initializer.
    pub fn generate_tac(&self, body: &mut Vec<Instruction>) -> (r: Option<Val>)
        ensures
            instruction_views(final(body)@) == instruction_views(old(body)@) + lower_declaration(
                self@,
                old(body)@.len() as nat,
            ),
            match r {
                Some(dst) => self@.init is Some && dst@ == ValView::Identifier(self@.name),
                None => self@.init is None,
            },
    {
        match self {
            Declaration::Declaration(identifier, initializer) => {
                if let Some(init_exp) = initializer {
                    let ghost value = lower_expression(init_exp@, body@.len() as nat);
                    let val = init_exp.generate_tac(body);
                    let dst = Val::Identifier(identifier.clone());
                    let instruction = Instruction::Copy { src: val, dst: dst.clone() };
                    emit(body, instruction);
                    assert(instruction_views(body@) =~= instruction_views(old(body)@)
                        + value.code.push(instruction@));
                    Some(dst)
                } else {
                    assert(instruction_views(body@) + Seq::<InstructionView>::empty()
                        =~= instruction_views(body@));
                    None
                }
            },
        }
    }
}

impl Statement {
    /// Appends the code of the statement to `body`.
    pub fn generate_tac(&self, body: &mut Vec<Instruction>)
        ensures
            instruction_views(final(body)@) == instruction_views(old(body)@) + lower_statement(
                self@,
                old(body)@.len() as nat,
            ),
    {
        match self {
            Statement::Return(exp) => {
                let ghost value = lower_expression(exp@, body@.len() as nat);
                let val = exp.generate_tac(body);
                let instruction = Instruction::Return(val);
                emit(body, instruction);
                assert(instruction_views(body@) =~= instruction_views(old(body)@)
                    + value.code.push(instruction@));
            },
            Statement::ExpressionStatement(exp) => {
                let _ = exp.generate_tac(body);
            },
            Statement::Null => {
                assert(instruction_views(body@) + Seq::<InstructionView>::empty()
                    =~= instruction_views(body@));
            },
        }
    }
}

impl BlockItem {
    /// Appends the code of the block item to `body`.
    pub fn generate_tac(&self, body: &mut Vec<Instruction>)
        ensures
            instruction_views(final(body)@) == instruction_views(old(body)@) + lower_block_item(
                self@,
                old(body)@.len() as nat,
            ),
    {
        match self {
            BlockItem::Statement(stmt) => {
                stmt.generate_tac(body);
            },
            BlockItem::Declaration(decl) => {
                let _ = decl.generate_tac(body);
            },
        }
    }
}

/// Whether one of the instructions is a `Return`.
fn contains_return(body: &Vec<Instruction>) -> (found: bool)
    ensures
        found == has_return(instruction_views(body@)),
{
    let mut i: usize = 0;
    while i < body.len()
        invariant
            0 <= i <= body.len(),
            forall|j: int| 0 <= j < i ==> !(#[trigger] instruction_views(body@)[j] is Return),
        decreases body.len() - i,
    {
        if let Instruction::Return(_) = &body[i] {
            assert(instruction_views(body@)[i as int] is Return);
            return true;
        }
        i = i + 1;
    }
    false
}

impl FunctionDeclaration {
    /// The function in three-address code. `main` returns 0 where its body
    /// holds no `Return`.
    pub fn generate_tac(&self) -> (function: Function)
        ensures
            function@ == lower_function(self@),
    {
        let mut body: Vec<Instruction> = Vec::new();
        match self {
            FunctionDeclaration::Function(identifier, block_items) => {
                let ghost items = block_item_views(block_items@);
                let mut i: usize = 0;
                assert(instruction_views(body@) =~= lower_body(items.subrange(0, 0)));
                while i < block_items.len()
                    invariant
                        0 <= i <= block_items.len(),
                        items == block_item_views(block_items@),
                        instruction_views(body@) == lower_body(items.subrange(0, i as int)),
                    decreases block_items.len() - i,
                {
                    proof {
                        let longer = items.subrange(0, i + 1);
                        assert(longer.drop_last() =~= items.subrange(0, i as int));
                        assert(longer.last() == block_items@[i as int]@);
                    }
                    block_items[i].generate_tac(&mut body);
                    i = i + 1;
                }
                assert(items.subrange(0, block_items.len() as int) =~= items);
                if same_text(identifier.as_str(), "main") && !contains_return(&body) {
                    emit(&mut body, Instruction::Return(Val::Constant(0)));
                }
                Function { identifier: identifier.clone(), body }
            },
        }
    }
}

impl ParserProgram {
    /// The program in three-address code.
    pub fn generate_tac(&self) -> (program: Program)
        ensures
            program@ == lower_program(self@),
    {
        match self {
            ParserProgram::Program(func_decl) => {
                let function = func_decl.generate_tac();
                Program { function }
            },
        }
    }
}

/// Lowers a program to three-address code.
pub fn generate_tac(program: ParserProgram) -> (tac: Program)
    ensures
        tac@ == lower_program(program@),
{
    program.generate_tac()
}

/// The code of `left && right` or `left || right` is the code of `left`,
/// the truth value of `left` in a temporary, a conditional jump on that
/// temporary, the code of `right`, and at the very end the label that
/// the jump goes to. So where `left` decides the result, nothing of
/// `right` is run: `&&` jumps on zero, `||` on anything else.
pub proof fn lemma_short_circuit_skips_right(left: ExpView, op: BinaryOp, right: ExpView, base: nat)
    requires
        is_short_circuit(op),
    ensures
        ({
            let whole = lower_expression(
                ExpView::Binary(Box::new(left), op, Box::new(right)),
                base,
            ).code;
            let l = lower_expression(left, base);
            let jump = l.code.len() as int + 2;
            let r = lower_expression(right, (base + jump + 1) as nat);
            let flag = ValView::Identifier(temp_name(base + l.code.len() + 1));
            let label = label_name(base + l.code.len());
            &&& whole.len() == jump + 1 + r.code.len() + 2
            &&& whole.subrange(0, l.code.len() as int) == l.code
            &&& whole[jump - 2] == truth_of(l.val, flag)
            &&& whole[jump] == if op == BinaryOp::LogicalAnd {
                InstructionView::JumpIfZero { src: flag, label }
            } else {
                InstructionView::JumpIfNotZero { src: flag, label }
            }
            &&& whole.subrange(jump + 1, jump + 1 + r.code.len() as int) == r.code
            &&& whole[whole.len() - 1] == InstructionView::Label { label }
        }),
{
    let whole = lower_expression(ExpView::Binary(Box::new(left), op, Box::new(right)), base).code;
    let l = lower_expression(left, base);
    let jump = l.code.len() as int + 2;
    let r = lower_expression(right, (base + jump + 1) as nat);
    assert(whole.subrange(0, l.code.len() as int) =~= l.code);
    assert(whole.subrange(jump + 1, jump + 1 + r.code.len() as int) =~= r.code);
}

/// Whether a binary instruction may have the operator: all but `&&`,
/// `||` and `=`, which are lowered to jumps and copies.
pub open spec fn has_instruction(op: BinaryOperator) -> bool {
    op != BinaryOperator::LogicalAnd && op != BinaryOperator::LogicalOr && op
        != BinaryOperator::Assign
}

/// Whether the instruction writes to a name, and is no binary instruction
/// with an operator that has none.
pub open spec fn instruction_is_sound(i: InstructionView) -> bool {
    match i {
        InstructionView::Unary { dst, .. } => dst is Identifier,
        InstructionView::Binary { operator, dst, .. } => dst is Identifier && has_instruction(
            operator,
        ),
        InstructionView::Copy { dst, .. } => dst is Identifier,
        _ => true,
    }
}

/// Whether every instruction of the code is sound.
pub open spec fn code_is_sound(code: Seq<InstructionView>) -> bool {
    forall|i: int| 0 <= i < code.len() ==> instruction_is_sound(#[trigger] code[i])
}

/// Sound code behind sound code is sound.
pub proof fn lemma_sound_concat(a: Seq<InstructionView>, b: Seq<InstructionView>)
    requires
        code_is_sound(a),
        code_is_sound(b),
    ensures
        code_is_sound(a + b),
{
    assert forall|i: int| 0 <= i < (a + b).len() implies instruction_is_sound(
        #[trigger] (a + b)[i],
    ) by {
        if i >= a.len() {
            assert((a + b)[i] == b[i - a.len()]);
        } else {
            assert((a + b)[i] == a[i]);
        }
    }
}

/// The code of a sound factor is sound.
pub proof fn lemma_lowered_factor_is_sound(f: FactorView, base: nat)
    requires
        factor_is_sound(f),
    ensures
        code_is_sound(lower_factor(f, base).code),
    decreases f,
{
    match f {
        FactorView::Unary(_, inner) => {
            lemma_lowered_factor_is_sound(*inner, base);
        },
        FactorView::Parenthesized(inner) => {
            lemma_lowered_expression_is_sound(*inner, base);
        },
        _ => {},
    }
}

/// The code of a sound expression is sound: every instruction writes to
/// a name, and no binary instruction has the operator `&&`, `||` or `=`.
pub proof fn lemma_lowered_expression_is_sound(e: ExpView, base: nat)
    requires
        exp_is_sound(e),
    ensures
        code_is_sound(lower_expression(e, base).code),
    decreases e,
{
    match e {
        ExpView::Factor(f) => {
            lemma_lowered_factor_is_sound(f, base);
        },
        ExpView::Binary(left, op, right) => {
            let l = lower_expression(*left, base);
            let n = base + l.code.len();
            lemma_lowered_expression_is_sound(*left, base);
            if is_short_circuit(op) {
                let dst = ValView::Identifier(temp_name(n));
                let label = label_name(n);
                let bool_dst = ValView::Identifier(temp_name(n + 1));
                let r = lower_expression(*right, n + 3);
                lemma_lowered_expression_is_sound(*right, n + 3);
                let head = seq![
                    truth_of(l.val, bool_dst),
                    InstructionView::Copy { src: bool_dst, dst },
                    short_circuit_jump(op, bool_dst, label),
                ];
                let tail = seq![truth_of(r.val, dst), InstructionView::Label { label }];
                lemma_sound_concat(l.code, head);
                lemma_sound_concat(l.code + head, r.code);
                lemma_sound_concat(l.code + head + r.code, tail);
            } else {
                let r = lower_expression(*right, n);
                lemma_lowered_expression_is_sound(*right, n);
                let dst = ValView::Identifier(temp_name(n + r.code.len()));
                let last = seq![
                    InstructionView::Binary {
                        operator: binary_operator_of(op),
                        src1: l.val,
                        src2: r.val,
                        dst,
                    },
                ];
                lemma_sound_concat(l.code, r.code);
                lemma_sound_concat(l.code + r.code, last);
            }
        },
        ExpView::Assignment(left, right) => {
            let r = lower_expression(*right, base);
            let l = lower_expression(*left, base + r.code.len());
            lemma_lowered_expression_is_sound(*right, base);
            lemma_lowered_expression_is_sound(*left, base + r.code.len());
            lemma_lvalue_is_named(*left, base + r.code.len());
            let last = seq![InstructionView::Copy { src: r.val, dst: l.val }];
            lemma_sound_concat(r.code, l.code);
            lemma_sound_concat(r.code + l.code, last);
        },
    }
}

/// The value of a variable, bare or in one pair of parentheses, is the
/// variable itself, and takes no code.
pub proof fn lemma_lvalue_is_named(e: ExpView, base: nat)
    requires
        is_lvalue(e),
    ensures
        lower_expression(e, base).val is Identifier,
        lower_expression(e, base).code.len() == 0,
{
    match e {
        ExpView::Factor(FactorView::Parenthesized(inner)) => {
            assert(lower_expression(e, base) == lower_factor(
                FactorView::Parenthesized(inner),
                base,
            ));
            assert(lower_factor(FactorView::Parenthesized(inner), base) == lower_expression(
                *inner,
                base,
            ));
            assert(lower_expression(*inner, base) == lower_factor(inner->Factor_0, base));
            let name = inner->Factor_0->Var_0;
            assert(inner->Factor_0 == FactorView::Var(name));
            assert(lower_factor(FactorView::Var(name), base).val is Identifier);
            assert(lower_factor(FactorView::Var(name), base).code.len() == 0);
        },
        ExpView::Factor(FactorView::Var(name)) => {
            assert(lower_expression(e, base) == lower_factor(FactorView::Var(name), base));
            assert(lower_factor(FactorView::Var(name), base).val is Identifier);
            assert(lower_factor(FactorView::Var(name), base).code.len() == 0);
        },
        _ => {},
    }
}

/// The code of a sound block item is sound.
pub proof fn lemma_lowered_item_is_sound(item: BlockItemView, base: nat)
    requires
        item_is_sound(item),
    ensures
        code_is_sound(lower_block_item(item, base)),
{
    match item {
        BlockItemView::Declaration(d) => {
            if let Some(init) = d.init {
                lemma_lowered_expression_is_sound(init, base);
            }
        },
        BlockItemView::Statement(StatementView::Return(e)) => {
            lemma_lowered_expression_is_sound(e, base);
        },
        BlockItemView::Statement(StatementView::ExpressionStatement(e)) => {
            lemma_lowered_expression_is_sound(e, base);
        },
        BlockItemView::Statement(StatementView::Null) => {},
    }
}

/// The code of a sound body is sound.
pub proof fn lemma_lowered_body_is_sound(items: Seq<BlockItemView>)
    requires
        body_is_sound(items),
    ensures
        code_is_sound(lower_body(items)),
    decreases items.len(),
{
    if items.len() > 0 {
        let earlier = items.drop_last();
        assert forall|i: int| 0 <= i < earlier.len() implies item_is_sound(#[trigger] earlier[i]) by {
            assert(earlier[i] == items[i]);
        }
        lemma_lowered_body_is_sound(earlier);
        lemma_lowered_item_is_sound(items.last(), lower_body(earlier).len());
        lemma_sound_concat(lower_body(earlier), lower_block_item(items.last(), lower_body(earlier).len()));
    }
}

/// The three-address code of a sound program is sound: every instruction
/// writes to a name, and no binary instruction has the operator `&&`,
/// `||` or `=`.
pub proof fn lemma_lowered_program_is_sound(p: ParserProgramView)
    requires
        body_is_sound(p.function.body),
    ensures
        code_is_sound(lower_program(p).function.body),
{
    lemma_lowered_body_is_sound(p.function.body);
}

/// Labels made at different lengths of the instruction list are different.
pub proof fn lemma_label_names_differ(a: nat, b: nat)
    requires
        a != b,
    ensures
        label_name(a) != label_name(b),
{
    let prefix = "label."@;
    if label_name(a) == label_name(b) {
        assert(decimal(a) =~= label_name(a).subrange(
            prefix.len() as int,
            label_name(a).len() as int,
        ));
        assert(decimal(b) =~= label_name(b).subrange(
            prefix.len() as int,
            label_name(b).len() as int,
        ));
        lemma_decimal_injective(a, b);
    }
}

/// Whether every label of the code was made at a length of the
/// instruction list from `low` up to, but not, `high`.
pub open spec fn labels_made_within(code: Seq<InstructionView>, low: nat, high: nat) -> bool {
    forall|i: int|
        0 <= i < code.len() && #[trigger] code[i] is Label ==> exists|k: nat|
            low <= k < high && code[i] == (InstructionView::Label { label: label_name(k) })
}

/// Whether no two instructions of the code are the same label.
pub open spec fn labels_are_distinct(code: Seq<InstructionView>) -> bool {
    forall|i: int, j: int|
        0 <= i < j < code.len() && #[trigger] code[i] is Label && #[trigger] code[j] is Label
            ==> code[i] != code[j]
}

/// Two codes with distinct labels from ranges that do not meet have
/// distinct labels one behind the other, from the range around both.
pub proof fn lemma_labels_concat(
    a: Seq<InstructionView>,
    a_low: nat,
    a_high: nat,
    b: Seq<InstructionView>,
    b_low: nat,
    b_high: nat,
)
    requires
        labels_made_within(a, a_low, a_high),
        labels_made_within(b, b_low, b_high),
        labels_are_distinct(a),
        labels_are_distinct(b),
        a_high <= b_low || b_high <= a_low,
    ensures
        labels_are_distinct(a + b),
        labels_made_within(
            a + b,
            if a_low <= b_low {
                a_low
            } else {
                b_low
            },
            if a_high <= b_high {
                b_high
            } else {
                a_high
            },
        ),
{
    let c = a + b;
    let low = if a_low <= b_low {
        a_low
    } else {
        b_low
    };
    let high = if a_high <= b_high {
        b_high
    } else {
        a_high
    };
    assert forall|i: int| 0 <= i < c.len() && #[trigger] c[i] is Label implies exists|k: nat|
        low <= k < high && c[i] == (InstructionView::Label { label: label_name(k) }) by {
        if i < a.len() {
            assert(c[i] == a[i]);
            let k = choose|k: nat|
                a_low <= k < a_high && a[i] == (InstructionView::Label { label: label_name(k) });
            assert(low <= k < high);
        } else {
            assert(c[i] == b[i - a.len()]);
            let k = choose|k: nat|
                b_low <= k < b_high && b[i - a.len()] == (InstructionView::Label {
                    label: label_name(k),
                });
            assert(low <= k < high);
        }
    }
    assert forall|i: int, j: int|
        0 <= i < j < c.len() && #[trigger] c[i] is Label && #[trigger] c[j] is Label implies c[i]
        != c[j] by {
        if j < a.len() {
            assert(c[i] == a[i] && c[j] == a[j]);
        } else if i >= a.len() {
            assert(c[i] == b[i - a.len()] && c[j] == b[j - a.len()]);
        } else {
            assert(c[i] == a[i] && c[j] == b[j - a.len()]);
            let ka = choose|k: nat|
                a_low <= k < a_high && a[i] == (InstructionView::Label { label: label_name(k) });
            let kb = choose|k: nat|
                b_low <= k < b_high && b[j - a.len()] == (InstructionView::Label {
                    label: label_name(k),
                });
            lemma_label_names_differ(ka, kb);
        }
    }
}

/// Code without labels has distinct labels from any range.
pub proof fn lemma_no_labels(code: Seq<InstructionView>, low: nat, high: nat)
    requires
        forall|i: int| 0 <= i < code.len() ==> !(#[trigger] code[i] is Label),
    ensures
        labels_are_distinct(code),
        labels_made_within(code, low, high),
{
}

/// The labels of the code of a factor are distinct, and made at lengths
/// of the instruction list that the code itself covers.
pub proof fn lemma_factor_labels(f: FactorView, base: nat)
    ensures
        labels_are_distinct(lower_factor(f, base).code),
        labels_made_within(
            lower_factor(f, base).code,
            base,
            base + lower_factor(f, base).code.len(),
        ),
    decreases f,
{
    match f {
        FactorView::Unary(op, inner) => {
            let operand = lower_factor(*inner, base);
            let n = base + operand.code.len();
            lemma_factor_labels(*inner, base);
            let last = seq![
                InstructionView::Unary {
                    operator: unary_operator_of(op),
                    src: operand.val,
                    dst: ValView::Identifier(temp_name(n)),
                },
            ];
            lemma_no_labels(last, n, n + 1);
            lemma_labels_concat(operand.code, base, n, last, n, n + 1);
            assert(operand.code + last =~= lower_factor(f, base).code);
        },
        FactorView::Parenthesized(inner) => {
            lemma_expression_labels(*inner, base);
        },
        _ => {},
    }
}

/// The labels of the code of an expression are distinct, and made at
/// lengths of the instruction list that the code itself covers. So every
/// jump of the code has one target.
pub proof fn lemma_expression_labels(e: ExpView, base: nat)
    ensures
        labels_are_distinct(lower_expression(e, base).code),
        labels_made_within(
            lower_expression(e, base).code,
            base,
            base + lower_expression(e, base).code.len(),
        ),
    decreases e,
{
    match e {
        ExpView::Factor(f) => {
            lemma_factor_labels(f, base);
        },
        ExpView::Binary(left, op, right) => {
            let l = lower_expression(*left, base);
            let n = base + l.code.len();
            lemma_expression_labels(*left, base);
            if is_short_circuit(op) {
                let dst = ValView::Identifier(temp_name(n));
                let label = label_name(n);
                let bool_dst = ValView::Identifier(temp_name(n + 1));
                let r = lower_expression(*right, n + 3);
                let m = n + 3 + r.code.len();
                lemma_expression_labels(*right, n + 3);
                let head = seq![
                    truth_of(l.val, bool_dst),
                    InstructionView::Copy { src: bool_dst, dst },
                    short_circuit_jump(op, bool_dst, label),
                ];
                let tail = seq![truth_of(r.val, dst), InstructionView::Label { label }];
                lemma_no_labels(head, n, n);
                assert(labels_are_distinct(tail));
                assert(labels_made_within(tail, n, n + 1)) by {
                    assert(tail[1] == (InstructionView::Label { label: label_name(n) }));
                }
                lemma_labels_concat(l.code, base, n, head, n, n);
                lemma_labels_within_holes(l.code + head, base, n, r.code, n + 3, m, tail, n, m + 2);
            } else {
                let r = lower_expression(*right, n);
                let m = n + r.code.len();
                lemma_expression_labels(*right, n);
                let last = seq![
                    InstructionView::Binary {
                        operator: binary_operator_of(op),
                        src1: l.val,
                        src2: r.val,
                        dst: ValView::Identifier(temp_name(m)),
                    },
                ];
                lemma_no_labels(last, m, m + 1);
                lemma_labels_concat(l.code, base, n, r.code, n, m);
                lemma_labels_concat(l.code + r.code, base, m, last, m, m + 1);
            }
        },
        ExpView::Assignment(left, right) => {
            let r = lower_expression(*right, base);
            let n = base + r.code.len();
            let l = lower_expression(*left, n);
            let m = n + l.code.len();
            lemma_expression_labels(*right, base);
            lemma_expression_labels(*left, n);
            let last = seq![InstructionView::Copy { src: r.val, dst: l.val }];
            lemma_no_labels(last, m, m + 1);
            lemma_labels_concat(r.code, base, n, l.code, n, m);
            lemma_labels_concat(r.code + l.code, base, m, last, m, m + 1);
        },
    }
}

/// Three codes with distinct labels, the first from below a gap, the
/// second from above it and the third from inside it, have distinct
/// labels one behind the other.
proof fn lemma_labels_within_holes(
    a: Seq<InstructionView>,
    a_low: nat,
    a_high: nat,
    b: Seq<InstructionView>,
    b_low: nat,
    b_high: nat,
    c: Seq<InstructionView>,
    c_low: nat,
    high: nat,
)
    requires
        labels_made_within(a, a_low, a_high),
        labels_made_within(b, b_low, b_high),
        labels_made_within(c, c_low, (c_low + 1) as nat),
        labels_are_distinct(a),
        labels_are_distinct(b),
        labels_are_distinct(c),
        a_low <= a_high <= c_low < b_low <= b_high <= high,
    ensures
        labels_are_distinct(a + b + c),
        labels_made_within(a + b + c, a_low, high),
{
    let ab = a + b;
    let abc = ab + c;
    lemma_labels_concat(a, a_low, a_high, b, b_low, b_high);
    assert forall|i: int| 0 <= i < abc.len() && #[trigger] abc[i] is Label implies exists|k: nat|
        a_low <= k < high && abc[i] == (InstructionView::Label { label: label_name(k) }) by {
        if i < ab.len() {
            assert(abc[i] == ab[i]);
            let k = choose|k: nat|
                a_low <= k < b_high && ab[i] == (InstructionView::Label { label: label_name(k) });
            assert(a_low <= k < high);
        } else {
            assert(abc[i] == c[i - ab.len()]);
            let k = choose|k: nat|
                c_low <= k < c_low + 1 && c[i - ab.len()] == (InstructionView::Label {
                    label: label_name(k),
                });
            assert(a_low <= k < high);
        }
    }
    assert forall|i: int, j: int|
        0 <= i < j < abc.len() && #[trigger] abc[i] is Label && #[trigger] abc[j] is Label implies abc[i]
        != abc[j] by {
        if j < ab.len() {
            assert(abc[i] == ab[i] && abc[j] == ab[j]);
        } else if i >= ab.len() {
            assert(abc[i] == c[i - ab.len()] && abc[j] == c[j - ab.len()]);
        } else {
            assert(abc[j] == c[j - ab.len()]);
            let kc = choose|k: nat|
                c_low <= k < c_low + 1 && c[j - ab.len()] == (InstructionView::Label {
                    label: label_name(k),
                });
            if i < a.len() {
                assert(abc[i] == a[i]);
                let ka = choose|k: nat|
                    a_low <= k < a_high && a[i] == (InstructionView::Label {
                        label: label_name(k),
                    });
                lemma_label_names_differ(ka, kc);
            } else {
                assert(abc[i] == b[i - a.len()]);
                let kb = choose|k: nat|
                    b_low <= k < b_high && b[i - a.len()] == (InstructionView::Label {
                        label: label_name(k),
                    });
                lemma_label_names_differ(kb, kc);
            }
        }
    }
}

/// The labels of the code of a block item are distinct, and made at
/// lengths of the instruction list that the code itself covers.
pub proof fn lemma_item_labels(item: BlockItemView, base: nat)
    ensures
        labels_are_distinct(lower_block_item(item, base)),
        labels_made_within(
            lower_block_item(item, base),
            base,
            base + lower_block_item(item, base).len(),
        ),
{
    let e = match item {
        BlockItemView::Declaration(d) => d.init,
        BlockItemView::Statement(StatementView::Return(e)) => Some(e),
        BlockItemView::Statement(StatementView::ExpressionStatement(e)) => Some(e),
        BlockItemView::Statement(StatementView::Null) => None,
    };
    if let Some(e) = e {
        let value = lower_expression(e, base);
        let n = base + value.code.len();
        lemma_expression_labels(e, base);
        if !(item matches BlockItemView::Statement(StatementView::ExpressionStatement(_))) {
            let code = lower_block_item(item, base);
            let last = seq![code.last()];
            lemma_no_labels(last, n, n + 1);
            lemma_labels_concat(value.code, base, n, last, n, n + 1);
            assert(value.code + last =~= code);
        }
    }
}

/// No two instructions of the code of a function body are the same
/// label: every jump has one target, and the assembler meets no label
/// twice.
pub proof fn lemma_body_labels(items: Seq<BlockItemView>)
    ensures
        labels_are_distinct(lower_body(items)),
        labels_made_within(lower_body(items), 0, lower_body(items).len()),
    decreases items.len(),
{
    if items.len() > 0 {
        let before = lower_body(items.drop_last());
        let n = before.len();
        let code = lower_block_item(items.last(), n);
        lemma_body_labels(items.drop_last());
        lemma_item_labels(items.last(), n);
        lemma_labels_concat(before, 0, n, code, n, n + code.len());
    }
}

} // verus!
