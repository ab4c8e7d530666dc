//! What programs mean: the value that a function of the source returns,
//! and the value that its three-address code returns when it is run
//! instruction by instruction.
use vstd::prelude::*;
use crate::parser::{
    BinaryOp, BlockItemView, ExpView, FactorView, FunctionDeclarationView, StatementView,
};
use crate::resolver::exp_uses;
use crate::tac::{
    binary_operator_of, unary_operator_of, BinaryOperator, InstructionView, UnaryOperator,
    ValView,
};

verus! {

/// The values of the variables that have one.
pub type Store = Map<Seq<char>, i32>;

/// The 32-bit value that an integer wraps around to.
pub open spec fn wrap(i: int) -> i32 {
    let low = i % 0x1_0000_0000;
    if low >= 0x8000_0000 {
        (low - 0x1_0000_0000) as i32
    } else {
        low as i32
    }
}

/// 1 for true, 0 for false.
pub open spec fn truth(b: bool) -> i32 {
    if b {
        1
    } else {
        0
    }
}

/// The quotient of a division that rounds toward zero.
pub open spec fn quotient(a: int, b: int) -> int
    recommends
        b != 0,
{
    if a >= 0 && b > 0 {
        a / b
    } else if a >= 0 {
        -(a / (-b))
    } else if b > 0 {
        -((-a) / b)
    } else {
        (-a) / (-b)
    }
}

/// Two to the power `n`.
pub open spec fn power_of_two(n: nat) -> int
    decreases n,
{
    if n == 0 {
        1
    } else {
        2 * power_of_two((n - 1) as nat)
    }
}

/// The value of a unary operation.
pub open spec fn unary_value(op: UnaryOperator, a: i32) -> i32 {
    match op {
        UnaryOperator::Negate => wrap(-a),
        UnaryOperator::Complement => wrap(-a - 1),
        UnaryOperator::LogicalNot => truth(a == 0),
    }
}

/// The value of a binary operation; `None` where the language gives it
/// none: a division by zero, a quotient that does not fit, a shift by a
/// negative count or by 32 and more. Sums, differences and products
/// wrap around; a shift to the right keeps the sign.
pub open spec fn binary_value(op: BinaryOperator, a: i32, b: i32) -> Option<i32> {
    match op {
        BinaryOperator::Add => Some(wrap(a + b)),
        BinaryOperator::Subtract => Some(wrap(a - b)),
        BinaryOperator::Multiply => Some(wrap(a * b)),
        BinaryOperator::Divide => {
            if b == 0 || (a == i32::MIN && b == -1) {
                None
            } else {
                Some(quotient(a as int, b as int) as i32)
            }
        },
        BinaryOperator::Modulo => {
            if b == 0 || (a == i32::MIN && b == -1) {
                None
            } else {
                Some((a - b * quotient(a as int, b as int)) as i32)
            }
        },
        BinaryOperator::Ampersand => Some(a & b),
        BinaryOperator::Pipe => Some(a | b),
        BinaryOperator::Caret => Some(a ^ b),
        BinaryOperator::ShiftLeft => {
            if 0 <= b < 32 {
                Some(wrap(a * power_of_two(b as nat)))
            } else {
                None
            }
        },
        BinaryOperator::ShiftRight => {
            if 0 <= b < 32 {
                Some((a as int / power_of_two(b as nat)) as i32)
            } else {
                None
            }
        },
        BinaryOperator::Equal => Some(truth(a == b)),
        BinaryOperator::NotEqual => Some(truth(a != b)),
        BinaryOperator::GreaterThan => Some(truth(a > b)),
        BinaryOperator::GreaterThanOrEqual => Some(truth(a >= b)),
        BinaryOperator::LessThan => Some(truth(a < b)),
        BinaryOperator::LessThanOrEqual => Some(truth(a <= b)),
        BinaryOperator::LogicalAnd => None,
        BinaryOperator::LogicalOr => None,
        BinaryOperator::Assign => None,
    }
}

/// The variable that an assignment target names.
pub open spec fn target_name(e: ExpView) -> Option<Seq<char>> {
    match e {
        ExpView::Factor(FactorView::Var(name)) => Some(name),
        ExpView::Factor(FactorView::Parenthesized(inner)) => match *inner {
            ExpView::Factor(FactorView::Var(name)) => Some(name),
            _ => None,
        },
        _ => None,
    }
}

/// Whether the factor holds an assignment to the variable `x`.
pub open spec fn factor_assigns(f: FactorView, x: Seq<char>) -> bool
    decreases f,
{
    match f {
        FactorView::Unary(_, inner) => factor_assigns(*inner, x),
        FactorView::Parenthesized(inner) => exp_assigns(*inner, x),
        _ => false,
    }
}

/// Whether the expression holds an assignment to the variable `x`.
pub open spec fn exp_assigns(e: ExpView, x: Seq<char>) -> bool
    decreases e,
{
    match e {
        ExpView::Factor(f) => factor_assigns(f, x),
        ExpView::Binary(left, _, right) => exp_assigns(*left, x) || exp_assigns(*right, x),
        ExpView::Assignment(left, right) => target_name(*left) == Some(x) || exp_assigns(*left, x)
            || exp_assigns(*right, x),
    }
}

/// Whether one of two operands assigns to the variable `x` and the
/// other mentions it.
pub open spec fn in_conflict_on(left: ExpView, right: ExpView, x: Seq<char>) -> bool {
    (exp_assigns(left, x) && exp_uses(right, x)) || (exp_assigns(right, x) && exp_uses(left, x))
}

/// Whether one of two operands assigns to a variable that the other
/// mentions. The language does not say which of the two comes first, so
/// an operation on such operands has no meaning.
pub open spec fn in_conflict(left: ExpView, right: ExpView) -> bool {
    exists|x: Seq<char>| in_conflict_on(left, right, x)
}

/// A value, and the values of the variables behind its evaluation.
pub ghost struct Evaluated {
    pub value: i32,
    pub env: Store,
}

/// The value of a factor and what its evaluation leaves; `None` where
/// it has none.
pub open spec fn factor_meaning(f: FactorView, env: Store) -> Option<Evaluated>
    decreases f,
{
    match f {
        FactorView::Int(k) => Some(Evaluated { value: k, env }),
        FactorView::Unary(op, inner) => match factor_meaning(*inner, env) {
            Some(a) => Some(
                Evaluated { value: unary_value(unary_operator_of(op), a.value), env: a.env },
            ),
            None => None,
        },
        FactorView::Var(name) => {
            if env.contains_key(name) {
                Some(Evaluated { value: env[name], env })
            } else {
                None
            }
        },
        FactorView::Parenthesized(inner) => exp_meaning(*inner, env),
    }
}

/// The value of an expression and what its evaluation leaves, the left
/// operand before the right one; `None` where it has none: where an
/// operation has none, a variable is read that was given no value, the
/// target of an assignment is no variable, or the two operands of an
/// operation are in conflict. `&&` and `||` look at their right operand
/// only where the left one does not decide. An assignment has the value
/// that it gives to its variable.
pub open spec fn exp_meaning(e: ExpView, env: Store) -> Option<Evaluated>
    decreases e,
{
    match e {
        ExpView::Factor(f) => factor_meaning(f, env),
        ExpView::Binary(left, op, right) => match exp_meaning(*left, env) {
            None => None,
            Some(a) => {
                if op == BinaryOp::LogicalAnd && a.value == 0 {
                    Some(Evaluated { value: 0, env: a.env })
                } else if op == BinaryOp::LogicalOr && a.value != 0 {
                    Some(Evaluated { value: 1, env: a.env })
                } else {
                    match exp_meaning(*right, a.env) {
                        None => None,
                        Some(b) => {
                            if op == BinaryOp::LogicalAnd || op == BinaryOp::LogicalOr {
                                Some(Evaluated { value: truth(b.value != 0), env: b.env })
                            } else if in_conflict(*left, *right) {
                                None
                            } else {
                                match binary_value(binary_operator_of(op), a.value, b.value) {
                                    Some(v) => Some(Evaluated { value: v, env: b.env }),
                                    None => None,
                                }
                            }
                        },
                    }
                }
            },
        },
        ExpView::Assignment(left, right) => match (target_name(*left), exp_meaning(*right, env)) {
            (Some(name), Some(b)) => Some(
                Evaluated { value: b.value, env: b.env.insert(name, b.value) },
            ),
            _ => None,
        },
    }
}

/// How a block item ends: the function goes on with new values of its
/// variables, or returns.
pub ghost enum Outcome {
    Continues(Store),
    Returns(i32),
}

/// What a block item does; `None` where an expression of it has no
/// meaning. A declaration gives its variable the value of its
/// initializer, or none.
pub open spec fn item_outcome(item: BlockItemView, env: Store) -> Option<Outcome> {
    match item {
        BlockItemView::Declaration(d) => match d.init {
            None => Some(Outcome::Continues(env)),
            Some(init) => match exp_meaning(init, env) {
                Some(v) => Some(Outcome::Continues(v.env.insert(d.name, v.value))),
                None => None,
            },
        },
        BlockItemView::Statement(StatementView::Return(e)) => match exp_meaning(e, env) {
            Some(v) => Some(Outcome::Returns(v.value)),
            None => None,
        },
        BlockItemView::Statement(StatementView::ExpressionStatement(e)) => match exp_meaning(
            e,
            env,
        ) {
            Some(v) => Some(Outcome::Continues(v.env)),
            None => None,
        },
        BlockItemView::Statement(StatementView::Null) => Some(Outcome::Continues(env)),
    }
}

/// The value that the block items from number `from` on return, run one
/// after the other; 0 where they end without a `return`.
pub open spec fn body_result(items: Seq<BlockItemView>, from: int, env: Store) -> Option<i32>
    decreases items.len() - from,
{
    if from < 0 || from >= items.len() {
        Some(0)
    } else {
        match item_outcome(items[from], env) {
            None => None,
            Some(Outcome::Returns(v)) => Some(v),
            Some(Outcome::Continues(next)) => body_result(items, from + 1, next),
        }
    }
}

/// The value that the function `main` returns; `None` where the language
/// gives it none.
pub open spec fn function_result(f: FunctionDeclarationView) -> Option<i32> {
    body_result(f.body, 0, Map::empty())
}

/// The value of an operand; `None` for a name without a value.
pub open spec fn read(v: ValView, store: Store) -> Option<i32> {
    match v {
        ValView::Constant(k) => Some(k),
        ValView::Identifier(name) => {
            if store.contains_key(name) {
                Some(store[name])
            } else {
                None
            }
        },
    }
}

/// Whether the instruction at `at` is the label `label` and no earlier
/// one is.
pub open spec fn is_label_position(code: Seq<InstructionView>, label: Seq<char>, at: nat) -> bool {
    &&& at < code.len()
    &&& code[at as int] == (InstructionView::Label { label })
    &&& forall|i: int| 0 <= i < at ==> #[trigger] code[i] != (InstructionView::Label { label })
}

/// The position of the first label `label`.
pub open spec fn label_position(code: Seq<InstructionView>, label: Seq<char>) -> Option<nat> {
    if exists|at: nat| is_label_position(code, label, at) {
        Some(choose|at: nat| is_label_position(code, label, at))
    } else {
        None
    }
}

/// Where a machine that runs three-address code is.
pub ghost enum Machine {
    /// Before the instruction at the position, with the values of the names.
    At(nat, Store),
    /// Behind a `Return` of the value.
    Returned(i32),
    /// Nowhere: the last instruction had no meaning.
    Stuck,
}

/// The machine after a jump to `label`.
pub open spec fn jump(code: Seq<InstructionView>, label: Seq<char>, store: Store) -> Machine {
    match label_position(code, label) {
        Some(at) => Machine::At(at, store),
        None => Machine::Stuck,
    }
}

/// The machine after the instruction at `pc`.
pub open spec fn step(code: Seq<InstructionView>, pc: nat, store: Store) -> Machine {
    if pc >= code.len() {
        Machine::Stuck
    } else {
        match code[pc as int] {
            InstructionView::Return(v) => match read(v, store) {
                Some(k) => Machine::Returned(k),
                None => Machine::Stuck,
            },
            InstructionView::Unary { operator, src, dst } => match (read(src, store), dst) {
                (Some(a), ValView::Identifier(name)) => Machine::At(
                    pc + 1,
                    store.insert(name, unary_value(operator, a)),
                ),
                _ => Machine::Stuck,
            },
            InstructionView::Binary { operator, src1, src2, dst } => match (
                read(src1, store),
                read(src2, store),
                dst,
            ) {
                (Some(a), Some(b), ValView::Identifier(name)) => match binary_value(
                    operator,
                    a,
                    b,
                ) {
                    Some(v) => Machine::At(pc + 1, store.insert(name, v)),
                    None => Machine::Stuck,
                },
                _ => Machine::Stuck,
            },
            InstructionView::Copy { src, dst } => match (read(src, store), dst) {
                (Some(a), ValView::Identifier(name)) => Machine::At(pc + 1, store.insert(name, a)),
                _ => Machine::Stuck,
            },
            InstructionView::Jump { label } => jump(code, label, store),
            InstructionView::JumpIfZero { src, label } => match read(src, store) {
                Some(a) => {
                    if a == 0 {
                        jump(code, label, store)
                    } else {
                        Machine::At(pc + 1, store)
                    }
                },
                None => Machine::Stuck,
            },
            InstructionView::JumpIfNotZero { src, label } => match read(src, store) {
                Some(a) => {
                    if a != 0 {
                        jump(code, label, store)
                    } else {
                        Machine::At(pc + 1, store)
                    }
                },
                None => Machine::Stuck,
            },
            InstructionView::Label { .. } => Machine::At(pc + 1, store),
        }
    }
}

/// The machine after `steps` instructions from the position `pc`, or
/// where it stopped before.
pub open spec fn run(code: Seq<InstructionView>, pc: nat, store: Store, steps: nat) -> Machine
    decreases steps,
{
    if steps == 0 {
        Machine::At(pc, store)
    } else {
        match step(code, pc, store) {
            Machine::At(next, after) => run(code, next, after, (steps - 1) as nat),
            other => other,
        }
    }
}

/// Running on from where a run arrived is one longer run.
pub proof fn lemma_run_on(
    code: Seq<InstructionView>,
    pc: nat,
    store: Store,
    first: nat,
    middle: nat,
    between: Store,
    second: nat,
)
    requires
        run(code, pc, store, first) == Machine::At(middle, between),
    ensures
        run(code, pc, store, first + second) == run(code, middle, between, second),
    decreases first,
{
    if first > 0 {
        match step(code, pc, store) {
            Machine::At(next, after) => {
                lemma_run_on(code, next, after, (first - 1) as nat, middle, between, second);
            },
            _ => {},
        }
    }
}

} // verus!
