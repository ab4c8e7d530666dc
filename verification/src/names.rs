//! The names in three-address code: every name is a variable of the
//! source or a temporary made by the lowering, and no name is both.
use vstd::prelude::*;
use vstd::string::*;
use crate::parser::{
    BlockItemView, ExpView, FactorView, ProgramView as ParserProgramView, StatementView,
};
use crate::resolver::{
    declarations_before, exp_uses, factor_uses, item_declares, item_uses,
    lemma_declared_names, lemma_resolved_len, lemma_resolved_uses_are_declared,
    resolve_program_spec, unique_name,
};
use crate::tac::{
    binary_operator_of, is_short_circuit, label_name, lower_block_item, lower_body,
    lower_expression, lower_factor, short_circuit_jump, temp_name, truth_of, unary_operator_of,
    BinaryOperator, InstructionView, ValView,
};
use crate::text::{decimal, is_digit, lemma_decimal_injective, lemma_decimal_round_trip};

verus! {

/// No unique name of a variable is the name of a temporary: the one holds
/// an `@`, the other does not.
pub proof fn lemma_unique_name_is_no_temporary(name: Seq<char>, index: nat, n: nat)
    ensures
        unique_name(name, index) != temp_name(n),
{
    let x = unique_name(name, index);
    let t = temp_name(n);
    reveal_strlit("tmp.");
    lemma_decimal_round_trip(n);
    if x == t {
        let at = name.len() as int;
        let prefix = "tmp."@;
        assert(prefix.len() == 4);
        assert(x.len() == name.len() + 1 + decimal(index).len());
        assert(t.len() == 4 + decimal(n).len());
        assert(x[at] == '@');
        if at >= 4 {
            assert(t[at] == decimal(n)[at - 4]);
            assert(is_digit(decimal(n)[at - 4]));
        } else {
            assert(t[at] == prefix[at]);
            assert(prefix[0] == 't' && prefix[1] == 'm' && prefix[2] == 'p' && prefix[3] == '.');
        }
    }
}

/// A variable of a resolved program, declared or used, never has the
/// name of a temporary, so no temporary of the lowering overwrites it.
pub proof fn lemma_variables_are_no_temporaries(
    p: ParserProgramView,
    i: int,
    x: Seq<char>,
    n: nat,
)
    requires
        resolve_program_spec(p) matches Ok(resolved) && 0 <= i < resolved.function.body.len() && (
        item_uses(resolved.function.body[i], x) || item_declares(resolved.function.body[i], x)),
    ensures
        x != temp_name(n),
{
    let body = resolve_program_spec(p)->Ok_0.function.body;
    let items = p.function.body;
    let scope = Map::<Seq<char>, Seq<char>>::empty();
    lemma_resolved_len(items, scope);
    let j = if item_declares(body[i], x) {
        i
    } else {
        lemma_resolved_uses_are_declared(p, i, x);
        choose|j: int| 0 <= j < i + 1 && j < body.len() && item_declares(#[trigger] body[j], x)
    };
    lemma_declared_names(items, scope, j);
    lemma_unique_name_is_no_temporary(
        items[j]->Declaration_0.name,
        scope.len() + declarations_before(items, j),
        n,
    );
}


/// Whether the name is a temporary made at a length of the instruction
/// list from `low` up to, but not, `high`.
pub open spec fn is_temporary_within(x: Seq<char>, low: nat, high: nat) -> bool {
    exists|k: nat| low <= k < high && x == temp_name(k)
}

/// Whether the operand is a constant, a name that `known` holds of, or a
/// temporary made within the range.
pub open spec fn operand_is_known(
    v: ValView,
    known: spec_fn(Seq<char>) -> bool,
    low: nat,
    high: nat,
) -> bool {
    v matches ValView::Identifier(x) ==> known(x) || is_temporary_within(x, low, high)
}

/// Whether every operand of the instruction is known.
pub open spec fn instruction_is_known(
    i: InstructionView,
    known: spec_fn(Seq<char>) -> bool,
    low: nat,
    high: nat,
) -> bool {
    match i {
        InstructionView::Return(v) => operand_is_known(v, known, low, high),
        InstructionView::Unary { src, dst, .. } => operand_is_known(src, known, low, high)
            && operand_is_known(dst, known, low, high),
        InstructionView::Binary { src1, src2, dst, .. } => operand_is_known(
            src1,
            known,
            low,
            high,
        ) && operand_is_known(src2, known, low, high) && operand_is_known(dst, known, low, high),
        InstructionView::Copy { src, dst } => operand_is_known(src, known, low, high)
            && operand_is_known(dst, known, low, high),
        InstructionView::JumpIfZero { src, .. } => operand_is_known(src, known, low, high),
        InstructionView::JumpIfNotZero { src, .. } => operand_is_known(src, known, low, high),
        _ => true,
    }
}

/// Whether every operand of the code is known.
pub open spec fn code_is_known(
    code: Seq<InstructionView>,
    known: spec_fn(Seq<char>) -> bool,
    low: nat,
    high: nat,
) -> bool {
    forall|i: int| 0 <= i < code.len() ==> instruction_is_known(#[trigger] code[i], known, low, high)
}

/// What is known stays known where more names are known and more
/// temporaries are in range.
pub proof fn lemma_known_wider(
    code: Seq<InstructionView>,
    known: spec_fn(Seq<char>) -> bool,
    low: nat,
    high: nat,
    wider: spec_fn(Seq<char>) -> bool,
    lower: nat,
    higher: nat,
)
    requires
        code_is_known(code, known, low, high),
        forall|x: Seq<char>| #[trigger] known(x) ==> wider(x),
        lower <= low,
        high <= higher,
    ensures
        code_is_known(code, wider, lower, higher),
{
    assert forall|i: int| 0 <= i < code.len() implies instruction_is_known(
        #[trigger] code[i],
        wider,
        lower,
        higher,
    ) by {
        assert(instruction_is_known(code[i], known, low, high));
        lemma_temporaries_wider(low, high, lower, higher);
    }
}

/// A temporary of a range is a temporary of every wider range.
pub proof fn lemma_temporaries_wider(low: nat, high: nat, lower: nat, higher: nat)
    requires
        lower <= low,
        high <= higher,
    ensures
        forall|x: Seq<char>| #[trigger]
            is_temporary_within(x, low, high) ==> is_temporary_within(x, lower, higher),
{
    assert forall|x: Seq<char>| #[trigger] is_temporary_within(x, low, high) implies is_temporary_within(
        x,
        lower,
        higher,
    ) by {
        let k = choose|k: nat| low <= k < high && x == temp_name(k);
        assert(lower <= k < higher && x == temp_name(k));
    }
}

/// Known code behind known code is known.
pub proof fn lemma_known_concat(
    a: Seq<InstructionView>,
    b: Seq<InstructionView>,
    known: spec_fn(Seq<char>) -> bool,
    low: nat,
    high: nat,
)
    requires
        code_is_known(a, known, low, high),
        code_is_known(b, known, low, high),
    ensures
        code_is_known(a + b, known, low, high),
{
    assert forall|i: int| 0 <= i < (a + b).len() implies instruction_is_known(
        #[trigger] (a + b)[i],
        known,
        low,
        high,
    ) by {
        if i < a.len() {
            assert((a + b)[i] == a[i]);
        } else {
            assert((a + b)[i] == b[i - a.len()]);
        }
    }
}

/// Every name in the code of a factor, and the name that holds its
/// value, is a variable of the factor or a temporary made while the
/// code was made.
pub proof fn lemma_factor_names(f: FactorView, base: nat)
    ensures
        ({
            let lowered = lower_factor(f, base);
            let known = |x: Seq<char>| factor_uses(f, x);
            let high = base + lowered.code.len();
            code_is_known(lowered.code, known, base, high) && operand_is_known(
                lowered.val,
                known,
                base,
                high,
            )
        }),
    decreases f,
{
    let known = |x: Seq<char>| factor_uses(f, x);
    match f {
        FactorView::Unary(op, inner) => {
            let operand = lower_factor(*inner, base);
            let n = base + operand.code.len();
            let inner_known = |x: Seq<char>| factor_uses(*inner, x);
            lemma_factor_names(*inner, base);
            lemma_known_wider(operand.code, inner_known, base, n, known, base, n + 1);
            lemma_temporaries_wider(base, n, base, n + 1);
            let dst = ValView::Identifier(temp_name(n));
            assert(is_temporary_within(temp_name(n), base, n + 1));
            let last = seq![
                InstructionView::Unary {
                    operator: unary_operator_of(op),
                    src: operand.val,
                    dst,
                },
            ];
            assert(code_is_known(last, known, base, n + 1));
            lemma_known_concat(operand.code, last, known, base, n + 1);
            assert(operand.code + last =~= lower_factor(f, base).code);
        },
        FactorView::Parenthesized(inner) => {
            let lowered = lower_expression(*inner, base);
            let inner_known = |x: Seq<char>| exp_uses(*inner, x);
            let high = base + lowered.code.len();
            lemma_expression_names(*inner, base);
            lemma_known_wider(lowered.code, inner_known, base, high, known, base, high);
        },
        _ => {},
    }
}

/// Every name in the code of an expression, and the name that holds its
/// value, is a variable of the expression or a temporary made while the
/// code was made.
pub proof fn lemma_expression_names(e: ExpView, base: nat)
    ensures
        ({
            let lowered = lower_expression(e, base);
            let known = |x: Seq<char>| exp_uses(e, x);
            let high = base + lowered.code.len();
            code_is_known(lowered.code, known, base, high) && operand_is_known(
                lowered.val,
                known,
                base,
                high,
            )
        }),
    decreases e,
{
    let known = |x: Seq<char>| exp_uses(e, x);
    let whole = lower_expression(e, base);
    let high = base + whole.code.len();
    match e {
        ExpView::Factor(f) => {
            let inner_known = |x: Seq<char>| factor_uses(f, x);
            lemma_factor_names(f, base);
            lemma_known_wider(whole.code, inner_known, base, high, known, base, high);
        },
        ExpView::Binary(left, op, right) => {
            let l = lower_expression(*left, base);
            let n = base + l.code.len();
            let left_known = |x: Seq<char>| exp_uses(*left, x);
            let right_known = |x: Seq<char>| exp_uses(*right, x);
            lemma_expression_names(*left, base);
            lemma_known_wider(l.code, left_known, base, n, known, base, high);
            lemma_temporaries_wider(base, n, base, high);
            if is_short_circuit(op) {
                let dst = ValView::Identifier(temp_name(n));
                let label = label_name(n);
                let bool_dst = ValView::Identifier(temp_name(n + 1));
                let r = lower_expression(*right, n + 3);
                let m = n + 3 + r.code.len();
                lemma_expression_names(*right, n + 3);
                lemma_known_wider(r.code, right_known, n + 3, m, known, base, high);
                lemma_temporaries_wider(n + 3, m, base, high);
                assert(is_temporary_within(temp_name(n), base, high));
                assert(is_temporary_within(temp_name(n + 1), base, high));
                let head = seq![
                    truth_of(l.val, bool_dst),
                    InstructionView::Copy { src: bool_dst, dst },
                    short_circuit_jump(op, bool_dst, label),
                ];
                let tail = seq![truth_of(r.val, dst), InstructionView::Label { label }];
                assert(code_is_known(head, known, base, high));
                assert(code_is_known(tail, known, base, high));
                lemma_known_concat(l.code, head, known, base, high);
                lemma_known_concat(l.code + head, r.code, known, base, high);
                lemma_known_concat(l.code + head + r.code, tail, known, base, high);
            } else {
                let r = lower_expression(*right, n);
                let m = n + r.code.len();
                lemma_expression_names(*right, n);
                lemma_known_wider(r.code, right_known, n, m, known, base, high);
                lemma_temporaries_wider(n, m, base, high);
                assert(is_temporary_within(temp_name(m), base, high));
                let last = seq![
                    InstructionView::Binary {
                        operator: binary_operator_of(op),
                        src1: l.val,
                        src2: r.val,
                        dst: ValView::Identifier(temp_name(m)),
                    },
                ];
                assert(code_is_known(last, known, base, high));
                lemma_known_concat(l.code, r.code, known, base, high);
                lemma_known_concat(l.code + r.code, last, known, base, high);
            }
        },
        ExpView::Assignment(left, right) => {
            let r = lower_expression(*right, base);
            let n = base + r.code.len();
            let l = lower_expression(*left, n);
            let m = n + l.code.len();
            let left_known = |x: Seq<char>| exp_uses(*left, x);
            let right_known = |x: Seq<char>| exp_uses(*right, x);
            lemma_expression_names(*right, base);
            lemma_expression_names(*left, n);
            lemma_known_wider(r.code, right_known, base, n, known, base, high);
            lemma_known_wider(l.code, left_known, n, m, known, base, high);
            lemma_temporaries_wider(base, n, base, high);
            lemma_temporaries_wider(n, m, base, high);
            let last = seq![InstructionView::Copy { src: r.val, dst: l.val }];
            assert(code_is_known(last, known, base, high));
            lemma_known_concat(r.code, l.code, known, base, high);
            lemma_known_concat(r.code + l.code, last, known, base, high);
        },
    }
}

/// Whether one of the block items declares or mentions the variable `x`.
pub open spec fn body_names(items: Seq<BlockItemView>, x: Seq<char>) -> bool {
    exists|i: int|
        0 <= i < items.len() && (item_uses(#[trigger] items[i], x) || item_declares(items[i], x))
}

/// Every name in the code of a block item is a variable that the item
/// declares or mentions, or a temporary made while the code was made.
pub proof fn lemma_item_names(item: BlockItemView, base: nat)
    ensures
        code_is_known(
            lower_block_item(item, base),
            |x: Seq<char>| item_uses(item, x) || item_declares(item, x),
            base,
            base + lower_block_item(item, base).len(),
        ),
{
    let known = |x: Seq<char>| item_uses(item, x) || item_declares(item, x);
    let code = lower_block_item(item, base);
    let high = base + code.len();
    let e = match item {
        BlockItemView::Declaration(d) => d.init,
        BlockItemView::Statement(StatementView::Return(e)) => Some(e),
        BlockItemView::Statement(StatementView::ExpressionStatement(e)) => Some(e),
        BlockItemView::Statement(StatementView::Null) => None,
    };
    if let Some(e) = e {
        let value = lower_expression(e, base);
        let n = base + value.code.len();
        let inner_known = |x: Seq<char>| exp_uses(e, x);
        lemma_expression_names(e, base);
        lemma_known_wider(value.code, inner_known, base, n, known, base, high);
        lemma_temporaries_wider(base, n, base, high);
        if !(item matches BlockItemView::Statement(StatementView::ExpressionStatement(_))) {
            let last = seq![code.last()];
            assert(code_is_known(last, known, base, high));
            lemma_known_concat(value.code, last, known, base, high);
            assert(value.code + last =~= code);
        }
    }
}

/// Every name in the code of a function body is a variable that the body
/// declares or mentions, or a temporary named after a position in the
/// code.
pub proof fn lemma_body_names(items: Seq<BlockItemView>)
    ensures
        code_is_known(
            lower_body(items),
            |x: Seq<char>| body_names(items, x),
            0,
            lower_body(items).len(),
        ),
    decreases items.len(),
{
    let known = |x: Seq<char>| body_names(items, x);
    if items.len() > 0 {
        let earlier = items.drop_last();
        let before = lower_body(earlier);
        let n = before.len();
        let code = lower_block_item(items.last(), n);
        let high = n + code.len();
        let earlier_known = |x: Seq<char>| body_names(earlier, x);
        let last_known = |x: Seq<char>| item_uses(items.last(), x) || item_declares(items.last(), x);
        lemma_body_names(earlier);
        lemma_item_names(items.last(), n);
        assert forall|x: Seq<char>| #[trigger] earlier_known(x) implies known(x) by {
            let i = choose|i: int|
                0 <= i < earlier.len() && (item_uses(#[trigger] earlier[i], x) || item_declares(
                    earlier[i],
                    x,
                ));
            assert(items[i] == earlier[i]);
        }
        assert forall|x: Seq<char>| #[trigger] last_known(x) implies known(x) by {
            assert(items[items.len() - 1] == items.last());
        }
        lemma_known_wider(before, earlier_known, 0, n, known, 0, high);
        lemma_known_wider(code, last_known, n, high, known, 0, high);
        lemma_known_concat(before, code, known, 0, high);
    }
}

/// Temporaries made at different lengths of the instruction list are
/// different.
pub proof fn lemma_temp_names_differ(a: nat, b: nat)
    requires
        a != b,
    ensures
        temp_name(a) != temp_name(b),
{
    let prefix = "tmp."@;
    if temp_name(a) == temp_name(b) {
        assert(decimal(a) =~= temp_name(a).subrange(prefix.len() as int, temp_name(a).len() as int));
        assert(decimal(b) =~= temp_name(b).subrange(prefix.len() as int, temp_name(b).len() as int));
        lemma_decimal_injective(a, b);
    }
}

/// Whether an operator works on its destination: the destination first
/// gets the left operand, then the operation is done on it with the
/// right one.
pub open spec fn is_in_place(op: BinaryOperator) -> bool {
    match op {
        BinaryOperator::Add
        | BinaryOperator::Subtract
        | BinaryOperator::Multiply
        | BinaryOperator::Ampersand
        | BinaryOperator::Pipe
        | BinaryOperator::Caret
        | BinaryOperator::ShiftLeft
        | BinaryOperator::ShiftRight => true,
        _ => false,
    }
}

/// Whether the instruction, where it is an operation in place, writes
/// to the temporary named after its own position and takes its right
/// operand from a known variable or an earlier temporary.
pub open spec fn is_fresh_at(
    i: InstructionView,
    position: nat,
    known: spec_fn(Seq<char>) -> bool,
    low: nat,
) -> bool {
    i matches InstructionView::Binary { operator, src2, dst, .. } ==> is_in_place(operator) ==> dst
        == ValView::Identifier(temp_name(position)) && operand_is_known(
        src2,
        known,
        low,
        position,
    )
}

/// Whether every operation in place of the code, which stands from the
/// position `base` on, is fresh.
pub open spec fn code_is_fresh(
    code: Seq<InstructionView>,
    base: nat,
    known: spec_fn(Seq<char>) -> bool,
    low: nat,
) -> bool {
    forall|i: int|
        0 <= i < code.len() ==> is_fresh_at(#[trigger] code[i], (base + i) as nat, known, low)
}

/// Fresh code stays fresh where more names are known and more
/// temporaries count as earlier.
pub proof fn lemma_fresh_wider(
    code: Seq<InstructionView>,
    base: nat,
    known: spec_fn(Seq<char>) -> bool,
    low: nat,
    wider: spec_fn(Seq<char>) -> bool,
    lower: nat,
)
    requires
        code_is_fresh(code, base, known, low),
        forall|x: Seq<char>| #[trigger] known(x) ==> wider(x),
        lower <= low,
    ensures
        code_is_fresh(code, base, wider, lower),
{
    assert forall|i: int| 0 <= i < code.len() implies is_fresh_at(
        #[trigger] code[i],
        (base + i) as nat,
        wider,
        lower,
    ) by {
        assert(is_fresh_at(code[i], (base + i) as nat, known, low));
        lemma_temporaries_wider(low, (base + i) as nat, lower, (base + i) as nat);
    }
}

/// Fresh code behind fresh code is fresh.
pub proof fn lemma_fresh_concat(
    a: Seq<InstructionView>,
    b: Seq<InstructionView>,
    base: nat,
    known: spec_fn(Seq<char>) -> bool,
    low: nat,
)
    requires
        code_is_fresh(a, base, known, low),
        code_is_fresh(b, base + a.len(), known, low),
    ensures
        code_is_fresh(a + b, base, known, low),
{
    assert forall|i: int| 0 <= i < (a + b).len() implies is_fresh_at(
        #[trigger] (a + b)[i],
        (base + i) as nat,
        known,
        low,
    ) by {
        if i < a.len() {
            assert((a + b)[i] == a[i]);
        } else {
            assert((a + b)[i] == b[i - a.len()]);
            assert(is_fresh_at(b[i - a.len()], (base + a.len() + (i - a.len())) as nat, known, low));
        }
    }
}

/// The code of a factor is fresh.
pub proof fn lemma_factor_is_fresh(f: FactorView, base: nat)
    ensures
        code_is_fresh(lower_factor(f, base).code, base, |x: Seq<char>| factor_uses(f, x), base),
    decreases f,
{
    let known = |x: Seq<char>| factor_uses(f, x);
    match f {
        FactorView::Unary(op, inner) => {
            let operand = lower_factor(*inner, base);
            let n = base + operand.code.len();
            let inner_known = |x: Seq<char>| factor_uses(*inner, x);
            lemma_factor_is_fresh(*inner, base);
            lemma_fresh_wider(operand.code, base, inner_known, base, known, base);
            let last = seq![
                InstructionView::Unary {
                    operator: unary_operator_of(op),
                    src: operand.val,
                    dst: ValView::Identifier(temp_name(n)),
                },
            ];
            assert(code_is_fresh(last, n, known, base));
            lemma_fresh_concat(operand.code, last, base, known, base);
            assert(operand.code + last =~= lower_factor(f, base).code);
        },
        FactorView::Parenthesized(inner) => {
            let inner_known = |x: Seq<char>| exp_uses(*inner, x);
            lemma_expression_is_fresh(*inner, base);
            lemma_fresh_wider(lower_expression(*inner, base).code, base, inner_known, base, known, base);
        },
        _ => {},
    }
}

/// The code of an expression is fresh: every operation in place writes
/// to the temporary named after its own position and takes its right
/// operand from a variable of the expression or an earlier temporary.
pub proof fn lemma_expression_is_fresh(e: ExpView, base: nat)
    ensures
        code_is_fresh(lower_expression(e, base).code, base, |x: Seq<char>| exp_uses(e, x), base),
    decreases e,
{
    let known = |x: Seq<char>| exp_uses(e, x);
    match e {
        ExpView::Factor(f) => {
            let inner_known = |x: Seq<char>| factor_uses(f, x);
            lemma_factor_is_fresh(f, base);
            lemma_fresh_wider(lower_factor(f, base).code, base, inner_known, base, known, base);
        },
        ExpView::Binary(left, op, right) => {
            let l = lower_expression(*left, base);
            let n = base + l.code.len();
            let left_known = |x: Seq<char>| exp_uses(*left, x);
            let right_known = |x: Seq<char>| exp_uses(*right, x);
            lemma_expression_is_fresh(*left, base);
            lemma_fresh_wider(l.code, base, left_known, base, known, base);
            if is_short_circuit(op) {
                let dst = ValView::Identifier(temp_name(n));
                let label = label_name(n);
                let bool_dst = ValView::Identifier(temp_name(n + 1));
                let r = lower_expression(*right, n + 3);
                let m = n + 3 + r.code.len();
                lemma_expression_is_fresh(*right, n + 3);
                lemma_fresh_wider(r.code, n + 3, right_known, n + 3, known, base);
                let head = seq![
                    truth_of(l.val, bool_dst),
                    InstructionView::Copy { src: bool_dst, dst },
                    short_circuit_jump(op, bool_dst, label),
                ];
                let tail = seq![truth_of(r.val, dst), InstructionView::Label { label }];
                assert(code_is_fresh(head, n, known, base));
                assert(code_is_fresh(tail, m, known, base));
                lemma_fresh_concat(l.code, head, base, known, base);
                lemma_fresh_concat(l.code + head, r.code, base, known, base);
                lemma_fresh_concat(l.code + head + r.code, tail, base, known, base);
            } else {
                let r = lower_expression(*right, n);
                let m = n + r.code.len();
                lemma_expression_is_fresh(*right, n);
                lemma_fresh_wider(r.code, n, right_known, n, known, base);
                lemma_expression_names(*right, n);
                let last = seq![
                    InstructionView::Binary {
                        operator: binary_operator_of(op),
                        src1: l.val,
                        src2: r.val,
                        dst: ValView::Identifier(temp_name(m)),
                    },
                ];
                assert(code_is_fresh(last, m, known, base)) by {
                    assert(operand_is_known(r.val, right_known, n, m));
                    lemma_temporaries_wider(n, m, base, m);
                    assert(operand_is_known(r.val, known, base, m));
                }
                lemma_fresh_concat(l.code, r.code, base, known, base);
                lemma_fresh_concat(l.code + r.code, last, base, known, base);
            }
        },
        ExpView::Assignment(left, right) => {
            let r = lower_expression(*right, base);
            let n = base + r.code.len();
            let l = lower_expression(*left, n);
            let m = n + l.code.len();
            let left_known = |x: Seq<char>| exp_uses(*left, x);
            let right_known = |x: Seq<char>| exp_uses(*right, x);
            lemma_expression_is_fresh(*right, base);
            lemma_expression_is_fresh(*left, n);
            lemma_fresh_wider(r.code, base, right_known, base, known, base);
            lemma_fresh_wider(l.code, n, left_known, n, known, base);
            let last = seq![InstructionView::Copy { src: r.val, dst: l.val }];
            assert(code_is_fresh(last, m, known, base));
            lemma_fresh_concat(r.code, l.code, base, known, base);
            lemma_fresh_concat(r.code + l.code, last, base, known, base);
        },
    }
}

/// The code of a block item is fresh.
pub proof fn lemma_item_is_fresh(item: BlockItemView, base: nat)
    ensures
        code_is_fresh(
            lower_block_item(item, base),
            base,
            |x: Seq<char>| item_uses(item, x) || item_declares(item, x),
            base,
        ),
{
    let known = |x: Seq<char>| item_uses(item, x) || item_declares(item, x);
    let code = lower_block_item(item, base);
    let e = match item {
        BlockItemView::Declaration(d) => d.init,
        BlockItemView::Statement(StatementView::Return(e)) => Some(e),
        BlockItemView::Statement(StatementView::ExpressionStatement(e)) => Some(e),
        BlockItemView::Statement(StatementView::Null) => None,
    };
    if let Some(e) = e {
        let value = lower_expression(e, base);
        let n = base + value.code.len();
        let inner_known = |x: Seq<char>| exp_uses(e, x);
        lemma_expression_is_fresh(e, base);
        lemma_fresh_wider(value.code, base, inner_known, base, known, base);
        if !(item matches BlockItemView::Statement(StatementView::ExpressionStatement(_))) {
            let last = seq![code.last()];
            assert(code_is_fresh(last, n, known, base));
            lemma_fresh_concat(value.code, last, base, known, base);
            assert(value.code + last =~= code);
        }
    }
}

/// The code of a function body is fresh.
pub proof fn lemma_body_is_fresh(items: Seq<BlockItemView>)
    ensures
        code_is_fresh(lower_body(items), 0, |x: Seq<char>| body_names(items, x), 0),
    decreases items.len(),
{
    let known = |x: Seq<char>| body_names(items, x);
    if items.len() > 0 {
        let earlier = items.drop_last();
        let before = lower_body(earlier);
        let n = before.len();
        let code = lower_block_item(items.last(), n);
        let earlier_known = |x: Seq<char>| body_names(earlier, x);
        let last_known = |x: Seq<char>| item_uses(items.last(), x) || item_declares(items.last(), x);
        lemma_body_is_fresh(earlier);
        lemma_item_is_fresh(items.last(), n);
        assert forall|x: Seq<char>| #[trigger] earlier_known(x) implies known(x) by {
            let i = choose|i: int|
                0 <= i < earlier.len() && (item_uses(#[trigger] earlier[i], x) || item_declares(
                    earlier[i],
                    x,
                ));
            assert(items[i] == earlier[i]);
        }
        assert forall|x: Seq<char>| #[trigger] last_known(x) implies known(x) by {
            assert(items[items.len() - 1] == items.last());
        }
        lemma_fresh_wider(before, 0, earlier_known, 0, known, 0);
        lemma_fresh_wider(code, n, last_known, n, known, 0);
        lemma_fresh_concat(before, code, 0, known, 0);
    }
}

/// In fresh code none of whose known names is a temporary, no operation
/// in place takes its right operand from its own destination.
pub proof fn lemma_fresh_destination(
    code: Seq<InstructionView>,
    known: spec_fn(Seq<char>) -> bool,
    i: int,
)
    requires
        code_is_fresh(code, 0, known, 0),
        forall|x: Seq<char>, k: nat| #[trigger] known(x) ==> x != #[trigger] temp_name(k),
        0 <= i < code.len(),
    ensures
        code[i] matches InstructionView::Binary { operator, src2, dst, .. } ==> is_in_place(
            operator,
        ) ==> src2 != dst,
{
    if let InstructionView::Binary { operator, src2, dst, .. } = code[i] {
        if is_in_place(operator) && src2 == dst {
            assert(is_fresh_at(code[i], i as nat, known, 0));
            let x = temp_name(i as nat);
            if known(x) {
                assert(x != temp_name(i as nat));
            } else {
                let k = choose|k: nat| 0 <= k < i && x == temp_name(k);
                lemma_temp_names_differ(k, i as nat);
            }
        }
    }
}

} // verus!
