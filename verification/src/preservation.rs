//! Lowering keeps the meaning: three-address code, run instruction by
//! instruction, returns the value that the function of the source returns.
use vstd::prelude::*;
use vstd::string::*;
use crate::names::{
    is_temporary_within, lemma_temp_names_differ, lemma_variables_are_no_temporaries,
};
use crate::parser::{
    BinaryOp, BlockItemView, ExpView, FactorView, FunctionDeclarationView, ProgramView,
    StatementView,
};
use crate::resolver::{exp_uses, factor_uses, item_declares, item_uses, resolve_program_spec};
use crate::semantics::{
    binary_value, body_result, exp_assigns, exp_meaning, factor_assigns, factor_meaning,
    function_result, in_conflict_on, is_label_position, item_outcome, jump, lemma_run_on, read,
    run, step, target_name, truth, unary_value, Evaluated, Machine, Outcome, Store,
};
use crate::tac::{
    binary_operator_of, has_return, is_short_circuit, label_name, labels_are_distinct,
    lemma_body_labels, lower_block_item, lower_body, lower_expression, lower_factor,
    lower_function, lower_program, short_circuit_jump, temp_name, truth_of, unary_operator_of,
    InstructionView, ValView,
};

verus! {

/// Whether `part` stands in `code` from the position `base` on.
pub open spec fn holds_segment(
    code: Seq<InstructionView>,
    base: nat,
    part: Seq<InstructionView>,
) -> bool {
    base + part.len() <= code.len() && code.subrange(base as int, (base + part.len()) as int)
        == part
}

/// Whether the machine knows every variable of the source by its value.
pub open spec fn agrees(store: Store, env: Store) -> bool {
    forall|x: Seq<char>| #[trigger]
        env.contains_key(x) ==> store.contains_key(x) && store[x] == env[x]
}

/// Whether no variable with a value has the name of a temporary.
pub open spec fn has_no_temporaries(env: Store) -> bool {
    forall|x: Seq<char>, k: nat| #[trigger] env.contains_key(x) ==> x != #[trigger] temp_name(k)
}

/// Whether no name that `uses` holds of is the name of a temporary.
pub open spec fn are_no_temporaries(uses: spec_fn(Seq<char>) -> bool) -> bool {
    forall|x: Seq<char>, k: nat| #[trigger] uses(x) ==> x != #[trigger] temp_name(k)
}

/// Whether every temporary that was not made at a length of the
/// instruction list from `low` up to, but not, `high` is in `after` what
/// it was in `before`.
pub open spec fn temporaries_kept(after: Store, before: Store, low: nat, high: nat) -> bool {
    forall|k: nat|
        !(low <= k < high) ==> (after.contains_key(#[trigger] temp_name(k)))
            == before.contains_key(temp_name(k)) && (before.contains_key(temp_name(k))
            ==> after[temp_name(k)] == before[temp_name(k)])
}

/// The parts of a segment are segments.
pub proof fn lemma_segment_parts(
    code: Seq<InstructionView>,
    base: nat,
    a: Seq<InstructionView>,
    b: Seq<InstructionView>,
)
    requires
        holds_segment(code, base, a + b),
    ensures
        holds_segment(code, base, a),
        holds_segment(code, base + a.len(), b),
{
    let whole = code.subrange(base as int, (base + (a + b).len()) as int);
    assert(code.subrange(base as int, (base + a.len()) as int) =~= a) by {
        assert forall|i: int| 0 <= i < a.len() implies code[base + i] == a[i] by {
            assert(whole[i] == (a + b)[i]);
        }
    }
    assert(code.subrange((base + a.len()) as int, (base + a.len() + b.len()) as int) =~= b) by {
        assert forall|i: int| 0 <= i < b.len() implies code[base + a.len() + i] == b[i] by {
            assert(whole[a.len() + i] == (a + b)[a.len() + i]);
        }
    }
}

/// An instruction of a segment stands in the code.
pub proof fn lemma_segment_index(
    code: Seq<InstructionView>,
    base: nat,
    part: Seq<InstructionView>,
    i: int,
)
    requires
        holds_segment(code, base, part),
        0 <= i < part.len(),
    ensures
        base + i < code.len(),
        code[base + i] == part[i],
{
    assert(code.subrange(base as int, (base + part.len()) as int)[i] == part[i]);
}

/// One step and then a run is a run that is one step longer.
pub proof fn lemma_step_then_run(
    code: Seq<InstructionView>,
    pc: nat,
    store: Store,
    next: nat,
    after: Store,
    steps: nat,
)
    requires
        step(code, pc, store) == Machine::At(next, after),
    ensures
        run(code, pc, store, steps + 1) == run(code, next, after, steps),
{
}

/// Where the labels of the code are distinct, a jump to a label arrives
/// at the one position where the label stands.
pub proof fn lemma_jump_arrives(
    code: Seq<InstructionView>,
    label: Seq<char>,
    at: nat,
    store: Store,
)
    requires
        labels_are_distinct(code),
        at < code.len(),
        code[at as int] == (InstructionView::Label { label }),
    ensures
        jump(code, label, store) == Machine::At(at, store),
{
    assert(is_label_position(code, label, at)) by {
        assert forall|i: int| 0 <= i < at implies #[trigger] code[i] != (InstructionView::Label {
            label,
        }) by {
            if code[i] == (InstructionView::Label { label }) {
                assert(code[i] is Label && code[at as int] is Label);
            }
        }
    }
    let found = choose|found: nat| is_label_position(code, label, found);
    if found < at {
        assert(code[found as int] != (InstructionView::Label { label }));
    } else if found > at {
        assert(code[at as int] != (InstructionView::Label { label }));
    }
}

/// What running the code of an expression gives: the number of steps
/// it takes and the values of the names behind it.
pub ghost struct Ran {
    pub steps: nat,
    pub store: Store,
}

/// Whether the run `ran` of the code of an expression, from the position
/// `base` and the values `store`, ends behind the code with the value of
/// the expression in the operand `val` and the variables as the
/// evaluation leaves them, and changed no temporary but those of the
/// code.
pub open spec fn computes(
    code: Seq<InstructionView>,
    base: nat,
    len: nat,
    val: ValView,
    uses: spec_fn(Seq<char>) -> bool,
    store: Store,
    result: Evaluated,
    ran: Ran,
) -> bool {
    &&& run(code, base, store, ran.steps) == Machine::At(base + len, ran.store)
    &&& read(val, ran.store) == Some(result.value)
    &&& agrees(ran.store, result.env)
    &&& has_no_temporaries(result.env)
    &&& temporaries_kept(ran.store, store, base, base + len)
    &&& val matches ValView::Identifier(x) ==> is_temporary_within(x, base, base + len) || (uses(x)
        && result.env.contains_key(x) && result.env[x] == result.value)
}

/// A temporary keeps the machine and the source agreed: no variable has
/// its name.
pub proof fn lemma_agrees_temporary(store: Store, env: Store, k: nat, v: i32)
    requires
        agrees(store, env),
        has_no_temporaries(env),
    ensures
        agrees(store.insert(temp_name(k), v), env),
{
    assert forall|x: Seq<char>| #[trigger] env.contains_key(x) implies store.insert(
        temp_name(k),
        v,
    ).contains_key(x) && store.insert(temp_name(k), v)[x] == env[x] by {
        assert(x != temp_name(k));
    }
}

/// Giving a variable of the source its value keeps the machine and the
/// source agreed, and changes no temporary.
pub proof fn lemma_agrees_insert(store: Store, env: Store, name: Seq<char>, v: i32)
    requires
        agrees(store, env),
        has_no_temporaries(env),
        forall|k: nat| name != #[trigger] temp_name(k),
    ensures
        agrees(store.insert(name, v), env.insert(name, v)),
        has_no_temporaries(env.insert(name, v)),
        forall|low: nat, high: nat| temporaries_kept(store.insert(name, v), store, low, high),
{
    let env2 = env.insert(name, v);
    let store2 = store.insert(name, v);
    assert forall|x: Seq<char>| #[trigger] env2.contains_key(x) implies store2.contains_key(x)
        && store2[x] == env2[x] by {
        if x != name {
            assert(env.contains_key(x));
        }
    }
    assert forall|x: Seq<char>, k: nat| #[trigger] env2.contains_key(x) implies x
        != #[trigger] temp_name(k) by {
        if x != name {
            assert(env.contains_key(x));
        }
    }
}

/// Temporaries kept by one run and by the next are kept by both, outside
/// the range around the two.
pub proof fn lemma_kept_then(
    last: Store,
    middle: Store,
    first: Store,
    low: nat,
    between: nat,
    other: nat,
    high: nat,
    lower: nat,
    higher: nat,
)
    requires
        temporaries_kept(middle, first, low, between),
        temporaries_kept(last, middle, other, high),
        lower <= low,
        lower <= other,
        between <= higher,
        high <= higher,
    ensures
        temporaries_kept(last, first, lower, higher),
{
    assert forall|k: nat| !(lower <= k < higher) implies (last.contains_key(
        #[trigger] temp_name(k),
    )) == first.contains_key(temp_name(k)) && (first.contains_key(temp_name(k))
        ==> last[temp_name(k)] == first[temp_name(k)]) by {
        assert(!(low <= k < between));
        assert(!(other <= k < high));
        assert(middle.contains_key(temp_name(k)) == first.contains_key(temp_name(k)));
        assert(last.contains_key(temp_name(k)) == middle.contains_key(temp_name(k)));
    }
}

/// Giving a temporary of the range a value keeps the temporaries
/// outside the range.
pub proof fn lemma_kept_insert(after: Store, before: Store, low: nat, high: nat, k: nat, v: i32)
    requires
        temporaries_kept(after, before, low, high),
        low <= k < high,
    ensures
        temporaries_kept(after.insert(temp_name(k), v), before, low, high),
{
    let changed = after.insert(temp_name(k), v);
    assert forall|j: nat| !(low <= j < high) implies (changed.contains_key(
        #[trigger] temp_name(j),
    )) == before.contains_key(temp_name(j)) && (before.contains_key(temp_name(j))
        ==> changed[temp_name(j)] == before[temp_name(j)]) by {
        lemma_temp_names_differ(j, k);
        assert(after.contains_key(temp_name(j)) == before.contains_key(temp_name(j)));
    }
}

/// Nothing changed keeps every temporary.
pub proof fn lemma_kept_same(store: Store, low: nat, high: nat)
    ensures
        temporaries_kept(store, store, low, high),
{
}

/// The evaluation of a factor leaves every variable as it was that the
/// factor does not assign to.
pub proof fn lemma_factor_keeps_unassigned(f: FactorView, env: Store, x: Seq<char>)
    requires
        factor_meaning(f, env) is Some,
        !factor_assigns(f, x),
    ensures
        factor_meaning(f, env)->Some_0.env.contains_key(x) == env.contains_key(x),
        env.contains_key(x) ==> factor_meaning(f, env)->Some_0.env[x] == env[x],
    decreases f,
{
    match f {
        FactorView::Unary(_, inner) => {
            lemma_factor_keeps_unassigned(*inner, env, x);
        },
        FactorView::Parenthesized(inner) => {
            lemma_expression_keeps_unassigned(*inner, env, x);
        },
        _ => {},
    }
}

/// The evaluation of an expression leaves every variable as it was that
/// the expression does not assign to.
pub proof fn lemma_expression_keeps_unassigned(e: ExpView, env: Store, x: Seq<char>)
    requires
        exp_meaning(e, env) is Some,
        !exp_assigns(e, x),
    ensures
        exp_meaning(e, env)->Some_0.env.contains_key(x) == env.contains_key(x),
        env.contains_key(x) ==> exp_meaning(e, env)->Some_0.env[x] == env[x],
    decreases e,
{
    match e {
        ExpView::Factor(f) => {
            lemma_factor_keeps_unassigned(f, env, x);
        },
        ExpView::Binary(left, op, right) => {
            lemma_expression_keeps_unassigned(*left, env, x);
            let a = exp_meaning(*left, env)->Some_0;
            let decided = (op == BinaryOp::LogicalAnd && a.value == 0) || (op
                == BinaryOp::LogicalOr && a.value != 0);
            if !decided {
                lemma_expression_keeps_unassigned(*right, a.env, x);
            }
        },
        ExpView::Assignment(left, right) => {
            lemma_expression_keeps_unassigned(*right, env, x);
        },
    }
}

/// The value of an operand that an earlier run computed is still there
/// behind a later run that keeps the earlier temporaries and whose
/// expression assigns to no variable that the earlier one mentions.
pub proof fn lemma_value_survives(
    val: ValView,
    uses: spec_fn(Seq<char>) -> bool,
    first: Evaluated,
    before: Store,
    later: ExpView,
    second: Evaluated,
    after: Store,
    low: nat,
    high: nat,
    top: nat,
)
    requires
        read(val, before) == Some(first.value),
        val matches ValView::Identifier(x) ==> is_temporary_within(x, low, high) || (uses(x)
            && first.env.contains_key(x) && first.env[x] == first.value),
        exp_meaning(later, first.env) == Some(second),
        forall|x: Seq<char>| #[trigger] uses(x) ==> !exp_assigns(later, x),
        agrees(after, second.env),
        temporaries_kept(after, before, high, top),
    ensures
        read(val, after) == Some(first.value),
{
    if let ValView::Identifier(x) = val {
        if is_temporary_within(x, low, high) {
            let k = choose|k: nat| low <= k < high && x == temp_name(k);
            assert(after.contains_key(temp_name(k)) == before.contains_key(temp_name(k)));
        } else {
            lemma_expression_keeps_unassigned(later, first.env, x);
            assert(second.env.contains_key(x));
        }
    }
}

/// Running the code of a factor computes the value of the factor.
pub proof fn lemma_factor_runs(
    code: Seq<InstructionView>,
    f: FactorView,
    base: nat,
    store: Store,
    env: Store,
) -> (ran: Ran)
    requires
        holds_segment(code, base, lower_factor(f, base).code),
        labels_are_distinct(code),
        factor_meaning(f, env) is Some,
        agrees(store, env),
        has_no_temporaries(env),
        are_no_temporaries(|x: Seq<char>| factor_uses(f, x)),
    ensures
        computes(
            code,
            base,
            lower_factor(f, base).code.len(),
            lower_factor(f, base).val,
            |x: Seq<char>| factor_uses(f, x),
            store,
            factor_meaning(f, env)->Some_0,
            ran,
        ),
    decreases f, 1int,
{
    let uses = |x: Seq<char>| factor_uses(f, x);
    match f {
        FactorView::Int(_) => Ran { steps: 0, store },
        FactorView::Var(name) => {
            assert(uses(name));
            Ran { steps: 0, store }
        },
        FactorView::Unary(op, inner) => {
            let operand = lower_factor(*inner, base);
            let n = base + operand.code.len();
            let dst = temp_name(n);
            let last = seq![
                InstructionView::Unary {
                    operator: unary_operator_of(op),
                    src: operand.val,
                    dst: ValView::Identifier(dst),
                },
            ];
            assert(lower_factor(f, base).code =~= operand.code + last);
            lemma_segment_parts(code, base, operand.code, last);
            lemma_segment_index(code, n, last, 0);
            let inner_uses = |x: Seq<char>| factor_uses(*inner, x);
            assert forall|x: Seq<char>, k: nat| #[trigger] inner_uses(x) implies x
                != #[trigger] temp_name(k) by {
                assert(uses(x));
            }
            let first = lemma_factor_runs(code, *inner, base, store, env);
            let a = factor_meaning(*inner, env)->Some_0;
            let after = first.store.insert(dst, unary_value(unary_operator_of(op), a.value));
            assert(step(code, n, first.store) == Machine::At(n + 1, after));
            lemma_step_then_run(code, n, first.store, n + 1, after, 0);
            lemma_run_on(code, base, store, first.steps, n, first.store, 1);
            assert(is_temporary_within(dst, base, n + 1));
            lemma_agrees_temporary(first.store, a.env, n, unary_value(unary_operator_of(op), a.value));
            lemma_kept_same(first.store, base, n);
            lemma_kept_then(first.store, first.store, store, base, n, base, n, base, n + 1);
            lemma_kept_insert(first.store, store, base, n + 1, n, unary_value(unary_operator_of(op), a.value));
            Ran { steps: first.steps + 1, store: after }
        },
        FactorView::Parenthesized(inner) => {
            let inner_uses = |x: Seq<char>| exp_uses(*inner, x);
            assert forall|x: Seq<char>, k: nat| #[trigger] inner_uses(x) implies x
                != #[trigger] temp_name(k) by {
                assert(uses(x));
            }
            let ran = lemma_expression_runs(code, *inner, base, store, env);
            assert forall|x: Seq<char>| #[trigger] inner_uses(x) implies uses(x) by {}
            ran
        },
    }
}

/// Running the code of an expression computes the value of the
/// expression and leaves the variables as its evaluation leaves them.
pub proof fn lemma_expression_runs(
    code: Seq<InstructionView>,
    e: ExpView,
    base: nat,
    store: Store,
    env: Store,
) -> (ran: Ran)
    requires
        holds_segment(code, base, lower_expression(e, base).code),
        labels_are_distinct(code),
        exp_meaning(e, env) is Some,
        agrees(store, env),
        has_no_temporaries(env),
        are_no_temporaries(|x: Seq<char>| exp_uses(e, x)),
    ensures
        computes(
            code,
            base,
            lower_expression(e, base).code.len(),
            lower_expression(e, base).val,
            |x: Seq<char>| exp_uses(e, x),
            store,
            exp_meaning(e, env)->Some_0,
            ran,
        ),
    decreases e, 1int,
{
    let uses = |x: Seq<char>| exp_uses(e, x);
    match e {
        ExpView::Factor(f) => {
            let inner_uses = |x: Seq<char>| factor_uses(f, x);
            assert forall|x: Seq<char>, k: nat| #[trigger] inner_uses(x) implies x
                != #[trigger] temp_name(k) by {
                assert(uses(x));
            }
            let ran = lemma_factor_runs(code, f, base, store, env);
            assert forall|x: Seq<char>| #[trigger] inner_uses(x) implies uses(x) by {}
            ran
        },
        ExpView::Binary(left, op, right) => {
            if is_short_circuit(op) {
                lemma_short_circuit_runs(code, *left, op, *right, base, store, env)
            } else {
                lemma_binary_runs(code, *left, op, *right, base, store, env)
            }
        },
        ExpView::Assignment(left, right) => lemma_assignment_runs(
            code,
            *left,
            *right,
            base,
            store,
            env,
        ),
    }
}

/// The operands of an expression mention no temporary where the
/// expression mentions none.
pub proof fn lemma_operands_mention_no_temporaries(e: ExpView)
    requires
        are_no_temporaries(|x: Seq<char>| exp_uses(e, x)),
    ensures
        e matches ExpView::Binary(left, _, right) ==> are_no_temporaries(
            |x: Seq<char>| exp_uses(*left, x),
        ) && are_no_temporaries(|x: Seq<char>| exp_uses(*right, x)),
        e matches ExpView::Assignment(left, right) ==> are_no_temporaries(
            |x: Seq<char>| exp_uses(*left, x),
        ) && are_no_temporaries(|x: Seq<char>| exp_uses(*right, x)),
{
    let uses = |x: Seq<char>| exp_uses(e, x);
    match e {
        ExpView::Binary(left, _, right) => {
            let l = |x: Seq<char>| exp_uses(*left, x);
            let r = |x: Seq<char>| exp_uses(*right, x);
            assert forall|x: Seq<char>, k: nat| #[trigger] l(x) implies x != #[trigger] temp_name(
                k,
            ) by {
                assert(uses(x));
            }
            assert forall|x: Seq<char>, k: nat| #[trigger] r(x) implies x != #[trigger] temp_name(
                k,
            ) by {
                assert(uses(x));
            }
        },
        ExpView::Assignment(left, right) => {
            let l = |x: Seq<char>| exp_uses(*left, x);
            let r = |x: Seq<char>| exp_uses(*right, x);
            assert forall|x: Seq<char>, k: nat| #[trigger] l(x) implies x != #[trigger] temp_name(
                k,
            ) by {
                assert(uses(x));
            }
            assert forall|x: Seq<char>, k: nat| #[trigger] r(x) implies x != #[trigger] temp_name(
                k,
            ) by {
                assert(uses(x));
            }
        },
        _ => {},
    }
}

/// The target of an assignment that names a variable takes no code, its
/// value is the variable, and the assignment mentions the variable.
pub proof fn lemma_target_is_named(e: ExpView, base: nat)
    requires
        target_name(e) is Some,
    ensures
        lower_expression(e, base).code.len() == 0,
        lower_expression(e, base).val == ValView::Identifier(target_name(e)->Some_0),
        exp_uses(e, target_name(e)->Some_0),
{
    let name = target_name(e)->Some_0;
    let var = FactorView::Var(name);
    assert(factor_uses(var, name));
    assert(exp_uses(ExpView::Factor(var), name));
    match e {
        ExpView::Factor(FactorView::Parenthesized(inner)) => {
            assert(lower_expression(e, base) == lower_factor(
                FactorView::Parenthesized(inner),
                base,
            ));
            assert(lower_factor(FactorView::Parenthesized(inner), base) == lower_expression(
                *inner,
                base,
            ));
            assert(*inner == ExpView::Factor(var));
            assert(lower_expression(*inner, base) == lower_factor(var, base));
            assert(lower_factor(var, base).code.len() == 0);
            assert(factor_uses(FactorView::Parenthesized(inner), name));
        },
        ExpView::Factor(FactorView::Var(_)) => {
            assert(lower_expression(e, base) == lower_factor(var, base));
            assert(lower_factor(var, base).code.len() == 0);
        },
        _ => {},
    }
}

/// Running the code of an assignment computes the value of its right
/// side and gives it to the variable.
pub proof fn lemma_assignment_runs(
    code: Seq<InstructionView>,
    left: ExpView,
    right: ExpView,
    base: nat,
    store: Store,
    env: Store,
) -> (ran: Ran)
    requires
        holds_segment(
            code,
            base,
            lower_expression(ExpView::Assignment(Box::new(left), Box::new(right)), base).code,
        ),
        labels_are_distinct(code),
        exp_meaning(ExpView::Assignment(Box::new(left), Box::new(right)), env) is Some,
        agrees(store, env),
        has_no_temporaries(env),
        are_no_temporaries(
            |x: Seq<char>| exp_uses(ExpView::Assignment(Box::new(left), Box::new(right)), x),
        ),
    ensures
        ({
            let e = ExpView::Assignment(Box::new(left), Box::new(right));
            computes(
                code,
                base,
                lower_expression(e, base).code.len(),
                lower_expression(e, base).val,
                |x: Seq<char>| exp_uses(e, x),
                store,
                exp_meaning(e, env)->Some_0,
                ran,
            )
        }),
    decreases ExpView::Assignment(Box::new(left), Box::new(right)), 0int,
{
    let e = ExpView::Assignment(Box::new(left), Box::new(right));
    let uses = |x: Seq<char>| exp_uses(e, x);
    let name = target_name(left)->Some_0;
    let b = exp_meaning(right, env)->Some_0;
    let r = lower_expression(right, base);
    let n = base + r.code.len();
    let l = lower_expression(left, n);
    lemma_target_is_named(left, n);
    let last = seq![InstructionView::Copy { src: r.val, dst: l.val }];
    assert(lower_expression(e, base).code =~= r.code + last);
    lemma_segment_parts(code, base, r.code, last);
    lemma_segment_index(code, n, last, 0);
    lemma_operands_mention_no_temporaries(e);
    let first = lemma_expression_runs(code, right, base, store, env);
    let after = first.store.insert(name, b.value);
    assert(step(code, n, first.store) == Machine::At(n + 1, after));
    lemma_step_then_run(code, n, first.store, n + 1, after, 0);
    lemma_run_on(code, base, store, first.steps, n, first.store, 1);
    assert(uses(name));
    lemma_agrees_insert(first.store, b.env, name, b.value);
    assert(temporaries_kept(after, first.store, n, n + 1));
    lemma_kept_then(after, first.store, store, base, n, n, n + 1, base, n + 1);
    Ran { steps: first.steps + 1, store: after }
}

/// Running the code of an operation on two operands computes its value.
pub proof fn lemma_binary_runs(
    code: Seq<InstructionView>,
    left: ExpView,
    op: BinaryOp,
    right: ExpView,
    base: nat,
    store: Store,
    env: Store,
) -> (ran: Ran)
    requires
        !is_short_circuit(op),
        holds_segment(
            code,
            base,
            lower_expression(ExpView::Binary(Box::new(left), op, Box::new(right)), base).code,
        ),
        labels_are_distinct(code),
        exp_meaning(ExpView::Binary(Box::new(left), op, Box::new(right)), env) is Some,
        agrees(store, env),
        has_no_temporaries(env),
        are_no_temporaries(
            |x: Seq<char>| exp_uses(ExpView::Binary(Box::new(left), op, Box::new(right)), x),
        ),
    ensures
        ({
            let e = ExpView::Binary(Box::new(left), op, Box::new(right));
            computes(
                code,
                base,
                lower_expression(e, base).code.len(),
                lower_expression(e, base).val,
                |x: Seq<char>| exp_uses(e, x),
                store,
                exp_meaning(e, env)->Some_0,
                ran,
            )
        }),
    decreases ExpView::Binary(Box::new(left), op, Box::new(right)), 0int,
{
    let e = ExpView::Binary(Box::new(left), op, Box::new(right));
    let left_uses = |x: Seq<char>| exp_uses(left, x);
    let l = lower_expression(left, base);
    let n = base + l.code.len();
    let r = lower_expression(right, n);
    let m = n + r.code.len();
    let dst = temp_name(m);
    let last = seq![
        InstructionView::Binary {
            operator: binary_operator_of(op),
            src1: l.val,
            src2: r.val,
            dst: ValView::Identifier(dst),
        },
    ];
    assert(lower_expression(e, base).code == l.code + r.code + last);
    lemma_segment_parts(code, base, l.code + r.code, last);
    lemma_segment_parts(code, base, l.code, r.code);
    lemma_segment_index(code, m, last, 0);
    lemma_operands_mention_no_temporaries(e);
    let a = exp_meaning(left, env)->Some_0;
    let b = exp_meaning(right, a.env)->Some_0;
    let v = binary_value(binary_operator_of(op), a.value, b.value)->Some_0;
    let first = lemma_expression_runs(code, left, base, store, env);
    let second = lemma_expression_runs(code, right, n, first.store, a.env);
    assert forall|x: Seq<char>| #[trigger] left_uses(x) implies !exp_assigns(right, x) by {
        if exp_assigns(right, x) {
            assert(in_conflict_on(left, right, x));
        }
    }
    lemma_value_survives(
        l.val,
        left_uses,
        a,
        first.store,
        right,
        b,
        second.store,
        base,
        n,
        m,
    );
    let after = second.store.insert(dst, v);
    assert(step(code, m, second.store) == Machine::At(m + 1, after));
    lemma_step_then_run(code, m, second.store, m + 1, after, 0);
    lemma_run_on(code, n, first.store, second.steps, m, second.store, 1);
    lemma_run_on(code, base, store, first.steps, n, first.store, second.steps + 1);
    lemma_agrees_temporary(second.store, b.env, m, v);
    lemma_kept_then(second.store, first.store, store, base, n, n, m, base, m + 1);
    lemma_kept_insert(second.store, store, base, m + 1, m, v);
    assert(is_temporary_within(dst, base, m + 1));
    Ran { steps: first.steps + second.steps + 1, store: after }
}

/// Where the instructions of the code of `&&` or `||` stand.
pub open spec fn short_circuit_shape(
    code: Seq<InstructionView>,
    left: ExpView,
    op: BinaryOp,
    right: ExpView,
    base: nat,
) -> bool {
    let e = ExpView::Binary(Box::new(left), op, Box::new(right));
    let l = lower_expression(left, base);
    let n = base + l.code.len();
    let r = lower_expression(right, n + 3);
    let m = n + 3 + r.code.len();
    let dst = ValView::Identifier(temp_name(n));
    let flag = ValView::Identifier(temp_name(n + 1));
    let label = label_name(n);
    &&& lower_expression(e, base).code.len() == m + 2 - base
    &&& lower_expression(e, base).val == dst
    &&& m + 2 <= code.len()
    &&& holds_segment(code, base, l.code)
    &&& holds_segment(code, n + 3, r.code)
    &&& code[n as int] == truth_of(l.val, flag)
    &&& code[(n + 1) as int] == (InstructionView::Copy { src: flag, dst })
    &&& code[(n + 2) as int] == short_circuit_jump(op, flag, label)
    &&& code[m as int] == truth_of(r.val, dst)
    &&& code[(m + 1) as int] == (InstructionView::Label { label })
}

/// The instructions of the code of `&&` or `||` stand where
/// [`short_circuit_shape`] says.
pub proof fn lemma_short_circuit_shape(
    code: Seq<InstructionView>,
    left: ExpView,
    op: BinaryOp,
    right: ExpView,
    base: nat,
)
    requires
        is_short_circuit(op),
        holds_segment(
            code,
            base,
            lower_expression(ExpView::Binary(Box::new(left), op, Box::new(right)), base).code,
        ),
    ensures
        short_circuit_shape(code, left, op, right, base),
{
    let e = ExpView::Binary(Box::new(left), op, Box::new(right));
    let l = lower_expression(left, base);
    let n = base + l.code.len();
    let dst = ValView::Identifier(temp_name(n));
    let label = label_name(n);
    let flag = ValView::Identifier(temp_name(n + 1));
    let r = lower_expression(right, n + 3);
    let m = n + 3 + r.code.len();
    let head = seq![
        truth_of(l.val, flag),
        InstructionView::Copy { src: flag, dst },
        short_circuit_jump(op, flag, label),
    ];
    let tail = seq![truth_of(r.val, dst), InstructionView::Label { label }];
    assert(lower_expression(e, base).code == l.code + head + r.code + tail);
    lemma_segment_parts(code, base, l.code + head + r.code, tail);
    lemma_segment_parts(code, base, l.code + head, r.code);
    lemma_segment_parts(code, base, l.code, head);
    lemma_segment_index(code, n, head, 0);
    lemma_segment_index(code, n, head, 1);
    lemma_segment_index(code, n, head, 2);
    lemma_segment_index(code, m, tail, 0);
    lemma_segment_index(code, m, tail, 1);
}

/// Running the code of `&&` or `||` computes its value, and runs the
/// code of the right operand only where the left one does not decide.
pub proof fn lemma_short_circuit_runs(
    code: Seq<InstructionView>,
    left: ExpView,
    op: BinaryOp,
    right: ExpView,
    base: nat,
    store: Store,
    env: Store,
) -> (ran: Ran)
    requires
        is_short_circuit(op),
        holds_segment(
            code,
            base,
            lower_expression(ExpView::Binary(Box::new(left), op, Box::new(right)), base).code,
        ),
        labels_are_distinct(code),
        exp_meaning(ExpView::Binary(Box::new(left), op, Box::new(right)), env) is Some,
        agrees(store, env),
        has_no_temporaries(env),
        are_no_temporaries(
            |x: Seq<char>| exp_uses(ExpView::Binary(Box::new(left), op, Box::new(right)), x),
        ),
    ensures
        ({
            let e = ExpView::Binary(Box::new(left), op, Box::new(right));
            computes(
                code,
                base,
                lower_expression(e, base).code.len(),
                lower_expression(e, base).val,
                |x: Seq<char>| exp_uses(e, x),
                store,
                exp_meaning(e, env)->Some_0,
                ran,
            )
        }),
    decreases ExpView::Binary(Box::new(left), op, Box::new(right)), 0int,
{
    let e = ExpView::Binary(Box::new(left), op, Box::new(right));
    let l = lower_expression(left, base);
    let n = base + l.code.len();
    let dst = temp_name(n);
    let label = label_name(n);
    let flag = temp_name(n + 1);
    let r = lower_expression(right, n + 3);
    let m = n + 3 + r.code.len();
    lemma_short_circuit_shape(code, left, op, right, base);
    lemma_temp_names_differ(n, n + 1);
    lemma_operands_mention_no_temporaries(e);
    let a = exp_meaning(left, env)->Some_0;
    let t = truth(a.value != 0);
    let first = lemma_expression_runs(code, left, base, store, env);
    let s1 = first.store;
    let s2 = s1.insert(flag, t);
    let s3 = s2.insert(dst, t);
    lemma_truth_runs(code, n, l.val, a.value, flag, dst, s1);
    lemma_agrees_temporary(s1, a.env, n + 1, t);
    lemma_agrees_temporary(s2, a.env, n, t);
    lemma_kept_same(s1, base, n);
    lemma_kept_then(s1, s1, store, base, n, base, n, base, m + 2);
    lemma_kept_insert(s1, store, base, m + 2, n + 1, t);
    lemma_kept_insert(s2, store, base, m + 2, n, t);
    assert(is_temporary_within(dst, base, m + 2));
    let decided = if op == BinaryOp::LogicalAnd {
        a.value == 0
    } else {
        a.value != 0
    };
    if decided {
        lemma_decided_runs(code, n + 2, op, flag, label, t, m + 1, s3);
        lemma_run_on(code, n, s1, 2, n + 2, s3, 2);
        lemma_run_on(code, base, store, first.steps, n, s1, 4);
        Ran { steps: first.steps + 4, store: s3 }
    } else {
        let b = exp_meaning(right, a.env)->Some_0;
        lemma_undecided_runs(code, n + 2, op, flag, label, t, s3);
        let second = lemma_expression_runs(code, right, n + 3, s3, a.env);
        let s4 = second.store;
        let s5 = s4.insert(dst, truth(b.value != 0));
        lemma_tail_runs(code, m, r.val, b.value, dst, label, s4);
        lemma_run_on(code, n + 3, s3, second.steps, m, s4, 2);
        lemma_run_on(code, n + 2, s3, 1, n + 3, s3, second.steps + 2);
        lemma_run_on(code, n, s1, 2, n + 2, s3, second.steps + 3);
        lemma_run_on(code, base, store, first.steps, n, s1, second.steps + 5);
        lemma_agrees_temporary(s4, b.env, n, truth(b.value != 0));
        lemma_kept_then(s4, s3, store, base, m + 2, n + 3, m, base, m + 2);
        lemma_kept_insert(s4, store, base, m + 2, n, truth(b.value != 0));
        Ran { steps: first.steps + second.steps + 5, store: s5 }
    }
}

/// The two instructions that put the truth value of an operand in a flag
/// and in the result take two steps.
pub proof fn lemma_truth_runs(
    code: Seq<InstructionView>,
    at: nat,
    src: ValView,
    a: i32,
    flag: Seq<char>,
    dst: Seq<char>,
    store: Store,
)
    requires
        at + 1 < code.len(),
        code[at as int] == truth_of(src, ValView::Identifier(flag)),
        code[(at + 1) as int] == (InstructionView::Copy {
            src: ValView::Identifier(flag),
            dst: ValView::Identifier(dst),
        }),
        read(src, store) == Some(a),
    ensures
        run(code, at, store, 2) == Machine::At(
            at + 2,
            store.insert(flag, truth(a != 0)).insert(dst, truth(a != 0)),
        ),
{
    let t = truth(a != 0);
    let s2 = store.insert(flag, t);
    let s3 = s2.insert(dst, t);
    assert(step(code, at, store) == Machine::At(at + 1, s2));
    assert(step(code, at + 1, s2) == Machine::At(at + 2, s3));
    lemma_step_then_run(code, at + 1, s2, at + 2, s3, 0);
    lemma_step_then_run(code, at, store, at + 1, s2, 1);
}

/// Where the left operand decides, the jump goes to the label and the
/// machine is behind it after two steps.
pub proof fn lemma_decided_runs(
    code: Seq<InstructionView>,
    at: nat,
    op: BinaryOp,
    flag: Seq<char>,
    label: Seq<char>,
    t: i32,
    target: nat,
    store: Store,
)
    requires
        labels_are_distinct(code),
        at < code.len(),
        target < code.len(),
        code[at as int] == short_circuit_jump(op, ValView::Identifier(flag), label),
        code[target as int] == (InstructionView::Label { label }),
        store.contains_key(flag) && store[flag] == t,
        if op == BinaryOp::LogicalAnd {
            t == 0
        } else {
            t != 0
        },
    ensures
        run(code, at, store, 2) == Machine::At(target + 1, store),
{
    lemma_jump_arrives(code, label, target, store);
    assert(step(code, at, store) == Machine::At(target, store));
    assert(step(code, target, store) == Machine::At(target + 1, store));
    lemma_step_then_run(code, target, store, target + 1, store, 0);
    lemma_step_then_run(code, at, store, target, store, 1);
}

/// Where the left operand does not decide, the machine goes on with the
/// right one.
pub proof fn lemma_undecided_runs(
    code: Seq<InstructionView>,
    at: nat,
    op: BinaryOp,
    flag: Seq<char>,
    label: Seq<char>,
    t: i32,
    store: Store,
)
    requires
        at < code.len(),
        code[at as int] == short_circuit_jump(op, ValView::Identifier(flag), label),
        store.contains_key(flag) && store[flag] == t,
        if op == BinaryOp::LogicalAnd {
            t != 0
        } else {
            t == 0
        },
    ensures
        run(code, at, store, 1) == Machine::At(at + 1, store),
{
    assert(step(code, at, store) == Machine::At(at + 1, store));
    lemma_step_then_run(code, at, store, at + 1, store, 0);
}

/// The two instructions behind the right operand put its truth value in
/// the result and pass the label.
pub proof fn lemma_tail_runs(
    code: Seq<InstructionView>,
    at: nat,
    src: ValView,
    b: i32,
    dst: Seq<char>,
    label: Seq<char>,
    store: Store,
)
    requires
        at + 1 < code.len(),
        code[at as int] == truth_of(src, ValView::Identifier(dst)),
        code[(at + 1) as int] == (InstructionView::Label { label }),
        read(src, store) == Some(b),
    ensures
        run(code, at, store, 2) == Machine::At(at + 2, store.insert(dst, truth(b != 0))),
{
    let after = store.insert(dst, truth(b != 0));
    assert(step(code, at, store) == Machine::At(at + 1, after));
    assert(step(code, at + 1, after) == Machine::At(at + 2, after));
    lemma_step_then_run(code, at + 1, after, at + 2, after, 0);
    lemma_step_then_run(code, at, store, at + 1, after, 1);
}

/// Whether the block item declares or mentions the variable `x`.
pub open spec fn item_names(item: BlockItemView, x: Seq<char>) -> bool {
    item_uses(item, x) || item_declares(item, x)
}

/// Whether no variable that a block item declares or mentions has the
/// name of a temporary.
pub open spec fn names_no_temporaries(items: Seq<BlockItemView>) -> bool {
    forall|i: int, x: Seq<char>, k: nat|
        0 <= i < items.len() && #[trigger] item_names(items[i], x) ==> x != #[trigger] temp_name(
            k,
        )
}

/// Whether the run `ran` of the code of a block item ends as the item
/// does: behind the code, with the machine and the source agreed, or
/// with the value that the item returns.
pub open spec fn performs(
    code: Seq<InstructionView>,
    base: nat,
    len: nat,
    store: Store,
    outcome: Outcome,
    ran: Ran,
) -> bool {
    match outcome {
        Outcome::Continues(env) => {
            &&& run(code, base, store, ran.steps) == Machine::At(base + len, ran.store)
            &&& agrees(ran.store, env)
            &&& has_no_temporaries(env)
        },
        Outcome::Returns(v) => run(code, base, store, ran.steps) == Machine::Returned(v),
    }
}

/// Running the code of a block item does what the item does.
pub proof fn lemma_item_runs(
    code: Seq<InstructionView>,
    item: BlockItemView,
    base: nat,
    store: Store,
    env: Store,
) -> (ran: Ran)
    requires
        holds_segment(code, base, lower_block_item(item, base)),
        labels_are_distinct(code),
        item_outcome(item, env) is Some,
        agrees(store, env),
        has_no_temporaries(env),
        are_no_temporaries(|x: Seq<char>| item_names(item, x)),
    ensures
        performs(
            code,
            base,
            lower_block_item(item, base).len(),
            store,
            item_outcome(item, env)->Some_0,
            ran,
        ),
{
    let names = |x: Seq<char>| item_names(item, x);
    let e = match item {
        BlockItemView::Declaration(d) => d.init,
        BlockItemView::Statement(StatementView::Return(e)) => Some(e),
        BlockItemView::Statement(StatementView::ExpressionStatement(e)) => Some(e),
        BlockItemView::Statement(StatementView::Null) => None,
    };
    match e {
        None => Ran { steps: 0, store },
        Some(e) => {
            let uses = |x: Seq<char>| exp_uses(e, x);
            assert forall|x: Seq<char>, k: nat| #[trigger] uses(x) implies x
                != #[trigger] temp_name(k) by {
                assert(names(x));
            }
            let value = lower_expression(e, base);
            let n = base + value.code.len();
            let v = exp_meaning(e, env)->Some_0;
            let whole = lower_block_item(item, base);
            let last = whole.subrange(value.code.len() as int, whole.len() as int);
            assert(whole =~= value.code + last);
            lemma_segment_parts(code, base, value.code, last);
            let first = lemma_expression_runs(code, e, base, store, env);
            match item {
                BlockItemView::Declaration(d) => {
                    lemma_segment_index(code, n, last, 0);
                    let after = first.store.insert(d.name, v.value);
                    assert(step(code, n, first.store) == Machine::At(n + 1, after));
                    lemma_step_then_run(code, n, first.store, n + 1, after, 0);
                    lemma_run_on(code, base, store, first.steps, n, first.store, 1);
                    assert(names(d.name));
                    lemma_agrees_insert(first.store, v.env, d.name, v.value);
                    Ran { steps: first.steps + 1, store: after }
                },
                BlockItemView::Statement(StatementView::Return(_)) => {
                    lemma_segment_index(code, n, last, 0);
                    assert(step(code, n, first.store) == Machine::Returned(v.value));
                    assert(run(code, n, first.store, 1) == Machine::Returned(v.value));
                    lemma_run_on(code, base, store, first.steps, n, first.store, 1);
                    Ran { steps: first.steps + 1, store: first.store }
                },
                _ => first,
            }
        },
    }
}

/// The length of the instruction list in front of block item number `i`.
pub open spec fn item_start(items: Seq<BlockItemView>, i: int) -> nat {
    lower_body(items.subrange(0, i)).len()
}

/// A segment of a code is a segment of every code that goes on behind it.
pub proof fn lemma_segment_extends(
    code: Seq<InstructionView>,
    more: Seq<InstructionView>,
    base: nat,
    part: Seq<InstructionView>,
)
    requires
        holds_segment(code, base, part),
    ensures
        holds_segment(code + more, base, part),
{
    assert((code + more).subrange(base as int, (base + part.len()) as int) =~= code.subrange(
        base as int,
        (base + part.len()) as int,
    ));
}

/// A segment of a segment at the start of a code is a segment of the code.
pub proof fn lemma_segment_within(
    code: Seq<InstructionView>,
    body: Seq<InstructionView>,
    base: nat,
    part: Seq<InstructionView>,
)
    requires
        holds_segment(code, 0, body),
        holds_segment(body, base, part),
    ensures
        holds_segment(code, base, part),
{
    assert(code.subrange(base as int, (base + part.len()) as int) =~= part) by {
        assert forall|i: int| 0 <= i < part.len() implies code[base + i] == part[i] by {
            assert(code.subrange(0, body.len() as int)[base + i] == body[base + i]);
            assert(body.subrange(base as int, (base + part.len()) as int)[i] == part[i]);
        }
    }
}

/// The code of every block item stands in the code of the body, behind
/// the code of the items before it.
pub proof fn lemma_item_segment(items: Seq<BlockItemView>, i: int)
    requires
        0 <= i < items.len(),
    ensures
        holds_segment(
            lower_body(items),
            item_start(items, i),
            lower_block_item(items[i], item_start(items, i)),
        ),
        item_start(items, i + 1) == item_start(items, i) + lower_block_item(
            items[i],
            item_start(items, i),
        ).len(),
        item_start(items, items.len() as int) == lower_body(items).len(),
    decreases items.len(),
{
    let earlier = items.drop_last();
    let before = lower_body(earlier);
    let last = lower_block_item(items.last(), before.len());
    assert(items.subrange(0, items.len() as int) =~= items);
    assert(items.subrange(0, items.len() - 1) =~= earlier);
    if i == items.len() - 1 {
        assert((before + last).subrange(before.len() as int, (before.len() + last.len()) as int)
            =~= last);
    } else {
        lemma_item_segment(earlier, i);
        assert(earlier.subrange(0, i) =~= items.subrange(0, i));
        assert(earlier.subrange(0, i + 1) =~= items.subrange(0, i + 1));
        assert(earlier[i] == items[i]);
        lemma_segment_extends(
            before,
            last,
            item_start(items, i),
            lower_block_item(items[i], item_start(items, i)),
        );
    }
}

/// Whether the instruction is no `Return`.
pub open spec fn goes_on(i: InstructionView) -> bool {
    !(i is Return)
}

/// Whether no instruction of the code is a `Return`.
pub open spec fn all_go_on(code: Seq<InstructionView>) -> bool {
    forall|i: int| 0 <= i < code.len() ==> goes_on(#[trigger] code[i])
}

/// Code without `Return` behind code without `Return` has none.
pub proof fn lemma_go_on_concat(a: Seq<InstructionView>, b: Seq<InstructionView>)
    requires
        all_go_on(a),
        all_go_on(b),
    ensures
        all_go_on(a + b),
{
    assert forall|i: int| 0 <= i < (a + b).len() implies goes_on(#[trigger] (a + b)[i]) by {
        if i < a.len() {
            assert((a + b)[i] == a[i]);
        } else {
            assert((a + b)[i] == b[i - a.len()]);
        }
    }
}

/// The code of a factor holds no `Return`.
pub proof fn lemma_factor_goes_on(f: FactorView, base: nat)
    ensures
        all_go_on(lower_factor(f, base).code),
    decreases f,
{
    match f {
        FactorView::Unary(_, inner) => {
            lemma_factor_goes_on(*inner, base);
        },
        FactorView::Parenthesized(inner) => {
            lemma_expression_goes_on(*inner, base);
        },
        _ => {},
    }
}

/// The code of an expression holds no `Return`.
pub proof fn lemma_expression_goes_on(e: ExpView, base: nat)
    ensures
        all_go_on(lower_expression(e, base).code),
    decreases e,
{
    match e {
        ExpView::Factor(f) => {
            lemma_factor_goes_on(f, base);
        },
        ExpView::Binary(left, op, right) => {
            let l = lower_expression(*left, base);
            let n = base + l.code.len();
            lemma_expression_goes_on(*left, base);
            if is_short_circuit(op) {
                let r = lower_expression(*right, n + 3);
                lemma_expression_goes_on(*right, n + 3);
                let dst = ValView::Identifier(temp_name(n));
                let flag = ValView::Identifier(temp_name(n + 1));
                let label = label_name(n);
                let head = seq![
                    truth_of(l.val, flag),
                    InstructionView::Copy { src: flag, dst },
                    short_circuit_jump(op, flag, label),
                ];
                let tail = seq![truth_of(r.val, dst), InstructionView::Label { label }];
                lemma_go_on_concat(l.code, head);
                lemma_go_on_concat(l.code + head, r.code);
                lemma_go_on_concat(l.code + head + r.code, tail);
            } else {
                let r = lower_expression(*right, n);
                lemma_expression_goes_on(*right, n);
                let last = seq![
                    InstructionView::Binary {
                        operator: binary_operator_of(op),
                        src1: l.val,
                        src2: r.val,
                        dst: ValView::Identifier(temp_name(n + r.code.len())),
                    },
                ];
                lemma_go_on_concat(l.code, r.code);
                lemma_go_on_concat(l.code + r.code, last);
            }
        },
        ExpView::Assignment(left, right) => {
            let r = lower_expression(*right, base);
            let l = lower_expression(*left, base + r.code.len());
            lemma_expression_goes_on(*right, base);
            lemma_expression_goes_on(*left, base + r.code.len());
            let last = seq![InstructionView::Copy { src: r.val, dst: l.val }];
            lemma_go_on_concat(r.code, l.code);
            lemma_go_on_concat(r.code + l.code, last);
        },
    }
}

/// Whether the block item is a `return`.
pub open spec fn is_return(item: BlockItemView) -> bool {
    item matches BlockItemView::Statement(StatementView::Return(_))
}

/// Whether none of the first `upto` block items is a `return`.
pub open spec fn none_returns(items: Seq<BlockItemView>, upto: int) -> bool {
    forall|i: int| 0 <= i < upto && i < items.len() ==> !is_return(#[trigger] items[i])
}

/// The code of a body without a `return` holds no `Return`.
pub proof fn lemma_body_goes_on(items: Seq<BlockItemView>)
    requires
        none_returns(items, items.len() as int),
    ensures
        all_go_on(lower_body(items)),
    decreases items.len(),
{
    if items.len() > 0 {
        let earlier = items.drop_last();
        let before = lower_body(earlier);
        assert forall|i: int| 0 <= i < earlier.len() implies !is_return(#[trigger] earlier[i]) by {
            assert(earlier[i] == items[i]);
        }
        lemma_body_goes_on(earlier);
        let item = items.last();
        assert(!is_return(items[items.len() - 1]));
        match item {
            BlockItemView::Declaration(d) => {
                if let Some(init) = d.init {
                    lemma_expression_goes_on(init, before.len());
                }
            },
            BlockItemView::Statement(StatementView::ExpressionStatement(e)) => {
                lemma_expression_goes_on(e, before.len());
            },
            _ => {},
        }
        lemma_go_on_concat(before, lower_block_item(item, before.len()));
    }
}

/// Running the code of a body from block item number `from` on returns
/// what those items return.
pub proof fn lemma_body_runs(
    code: Seq<InstructionView>,
    items: Seq<BlockItemView>,
    from: nat,
    store: Store,
    env: Store,
) -> (steps: nat)
    requires
        from <= items.len(),
        holds_segment(code, 0, lower_body(items)),
        labels_are_distinct(code),
        none_returns(items, from as int),
        none_returns(items, items.len() as int) ==> lower_body(items).len() < code.len()
            && code[lower_body(items).len() as int] == InstructionView::Return(
            ValView::Constant(0),
        ),
        body_result(items, from as int, env) is Some,
        agrees(store, env),
        has_no_temporaries(env),
        names_no_temporaries(items),
    ensures
        run(code, item_start(items, from as int), store, steps) == Machine::Returned(
            body_result(items, from as int, env)->Some_0,
        ),
    decreases items.len() - from,
{
    let start = item_start(items, from as int);
    if from == items.len() {
        assert(items.subrange(0, items.len() as int) =~= items);
        assert(step(code, start, store) == Machine::Returned(0));
        1
    } else {
        let item = items[from as int];
        let part = lower_block_item(item, start);
        lemma_item_segment(items, from as int);
        lemma_segment_within(code, lower_body(items), start, part);
        let names = |x: Seq<char>| item_names(item, x);
        assert forall|x: Seq<char>, k: nat| #[trigger] names(x) implies x != #[trigger] temp_name(
            k,
        ) by {
            assert(item_names(items[from as int], x));
        }
        let ran = lemma_item_runs(code, item, start, store, env);
        match item_outcome(item, env)->Some_0 {
            Outcome::Returns(_) => ran.steps,
            Outcome::Continues(next) => {
                assert(!is_return(item));
                let rest = lemma_body_runs(code, items, from + 1, ran.store, next);
                lemma_run_on(code, start, store, ran.steps, start + part.len(), ran.store, rest);
                ran.steps + rest
            },
        }
    }
}

/// The three-address code of the function `main`, run from its first
/// instruction with no name given a value, returns the value that the
/// function of the source returns, wherever the source gives it a value
/// and no variable has the name of a temporary.
pub proof fn lemma_function_keeps_meaning(f: FunctionDeclarationView) -> (steps: nat)
    requires
        f.name == "main"@,
        function_result(f) is Some,
        names_no_temporaries(f.body),
    ensures
        run(lower_function(f).body, 0, Map::empty(), steps) == Machine::Returned(
            function_result(f)->Some_0,
        ),
{
    let body = lower_body(f.body);
    let code = lower_function(f).body;
    let store = Map::<Seq<char>, i32>::empty();
    lemma_body_labels(f.body);
    if has_return(body) {
        assert(code == body);
        assert(code.subrange(0, body.len() as int) =~= body);
        if none_returns(f.body, f.body.len() as int) {
            lemma_body_goes_on(f.body);
            let i = choose|i: int| 0 <= i < body.len() && #[trigger] body[i] is Return;
            assert(goes_on(body[i]));
        }
    } else {
        let last = seq![InstructionView::Return(ValView::Constant(0))];
        assert(code =~= body + last);
        assert(code.subrange(0, body.len() as int) =~= body);
        assert forall|i: int, j: int|
            0 <= i < j < code.len() && #[trigger] code[i] is Label && #[trigger] code[j]
                is Label implies code[i] != code[j] by {
            assert(code[i] == body[i] && code[j] == body[j]);
        }
    }
    assert(f.body.subrange(0, 0) =~= Seq::<BlockItemView>::empty());
    lemma_body_runs(code, f.body, 0, store, store)
}

/// Lowering keeps the meaning of a resolved program: its three-address
/// code, run from the first instruction, returns the value that the
/// function `main` of the source returns, wherever the source gives it a
/// value.
pub proof fn lemma_lowering_keeps_meaning(p: ProgramView) -> (steps: nat)
    requires
        resolve_program_spec(p) matches Ok(resolved) && resolved.function.name == "main"@
            && function_result(resolved.function) is Some,
    ensures
        ({
            let resolved = resolve_program_spec(p)->Ok_0;
            run(lower_program(resolved).function.body, 0, Map::empty(), steps) == Machine::Returned(
                function_result(resolved.function)->Some_0,
            )
        }),
{
    let resolved = resolve_program_spec(p)->Ok_0;
    let items = resolved.function.body;
    assert forall|i: int, x: Seq<char>, k: nat|
        0 <= i < items.len() && #[trigger] item_names(items[i], x) implies x
        != #[trigger] temp_name(k) by {
        lemma_variables_are_no_temporaries(p, i, x, k);
    }
    lemma_function_keeps_meaning(resolved.function)
}

} // verus!
