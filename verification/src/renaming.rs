//! Renaming keeps the meaning: a resolved program returns what the
//! program returned before its variables got their unique names.
use vstd::prelude::*;
use crate::parser::{
    BinaryOp, BlockItemView, ExpView, FactorView, FunctionDeclarationView, ProgramView,
    StatementView,
};
use crate::resolver::{
    declare, exp_uses, factor_uses, lemma_unique_names_differ, resolve_block_item_spec,
    resolve_body_spec, resolve_expression_spec, resolve_factor_spec, resolve_program_spec,
    unique_name, Scope,
};
use crate::semantics::{
    body_result, exp_assigns, exp_meaning, factor_assigns, factor_meaning, function_result,
    in_conflict, in_conflict_on, item_outcome, target_name, Evaluated, Outcome, Store,
};

verus! {

/// Whether the scope is what declaring variables one by one gives:
/// finitely many names, each with a unique name whose number is below
/// the number of names, and no unique name twice.
pub open spec fn is_numbered(scope: Scope) -> bool {
    &&& scope.dom().finite()
    &&& forall|x: Seq<char>| #[trigger]
        scope.contains_key(x) ==> exists|name: Seq<char>, k: nat|
            k < scope.len() && scope[x] == unique_name(name, k)
    &&& forall|a: Seq<char>, b: Seq<char>|
        scope.contains_key(a) && scope.contains_key(b) && a != b ==> scope[a] != scope[b]
}

/// Whether the variables of the resolved program have the values that
/// the variables of the program have: a variable has a value exactly
/// where its unique name has one, and then the same, and nothing else
/// has a value.
pub open spec fn is_renamed(env: Store, scope: Scope, resolved: Store) -> bool {
    &&& forall|x: Seq<char>| #[trigger] env.contains_key(x) ==> scope.contains_key(x)
    &&& forall|y: Seq<char>| #[trigger]
        resolved.contains_key(y) ==> exists|x: Seq<char>| scope.contains_key(x) && scope[x] == y
    &&& forall|x: Seq<char>| #[trigger]
        scope.contains_key(x) ==> env.contains_key(x) == resolved.contains_key(scope[x]) && (
        env.contains_key(x) ==> resolved[scope[x]] == env[x])
}

/// Whether the evaluation `after` of a resolved expression is the
/// evaluation `before` of the expression, renamed.
pub open spec fn is_renamed_evaluation(
    before: Option<Evaluated>,
    scope: Scope,
    after: Option<Evaluated>,
) -> bool {
    before matches Some(b) ==> after matches Some(a) && a.value == b.value && is_renamed(
        b.env,
        scope,
        a.env,
    )
}

/// Giving a variable and its unique name the same value keeps the
/// values renamed.
pub proof fn lemma_renamed_insert(env: Store, scope: Scope, resolved: Store, x: Seq<char>, v: i32)
    requires
        is_numbered(scope),
        is_renamed(env, scope, resolved),
        scope.contains_key(x),
    ensures
        is_renamed(env.insert(x, v), scope, resolved.insert(scope[x], v)),
{
    let env2 = env.insert(x, v);
    let resolved2 = resolved.insert(scope[x], v);
    assert forall|y: Seq<char>| #[trigger] resolved2.contains_key(y) implies exists|z: Seq<char>|
        scope.contains_key(z) && scope[z] == y by {
        if y == scope[x] {
            assert(scope.contains_key(x) && scope[x] == y);
        } else {
            assert(resolved.contains_key(y));
        }
    }
    assert forall|z: Seq<char>| #[trigger] scope.contains_key(z) implies env2.contains_key(z)
        == resolved2.contains_key(scope[z]) && (env2.contains_key(z) ==> resolved2[scope[z]]
        == env2[z]) by {
        if z != x {
            assert(scope[z] != scope[x]);
        }
    }
}

/// The target of a resolved assignment is the unique name of the
/// target of the assignment.
pub proof fn lemma_target_renamed(e: ExpView, scope: Scope)
    requires
        resolve_expression_spec(e, scope) is Ok,
        target_name(e) is Some,
    ensures
        scope.contains_key(target_name(e)->Some_0),
        target_name(resolve_expression_spec(e, scope)->Ok_0) == Some(
            scope[target_name(e)->Some_0],
        ),
{
    let x = target_name(e)->Some_0;
    let var = FactorView::Var(x);
    assert(resolve_factor_spec(var, scope) is Ok ==> scope.contains_key(x));
    match e {
        ExpView::Factor(FactorView::Parenthesized(inner)) => {
            assert(*inner == ExpView::Factor(var));
            assert(resolve_expression_spec(e, scope) is Ok);
            assert(resolve_factor_spec(FactorView::Parenthesized(inner), scope) is Ok);
            assert(resolve_expression_spec(*inner, scope) is Ok);
            assert(resolve_factor_spec(var, scope) is Ok);
        },
        ExpView::Factor(FactorView::Var(_)) => {
            assert(resolve_factor_spec(var, scope) is Ok);
        },
        _ => {},
    }
}

/// A variable that a resolved factor assigns to is the unique name of a
/// variable that the factor assigns to.
pub proof fn lemma_factor_assigns_origin(f: FactorView, scope: Scope, y: Seq<char>) -> (x: Seq<
    char,
>)
    requires
        resolve_factor_spec(f, scope) matches Ok(r) && factor_assigns(r, y),
    ensures
        scope.contains_key(x) && scope[x] == y && factor_assigns(f, x),
    decreases f,
{
    match f {
        FactorView::Unary(_, inner) => lemma_factor_assigns_origin(*inner, scope, y),
        FactorView::Parenthesized(inner) => lemma_expression_assigns_origin(*inner, scope, y),
        _ => y,
    }
}

/// A variable that a resolved expression assigns to is the unique name
/// of a variable that the expression assigns to.
pub proof fn lemma_expression_assigns_origin(e: ExpView, scope: Scope, y: Seq<char>) -> (x: Seq<
    char,
>)
    requires
        resolve_expression_spec(e, scope) matches Ok(r) && exp_assigns(r, y),
    ensures
        scope.contains_key(x) && scope[x] == y && exp_assigns(e, x),
    decreases e,
{
    match e {
        ExpView::Factor(f) => lemma_factor_assigns_origin(f, scope, y),
        ExpView::Binary(left, _, right) => {
            if exp_assigns(resolve_expression_spec(*left, scope)->Ok_0, y) {
                lemma_expression_assigns_origin(*left, scope, y)
            } else {
                lemma_expression_assigns_origin(*right, scope, y)
            }
        },
        ExpView::Assignment(left, right) => {
            let l = resolve_expression_spec(*left, scope)->Ok_0;
            let r = resolve_expression_spec(*right, scope)->Ok_0;
            if target_name(l) == Some(y) {
                lemma_target_origin(*left, scope);
                target_name(*left)->Some_0
            } else if exp_assigns(l, y) {
                lemma_expression_assigns_origin(*left, scope, y)
            } else {
                lemma_expression_assigns_origin(*right, scope, y)
            }
        },
    }
}

/// The target of a resolved assignment comes from the target of the
/// assignment.
pub proof fn lemma_target_origin(e: ExpView, scope: Scope)
    requires
        resolve_expression_spec(e, scope) matches Ok(r) && target_name(r) is Some,
    ensures
        target_name(e) is Some,
        scope.contains_key(target_name(e)->Some_0),
        target_name(resolve_expression_spec(e, scope)->Ok_0) == Some(
            scope[target_name(e)->Some_0],
        ),
{
    let r = resolve_expression_spec(e, scope)->Ok_0;
    match e {
        ExpView::Factor(FactorView::Parenthesized(inner)) => {
            assert(resolve_factor_spec(FactorView::Parenthesized(inner), scope) is Ok);
            let resolved_inner = resolve_expression_spec(*inner, scope)->Ok_0;
            assert(r == ExpView::Factor(FactorView::Parenthesized(Box::new(resolved_inner))));
            match *inner {
                ExpView::Factor(FactorView::Var(x)) => {
                    assert(resolve_factor_spec(FactorView::Var(x), scope) is Ok);
                },
                ExpView::Factor(f) => {
                    assert(resolve_factor_spec(f, scope) is Ok);
                },
                _ => {},
            }
        },
        ExpView::Factor(FactorView::Var(x)) => {
            assert(resolve_factor_spec(FactorView::Var(x), scope) is Ok);
        },
        ExpView::Factor(f) => {
            assert(resolve_factor_spec(f, scope) is Ok);
        },
        _ => {},
    }
}

/// A variable that a resolved factor mentions is the unique name of a
/// variable that the factor mentions.
pub proof fn lemma_factor_uses_origin(f: FactorView, scope: Scope, y: Seq<char>) -> (x: Seq<char>)
    requires
        resolve_factor_spec(f, scope) matches Ok(r) && factor_uses(r, y),
    ensures
        scope.contains_key(x) && scope[x] == y && factor_uses(f, x),
    decreases f,
{
    match f {
        FactorView::Unary(_, inner) => lemma_factor_uses_origin(*inner, scope, y),
        FactorView::Parenthesized(inner) => lemma_expression_uses_origin(*inner, scope, y),
        FactorView::Var(name) => name,
        _ => y,
    }
}

/// A variable that a resolved expression mentions is the unique name of
/// a variable that the expression mentions.
pub proof fn lemma_expression_uses_origin(e: ExpView, scope: Scope, y: Seq<char>) -> (x: Seq<char>)
    requires
        resolve_expression_spec(e, scope) matches Ok(r) && exp_uses(r, y),
    ensures
        scope.contains_key(x) && scope[x] == y && exp_uses(e, x),
    decreases e,
{
    match e {
        ExpView::Factor(f) => lemma_factor_uses_origin(f, scope, y),
        ExpView::Binary(left, _, right) => {
            if exp_uses(resolve_expression_spec(*left, scope)->Ok_0, y) {
                lemma_expression_uses_origin(*left, scope, y)
            } else {
                lemma_expression_uses_origin(*right, scope, y)
            }
        },
        ExpView::Assignment(left, right) => {
            if exp_uses(resolve_expression_spec(*left, scope)->Ok_0, y) {
                lemma_expression_uses_origin(*left, scope, y)
            } else {
                lemma_expression_uses_origin(*right, scope, y)
            }
        },
    }
}

/// Operands that are in conflict once resolved were in conflict before.
pub proof fn lemma_conflict_origin(left: ExpView, right: ExpView, scope: Scope)
    requires
        is_numbered(scope),
        resolve_expression_spec(left, scope) is Ok,
        resolve_expression_spec(right, scope) is Ok,
        in_conflict(
            resolve_expression_spec(left, scope)->Ok_0,
            resolve_expression_spec(right, scope)->Ok_0,
        ),
    ensures
        in_conflict(left, right),
{
    let l = resolve_expression_spec(left, scope)->Ok_0;
    let r = resolve_expression_spec(right, scope)->Ok_0;
    let y = choose|y: Seq<char>| in_conflict_on(l, r, y);
    if exp_assigns(l, y) && exp_uses(r, y) {
        let a = lemma_expression_assigns_origin(left, scope, y);
        let b = lemma_expression_uses_origin(right, scope, y);
        assert(a == b);
        assert(in_conflict_on(left, right, a));
    } else {
        let a = lemma_expression_assigns_origin(right, scope, y);
        let b = lemma_expression_uses_origin(left, scope, y);
        assert(a == b);
        assert(in_conflict_on(left, right, a));
    }
}

/// A resolved factor has the value of the factor.
pub proof fn lemma_factor_renamed(f: FactorView, scope: Scope, env: Store, resolved: Store)
    requires
        resolve_factor_spec(f, scope) is Ok,
        is_numbered(scope),
        is_renamed(env, scope, resolved),
    ensures
        is_renamed_evaluation(
            factor_meaning(f, env),
            scope,
            factor_meaning(resolve_factor_spec(f, scope)->Ok_0, resolved),
        ),
    decreases f,
{
    match f {
        FactorView::Unary(_, inner) => {
            lemma_factor_renamed(*inner, scope, env, resolved);
        },
        FactorView::Parenthesized(inner) => {
            lemma_expression_renamed(*inner, scope, env, resolved);
        },
        _ => {},
    }
}

/// A resolved expression has the value of the expression, and leaves
/// the variables as the expression leaves them, under their unique
/// names.
pub proof fn lemma_expression_renamed(e: ExpView, scope: Scope, env: Store, resolved: Store)
    requires
        resolve_expression_spec(e, scope) is Ok,
        is_numbered(scope),
        is_renamed(env, scope, resolved),
    ensures
        is_renamed_evaluation(
            exp_meaning(e, env),
            scope,
            exp_meaning(resolve_expression_spec(e, scope)->Ok_0, resolved),
        ),
    decreases e,
{
    if exp_meaning(e, env) is Some {
        match e {
            ExpView::Factor(f) => {
                lemma_factor_renamed(f, scope, env, resolved);
            },
            ExpView::Binary(left, op, right) => {
                let l = resolve_expression_spec(*left, scope)->Ok_0;
                let r = resolve_expression_spec(*right, scope)->Ok_0;
                lemma_expression_renamed(*left, scope, env, resolved);
                let a = exp_meaning(*left, env)->Some_0;
                let ra = exp_meaning(l, resolved)->Some_0;
                let decided = (op == BinaryOp::LogicalAnd && a.value == 0) || (op
                    == BinaryOp::LogicalOr && a.value != 0);
                if !decided {
                    lemma_expression_renamed(*right, scope, a.env, ra.env);
                    if !(op == BinaryOp::LogicalAnd || op == BinaryOp::LogicalOr) {
                        if in_conflict(l, r) {
                            lemma_conflict_origin(*left, *right, scope);
                        }
                    }
                }
            },
            ExpView::Assignment(left, right) => {
                let x = target_name(*left)->Some_0;
                lemma_target_renamed(*left, scope);
                lemma_expression_renamed(*right, scope, env, resolved);
                let b = exp_meaning(*right, env)->Some_0;
                let rb = exp_meaning(resolve_expression_spec(*right, scope)->Ok_0, resolved)->Some_0;
                lemma_renamed_insert(b.env, scope, rb.env, x, b.value);
            },
        }
    }
}

/// Declaring a variable keeps the scope numbered and the values renamed.
pub proof fn lemma_declare_renamed(scope: Scope, name: Seq<char>, env: Store, resolved: Store)
    requires
        is_numbered(scope),
        is_renamed(env, scope, resolved),
        !scope.contains_key(name),
    ensures
        is_numbered(declare(scope, name)),
        is_renamed(env, declare(scope, name), resolved),
{
    let unique = unique_name(name, scope.len());
    let after = declare(scope, name);
    assert(after.dom() =~= scope.dom().insert(name));
    assert(after.len() == scope.len() + 1);
    assert forall|x: Seq<char>| #[trigger] after.contains_key(x) implies exists|
        n: Seq<char>,
        k: nat,
    |
        k < after.len() && after[x] == unique_name(n, k) by {
        if x == name {
            assert(scope.len() < after.len() && after[x] == unique_name(name, scope.len()));
        } else {
            assert(scope.contains_key(x));
            let (n, k) = choose|n: Seq<char>, k: nat|
                k < scope.len() && scope[x] == unique_name(n, k);
            assert(k < after.len() && after[x] == unique_name(n, k));
        }
    }
    assert forall|x: Seq<char>| #[trigger] scope.contains_key(x) implies scope[x] != unique by {
        let (n, k) = choose|n: Seq<char>, k: nat| k < scope.len() && scope[x] == unique_name(n, k);
        lemma_unique_names_differ(n, k, name, scope.len());
    }
    assert forall|a: Seq<char>, b: Seq<char>|
        after.contains_key(a) && after.contains_key(b) && a != b implies after[a] != after[b] by {
        if a != name {
            assert(scope.contains_key(a));
        }
        if b != name {
            assert(scope.contains_key(b));
        }
    }
    assert forall|y: Seq<char>| #[trigger] resolved.contains_key(y) implies exists|x: Seq<char>|
        after.contains_key(x) && after[x] == y by {
        let x = choose|x: Seq<char>| scope.contains_key(x) && scope[x] == y;
        assert(after.contains_key(x) && after[x] == y);
    }
    assert forall|x: Seq<char>| #[trigger] after.contains_key(x) implies env.contains_key(x)
        == resolved.contains_key(after[x]) && (env.contains_key(x) ==> resolved[after[x]]
        == env[x]) by {
        if x == name {
            if resolved.contains_key(unique) {
                let z = choose|z: Seq<char>| scope.contains_key(z) && scope[z] == unique;
                assert(scope[z] != unique);
            }
            if env.contains_key(x) {
                assert(scope.contains_key(x));
            }
        } else {
            assert(scope.contains_key(x));
        }
    }
}

/// Whether the outcome `after` of a resolved block item is the outcome
/// `before` of the block item, renamed.
pub open spec fn is_renamed_outcome(
    before: Option<Outcome>,
    scope: Scope,
    after: Option<Outcome>,
) -> bool {
    match before {
        None => true,
        Some(Outcome::Returns(v)) => after == Some(Outcome::Returns(v)),
        Some(Outcome::Continues(env)) => after matches Some(Outcome::Continues(resolved))
            && is_renamed(env, scope, resolved),
    }
}

/// A resolved block item does what the block item does.
pub proof fn lemma_item_renamed(item: BlockItemView, scope: Scope, env: Store, resolved: Store)
    requires
        resolve_block_item_spec(item, scope) is Ok,
        is_numbered(scope),
        is_renamed(env, scope, resolved),
    ensures
        is_numbered(resolve_block_item_spec(item, scope)->Ok_0.1),
        is_renamed_outcome(
            item_outcome(item, env),
            resolve_block_item_spec(item, scope)->Ok_0.1,
            item_outcome(resolve_block_item_spec(item, scope)->Ok_0.0, resolved),
        ),
{
    match item {
        BlockItemView::Declaration(d) => {
            let inner = declare(scope, d.name);
            lemma_declare_renamed(scope, d.name, env, resolved);
            if let Some(init) = d.init {
                lemma_expression_renamed(init, inner, env, resolved);
                if let Some(v) = exp_meaning(init, env) {
                    let rv = exp_meaning(resolve_expression_spec(init, inner)->Ok_0, resolved)->Some_0;
                    lemma_renamed_insert(v.env, inner, rv.env, d.name, v.value);
                }
            }
        },
        BlockItemView::Statement(StatementView::Return(e)) => {
            lemma_expression_renamed(e, scope, env, resolved);
        },
        BlockItemView::Statement(StatementView::ExpressionStatement(e)) => {
            lemma_expression_renamed(e, scope, env, resolved);
        },
        BlockItemView::Statement(StatementView::Null) => {},
    }
}

/// A resolved body returns, from block item number `from` on, what the
/// body returns.
pub proof fn lemma_body_renamed(
    items: Seq<BlockItemView>,
    scope: Scope,
    from: int,
    env: Store,
    resolved: Store,
)
    requires
        0 <= from <= items.len(),
        resolve_body_spec(items.subrange(from, items.len() as int), scope) is Ok,
        is_numbered(scope),
        is_renamed(env, scope, resolved),
        body_result(items, from, env) is Some,
    ensures
        body_result(
            resolve_body_spec(items.subrange(from, items.len() as int), scope)->Ok_0,
            0,
            resolved,
        ) == body_result(items, from, env),
    decreases items.len() - from,
{
    let rest = items.subrange(from, items.len() as int);
    let after = resolve_body_spec(rest, scope)->Ok_0;
    if from < items.len() {
        assert(rest[0] == items[from]);
        let first = resolve_block_item_spec(items[from], scope)->Ok_0.0;
        let behind = resolve_block_item_spec(items[from], scope)->Ok_0.1;
        let later = resolve_body_spec(rest.drop_first(), behind)->Ok_0;
        assert(rest.drop_first() =~= items.subrange(from + 1, items.len() as int));
        assert(after == seq![first] + later);
        assert(after[0] == first);
        lemma_item_renamed(items[from], scope, env, resolved);
        match item_outcome(items[from], env)->Some_0 {
            Outcome::Returns(_) => {},
            Outcome::Continues(next) => {
                let resolved_next = item_outcome(first, resolved)->Some_0->Continues_0;
                lemma_body_renamed(items, behind, from + 1, next, resolved_next);
                assert(after.drop_first() =~= later);
                lemma_result_behind(after, later, resolved_next);
            },
        }
    }
}

/// The block items behind the first return, counted from the second
/// one, what they return on their own.
pub proof fn lemma_result_behind(
    items: Seq<BlockItemView>,
    later: Seq<BlockItemView>,
    env: Store,
)
    requires
        items.len() > 0,
        later == items.drop_first(),
    ensures
        body_result(items, 1, env) == body_result(later, 0, env),
{
    lemma_result_shifted(items, later, 1, env);
}

/// The block items from some number on return what the same items
/// return when the first one is left out and the number is one less.
pub proof fn lemma_result_shifted(
    items: Seq<BlockItemView>,
    later: Seq<BlockItemView>,
    from: int,
    env: Store,
)
    requires
        items.len() > 0,
        later == items.drop_first(),
        1 <= from,
    ensures
        body_result(items, from, env) == body_result(later, from - 1, env),
    decreases items.len() - from,
{
    if from < items.len() {
        assert(items[from] == later[from - 1]);
        match item_outcome(items[from], env) {
            Some(Outcome::Continues(next)) => {
                lemma_result_shifted(items, later, from + 1, next);
            },
            _ => {},
        }
    }
}

/// Renaming keeps the meaning: the resolved program returns the value
/// that the program returns, wherever the program has a value.
pub proof fn lemma_renaming_keeps_meaning(p: ProgramView)
    requires
        resolve_program_spec(p) is Ok,
        function_result(p.function) is Some,
    ensures
        function_result(resolve_program_spec(p)->Ok_0.function) == function_result(p.function),
{
    let items = p.function.body;
    let scope = Map::<Seq<char>, Seq<char>>::empty();
    let env = Map::<Seq<char>, i32>::empty();
    assert(items.subrange(0, items.len() as int) =~= items);
    lemma_body_renamed(items, scope, 0, env, env);
}

} // verus!
