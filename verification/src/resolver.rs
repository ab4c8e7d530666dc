//! Variable resolution: every declared variable gets a name of its own,
//! every use is renamed to the name of its declaration, and an
//! undeclared use, a second declaration and an assignment to something
//! other than a variable are errors.
use vstd::prelude::*;
use vstd::hash_map::StringHashMap;
use vstd::string::*;
use crate::error::{CompileError, CompileErrorView};
use crate::parser::{
    block_item_views, body_is_plain, exp_is_plain, factor_is_plain, item_is_plain,
    optional_exp_view, BinaryOp, BlockItem, BlockItemView, Declaration,
    DeclarationView, Exp, ExpView, Factor, FactorView, FunctionDeclaration,
    FunctionDeclarationView, Program, ProgramView, Statement, StatementView,
};
use crate::text::{
    decimal, is_digit, lemma_decimal_injective, lemma_decimal_round_trip, push_decimal,
};

verus! {

/// The names in scope: from the name written in the source to the unique
/// name that replaces it.
pub type Scope = Map<Seq<char>, Seq<char>>;

/// The unique name of the variable `name` that is declared as number `index`.
pub open spec fn unique_name(name: Seq<char>, index: nat) -> Seq<char> {
    name + seq!['@'] + decimal(index)
}

/// Whether an expression may stand left of `=`: a variable, bare or in
/// one pair of parentheses.
pub open spec fn is_lvalue(e: ExpView) -> bool {
    match e {
        ExpView::Factor(FactorView::Var(_)) => true,
        ExpView::Factor(FactorView::Parenthesized(inner)) => *inner is Factor
            && inner->Factor_0 is Var,
        _ => false,
    }
}

/// The factor with every variable replaced by its unique name.
pub open spec fn resolve_factor_spec(f: FactorView, scope: Scope) -> Result<
    FactorView,
    CompileErrorView,
>
    decreases f,
{
    match f {
        FactorView::Int(k) => Ok(FactorView::Int(k)),
        FactorView::Unary(op, inner) => match resolve_factor_spec(*inner, scope) {
            Err(e) => Err(e),
            Ok(inner) => Ok(FactorView::Unary(op, Box::new(inner))),
        },
        FactorView::Var(name) => {
            if scope.contains_key(name) {
                Ok(FactorView::Var(scope[name]))
            } else {
                Err(CompileErrorView::UndeclaredVariable { name })
            }
        },
        FactorView::Parenthesized(inner) => match resolve_expression_spec(*inner, scope) {
            Err(e) => Err(e),
            Ok(inner) => Ok(FactorView::Parenthesized(Box::new(inner))),
        },
    }
}

/// The expression with every variable replaced by its unique name. The
/// left operand is resolved first; the target of an assignment is judged
/// once both sides are resolved.
pub open spec fn resolve_expression_spec(e: ExpView, scope: Scope) -> Result<
    ExpView,
    CompileErrorView,
>
    decreases e,
{
    match e {
        ExpView::Factor(f) => match resolve_factor_spec(f, scope) {
            Err(e) => Err(e),
            Ok(f) => Ok(ExpView::Factor(f)),
        },
        ExpView::Binary(left, op, right) => match resolve_expression_spec(*left, scope) {
            Err(e) => Err(e),
            Ok(left) => match resolve_expression_spec(*right, scope) {
                Err(e) => Err(e),
                Ok(right) => Ok(ExpView::Binary(Box::new(left), op, Box::new(right))),
            },
        },
        ExpView::Assignment(left, right) => match resolve_expression_spec(*left, scope) {
            Err(e) => Err(e),
            Ok(left) => match resolve_expression_spec(*right, scope) {
                Err(e) => Err(e),
                Ok(right) => {
                    if is_lvalue(left) {
                        Ok(ExpView::Assignment(Box::new(left), Box::new(right)))
                    } else {
                        Err(CompileErrorView::InvalidAssignmentTarget)
                    }
                },
            },
        },
    }
}

/// The statement with every variable replaced by its unique name.
pub open spec fn resolve_statement_spec(s: StatementView, scope: Scope) -> Result<
    StatementView,
    CompileErrorView,
> {
    match s {
        StatementView::Return(e) => match resolve_expression_spec(e, scope) {
            Err(e) => Err(e),
            Ok(e) => Ok(StatementView::Return(e)),
        },
        StatementView::ExpressionStatement(e) => match resolve_expression_spec(e, scope) {
            Err(e) => Err(e),
            Ok(e) => Ok(StatementView::ExpressionStatement(e)),
        },
        StatementView::Null => Ok(StatementView::Null),
    }
}

/// The scope with the newly declared variable `name` in it.
pub open spec fn declare(scope: Scope, name: Seq<char>) -> Scope {
    scope.insert(name, unique_name(name, scope.len()))
}

/// The declaration under its unique name, and the scope behind it. The
/// variable is in scope in its own initializer.
pub open spec fn resolve_declaration_spec(d: DeclarationView, scope: Scope) -> Result<
    (DeclarationView, Scope),
    CompileErrorView,
> {
    if scope.contains_key(d.name) {
        Err(CompileErrorView::Redeclaration { name: d.name })
    } else {
        let inner = declare(scope, d.name);
        let name = inner[d.name];
        match d.init {
            None => Ok((DeclarationView { name, init: None }, inner)),
            Some(init) => match resolve_expression_spec(init, inner) {
                Err(e) => Err(e),
                Ok(init) => Ok((DeclarationView { name, init: Some(init) }, inner)),
            },
        }
    }
}

/// The resolved block item, and the scope behind it.
pub open spec fn resolve_block_item_spec(item: BlockItemView, scope: Scope) -> Result<
    (BlockItemView, Scope),
    CompileErrorView,
> {
    match item {
        BlockItemView::Declaration(d) => match resolve_declaration_spec(d, scope) {
            Err(e) => Err(e),
            Ok((d, scope)) => Ok((BlockItemView::Declaration(d), scope)),
        },
        BlockItemView::Statement(s) => match resolve_statement_spec(s, scope) {
            Err(e) => Err(e),
            Ok(s) => Ok((BlockItemView::Statement(s), scope)),
        },
    }
}

/// The resolved block items, each under the scope that the items before it
/// leave.
pub open spec fn resolve_body_spec(items: Seq<BlockItemView>, scope: Scope) -> Result<
    Seq<BlockItemView>,
    CompileErrorView,
>
    decreases items.len(),
{
    if items.len() == 0 {
        Ok(Seq::empty())
    } else {
        match resolve_block_item_spec(items[0], scope) {
            Err(e) => Err(e),
            Ok((item, scope)) => match resolve_body_spec(items.drop_first(), scope) {
                Err(e) => Err(e),
                Ok(rest) => Ok(seq![item] + rest),
            },
        }
    }
}

/// The resolved function; its scope starts empty.
pub open spec fn resolve_function_spec(f: FunctionDeclarationView) -> Result<
    FunctionDeclarationView,
    CompileErrorView,
> {
    match resolve_body_spec(f.body, Map::empty()) {
        Err(e) => Err(e),
        Ok(body) => Ok(FunctionDeclarationView { name: f.name, body }),
    }
}

/// The resolved program.
pub open spec fn resolve_program_spec(p: ProgramView) -> Result<ProgramView, CompileErrorView> {
    match resolve_function_spec(p.function) {
        Err(e) => Err(e),
        Ok(function) => Ok(ProgramView { function }),
    }
}

/// Whether the outcome `r` of an executable resolver is the outcome `expected`.
pub open spec fn resolved_as<T: View>(
    expected: Result<T::V, CompileErrorView>,
    r: Result<T, CompileError>,
) -> bool {
    match r {
        Ok(value) => expected == Ok::<T::V, CompileErrorView>(value@),
        Err(e) => expected == Err::<T::V, CompileErrorView>(e@),
    }
}

/// The scope that a symbol table stands for.
pub open spec fn scope_of(table: Map<Seq<char>, String>) -> Scope {
    table.map_values(|unique: String| unique@)
}

/// The symbol table of one function.
pub struct SymbolTable {
    names: StringHashMap<String>,
}

impl View for SymbolTable {
    type V = Scope;

    closed spec fn view(&self) -> Scope {
        scope_of(self.names@)
    }
}

impl SymbolTable {
    /// An empty table.
    pub fn new() -> (table: SymbolTable)
        ensures
            table@ == Map::<Seq<char>, Seq<char>>::empty(),
    {
        let table = SymbolTable { names: StringHashMap::new() };
        assert(scope_of(table.names@) =~= Map::<Seq<char>, Seq<char>>::empty());
        table
    }

    /// Whether `name` is declared.
    pub fn contains_key(&self, name: &str) -> (b: bool)
        ensures
            b == self@.contains_key(name@),
    {
        self.names.contains_key(name)
    }

    /// The unique name of the declared variable `name`.
    pub fn get(&self, name: &str) -> (unique: Option<String>)
        ensures
            unique is Some <==> self@.contains_key(name@),
            unique matches Some(u) ==> u@ == self@[name@],
    {
        match self.names.get(name) {
            Some(unique) => Some(unique.clone()),
            None => None,
        }
    }

    /// Declares `name` and gives its unique name. A name that was
    /// declared before is declared anew.
    pub fn declare(&mut self, name: &str) -> (unique: String)
        ensures
            final(self)@ == declare(old(self)@, name@),
            unique@ == final(self)@[name@],
    {
        let unique = make_temporary(name, self.names.len());
        let ghost before = self.names@;
        self.names.insert(name.to_owned(), unique.clone());
        proof {
            assert(scope_of(before).dom() =~= before.dom());
            assert(scope_of(self.names@) =~= scope_of(before).insert(name@, unique@));
        }
        unique
    }
}

/// Makes the unique name of the variable `name` that is declared as
/// number `index`: the name, `@` and the number. No identifier of the
/// source and no temporary of a later stage is written like that.
pub fn make_temporary(name: &str, index: usize) -> (unique: String)
    ensures
        unique@ == unique_name(name@, index as nat),
{
    let mut unique = name.to_owned();
    unique.push('@');
    push_decimal(&mut unique, index as u128);
    unique
}

/// Whether the expression is a variable, bare or in one pair of parentheses.
fn is_assignable(e: &Exp) -> (b: bool)
    ensures
        b == is_lvalue(e@),
{
    match e {
        Exp::Factor(factor) => {
            match factor {
                Factor::Var(_) => true,
                Factor::Parenthesized(inner) => {
                    proof {
                        assert(e@ == ExpView::Factor(factor@));
                        assert(factor@ == FactorView::Parenthesized(Box::new(inner@)));
                    }
                    match &**inner {
                        Exp::Factor(wrapped) => {
                            proof {
                                assert(inner@ == ExpView::Factor(wrapped@));
                            }
                            match wrapped {
                                Factor::Var(_) => true,
                                _ => false,
                            }
                        },
                        _ => false,
                    }
                },
                _ => false,
            }
        },
        _ => false,
    }
}

/// Resolves a factor under the names in `symbol_table`.
fn resolve_factor(factor: &Factor, symbol_table: &SymbolTable) -> (r: Result<Factor, CompileError>)
    ensures
        resolved_as(resolve_factor_spec(factor@, symbol_table@), r),
    decreases factor,
{
    match factor {
        Factor::Int(value) => Ok(Factor::Int(*value)),
        Factor::Unary(op, inner) => {
            match resolve_factor(inner, symbol_table) {
                Ok(resolved) => Ok(Factor::Unary(*op, Box::new(resolved))),
                Err(e) => Err(e),
            }
        },
        Factor::Var(name) => {
            match symbol_table.get(name.as_str()) {
                Some(unique) => Ok(Factor::Var(unique)),
                None => Err(CompileError::UndeclaredVariable { name: name.clone() }),
            }
        },
        Factor::Parenthesized(inner) => {
            match resolve_expression(inner, symbol_table) {
                Ok(resolved) => Ok(Factor::Parenthesized(Box::new(resolved))),
                Err(e) => Err(e),
            }
        },
    }
}

/// Resolves an expression under the names in `symbol_table`.
pub fn resolve_expression(exp: &Exp, symbol_table: &SymbolTable) -> (r: Result<Exp, CompileError>)
    ensures
        resolved_as(resolve_expression_spec(exp@, symbol_table@), r),
    decreases exp,
{
    match exp {
        Exp::Assignment(left, right) => {
            let resolved_left = match resolve_expression(left, symbol_table) {
                Ok(resolved) => resolved,
                Err(e) => {
                    return Err(e);
                },
            };
            let resolved_right = match resolve_expression(right, symbol_table) {
                Ok(resolved) => resolved,
                Err(e) => {
                    return Err(e);
                },
            };
            if !is_assignable(&resolved_left) {
                return Err(CompileError::InvalidAssignmentTarget);
            }
            Ok(Exp::Assignment(Box::new(resolved_left), Box::new(resolved_right)))
        },
        Exp::Binary(left, op, right) => {
            let resolved_left = match resolve_expression(left, symbol_table) {
                Ok(resolved) => resolved,
                Err(e) => {
                    return Err(e);
                },
            };
            let resolved_right = match resolve_expression(right, symbol_table) {
                Ok(resolved) => resolved,
                Err(e) => {
                    return Err(e);
                },
            };
            Ok(Exp::Binary(Box::new(resolved_left), *op, Box::new(resolved_right)))
        },
        Exp::Factor(factor) => {
            match resolve_factor(factor, symbol_table) {
                Ok(resolved) => Ok(Exp::Factor(resolved)),
                Err(e) => Err(e),
            }
        },
    }
}

/// Resolves a declaration and enters its variable in `symbol_table`.
pub fn resolve_declaration(
    name: &String,
    init: &Option<Exp>,
    symbol_table: &mut SymbolTable,
) -> (r: Result<Declaration, CompileError>)
    ensures
        match r {
            Ok(d) => resolve_declaration_spec(
                DeclarationView { name: name@, init: optional_exp_view(*init) },
                old(symbol_table)@,
            ) == Ok::<(DeclarationView, Scope), CompileErrorView>((d@, final(symbol_table)@)),
            Err(e) => resolve_declaration_spec(
                DeclarationView { name: name@, init: optional_exp_view(*init) },
                old(symbol_table)@,
            ) == Err::<(DeclarationView, Scope), CompileErrorView>(e@),
        },
{
    if symbol_table.contains_key(name.as_str()) {
        return Err(CompileError::Redeclaration { name: name.clone() });
    }
    let unique_id = symbol_table.declare(name.as_str());
    let resolved_init = match init {
        Some(init_exp) => {
            match resolve_expression(init_exp, symbol_table) {
                Ok(resolved) => Some(resolved),
                Err(e) => {
                    return Err(e);
                },
            }
        },
        None => None,
    };
    Ok(Declaration::Declaration(unique_id, resolved_init))
}

/// Resolves a statement under the names in `symbol_table`.
pub fn resolve_statement(statement: &Statement, symbol_table: &SymbolTable) -> (r: Result<
    Statement,
    CompileError,
>)
    ensures
        resolved_as(resolve_statement_spec(statement@, symbol_table@), r),
{
    match statement {
        Statement::Return(exp) => {
            match resolve_expression(exp, symbol_table) {
                Ok(resolved) => Ok(Statement::Return(resolved)),
                Err(e) => Err(e),
            }
        },
        Statement::ExpressionStatement(exp) => {
            match resolve_expression(exp, symbol_table) {
                Ok(resolved) => Ok(Statement::ExpressionStatement(resolved)),
                Err(e) => Err(e),
            }
        },
        Statement::Null => Ok(Statement::Null),
    }
}

/// Resolves a block item; a declaration enters its variable in `symbol_table`.
pub fn resolve_block_item(item: &BlockItem, symbol_table: &mut SymbolTable) -> (r: Result<
    BlockItem,
    CompileError,
>)
    ensures
        match r {
            Ok(resolved) => resolve_block_item_spec(item@, old(symbol_table)@) == Ok::<
                (BlockItemView, Scope),
                CompileErrorView,
            >((resolved@, final(symbol_table)@)),
            Err(e) => resolve_block_item_spec(item@, old(symbol_table)@) == Err::<
                (BlockItemView, Scope),
                CompileErrorView,
            >(e@),
        },
{
    match item {
        BlockItem::Declaration(Declaration::Declaration(name, init)) => {
            match resolve_declaration(name, init, symbol_table) {
                Ok(resolved) => Ok(BlockItem::Declaration(resolved)),
                Err(e) => Err(e),
            }
        },
        BlockItem::Statement(statement) => {
            match resolve_statement(statement, symbol_table) {
                Ok(resolved) => Ok(BlockItem::Statement(resolved)),
                Err(e) => Err(e),
            }
        },
    }
}

/// The items resolved so far, followed by those that the rest gives.
pub open spec fn prepend_resolved(
    found: Seq<BlockItemView>,
    rest: Result<Seq<BlockItemView>, CompileErrorView>,
) -> Result<Seq<BlockItemView>, CompileErrorView> {
    match rest {
        Ok(items) => Ok(found + items),
        Err(e) => Err(e),
    }
}

/// Resolves a function, with a symbol table of its own.
pub fn resolve_function_declaration(func_decl: FunctionDeclaration) -> (r: Result<
    FunctionDeclaration,
    CompileError,
>)
    ensures
        resolved_as(resolve_function_spec(func_decl@), r),
{
    let ghost whole = func_decl@;
    match func_decl {
        FunctionDeclaration::Function(name, block_items) => {
            let mut symbol_table = SymbolTable::new();
            let mut resolved_items: Vec<BlockItem> = Vec::new();
            let ghost all = block_item_views(block_items@);
            let mut i: usize = 0;
            proof {
                assert(all.subrange(0, all.len() as int) =~= all);
                assert(block_item_views(resolved_items@) =~= Seq::<BlockItemView>::empty());
                if let Ok(items) = resolve_body_spec(all, symbol_table@) {
                    assert(Seq::<BlockItemView>::empty() + items =~= items);
                }
            }
            while i < block_items.len()
                invariant
                    0 <= i <= block_items.len(),
                    all == block_item_views(block_items@),
                    whole == func_decl@,
                    whole == (FunctionDeclarationView { name: name@, body: all }),
                    resolve_body_spec(all, Map::empty()) == prepend_resolved(
                        block_item_views(resolved_items@),
                        resolve_body_spec(all.subrange(i as int, all.len() as int), symbol_table@),
                    ),
                decreases block_items.len() - i,
            {
                let ghost here = all.subrange(i as int, all.len() as int);
                let ghost found = block_item_views(resolved_items@);
                assert(here[0] == block_items@[i as int]@);
                assert(here.drop_first() =~= all.subrange(i + 1, all.len() as int));
                let resolved_item = match resolve_block_item(&block_items[i], &mut symbol_table) {
                    Ok(resolved) => resolved,
                    Err(e) => {
                        return Err(e);
                    },
                };
                proof {
                    assert(block_item_views(resolved_items@.push(resolved_item)) =~= found.push(
                        resolved_item@,
                    ));
                    if let Ok(items) = resolve_body_spec(here.drop_first(), symbol_table@) {
                        assert(found + (seq![resolved_item@] + items) =~= found.push(
                            resolved_item@,
                        ) + items);
                    }
                }
                resolved_items.push(resolved_item);
                i = i + 1;
            }
            proof {
                assert(block_item_views(resolved_items@) + Seq::<BlockItemView>::empty()
                    =~= block_item_views(resolved_items@));
            }
            Ok(FunctionDeclaration::Function(name, resolved_items))
        },
    }
}

/// Resolves a program: every variable gets the unique name of its
/// declaration. Fails on the first use of an undeclared variable, second
/// declaration of a name, or assignment to something that is no variable.
pub fn resolve_program(program: Program) -> (r: Result<Program, CompileError>)
    ensures
        resolved_as(resolve_program_spec(program@), r),
{
    match program {
        Program::Program(func_decl) => {
            match resolve_function_declaration(func_decl) {
                Ok(resolved) => Ok(Program::Program(resolved)),
                Err(e) => Err(e),
            }
        },
    }
}

/// Whether the factor mentions the variable `x`.
pub open spec fn factor_uses(f: FactorView, x: Seq<char>) -> bool
    decreases f,
{
    match f {
        FactorView::Int(_) => false,
        FactorView::Unary(_, inner) => factor_uses(*inner, x),
        FactorView::Var(name) => name == x,
        FactorView::Parenthesized(inner) => exp_uses(*inner, x),
    }
}

/// Whether the expression mentions the variable `x`.
pub open spec fn exp_uses(e: ExpView, x: Seq<char>) -> bool
    decreases e,
{
    match e {
        ExpView::Factor(f) => factor_uses(f, x),
        ExpView::Binary(left, _, right) => exp_uses(*left, x) || exp_uses(*right, x),
        ExpView::Assignment(left, right) => exp_uses(*left, x) || exp_uses(*right, x),
    }
}

/// Whether the block item mentions the variable `x` in an expression.
pub open spec fn item_uses(item: BlockItemView, x: Seq<char>) -> bool {
    match item {
        BlockItemView::Declaration(d) => d.init matches Some(init) && exp_uses(init, x),
        BlockItemView::Statement(StatementView::Return(e)) => exp_uses(e, x),
        BlockItemView::Statement(StatementView::ExpressionStatement(e)) => exp_uses(e, x),
        BlockItemView::Statement(StatementView::Null) => false,
    }
}

/// Whether the block item declares the variable `x`.
pub open spec fn item_declares(item: BlockItemView, x: Seq<char>) -> bool {
    item matches BlockItemView::Declaration(d) && d.name == x
}

/// Whether one of the first `upto` block items declares the variable `x`.
pub open spec fn declared_before(items: Seq<BlockItemView>, upto: int, x: Seq<char>) -> bool {
    exists|j: int| 0 <= j < upto && j < items.len() && item_declares(#[trigger] items[j], x)
}

/// Whether `x` is the unique name of a variable in scope.
pub open spec fn names(scope: Scope, x: Seq<char>) -> bool {
    exists|name: Seq<char>| #[trigger] scope.contains_key(name) && scope[name] == x
}

/// Every variable of a resolved factor is the unique name of a variable
/// in scope.
pub proof fn lemma_resolved_factor_in_scope(f: FactorView, scope: Scope, x: Seq<char>)
    requires
        resolve_factor_spec(f, scope) matches Ok(resolved) && factor_uses(resolved, x),
    ensures
        names(scope, x),
    decreases f,
{
    match f {
        FactorView::Int(_) => {},
        FactorView::Unary(_, inner) => {
            lemma_resolved_factor_in_scope(*inner, scope, x);
        },
        FactorView::Var(name) => {
            assert(scope.contains_key(name) && scope[name] == x);
        },
        FactorView::Parenthesized(inner) => {
            lemma_resolved_expression_in_scope(*inner, scope, x);
        },
    }
}

/// Every variable of a resolved expression is the unique name of a
/// variable in scope.
pub proof fn lemma_resolved_expression_in_scope(e: ExpView, scope: Scope, x: Seq<char>)
    requires
        resolve_expression_spec(e, scope) matches Ok(resolved) && exp_uses(resolved, x),
    ensures
        names(scope, x),
    decreases e,
{
    match e {
        ExpView::Factor(f) => {
            lemma_resolved_factor_in_scope(f, scope, x);
        },
        ExpView::Binary(left, _, right) => {
            if exp_uses(resolve_expression_spec(*left, scope)->Ok_0, x) {
                lemma_resolved_expression_in_scope(*left, scope, x);
            } else {
                lemma_resolved_expression_in_scope(*right, scope, x);
            }
        },
        ExpView::Assignment(left, right) => {
            if exp_uses(resolve_expression_spec(*left, scope)->Ok_0, x) {
                lemma_resolved_expression_in_scope(*left, scope, x);
            } else {
                lemma_resolved_expression_in_scope(*right, scope, x);
            }
        },
    }
}

/// A variable that a resolved block item mentions was in scope before the
/// item, or the item declares it.
pub proof fn lemma_resolved_item_in_scope(item: BlockItemView, scope: Scope, x: Seq<char>)
    requires
        resolve_block_item_spec(item, scope) matches Ok((resolved, _)) && item_uses(resolved, x),
    ensures
        names(scope, x) || item_declares(resolve_block_item_spec(item, scope)->Ok_0.0, x),
{
    match item {
        BlockItemView::Declaration(d) => {
            let inner = declare(scope, d.name);
            lemma_resolved_expression_in_scope(d.init->Some_0, inner, x);
            let name = choose|name: Seq<char>| #[trigger]
                inner.contains_key(name) && inner[name] == x;
            if name != d.name {
                assert(scope.contains_key(name) && scope[name] == x);
            }
        },
        BlockItemView::Statement(StatementView::Return(e)) => {
            lemma_resolved_expression_in_scope(e, scope, x);
        },
        BlockItemView::Statement(StatementView::ExpressionStatement(e)) => {
            lemma_resolved_expression_in_scope(e, scope, x);
        },
        BlockItemView::Statement(StatementView::Null) => {},
    }
}

/// The unique names in scope behind a resolved block item are those in
/// scope before it and the one it declares.
pub proof fn lemma_scope_behind_item(item: BlockItemView, scope: Scope, x: Seq<char>)
    requires
        resolve_block_item_spec(item, scope) matches Ok((_, behind)) && names(behind, x),
    ensures
        names(scope, x) || item_declares(resolve_block_item_spec(item, scope)->Ok_0.0, x),
{
    let behind = resolve_block_item_spec(item, scope)->Ok_0.1;
    let name = choose|name: Seq<char>| #[trigger] behind.contains_key(name) && behind[name] == x;
    match item {
        BlockItemView::Declaration(d) => {
            if name != d.name {
                assert(scope.contains_key(name) && scope[name] == x);
            }
        },
        BlockItemView::Statement(_) => {
            assert(scope.contains_key(name) && scope[name] == x);
        },
    }
}

/// A variable that block item `i` of a resolved body mentions was in
/// scope before the body, or one of the items up to `i` declares it.
pub proof fn lemma_resolved_body_in_scope(
    items: Seq<BlockItemView>,
    scope: Scope,
    i: int,
    x: Seq<char>,
)
    requires
        resolve_body_spec(items, scope) matches Ok(resolved) && 0 <= i < resolved.len()
            && item_uses(resolved[i], x),
    ensures
        names(scope, x) || declared_before(resolve_body_spec(items, scope)->Ok_0, i + 1, x),
    decreases items.len(),
{
    let resolved = resolve_body_spec(items, scope)->Ok_0;
    let first = resolve_block_item_spec(items[0], scope)->Ok_0.0;
    let behind = resolve_block_item_spec(items[0], scope)->Ok_0.1;
    let rest = resolve_body_spec(items.drop_first(), behind)->Ok_0;
    assert(resolved == seq![first] + rest);
    assert(resolved[0] == first);
    if i == 0 {
        lemma_resolved_item_in_scope(items[0], scope, x);
    } else {
        assert(resolved[i] == rest[i - 1]);
        lemma_resolved_body_in_scope(items.drop_first(), behind, i - 1, x);
        if names(behind, x) {
            lemma_scope_behind_item(items[0], scope, x);
        } else {
            let j = choose|j: int| 0 <= j < i && j < rest.len() && item_declares(#[trigger] rest[j], x);
            assert(resolved[j + 1] == rest[j]);
        }
    }
}

/// In a resolved program every variable that a block item mentions is
/// declared, by that item or an earlier one.
pub proof fn lemma_resolved_uses_are_declared(p: ProgramView, i: int, x: Seq<char>)
    requires
        resolve_program_spec(p) matches Ok(resolved) && 0 <= i < resolved.function.body.len()
            && item_uses(resolved.function.body[i], x),
    ensures
        declared_before(resolve_program_spec(p)->Ok_0.function.body, i + 1, x),
{
    lemma_resolved_body_in_scope(p.function.body, Map::empty(), i, x);
}

/// Whether the factor is plain and every assignment in it has a variable
/// as its target.
pub open spec fn factor_is_sound(f: FactorView) -> bool
    decreases f,
{
    match f {
        FactorView::Int(_) => true,
        FactorView::Unary(_, inner) => factor_is_sound(*inner),
        FactorView::Var(_) => true,
        FactorView::Parenthesized(inner) => exp_is_sound(*inner),
    }
}

/// Whether the expression is plain and every assignment in it has a
/// variable as its target.
pub open spec fn exp_is_sound(e: ExpView) -> bool
    decreases e,
{
    match e {
        ExpView::Factor(f) => factor_is_sound(f),
        ExpView::Binary(left, op, right) => op != BinaryOp::Assignment && exp_is_sound(*left)
            && exp_is_sound(*right),
        ExpView::Assignment(left, right) => is_lvalue(*left) && exp_is_sound(*left)
            && exp_is_sound(*right),
    }
}

/// Whether every expression of the block item is sound.
pub open spec fn item_is_sound(item: BlockItemView) -> bool {
    match item {
        BlockItemView::Declaration(d) => d.init matches Some(init) ==> exp_is_sound(init),
        BlockItemView::Statement(StatementView::Return(e)) => exp_is_sound(e),
        BlockItemView::Statement(StatementView::ExpressionStatement(e)) => exp_is_sound(e),
        BlockItemView::Statement(StatementView::Null) => true,
    }
}

/// Whether every expression of the body is sound.
pub open spec fn body_is_sound(items: Seq<BlockItemView>) -> bool {
    forall|i: int| 0 <= i < items.len() ==> item_is_sound(#[trigger] items[i])
}

/// A plain factor that resolves is sound afterwards.
pub proof fn lemma_resolved_factor_is_sound(f: FactorView, scope: Scope)
    requires
        factor_is_plain(f),
    ensures
        resolve_factor_spec(f, scope) matches Ok(resolved) ==> factor_is_sound(resolved),
    decreases f,
{
    match f {
        FactorView::Unary(_, inner) => {
            lemma_resolved_factor_is_sound(*inner, scope);
        },
        FactorView::Parenthesized(inner) => {
            lemma_resolved_expression_is_sound(*inner, scope);
        },
        _ => {},
    }
}

/// A plain expression that resolves is sound afterwards: the resolver
/// lets no assignment through whose target is not a variable.
pub proof fn lemma_resolved_expression_is_sound(e: ExpView, scope: Scope)
    requires
        exp_is_plain(e),
    ensures
        resolve_expression_spec(e, scope) matches Ok(resolved) ==> exp_is_sound(resolved),
    decreases e,
{
    match e {
        ExpView::Factor(f) => {
            lemma_resolved_factor_is_sound(f, scope);
        },
        ExpView::Binary(left, _, right) => {
            lemma_resolved_expression_is_sound(*left, scope);
            lemma_resolved_expression_is_sound(*right, scope);
        },
        ExpView::Assignment(left, right) => {
            lemma_resolved_expression_is_sound(*left, scope);
            lemma_resolved_expression_is_sound(*right, scope);
        },
    }
}

/// A plain block item that resolves is sound afterwards.
pub proof fn lemma_resolved_item_is_sound(item: BlockItemView, scope: Scope)
    requires
        item_is_plain(item),
    ensures
        resolve_block_item_spec(item, scope) matches Ok((resolved, _)) ==> item_is_sound(resolved),
{
    match item {
        BlockItemView::Declaration(d) => {
            if let Some(init) = d.init {
                lemma_resolved_expression_is_sound(init, declare(scope, d.name));
            }
        },
        BlockItemView::Statement(StatementView::Return(e)) => {
            lemma_resolved_expression_is_sound(e, scope);
        },
        BlockItemView::Statement(StatementView::ExpressionStatement(e)) => {
            lemma_resolved_expression_is_sound(e, scope);
        },
        BlockItemView::Statement(StatementView::Null) => {},
    }
}

/// A plain body that resolves is sound afterwards.
pub proof fn lemma_resolved_body_is_sound(items: Seq<BlockItemView>, scope: Scope)
    requires
        body_is_plain(items),
    ensures
        resolve_body_spec(items, scope) matches Ok(resolved) ==> body_is_sound(resolved),
    decreases items.len(),
{
    if items.len() > 0 {
        lemma_resolved_item_is_sound(items[0], scope);
        if let Ok((first, behind)) = resolve_block_item_spec(items[0], scope) {
            let later = items.drop_first();
            assert forall|i: int| 0 <= i < later.len() implies item_is_plain(#[trigger] later[i]) by {
                assert(later[i] == items[i + 1]);
            }
            lemma_resolved_body_is_sound(later, behind);
            if let Ok(rest) = resolve_body_spec(later, behind) {
                let all = seq![first] + rest;
                assert forall|i: int| 0 <= i < all.len() implies item_is_sound(
                    #[trigger] all[i],
                ) by {
                    if i > 0 {
                        assert(all[i] == rest[i - 1]);
                    }
                }
            }
        }
    }
}

/// Whether the error is one that the resolver reports.
pub open spec fn is_resolver_error(e: CompileErrorView) -> bool {
    e is UndeclaredVariable || e is Redeclaration || e is InvalidAssignmentTarget
}

/// A factor fails to resolve only on an undeclared variable or an
/// assignment to something that is no variable.
pub proof fn lemma_factor_errors(f: FactorView, scope: Scope)
    ensures
        resolve_factor_spec(f, scope) matches Err(e) ==> e is UndeclaredVariable
            || e is InvalidAssignmentTarget,
    decreases f,
{
    match f {
        FactorView::Unary(_, inner) => {
            lemma_factor_errors(*inner, scope);
        },
        FactorView::Parenthesized(inner) => {
            lemma_expression_errors(*inner, scope);
        },
        _ => {},
    }
}

/// An expression fails to resolve only on an undeclared variable or an
/// assignment to something that is no variable.
pub proof fn lemma_expression_errors(e: ExpView, scope: Scope)
    ensures
        resolve_expression_spec(e, scope) matches Err(e) ==> e is UndeclaredVariable
            || e is InvalidAssignmentTarget,
    decreases e,
{
    match e {
        ExpView::Factor(f) => {
            lemma_factor_errors(f, scope);
        },
        ExpView::Binary(left, _, right) => {
            lemma_expression_errors(*left, scope);
            lemma_expression_errors(*right, scope);
        },
        ExpView::Assignment(left, right) => {
            lemma_expression_errors(*left, scope);
            lemma_expression_errors(*right, scope);
        },
    }
}

/// A body fails to resolve only on an undeclared variable, a second
/// declaration, or an assignment to something that is no variable.
pub proof fn lemma_body_errors(items: Seq<BlockItemView>, scope: Scope)
    ensures
        resolve_body_spec(items, scope) matches Err(e) ==> is_resolver_error(e),
    decreases items.len(),
{
    if items.len() > 0 {
        match items[0] {
            BlockItemView::Declaration(d) => {
                if let Some(init) = d.init {
                    lemma_expression_errors(init, declare(scope, d.name));
                }
            },
            BlockItemView::Statement(StatementView::Return(e)) => {
                lemma_expression_errors(e, scope);
            },
            BlockItemView::Statement(StatementView::ExpressionStatement(e)) => {
                lemma_expression_errors(e, scope);
            },
            BlockItemView::Statement(StatementView::Null) => {},
        }
        if let Ok((_, behind)) = resolve_block_item_spec(items[0], scope) {
            lemma_body_errors(items.drop_first(), behind);
        }
    }
}

/// The resolver fails only on an undeclared variable, a second
/// declaration, or an assignment to something that is no variable.
pub proof fn lemma_resolver_errors(p: ProgramView)
    ensures
        resolve_program_spec(p) matches Err(e) ==> is_resolver_error(e),
{
    lemma_body_errors(p.function.body, Map::empty());
}

/// Unique names with different numbers are different, whatever the
/// variables are called.
pub proof fn lemma_unique_names_differ(a: Seq<char>, i: nat, b: Seq<char>, j: nat)
    requires
        i != j,
    ensures
        unique_name(a, i) != unique_name(b, j),
{
    let x = unique_name(a, i);
    let y = unique_name(b, j);
    let di = decimal(i);
    let dj = decimal(j);
    lemma_decimal_round_trip(i);
    lemma_decimal_round_trip(j);
    if x == y {
        assert(x.len() == a.len() + 1 + di.len());
        assert(y.len() == b.len() + 1 + dj.len());
        if di.len() < dj.len() {
            let at = a.len() as int;
            assert(x[at] == '@');
            assert(y[at] == dj[at - b.len() - 1]);
            assert(is_digit(dj[at - b.len() - 1]));
        } else if dj.len() < di.len() {
            let at = b.len() as int;
            assert(y[at] == '@');
            assert(x[at] == di[at - a.len() - 1]);
            assert(is_digit(di[at - a.len() - 1]));
        } else {
            assert forall|k: int| 0 <= k < di.len() implies di[k] == dj[k] by {
                assert(x[a.len() + 1 + k] == di[k]);
                assert(y[b.len() + 1 + k] == dj[k]);
            }
            assert(di =~= dj);
            lemma_decimal_injective(i, j);
        }
    }
}

/// The number of declarations among the first `m` block items.
pub open spec fn declarations_before(items: Seq<BlockItemView>, m: int) -> nat
    decreases items.len(),
{
    if m <= 0 || items.len() == 0 {
        0
    } else {
        (if items[0] is Declaration {
            1nat
        } else {
            0nat
        }) + declarations_before(items.drop_first(), m - 1)
    }
}

/// A body keeps its shape when it is resolved: as many block items, a
/// declaration where there was one, and the variable of the declaration
/// number `k` of the function renamed to its name with the number `k`.
pub proof fn lemma_declared_names(items: Seq<BlockItemView>, scope: Scope, m: int)
    requires
        scope.dom().finite(),
        resolve_body_spec(items, scope) is Ok,
        0 <= m < items.len(),
    ensures
        ({
            let resolved = resolve_body_spec(items, scope)->Ok_0;
            &&& resolved.len() == items.len()
            &&& resolved[m] is Declaration <==> items[m] is Declaration
            &&& items[m] matches BlockItemView::Declaration(d) ==> resolved[m]->Declaration_0.name
                == unique_name(d.name, scope.len() + declarations_before(items, m))
        }),
    decreases items.len(),
{
    let resolved = resolve_body_spec(items, scope)->Ok_0;
    let first = resolve_block_item_spec(items[0], scope)->Ok_0.0;
    let behind = resolve_block_item_spec(items[0], scope)->Ok_0.1;
    let later = items.drop_first();
    let rest = resolve_body_spec(later, behind)->Ok_0;
    assert(resolved == seq![first] + rest);
    assert(resolved[0] == first);
    assert(behind.dom().finite() && behind.len() == scope.len() + declarations_before(items, 1)) by {
        if let BlockItemView::Declaration(d) = items[0] {
            assert(behind.dom() =~= scope.dom().insert(d.name));
        }
        assert(declarations_before(later, 0) == 0);
    }
    lemma_resolved_len(later, behind);
    if m > 0 {
        assert(resolved[m] == rest[m - 1]);
        assert(later[m - 1] == items[m]);
        lemma_declared_names(later, behind, m - 1);
        assert(declarations_before(items, m) == declarations_before(items, 1)
            + declarations_before(later, m - 1));
    }
}

/// Resolution keeps the number of block items.
pub proof fn lemma_resolved_len(items: Seq<BlockItemView>, scope: Scope)
    requires
        resolve_body_spec(items, scope) is Ok,
    ensures
        resolve_body_spec(items, scope)->Ok_0.len() == items.len(),
    decreases items.len(),
{
    if items.len() > 0 {
        let behind = resolve_block_item_spec(items[0], scope)->Ok_0.1;
        lemma_resolved_len(items.drop_first(), behind);
    }
}

/// The count of declarations grows with every declaration.
pub proof fn lemma_declarations_before_grows(items: Seq<BlockItemView>, a: int, b: int)
    requires
        0 <= a < b <= items.len(),
        items[a] is Declaration,
    ensures
        declarations_before(items, a) < declarations_before(items, b),
    decreases items.len(),
{
    let later = items.drop_first();
    if a == 0 {
        assert(declarations_before(items, 0) == 0);
    } else {
        assert(later[a - 1] == items[a]);
        lemma_declarations_before_grows(later, a - 1, b - 1);
    }
}

/// In a resolved program no two declarations declare the same name:
/// every variable has a name of its own.
pub proof fn lemma_declarations_are_distinct(p: ProgramView, a: int, b: int)
    requires
        resolve_program_spec(p) matches Ok(resolved) && 0 <= a < b < resolved.function.body.len()
            && resolved.function.body[a] is Declaration && resolved.function.body[b]
            is Declaration,
    ensures
        ({
            let body = resolve_program_spec(p)->Ok_0.function.body;
            body[a]->Declaration_0.name != body[b]->Declaration_0.name
        }),
{
    let items = p.function.body;
    let scope = Map::<Seq<char>, Seq<char>>::empty();
    lemma_resolved_len(items, scope);
    lemma_declared_names(items, scope, a);
    lemma_declared_names(items, scope, b);
    lemma_declarations_before_grows(items, a, b);
    lemma_unique_names_differ(
        items[a]->Declaration_0.name,
        scope.len() + declarations_before(items, a),
        items[b]->Declaration_0.name,
        scope.len() + declarations_before(items, b),
    );
}

} // verus!
