use c_compiler::error::CompileError;
use c_compiler::lex::{strip_comments, Lex, Token};
use c_compiler::parser::{
    parse_and_resolve_program, parse_program, BinaryOp, BlockItem, Declaration, Exp, Factor,
    FunctionDeclaration, Program, Statement, UnaryOp,
};
use c_compiler::resolver::{
    make_temporary, resolve_block_item, resolve_declaration, resolve_expression,
    resolve_function_declaration, resolve_program, resolve_statement, SymbolTable,
};

fn tokens_of(text: &str) -> Vec<Token> {
    strip_comments(Lex::new(text).get_tokens().unwrap())
}

fn num(k: i32) -> Exp {
    Exp::Factor(Factor::Int(k))
}

fn var(name: &str) -> Exp {
    Exp::Factor(Factor::Var(name.to_string()))
}

fn bin(l: Exp, op: BinaryOp, r: Exp) -> Exp {
    Exp::Binary(Box::new(l), op, Box::new(r))
}

fn assign(l: Exp, r: Exp) -> Exp {
    Exp::Assignment(Box::new(l), Box::new(r))
}

fn paren(e: Exp) -> Exp {
    Exp::Factor(Factor::Parenthesized(Box::new(e)))
}

fn declare(name: &str, init: Option<Exp>) -> BlockItem {
    BlockItem::Declaration(Declaration::Declaration(name.to_string(), init))
}

fn main_with(items: Vec<BlockItem>) -> Program {
    Program::Program(FunctionDeclaration::Function("main".to_string(), items))
}

fn resolved(text: &str) -> Result<Program, CompileError> {
    parse_and_resolve_program(&mut tokens_of(text))
}

fn table_with(names: &[&str]) -> SymbolTable {
    let mut table = SymbolTable::new();
    for name in names {
        table.declare(name);
    }
    table
}

fn factor_names(f: &Factor, out: &mut Vec<String>) {
    match f {
        Factor::Int(_) => {}
        Factor::Unary(_, inner) => factor_names(inner, out),
        Factor::Var(name) => out.push(name.clone()),
        Factor::Parenthesized(inner) => exp_names(inner, out),
    }
}

fn exp_names(e: &Exp, out: &mut Vec<String>) {
    match e {
        Exp::Factor(f) => factor_names(f, out),
        Exp::Binary(l, _, r) => {
            exp_names(l, out);
            exp_names(r, out);
        }
        Exp::Assignment(l, r) => {
            exp_names(l, out);
            exp_names(r, out);
        }
    }
}

#[test]
fn unique_name_is_name_at_number() {
    assert_eq!(make_temporary("a", 0), "a@0");
    assert_eq!(make_temporary("count", 12), "count@12");
    assert_eq!(make_temporary("x", 4294967295), "x@4294967295");
}

#[test]
fn declarations_are_numbered_in_order() {
    let mut table = SymbolTable::new();
    assert_eq!(table.declare("a"), "a@0");
    assert_eq!(table.declare("b"), "b@1");
    assert_eq!(table.declare("c"), "c@2");
    assert!(table.contains_key("b"));
    assert!(!table.contains_key("d"));
    assert_eq!(table.get("c"), Some("c@2".to_string()));
    assert_eq!(table.get("d"), None);
}

#[test]
fn variables_are_renamed_to_their_declarations() {
    assert_eq!(
        resolved("int main(void){ int a = 3; int b = 4; return a * b + 1; }"),
        Ok(main_with(vec![
            declare("a@0", Some(num(3))),
            declare("b@1", Some(num(4))),
            BlockItem::Statement(Statement::Return(bin(
                bin(var("a@0"), BinaryOp::Multiply, var("b@1")),
                BinaryOp::Add,
                num(1)
            ))),
        ]))
    );
}

#[test]
fn second_declaration_of_a_name_is_a_redeclaration() {
    assert_eq!(
        resolved("int main(void){ int a; int a; return a; }"),
        Err(CompileError::Redeclaration { name: "a".to_string() })
    );
}

#[test]
fn use_without_declaration_is_undeclared() {
    assert_eq!(
        resolved("int main(void){ return b; }"),
        Err(CompileError::UndeclaredVariable { name: "b".to_string() })
    );
}

#[test]
fn use_before_declaration_is_undeclared() {
    assert_eq!(
        resolved("int main(void){ a = 1; int a; return a; }"),
        Err(CompileError::UndeclaredVariable { name: "a".to_string() })
    );
}

#[test]
fn assignment_to_a_constant_is_an_invalid_target() {
    assert_eq!(
        resolved("int main(void){ 1 = 2; return 0; }"),
        Err(CompileError::InvalidAssignmentTarget)
    );
}

#[test]
fn assignment_to_an_expression_is_an_invalid_target() {
    assert_eq!(
        resolved("int main(void){ int a; int b; (a + b) = 2; return 0; }"),
        Err(CompileError::InvalidAssignmentTarget)
    );
    assert_eq!(
        resolved("int main(void){ int a; -a = 2; return 0; }"),
        Err(CompileError::InvalidAssignmentTarget)
    );
}

#[test]
fn assignment_to_a_variable_in_one_pair_of_parentheses_is_valid() {
    assert_eq!(
        resolved("int main(void){ int a; (a) = 2; return a; }"),
        Ok(main_with(vec![
            declare("a@0", None),
            BlockItem::Statement(Statement::ExpressionStatement(assign(
                paren(var("a@0")),
                num(2)
            ))),
            BlockItem::Statement(Statement::Return(var("a@0"))),
        ]))
    );
}

#[test]
fn assignment_to_a_variable_in_two_pairs_of_parentheses_is_invalid() {
    assert_eq!(
        resolved("int main(void){ int a; ((a)) = 2; return a; }"),
        Err(CompileError::InvalidAssignmentTarget)
    );
}

#[test]
fn an_undeclared_variable_on_the_right_is_found_before_the_bad_target() {
    assert_eq!(
        resolved("int main(void){ 1 = b; return 0; }"),
        Err(CompileError::UndeclaredVariable { name: "b".to_string() })
    );
}

#[test]
fn the_left_operand_is_resolved_first() {
    let table = SymbolTable::new();
    assert_eq!(
        resolve_expression(&bin(var("x"), BinaryOp::Add, var("y")), &table),
        Err(CompileError::UndeclaredVariable { name: "x".to_string() })
    );
    assert_eq!(
        resolve_expression(&assign(var("x"), var("y")), &table),
        Err(CompileError::UndeclaredVariable { name: "x".to_string() })
    );
}

#[test]
fn a_variable_is_in_scope_in_its_own_initializer() {
    assert_eq!(
        resolved("int main(void){ int a = a; return a; }"),
        Ok(main_with(vec![
            declare("a@0", Some(var("a@0"))),
            BlockItem::Statement(Statement::Return(var("a@0"))),
        ]))
    );
}

#[test]
fn expressions_keep_their_shape() {
    let table = table_with(&["a", "b"]);
    let e = bin(
        Exp::Factor(Factor::Unary(UnaryOp::LogicalNot, Box::new(Factor::Var("a".to_string())))),
        BinaryOp::LogicalAnd,
        paren(assign(var("b"), num(7))),
    );
    assert_eq!(
        resolve_expression(&e, &table),
        Ok(bin(
            Exp::Factor(Factor::Unary(
                UnaryOp::LogicalNot,
                Box::new(Factor::Var("a@0".to_string()))
            )),
            BinaryOp::LogicalAnd,
            paren(assign(var("b@1"), num(7))),
        ))
    );
}

#[test]
fn statements_resolve_their_expression() {
    let table = table_with(&["a"]);
    assert_eq!(
        resolve_statement(&Statement::Return(var("a")), &table),
        Ok(Statement::Return(var("a@0")))
    );
    assert_eq!(
        resolve_statement(&Statement::ExpressionStatement(var("a")), &table),
        Ok(Statement::ExpressionStatement(var("a@0")))
    );
    assert_eq!(resolve_statement(&Statement::Null, &table), Ok(Statement::Null));
    assert_eq!(
        resolve_statement(&Statement::Return(var("z")), &table),
        Err(CompileError::UndeclaredVariable { name: "z".to_string() })
    );
}

#[test]
fn a_declaration_enters_the_table() {
    let mut table = table_with(&["a"]);
    assert_eq!(
        resolve_declaration(&"b".to_string(), &Some(var("a")), &mut table),
        Ok(Declaration::Declaration("b@1".to_string(), Some(var("a@0"))))
    );
    assert!(table.contains_key("b"));
    assert_eq!(
        resolve_declaration(&"b".to_string(), &None, &mut table),
        Err(CompileError::Redeclaration { name: "b".to_string() })
    );
}

#[test]
fn a_block_item_is_a_declaration_or_a_statement() {
    let mut table = SymbolTable::new();
    assert_eq!(resolve_block_item(&declare("a", None), &mut table), Ok(declare("a@0", None)));
    assert_eq!(
        resolve_block_item(&BlockItem::Statement(Statement::Return(var("a"))), &mut table),
        Ok(BlockItem::Statement(Statement::Return(var("a@0"))))
    );
}

#[test]
fn every_function_starts_with_an_empty_table() {
    let f = FunctionDeclaration::Function("main".to_string(), vec![declare("a", None)]);
    let g = FunctionDeclaration::Function("main".to_string(), vec![declare("a", None)]);
    assert_eq!(
        resolve_function_declaration(f),
        Ok(FunctionDeclaration::Function("main".to_string(), vec![declare("a@0", None)]))
    );
    assert_eq!(
        resolve_function_declaration(g),
        Ok(FunctionDeclaration::Function("main".to_string(), vec![declare("a@0", None)]))
    );
}

#[test]
fn resolve_program_is_parse_and_resolve_without_the_parse() {
    let text = "int main(void){ int x = 5; x = x + 10; return x; }";
    let parsed = parse_program(&mut tokens_of(text)).unwrap();
    assert_eq!(resolve_program(parsed), resolved(text));
}

#[test]
fn a_parse_error_comes_before_a_resolve_error() {
    assert!(matches!(
        resolved("int main(void){ return b }"),
        Err(CompileError::UnexpectedToken { .. })
    ));
}

#[test]
fn every_variable_of_a_resolved_program_is_declared_in_it() {
    let program = resolved(
        "int main(void){ int a = 1; int b = a + 2; int c; c = (a = b) * -b; return !c || a; }",
    )
    .unwrap();
    let Program::Program(FunctionDeclaration::Function(_, items)) = program;
    let mut declared: Vec<String> = Vec::new();
    for item in &items {
        let mut used: Vec<String> = Vec::new();
        match item {
            BlockItem::Declaration(Declaration::Declaration(name, init)) => {
                declared.push(name.clone());
                if let Some(e) = init {
                    exp_names(e, &mut used);
                }
            }
            BlockItem::Statement(Statement::Return(e)) => exp_names(e, &mut used),
            BlockItem::Statement(Statement::ExpressionStatement(e)) => exp_names(e, &mut used),
            BlockItem::Statement(Statement::Null) => {}
        }
        for name in used {
            assert!(declared.contains(&name), "{} is used but not declared", name);
        }
    }
    assert_eq!(declared, vec!["a@0", "b@1", "c@2"]);
}

#[test]
fn declared_names_are_pairwise_different() {
    let program = resolved("int main(void){ int a; int a1; int b; int ab; return 0; }").unwrap();
    let Program::Program(FunctionDeclaration::Function(_, items)) = program;
    let mut names: Vec<String> = Vec::new();
    for item in items {
        if let BlockItem::Declaration(Declaration::Declaration(name, _)) = item {
            assert!(!names.contains(&name));
            assert!(!name.starts_with("tmp."));
            names.push(name);
        }
    }
    assert_eq!(names, vec!["a@0", "a1@1", "b@2", "ab@3"]);
}
