use c_compiler::error::{CompileError, Expected};
use c_compiler::lex::{strip_comments, Lex, Token, TokenType};
use c_compiler::parser::{
    get_associativity, get_operator_precedence, parse_declaration, parse_expression, parse_factor,
    parse_program, parse_statement, Associativity, BinaryOp, BlockItem, Declaration, Exp, Factor,
    FunctionDeclaration, Program, Statement, UnaryOp,
};

fn tokens_of(text: &str) -> Vec<Token> {
    strip_comments(Lex::new(text).get_tokens().unwrap())
}

fn tok(token_type: TokenType, value: &str) -> Token {
    Token { token_type, value: value.to_string() }
}

fn num(k: i32) -> Exp {
    Exp::Factor(Factor::Int(k))
}

fn var(name: &str) -> Exp {
    Exp::Factor(Factor::Var(name.to_string()))
}

fn bin(l: Exp, op: BinaryOp, r: Exp) -> Exp {
    Exp::Binary(Box::new(l), op, Box::new(r))
}

fn assign(l: Exp, r: Exp) -> Exp {
    Exp::Assignment(Box::new(l), Box::new(r))
}

fn paren(e: Exp) -> Exp {
    Exp::Factor(Factor::Parenthesized(Box::new(e)))
}

fn exp(text: &str) -> Exp {
    let mut tokens = tokens_of(text);
    let e = parse_expression(&mut tokens, 0).unwrap();
    assert!(tokens.is_empty(), "tokens left: {:?}", tokens);
    e
}

fn program(text: &str) -> Result<Program, CompileError> {
    parse_program(&mut tokens_of(text))
}

fn main_with(items: Vec<BlockItem>) -> Program {
    Program::Program(FunctionDeclaration::Function("main".to_string(), items))
}

#[test]
fn parses_the_smallest_program() {
    assert_eq!(
        program("int main(void){ return 2; }"),
        Ok(main_with(vec![BlockItem::Statement(Statement::Return(num(2)))]))
    );
}

#[test]
fn parses_an_empty_body() {
    assert_eq!(program("int main(void){}"), Ok(main_with(vec![])));
}

#[test]
fn multiplication_binds_tighter_than_addition() {
    assert_eq!(
        exp("1 + 2 * 3"),
        bin(num(1), BinaryOp::Add, bin(num(2), BinaryOp::Multiply, num(3)))
    );
    assert_eq!(
        exp("1 * 2 + 3"),
        bin(bin(num(1), BinaryOp::Multiply, num(2)), BinaryOp::Add, num(3))
    );
}

#[test]
fn binary_operators_group_to_the_left() {
    assert_eq!(
        exp("10 - 3 - 2"),
        bin(bin(num(10), BinaryOp::Subtract, num(3)), BinaryOp::Subtract, num(2))
    );
    assert_eq!(
        exp("8 / 4 / 2"),
        bin(bin(num(8), BinaryOp::Divide, num(4)), BinaryOp::Divide, num(2))
    );
}

#[test]
fn assignment_groups_to_the_right() {
    assert_eq!(exp("a = b = 3"), assign(var("a"), assign(var("b"), num(3))));
}

#[test]
fn assignment_binds_loosest() {
    assert_eq!(
        exp("a = 1 || 2"),
        assign(var("a"), bin(num(1), BinaryOp::LogicalOr, num(2)))
    );
}

#[test]
fn shifts_bind_like_addition() {
    assert_eq!(
        exp("1 + 2 << 3"),
        bin(bin(num(1), BinaryOp::Add, num(2)), BinaryOp::LeftShift, num(3))
    );
    assert_eq!(
        exp("1 << 2 + 3"),
        bin(bin(num(1), BinaryOp::LeftShift, num(2)), BinaryOp::Add, num(3))
    );
}

#[test]
fn the_precedence_ladder_from_bitwise_to_logical() {
    assert_eq!(
        exp("1 || 2 && 3 == 4 < 5 | 6 ^ 7 & 8 + 9"),
        bin(
            num(1),
            BinaryOp::LogicalOr,
            bin(
                num(2),
                BinaryOp::LogicalAnd,
                bin(
                    num(3),
                    BinaryOp::Equal,
                    bin(
                        num(4),
                        BinaryOp::LessThan,
                        bin(
                            num(5),
                            BinaryOp::BitwiseOr,
                            bin(
                                num(6),
                                BinaryOp::BitwiseXor,
                                bin(num(7), BinaryOp::BitwiseAnd, bin(num(8), BinaryOp::Add, num(9)))
                            )
                        )
                    )
                )
            )
        )
    );
}

#[test]
fn parentheses_override_precedence() {
    assert_eq!(
        exp("(1 + 2) * 3"),
        bin(paren(bin(num(1), BinaryOp::Add, num(2))), BinaryOp::Multiply, num(3))
    );
}

#[test]
fn unary_operators_nest() {
    let mut tokens = tokens_of("-~!5");
    assert_eq!(
        parse_factor(&mut tokens),
        Ok(Factor::Unary(
            UnaryOp::Negation,
            Box::new(Factor::Unary(
                UnaryOp::BitwiseComplement,
                Box::new(Factor::Unary(UnaryOp::LogicalNot, Box::new(Factor::Int(5))))
            ))
        ))
    );
    assert!(tokens.is_empty());
}

#[test]
fn unary_minus_binds_tighter_than_binary_minus() {
    assert_eq!(
        exp("- 1 - 2"),
        bin(
            Exp::Factor(Factor::Unary(UnaryOp::Negation, Box::new(Factor::Int(1)))),
            BinaryOp::Subtract,
            num(2)
        )
    );
}

#[test]
fn every_comparison_operator_parses() {
    assert_eq!(exp("1 != 2"), bin(num(1), BinaryOp::NotEqual, num(2)));
    assert_eq!(exp("1 > 2"), bin(num(1), BinaryOp::GreaterThan, num(2)));
    assert_eq!(exp("1 >= 2"), bin(num(1), BinaryOp::GreaterThanOrEqual, num(2)));
    assert_eq!(exp("1 <= 2"), bin(num(1), BinaryOp::LessThanOrEqual, num(2)));
    assert_eq!(exp("1 % 2"), bin(num(1), BinaryOp::Modulo, num(2)));
    assert_eq!(exp("1 >> 2"), bin(num(1), BinaryOp::RightShift, num(2)));
}

#[test]
fn expression_stops_at_a_lower_precedence() {
    let mut tokens = tokens_of("1 * 2 + 3");
    assert_eq!(parse_expression(&mut tokens, 46), Ok(bin(num(1), BinaryOp::Multiply, num(2))));
    assert_eq!(tokens, vec![tok(TokenType::PLUS, "+"), tok(TokenType::CONSTANT, "3")]);
}

#[test]
fn expression_stops_at_a_token_that_is_no_operator() {
    let mut tokens = tokens_of("1 + 2 ; 3");
    assert_eq!(parse_expression(&mut tokens, 0), Ok(bin(num(1), BinaryOp::Add, num(2))));
    assert_eq!(tokens, vec![tok(TokenType::SEMICOLON, ";"), tok(TokenType::CONSTANT, "3")]);
}

#[test]
fn the_largest_constant_parses() {
    assert_eq!(exp("2147483647"), num(2147483647));
    assert_eq!(exp("007"), num(7));
}

#[test]
fn a_constant_that_does_not_fit_is_unexpected() {
    let mut tokens = tokens_of("2147483648");
    assert_eq!(
        parse_factor(&mut tokens),
        Err(CompileError::UnexpectedToken {
            got: tok(TokenType::CONSTANT, "2147483648"),
            expected: Expected::Expression,
        })
    );
}

#[test]
fn a_constant_token_that_holds_no_number_is_unexpected() {
    let mut tokens = vec![tok(TokenType::CONSTANT, "-5")];
    assert_eq!(
        parse_factor(&mut tokens),
        Err(CompileError::UnexpectedToken {
            got: tok(TokenType::CONSTANT, "-5"),
            expected: Expected::Expression,
        })
    );
    let mut tokens = vec![tok(TokenType::CONSTANT, "")];
    assert!(parse_factor(&mut tokens).is_err());
}

#[test]
fn factor_errors() {
    assert_eq!(
        parse_factor(&mut vec![]),
        Err(CompileError::UnexpectedEOF { expected: Expected::Expression })
    );
    assert_eq!(
        parse_factor(&mut tokens_of("(1")),
        Err(CompileError::UnexpectedEOF { expected: Expected::Token(TokenType::CloseParen) })
    );
    assert_eq!(
        parse_factor(&mut tokens_of("(1;")),
        Err(CompileError::UnexpectedToken {
            got: tok(TokenType::SEMICOLON, ";"),
            expected: Expected::Token(TokenType::CloseParen),
        })
    );
    assert_eq!(
        parse_factor(&mut tokens_of("* 2")),
        Err(CompileError::UnexpectedToken {
            got: tok(TokenType::STAR, "*"),
            expected: Expected::Expression,
        })
    );
    assert_eq!(
        parse_factor(&mut tokens_of("-")),
        Err(CompileError::UnexpectedEOF { expected: Expected::Expression })
    );
}

#[test]
fn an_operator_without_a_right_operand_is_an_error() {
    assert_eq!(
        parse_expression(&mut tokens_of("1 +"), 0),
        Err(CompileError::UnexpectedEOF { expected: Expected::Expression })
    );
    assert_eq!(
        parse_expression(&mut tokens_of("1 + ;"), 0),
        Err(CompileError::UnexpectedToken {
            got: tok(TokenType::SEMICOLON, ";"),
            expected: Expected::Expression,
        })
    );
}

#[test]
fn statements() {
    assert_eq!(parse_statement(&mut tokens_of(";")), Ok(Statement::Null));
    assert_eq!(parse_statement(&mut tokens_of("return 1;")), Ok(Statement::Return(num(1))));
    assert_eq!(
        parse_statement(&mut tokens_of("a = 1;")),
        Ok(Statement::ExpressionStatement(assign(var("a"), num(1))))
    );
    let mut tokens = tokens_of("; ;");
    assert_eq!(parse_statement(&mut tokens), Ok(Statement::Null));
    assert_eq!(tokens.len(), 1);
}

#[test]
fn statement_errors() {
    assert_eq!(
        parse_statement(&mut vec![]),
        Err(CompileError::UnexpectedEOF { expected: Expected::Statement })
    );
    assert_eq!(
        parse_statement(&mut tokens_of("return")),
        Err(CompileError::UnexpectedEOF { expected: Expected::Expression })
    );
    assert_eq!(
        parse_statement(&mut tokens_of("return 1")),
        Err(CompileError::UnexpectedEOF { expected: Expected::Token(TokenType::SEMICOLON) })
    );
    assert_eq!(
        parse_statement(&mut tokens_of("return 1 }")),
        Err(CompileError::UnexpectedToken {
            got: tok(TokenType::CloseBrace, "}"),
            expected: Expected::Token(TokenType::SEMICOLON),
        })
    );
    assert_eq!(
        parse_statement(&mut tokens_of("if")),
        Err(CompileError::UnexpectedToken {
            got: tok(TokenType::KEYWORD, "if"),
            expected: Expected::Expression,
        })
    );
}

#[test]
fn declarations() {
    assert_eq!(
        parse_declaration(&mut tokens_of("int a;")),
        Ok(Declaration::Declaration("a".to_string(), None))
    );
    assert_eq!(
        parse_declaration(&mut tokens_of("int a = 1 + 2;")),
        Ok(Declaration::Declaration("a".to_string(), Some(bin(num(1), BinaryOp::Add, num(2)))))
    );
}

#[test]
fn declaration_errors() {
    assert_eq!(
        parse_declaration(&mut vec![]),
        Err(CompileError::UnexpectedEOF { expected: Expected::Int })
    );
    assert_eq!(
        parse_declaration(&mut tokens_of("a;")),
        Err(CompileError::UnexpectedToken {
            got: tok(TokenType::IDENTIFIER, "a"),
            expected: Expected::Int,
        })
    );
    assert_eq!(
        parse_declaration(&mut tokens_of("int")),
        Err(CompileError::UnexpectedEOF { expected: Expected::Identifier })
    );
    assert_eq!(
        parse_declaration(&mut tokens_of("int 3;")),
        Err(CompileError::UnexpectedToken {
            got: tok(TokenType::CONSTANT, "3"),
            expected: Expected::Identifier,
        })
    );
    assert_eq!(
        parse_declaration(&mut tokens_of("int return;")),
        Err(CompileError::UnexpectedToken {
            got: tok(TokenType::KEYWORD, "return"),
            expected: Expected::Identifier,
        })
    );
    assert_eq!(
        parse_declaration(&mut tokens_of("int a")),
        Err(CompileError::UnexpectedEOF { expected: Expected::Token(TokenType::SEMICOLON) })
    );
    assert_eq!(
        parse_declaration(&mut tokens_of("int a =")),
        Err(CompileError::UnexpectedEOF { expected: Expected::Expression })
    );
    assert_eq!(
        parse_declaration(&mut tokens_of("int a 1;")),
        Err(CompileError::UnexpectedToken {
            got: tok(TokenType::CONSTANT, "1"),
            expected: Expected::Token(TokenType::SEMICOLON),
        })
    );
}

#[test]
fn a_body_of_declarations_and_statements() {
    assert_eq!(
        program("int main(void){ int a = 3; ; a = a + 1; return a; }"),
        Ok(main_with(vec![
            BlockItem::Declaration(Declaration::Declaration("a".to_string(), Some(num(3)))),
            BlockItem::Statement(Statement::Null),
            BlockItem::Statement(Statement::ExpressionStatement(assign(
                var("a"),
                bin(var("a"), BinaryOp::Add, num(1))
            ))),
            BlockItem::Statement(Statement::Return(var("a"))),
        ]))
    );
}

#[test]
fn comments_do_not_reach_the_parser() {
    assert_eq!(
        program("int main(void){ /* one */ return 2; // two\n}"),
        Ok(main_with(vec![BlockItem::Statement(Statement::Return(num(2)))]))
    );
}

#[test]
fn header_errors() {
    assert_eq!(program(""), Err(CompileError::UnexpectedEOF { expected: Expected::Int }));
    assert_eq!(
        program("void main(void){}"),
        Err(CompileError::UnexpectedToken {
            got: tok(TokenType::KEYWORD, "void"),
            expected: Expected::Int,
        })
    );
    assert_eq!(program("int"), Err(CompileError::UnexpectedEOF { expected: Expected::Main }));
    assert_eq!(
        program("int foo(void){}"),
        Err(CompileError::UnexpectedToken {
            got: tok(TokenType::IDENTIFIER, "foo"),
            expected: Expected::Main,
        })
    );
    assert_eq!(
        program("int main"),
        Err(CompileError::UnexpectedEOF { expected: Expected::Token(TokenType::OpenParen) })
    );
    assert_eq!(
        program("int main("),
        Err(CompileError::UnexpectedEOF { expected: Expected::Void })
    );
    assert_eq!(
        program("int main(){}"),
        Err(CompileError::UnexpectedToken {
            got: tok(TokenType::CloseParen, ")"),
            expected: Expected::Void,
        })
    );
    assert_eq!(
        program("int main(void"),
        Err(CompileError::UnexpectedEOF { expected: Expected::Token(TokenType::CloseParen) })
    );
    assert_eq!(
        program("int main(void)"),
        Err(CompileError::UnexpectedEOF { expected: Expected::Token(TokenType::OpenBrace) })
    );
    assert_eq!(
        program("int main(void) return"),
        Err(CompileError::UnexpectedToken {
            got: tok(TokenType::KEYWORD, "return"),
            expected: Expected::Token(TokenType::OpenBrace),
        })
    );
}

#[test]
fn a_body_that_is_not_closed_is_an_error() {
    assert_eq!(
        program("int main(void){ return 1;"),
        Err(CompileError::UnexpectedEOF { expected: Expected::Token(TokenType::CloseBrace) })
    );
    assert_eq!(
        program("int main(void){"),
        Err(CompileError::UnexpectedEOF { expected: Expected::Token(TokenType::CloseBrace) })
    );
}

#[test]
fn tokens_behind_the_program_are_an_error() {
    assert_eq!(
        program("int main(void){ return 1; } int"),
        Err(CompileError::TrailingTokens { token: tok(TokenType::KEYWORD, "int") })
    );
}

#[test]
fn a_preprocessor_line_is_rejected_by_the_parser() {
    assert_eq!(
        program("#define X\nint main(void){ return 1; }"),
        Err(CompileError::UnexpectedToken {
            got: tok(TokenType::Tag, "#define X"),
            expected: Expected::Int,
        })
    );
}

#[test]
fn a_word_int_that_is_no_keyword_does_not_start_a_declaration() {
    let mut tokens = vec![
        tok(TokenType::IDENTIFIER, "int"),
        tok(TokenType::IDENTIFIER, "a"),
        tok(TokenType::SEMICOLON, ";"),
    ];
    assert_eq!(
        parse_declaration(&mut tokens),
        Err(CompileError::UnexpectedToken {
            got: tok(TokenType::IDENTIFIER, "int"),
            expected: Expected::Int,
        })
    );
}

#[test]
fn precedence_table() {
    assert_eq!(get_operator_precedence(&BinaryOp::Multiply), 50);
    assert_eq!(get_operator_precedence(&BinaryOp::Divide), 50);
    assert_eq!(get_operator_precedence(&BinaryOp::Modulo), 50);
    assert_eq!(get_operator_precedence(&BinaryOp::Add), 45);
    assert_eq!(get_operator_precedence(&BinaryOp::Subtract), 45);
    assert_eq!(get_operator_precedence(&BinaryOp::LeftShift), 45);
    assert_eq!(get_operator_precedence(&BinaryOp::RightShift), 45);
    assert_eq!(get_operator_precedence(&BinaryOp::BitwiseAnd), 44);
    assert_eq!(get_operator_precedence(&BinaryOp::BitwiseXor), 43);
    assert_eq!(get_operator_precedence(&BinaryOp::BitwiseOr), 42);
    assert_eq!(get_operator_precedence(&BinaryOp::LessThan), 35);
    assert_eq!(get_operator_precedence(&BinaryOp::GreaterThan), 35);
    assert_eq!(get_operator_precedence(&BinaryOp::LessThanOrEqual), 35);
    assert_eq!(get_operator_precedence(&BinaryOp::GreaterThanOrEqual), 35);
    assert_eq!(get_operator_precedence(&BinaryOp::Equal), 30);
    assert_eq!(get_operator_precedence(&BinaryOp::NotEqual), 30);
    assert_eq!(get_operator_precedence(&BinaryOp::LogicalAnd), 10);
    assert_eq!(get_operator_precedence(&BinaryOp::LogicalOr), 5);
    assert_eq!(get_operator_precedence(&BinaryOp::Assignment), 1);
}

#[test]
fn only_assignment_groups_to_the_right() {
    assert_eq!(get_associativity(&BinaryOp::Assignment), Associativity::Right);
    assert_eq!(get_associativity(&BinaryOp::Add), Associativity::Left);
    assert_eq!(get_associativity(&BinaryOp::LogicalOr), Associativity::Left);
}
