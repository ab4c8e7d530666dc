use c_compiler::error::{CompileError, Expected};
use c_compiler::lex::{strip_comments, Lex, Token, TokenType};
use c_compiler::parser::{
    parse_program, BinaryOp, BlockItem, Declaration, Exp, Factor, FunctionDeclaration, Program,
    Statement, UnaryOp,
};
use c_compiler::pretty::PrettyPrint;
use c_compiler::text::{
    char_is_digit, char_is_ident_part, char_is_ident_start, char_is_letter, char_is_space,
    parse_i32, push_decimal, push_signed_decimal, same_text,
};

fn num(k: i32) -> Exp {
    Exp::Factor(Factor::Int(k))
}

fn var(name: &str) -> Exp {
    Exp::Factor(Factor::Var(name.to_string()))
}

fn tok(token_type: TokenType, value: &str) -> Token {
    Token { token_type, value: value.to_string() }
}

#[test]
fn a_factor_as_text() {
    assert_eq!(Factor::Int(5).pretty_print(0), "Int: 5\n");
    assert_eq!(Factor::Int(-5).pretty_print(3), "   Int: -5\n");
    assert_eq!(Factor::Var("a".to_string()).pretty_print(2), "  Variable: a\n");
    assert_eq!(
        Factor::Unary(UnaryOp::Negation, Box::new(Factor::Int(1))).pretty_print(1),
        " Unary Operation: Negation\n   Int: 1\n"
    );
    assert_eq!(
        Factor::Unary(UnaryOp::BitwiseComplement, Box::new(Factor::Int(1))).pretty_print(0),
        "Unary Operation: BitwiseComplement\n  Int: 1\n"
    );
    assert_eq!(
        Factor::Unary(UnaryOp::LogicalNot, Box::new(Factor::Int(1))).pretty_print(0),
        "Unary Operation: LogicalNot\n  Int: 1\n"
    );
    assert_eq!(
        Factor::Parenthesized(Box::new(num(2))).pretty_print(0),
        "Parenthesized Expression:\n  Int: 2\n"
    );
}

#[test]
fn an_expression_as_text() {
    let e = Exp::Binary(Box::new(num(1)), BinaryOp::Add, Box::new(var("x")));
    assert_eq!(e.pretty_print(0), "Binary Operation: Add\n  Int: 1\n  Variable: x\n");
    let e = Exp::Assignment(Box::new(var("x")), Box::new(e));
    assert_eq!(
        e.pretty_print(2),
        "  Assignment:\n    Variable: x\n    Binary Operation: Add\n      Int: 1\n      Variable: x\n"
    );
}

#[test]
fn every_binary_operator_has_its_name() {
    let cases = [
        (BinaryOp::Add, "Add"),
        (BinaryOp::Subtract, "Subtract"),
        (BinaryOp::Multiply, "Multiply"),
        (BinaryOp::Divide, "Divide"),
        (BinaryOp::Modulo, "Modulo"),
        (BinaryOp::LeftShift, "LeftShift"),
        (BinaryOp::RightShift, "RightShift"),
        (BinaryOp::BitwiseAnd, "BitwiseAnd"),
        (BinaryOp::BitwiseOr, "BitwiseOr"),
        (BinaryOp::BitwiseXor, "BitwiseXor"),
        (BinaryOp::LogicalAnd, "LogicalAnd"),
        (BinaryOp::LogicalOr, "LogicalOr"),
        (BinaryOp::Equal, "Equal"),
        (BinaryOp::NotEqual, "NotEqual"),
        (BinaryOp::GreaterThan, "GreaterThan"),
        (BinaryOp::LessThan, "LessThan"),
        (BinaryOp::GreaterThanOrEqual, "GreaterThanOrEqual"),
        (BinaryOp::LessThanOrEqual, "LessThanOrEqual"),
        (BinaryOp::Assignment, "Assignment"),
    ];
    for (op, name) in cases {
        let e = Exp::Binary(Box::new(num(1)), op, Box::new(num(2)));
        assert_eq!(e.pretty_print(0), format!("Binary Operation: {}\n  Int: 1\n  Int: 2\n", name));
    }
}

#[test]
fn statements_and_declarations_as_text() {
    assert_eq!(Statement::Null.pretty_print(4), "    Null\n");
    assert_eq!(Statement::Return(num(1)).pretty_print(0), "Return:\n  Int: 1\n");
    assert_eq!(
        Statement::ExpressionStatement(var("a")).pretty_print(0),
        "Expression:\n  Variable: a\n"
    );
    assert_eq!(
        Declaration::Declaration("a".to_string(), None).pretty_print(2),
        "  Declaration: a\n"
    );
    assert_eq!(
        Declaration::Declaration("a".to_string(), Some(num(3))).pretty_print(0),
        "Declaration: a\n  Int: 3\n"
    );
    assert_eq!(BlockItem::Statement(Statement::Null).pretty_print(0), "Null\n");
    assert_eq!(
        BlockItem::Declaration(Declaration::Declaration("b".to_string(), None)).pretty_print(1),
        " Declaration: b\n"
    );
}

#[test]
fn a_program_as_text() {
    let mut tokens = strip_comments(
        Lex::new("int main(void){ int a = 3; return -a * (a + 1); }").get_tokens().unwrap(),
    );
    let program = parse_program(&mut tokens).unwrap();
    let expected = "\
Program:
  Function: main
    Declaration: a
      Int: 3
    Return:
      Binary Operation: Multiply
        Unary Operation: Negation
          Variable: a
        Parenthesized Expression:
          Binary Operation: Add
            Variable: a
            Int: 1
";
    assert_eq!(program.pretty_print(0), expected);
    let Program::Program(function) = &program;
    let inner: String = expected.lines().skip(1).map(|l| format!("{}\n", &l[2..])).collect();
    assert_eq!(function.pretty_print(0), inner);
    assert_eq!(
        FunctionDeclaration::Function("f".to_string(), vec![]).pretty_print(2),
        "  Function: f\n"
    );
}

#[test]
fn messages_of_the_lexer_errors() {
    assert_eq!(
        CompileError::InvalidCharacter { character: '@', position: 12 }.message(),
        "invalid character '@' at byte 12"
    );
    assert_eq!(
        CompileError::InvalidNumber { position: 0 }.message(),
        "invalid number: digits followed by a letter at byte 0"
    );
}

#[test]
fn messages_of_the_parser_errors() {
    assert_eq!(
        CompileError::UnexpectedToken {
            got: tok(TokenType::CloseBrace, "}"),
            expected: Expected::Token(TokenType::SEMICOLON)
        }
        .message(),
        "unexpected token: got '}', expected SEMICOLON"
    );
    assert_eq!(
        CompileError::UnexpectedToken {
            got: tok(TokenType::IDENTIFIER, "foo"),
            expected: Expected::Main
        }
        .message(),
        "unexpected token: got 'foo', expected 'main'"
    );
    assert_eq!(
        CompileError::UnexpectedEOF { expected: Expected::Expression }.message(),
        "unexpected end of file while expecting an expression"
    );
    assert_eq!(
        CompileError::UnexpectedEOF { expected: Expected::Int }.message(),
        "unexpected end of file while expecting 'int'"
    );
    assert_eq!(
        CompileError::UnexpectedEOF { expected: Expected::Void }.message(),
        "unexpected end of file while expecting 'void'"
    );
    assert_eq!(
        CompileError::UnexpectedEOF { expected: Expected::Identifier }.message(),
        "unexpected end of file while expecting an identifier"
    );
    assert_eq!(
        CompileError::UnexpectedEOF { expected: Expected::Statement }.message(),
        "unexpected end of file while expecting a statement"
    );
    assert_eq!(
        CompileError::UnexpectedEOF { expected: Expected::Token(TokenType::CloseParen) }.message(),
        "unexpected end of file while expecting CloseParen"
    );
    assert_eq!(
        CompileError::TrailingTokens { token: tok(TokenType::KEYWORD, "int") }.message(),
        "trailing tokens: extra token 'int' after the program"
    );
}

#[test]
fn messages_of_the_resolver_errors() {
    assert_eq!(
        CompileError::UndeclaredVariable { name: "b".to_string() }.message(),
        "undeclared variable 'b'"
    );
    assert_eq!(
        CompileError::Redeclaration { name: "a".to_string() }.message(),
        "redeclaration of variable 'a'"
    );
    assert_eq!(
        CompileError::InvalidAssignmentTarget.message(),
        "invalid assignment target: the left side of '=' is not a variable"
    );
    assert_eq!(
        CompileError::InternalInvariantViolation.message(),
        "internal invariant violation"
    );
}

#[test]
fn every_token_type_has_its_name_in_a_message() {
    let cases = [
        (TokenType::IDENTIFIER, "IDENTIFIER"),
        (TokenType::CONSTANT, "CONSTANT"),
        (TokenType::KEYWORD, "KEYWORD"),
        (TokenType::OpenParen, "OpenParen"),
        (TokenType::OpenBrace, "OpenBrace"),
        (TokenType::CloseBrace, "CloseBrace"),
        (TokenType::SLASH, "SLASH"),
        (TokenType::COMMENT, "COMMENT"),
        (TokenType::LongComment, "LongComment"),
        (TokenType::STAR, "STAR"),
        (TokenType::PLUS, "PLUS"),
        (TokenType::MODULUS, "MODULUS"),
        (TokenType::TildeOp, "TildeOp"),
        (TokenType::NegationOp, "NegationOp"),
        (TokenType::DecrementOp, "DecrementOp"),
        (TokenType::AMPERSAND, "AMPERSAND"),
        (TokenType::PIPE, "PIPE"),
        (TokenType::CARET, "CARET"),
        (TokenType::LessThan, "LessThan"),
        (TokenType::GreaterThan, "GreaterThan"),
        (TokenType::LeftShift, "LeftShift"),
        (TokenType::RightShift, "RightShift"),
        (TokenType::LogicalNot, "LogicalNot"),
        (TokenType::LogicalAnd, "LogicalAnd"),
        (TokenType::LogicalOr, "LogicalOr"),
        (TokenType::Assignment, "Assignment"),
        (TokenType::Equal, "Equal"),
        (TokenType::NotEqual, "NotEqual"),
        (TokenType::GreaterThanOrEqual, "GreaterThanOrEqual"),
        (TokenType::LessThanOrEqual, "LessThanOrEqual"),
        (TokenType::Tag, "Tag"),
        (TokenType::QuestionMark, "QuestionMark"),
        (TokenType::Colon, "Colon"),
    ];
    for (token_type, name) in cases {
        assert_eq!(
            CompileError::UnexpectedEOF { expected: Expected::Token(token_type) }.message(),
            format!("unexpected end of file while expecting {}", name)
        );
    }
}

#[test]
fn character_classes() {
    for c in ['0', '5', '9'] {
        assert!(char_is_digit(c) && char_is_ident_part(c) && !char_is_ident_start(c));
        assert!(!char_is_letter(c) && !char_is_space(c));
    }
    for c in ['a', 'z', 'A', 'Z', 'm'] {
        assert!(char_is_letter(c) && char_is_ident_start(c) && char_is_ident_part(c));
        assert!(!char_is_digit(c) && !char_is_space(c));
    }
    assert!(char_is_ident_start('_') && char_is_ident_part('_') && !char_is_letter('_'));
    for c in [' ', '\t', '\n', '\r', '\x0C'] {
        assert!(char_is_space(c) && !char_is_ident_part(c));
    }
    for c in ['/', ':', '@', '[', '`', '{', '\x0B', 'é', '٣'] {
        assert!(!char_is_digit(c) && !char_is_letter(c) && !char_is_space(c));
        assert!(!char_is_ident_part(c));
    }
}

#[test]
fn numerals_are_read_as_numbers() {
    assert_eq!(parse_i32("0"), Some(0));
    assert_eq!(parse_i32("7"), Some(7));
    assert_eq!(parse_i32("042"), Some(42));
    assert_eq!(parse_i32("2147483647"), Some(i32::MAX));
    assert_eq!(parse_i32("2147483648"), None);
    assert_eq!(parse_i32("99999999999999999999999"), None);
    assert_eq!(parse_i32(""), None);
    assert_eq!(parse_i32("-1"), None);
    assert_eq!(parse_i32("+1"), None);
    assert_eq!(parse_i32("1a"), None);
    assert_eq!(parse_i32(" 1"), None);
}

#[test]
fn numbers_are_written_as_numerals() {
    let mut s = "n=".to_string();
    push_decimal(&mut s, 0);
    s.push(',');
    push_decimal(&mut s, 9);
    s.push(',');
    push_decimal(&mut s, 10);
    s.push(',');
    push_decimal(&mut s, 1234567890);
    s.push(',');
    push_decimal(&mut s, u128::MAX);
    assert_eq!(s, "n=0,9,10,1234567890,340282366920938463463374607431768211455");
    let mut s = String::new();
    push_signed_decimal(&mut s, -1);
    push_signed_decimal(&mut s, 0);
    push_signed_decimal(&mut s, i32::MIN);
    push_signed_decimal(&mut s, i32::MAX);
    assert_eq!(s, "-10-21474836482147483647");
}

#[test]
fn a_numeral_reads_back_as_its_number() {
    for n in [0, 1, 9, 10, 99, 100, 12345, i32::MAX] {
        let mut s = String::new();
        push_signed_decimal(&mut s, n);
        assert_eq!(parse_i32(&s), Some(n));
    }
}

#[test]
fn same_text_compares_characters() {
    assert!(same_text("int", "int"));
    assert!(same_text("", ""));
    assert!(!same_text("int", "Int"));
    assert!(!same_text("int", "in"));
}
