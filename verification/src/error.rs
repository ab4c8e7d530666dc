//! The errors of the pipeline. The first one met ends the compilation.
use vstd::prelude::*;
use vstd::string::*;
use crate::lex::{Token, TokenType, TokenView};
use crate::text::{decimal, push_decimal};

verus! {

/// What the parser was looking for when it stopped.
#[derive(Debug, Clone, Copy, PartialEq, Eq, Structural)]
pub enum Expected {
    /// The keyword `int`.
    Int,
    /// The function name `main`.
    Main,
    /// The keyword `void`.
    Void,
    /// An identifier.
    Identifier,
    /// The first token of an expression.
    Expression,
    /// The first token of a statement.
    Statement,
    /// A token of the given type.
    Token(TokenType),
}

/// Why a source text was not compiled.
#[derive(Debug, PartialEq, Eq)]
pub enum CompileError {
    /// The lexer met a character that starts no token.
    InvalidCharacter { character: char, position: usize },
    /// A run of digits is directly followed by a letter, at `position`.
    InvalidNumber { position: usize },
    /// The parser met `got` where it wanted `expected`.
    UnexpectedToken { got: Token, expected: Expected },
    /// The tokens ended where the parser wanted `expected`.
    UnexpectedEOF { expected: Expected },
    /// A token follows the closing brace of the function.
    TrailingTokens { token: Token },
    /// A variable is used that no earlier declaration introduced.
    UndeclaredVariable { name: String },
    /// A variable is declared a second time.
    Redeclaration { name: String },
    /// The left side of an assignment is not a variable.
    InvalidAssignmentTarget,
    /// A stage was handed a program that an earlier stage never produces.
    InternalInvariantViolation,
}

/// The mathematical value of a [`CompileError`].
pub ghost enum CompileErrorView {
    InvalidCharacter { character: char, position: int },
    InvalidNumber { position: int },
    UnexpectedToken { got: TokenView, expected: Expected },
    UnexpectedEOF { expected: Expected },
    TrailingTokens { token: TokenView },
    UndeclaredVariable { name: Seq<char> },
    Redeclaration { name: Seq<char> },
    InvalidAssignmentTarget,
    InternalInvariantViolation,
}

impl View for CompileError {
    type V = CompileErrorView;

    open spec fn view(&self) -> CompileErrorView {
        match self {
            CompileError::InvalidCharacter { character, position } => CompileErrorView::InvalidCharacter {
                character: *character,
                position: *position as int,
            },
            CompileError::InvalidNumber { position } => CompileErrorView::InvalidNumber {
                position: *position as int,
            },
            CompileError::UnexpectedToken { got, expected } => CompileErrorView::UnexpectedToken {
                got: got@,
                expected: *expected,
            },
            CompileError::UnexpectedEOF { expected } => CompileErrorView::UnexpectedEOF {
                expected: *expected,
            },
            CompileError::TrailingTokens { token } => CompileErrorView::TrailingTokens {
                token: token@,
            },
            CompileError::UndeclaredVariable { name } => CompileErrorView::UndeclaredVariable {
                name: name@,
            },
            CompileError::Redeclaration { name } => CompileErrorView::Redeclaration { name: name@ },
            CompileError::InvalidAssignmentTarget => CompileErrorView::InvalidAssignmentTarget,
            CompileError::InternalInvariantViolation => CompileErrorView::InternalInvariantViolation,
        }
    }
}

/// The name of a token type.
pub open spec fn token_type_name(token_type: TokenType) -> Seq<char> {
    match token_type {
        TokenType::IDENTIFIER => "IDENTIFIER"@,
        TokenType::CONSTANT => "CONSTANT"@,
        TokenType::KEYWORD => "KEYWORD"@,
        TokenType::OpenParen => "OpenParen"@,
        TokenType::CloseParen => "CloseParen"@,
        TokenType::OpenBrace => "OpenBrace"@,
        TokenType::CloseBrace => "CloseBrace"@,
        TokenType::SEMICOLON => "SEMICOLON"@,
        TokenType::SLASH => "SLASH"@,
        TokenType::COMMENT => "COMMENT"@,
        TokenType::LongComment => "LongComment"@,
        TokenType::STAR => "STAR"@,
        TokenType::PLUS => "PLUS"@,
        TokenType::MODULUS => "MODULUS"@,
        TokenType::TildeOp => "TildeOp"@,
        TokenType::NegationOp => "NegationOp"@,
        TokenType::DecrementOp => "DecrementOp"@,
        TokenType::AMPERSAND => "AMPERSAND"@,
        TokenType::PIPE => "PIPE"@,
        TokenType::CARET => "CARET"@,
        TokenType::LessThan => "LessThan"@,
        TokenType::GreaterThan => "GreaterThan"@,
        TokenType::LeftShift => "LeftShift"@,
        TokenType::RightShift => "RightShift"@,
        TokenType::LogicalNot => "LogicalNot"@,
        TokenType::LogicalAnd => "LogicalAnd"@,
        TokenType::LogicalOr => "LogicalOr"@,
        TokenType::Assignment => "Assignment"@,
        TokenType::Equal => "Equal"@,
        TokenType::NotEqual => "NotEqual"@,
        TokenType::GreaterThanOrEqual => "GreaterThanOrEqual"@,
        TokenType::LessThanOrEqual => "LessThanOrEqual"@,
        TokenType::Tag => "Tag"@,
        TokenType::QuestionMark => "QuestionMark"@,
        TokenType::Colon => "Colon"@,
    }
}

/// What the parser was looking for, in words.
pub open spec fn expected_text(expected: Expected) -> Seq<char> {
    match expected {
        Expected::Int => "'int'"@,
        Expected::Main => "'main'"@,
        Expected::Void => "'void'"@,
        Expected::Identifier => "an identifier"@,
        Expected::Expression => "an expression"@,
        Expected::Statement => "a statement"@,
        Expected::Token(token_type) => token_type_name(token_type),
    }
}

/// The message of an error: its kind, then what it was found on.
pub open spec fn message_text(e: CompileErrorView) -> Seq<char> {
    match e {
        CompileErrorView::InvalidCharacter { character, position } => "invalid character '"@
            + seq![character] + "' at byte "@ + decimal(position as nat),
        CompileErrorView::InvalidNumber { position } =>
            "invalid number: digits followed by a letter at byte "@ + decimal(position as nat),
        CompileErrorView::UnexpectedToken { got, expected } => "unexpected token: got '"@
            + got.value + "', expected "@ + expected_text(expected),
        CompileErrorView::UnexpectedEOF { expected } =>
            "unexpected end of file while expecting "@ + expected_text(expected),
        CompileErrorView::TrailingTokens { token } => "trailing tokens: extra token '"@
            + token.value + "' after the program"@,
        CompileErrorView::UndeclaredVariable { name } => "undeclared variable '"@ + name + "'"@,
        CompileErrorView::Redeclaration { name } => "redeclaration of variable '"@ + name + "'"@,
        CompileErrorView::InvalidAssignmentTarget =>
            "invalid assignment target: the left side of '=' is not a variable"@,
        CompileErrorView::InternalInvariantViolation => "internal invariant violation"@,
    }
}

fn write_token_type(out: &mut String, token_type: TokenType)
    ensures
        final(out)@ == old(out)@ + token_type_name(token_type),
{
    match token_type {
        TokenType::IDENTIFIER => out.append("IDENTIFIER"),
        TokenType::CONSTANT => out.append("CONSTANT"),
        TokenType::KEYWORD => out.append("KEYWORD"),
        TokenType::OpenParen => out.append("OpenParen"),
        TokenType::CloseParen => out.append("CloseParen"),
        TokenType::OpenBrace => out.append("OpenBrace"),
        TokenType::CloseBrace => out.append("CloseBrace"),
        TokenType::SEMICOLON => out.append("SEMICOLON"),
        TokenType::SLASH => out.append("SLASH"),
        TokenType::COMMENT => out.append("COMMENT"),
        TokenType::LongComment => out.append("LongComment"),
        TokenType::STAR => out.append("STAR"),
        TokenType::PLUS => out.append("PLUS"),
        TokenType::MODULUS => out.append("MODULUS"),
        TokenType::TildeOp => out.append("TildeOp"),
        TokenType::NegationOp => out.append("NegationOp"),
        TokenType::DecrementOp => out.append("DecrementOp"),
        TokenType::AMPERSAND => out.append("AMPERSAND"),
        TokenType::PIPE => out.append("PIPE"),
        TokenType::CARET => out.append("CARET"),
        TokenType::LessThan => out.append("LessThan"),
        TokenType::GreaterThan => out.append("GreaterThan"),
        TokenType::LeftShift => out.append("LeftShift"),
        TokenType::RightShift => out.append("RightShift"),
        TokenType::LogicalNot => out.append("LogicalNot"),
        TokenType::LogicalAnd => out.append("LogicalAnd"),
        TokenType::LogicalOr => out.append("LogicalOr"),
        TokenType::Assignment => out.append("Assignment"),
        TokenType::Equal => out.append("Equal"),
        TokenType::NotEqual => out.append("NotEqual"),
        TokenType::GreaterThanOrEqual => out.append("GreaterThanOrEqual"),
        TokenType::LessThanOrEqual => out.append("LessThanOrEqual"),
        TokenType::Tag => out.append("Tag"),
        TokenType::QuestionMark => out.append("QuestionMark"),
        TokenType::Colon => out.append("Colon"),
    }
}

fn write_expected(out: &mut String, expected: Expected)
    ensures
        final(out)@ == old(out)@ + expected_text(expected),
{
    match expected {
        Expected::Int => out.append("'int'"),
        Expected::Main => out.append("'main'"),
        Expected::Void => out.append("'void'"),
        Expected::Identifier => out.append("an identifier"),
        Expected::Expression => out.append("an expression"),
        Expected::Statement => out.append("a statement"),
        Expected::Token(token_type) => write_token_type(out, token_type),
    }
}

impl CompileError {
    /// The message of the error, for a person to read.
    pub fn message(&self) -> (text: String)
        ensures
            text@ == message_text(self@),
    {
        let mut text = String::new();
        match self {
            CompileError::InvalidCharacter { character, position } => {
                text.append("invalid character '");
                text.push(*character);
                text.append("' at byte ");
                push_decimal(&mut text, *position as u128);
            },
            CompileError::InvalidNumber { position } => {
                text.append("invalid number: digits followed by a letter at byte ");
                push_decimal(&mut text, *position as u128);
            },
            CompileError::UnexpectedToken { got, expected } => {
                text.append("unexpected token: got '");
                text.append(got.value.as_str());
                text.append("', expected ");
                write_expected(&mut text, *expected);
            },
            CompileError::UnexpectedEOF { expected } => {
                text.append("unexpected end of file while expecting ");
                write_expected(&mut text, *expected);
            },
            CompileError::TrailingTokens { token } => {
                text.append("trailing tokens: extra token '");
                text.append(token.value.as_str());
                text.append("' after the program");
            },
            CompileError::UndeclaredVariable { name } => {
                text.append("undeclared variable '");
                text.append(name.as_str());
                text.append("'");
            },
            CompileError::Redeclaration { name } => {
                text.append("redeclaration of variable '");
                text.append(name.as_str());
                text.append("'");
            },
            CompileError::InvalidAssignmentTarget => {
                text.append("invalid assignment target: the left side of '=' is not a variable");
            },
            CompileError::InternalInvariantViolation => {
                text.append("internal invariant violation");
            },
        }
        assert(text@ =~= message_text(self@));
        text
    }
}

} // verus!
