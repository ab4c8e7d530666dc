//! The syntax tree and the parser: recursive descent for the function, its
//! declarations and statements, precedence climbing for expressions.
use vstd::prelude::*;
use crate::error::{CompileError, CompileErrorView, Expected};
use crate::lex::{token_views, Token, TokenType, TokenView};
pub use crate::pretty::PrettyPrint;
pub use crate::resolver::resolve_program;
use crate::resolver::resolve_program_spec;
use crate::text::{digits_value, is_i32_numeral, parse_i32, same_text};

verus! {

/// A prefix operator.
#[derive(Debug, Clone, Copy, PartialEq, Eq, Structural)]
pub enum UnaryOp {
    /// `-`
    Negation,
    /// `~`
    BitwiseComplement,
    /// `!`
    LogicalNot,
}

/// An infix operator.
#[derive(Debug, Clone, Copy, PartialEq, Eq, Structural)]
pub enum BinaryOp {
    Add,
    Subtract,
    Multiply,
    Divide,
    Modulo,
    LeftShift,
    RightShift,
    BitwiseAnd,
    BitwiseOr,
    BitwiseXor,
    LogicalAnd,
    LogicalOr,
    Equal,
    NotEqual,
    GreaterThan,
    LessThan,
    GreaterThanOrEqual,
    LessThanOrEqual,
    Assignment,
}

/// The operand of an operator.
#[derive(Debug, PartialEq, Eq)]
pub enum Factor {
    /// An integer constant.
    Int(i32),
    /// A prefix operator and its operand.
    Unary(UnaryOp, Box<Factor>),
    /// A variable.
    Var(String),
    /// An expression in parentheses.
    Parenthesized(Box<Exp>),
}

/// An expression.
#[derive(Debug, PartialEq, Eq)]
pub enum Exp {
    Factor(Factor),
    /// Left operand, operator, right operand.
    Binary(Box<Exp>, BinaryOp, Box<Exp>),
    /// Target and value.
    Assignment(Box<Exp>, Box<Exp>),
}

/// A statement.
#[derive(Debug, PartialEq, Eq)]
pub enum Statement {
    Return(Exp),
    ExpressionStatement(Exp),
    /// A lone `;`.
    Null,
}

/// The declaration of a variable, with or without an initial value.
#[derive(Debug, PartialEq, Eq)]
pub enum Declaration {
    Declaration(String, Option<Exp>),
}

/// An item of a function body.
#[derive(Debug, PartialEq, Eq)]
pub enum BlockItem {
    Declaration(Declaration),
    Statement(Statement),
}

/// A function: its name and its body.
#[derive(Debug, PartialEq, Eq)]
pub enum FunctionDeclaration {
    Function(String, Vec<BlockItem>),
}

/// A program: its one function.
#[derive(Debug, PartialEq, Eq)]
pub enum Program {
    Program(FunctionDeclaration),
}

/// Which way operators of equal precedence group.
#[derive(Debug, Clone, Copy, PartialEq, Eq, Structural)]
pub enum Associativity {
    Left,
    Right,
}

/// The mathematical value of a [`Factor`].
pub ghost enum FactorView {
    Int(i32),
    Unary(UnaryOp, Box<FactorView>),
    Var(Seq<char>),
    Parenthesized(Box<ExpView>),
}

/// The mathematical value of an [`Exp`].
pub ghost enum ExpView {
    Factor(FactorView),
    Binary(Box<ExpView>, BinaryOp, Box<ExpView>),
    Assignment(Box<ExpView>, Box<ExpView>),
}

/// The mathematical value of a [`Statement`].
pub ghost enum StatementView {
    Return(ExpView),
    ExpressionStatement(ExpView),
    Null,
}

/// The mathematical value of a [`Declaration`].
pub ghost struct DeclarationView {
    pub name: Seq<char>,
    pub init: Option<ExpView>,
}

/// The mathematical value of a [`BlockItem`].
pub ghost enum BlockItemView {
    Declaration(DeclarationView),
    Statement(StatementView),
}

/// The mathematical value of a [`FunctionDeclaration`].
pub ghost struct FunctionDeclarationView {
    pub name: Seq<char>,
    pub body: Seq<BlockItemView>,
}

/// The mathematical value of a [`Program`].
pub ghost struct ProgramView {
    pub function: FunctionDeclarationView,
}

impl Factor {
    /// The value of the factor, with every name as a sequence of characters.
    pub open spec fn model(self) -> FactorView
        decreases self,
    {
        match self {
            Factor::Int(k) => FactorView::Int(k),
            Factor::Unary(op, inner) => FactorView::Unary(op, Box::new(inner.model())),
            Factor::Var(name) => FactorView::Var(name@),
            Factor::Parenthesized(inner) => FactorView::Parenthesized(Box::new(inner.model())),
        }
    }
}

impl Exp {
    /// The value of the expression, with every name as a sequence of characters.
    pub open spec fn model(self) -> ExpView
        decreases self,
    {
        match self {
            Exp::Factor(f) => ExpView::Factor(f.model()),
            Exp::Binary(l, op, r) => ExpView::Binary(Box::new(l.model()), op, Box::new(r.model())),
            Exp::Assignment(l, r) => ExpView::Assignment(Box::new(l.model()), Box::new(r.model())),
        }
    }
}

impl View for Factor {
    type V = FactorView;

    open spec fn view(&self) -> FactorView {
        self.model()
    }
}

impl View for Exp {
    type V = ExpView;

    open spec fn view(&self) -> ExpView {
        self.model()
    }
}

impl View for Statement {
    type V = StatementView;

    open spec fn view(&self) -> StatementView {
        match self {
            Statement::Return(e) => StatementView::Return(e@),
            Statement::ExpressionStatement(e) => StatementView::ExpressionStatement(e@),
            Statement::Null => StatementView::Null,
        }
    }
}

/// The value of an optional expression.
pub open spec fn optional_exp_view(e: Option<Exp>) -> Option<ExpView> {
    match e {
        Some(e) => Some(e@),
        None => None,
    }
}

impl View for Declaration {
    type V = DeclarationView;

    open spec fn view(&self) -> DeclarationView {
        match self {
            Declaration::Declaration(name, init) => DeclarationView {
                name: name@,
                init: optional_exp_view(*init),
            },
        }
    }
}

impl View for BlockItem {
    type V = BlockItemView;

    open spec fn view(&self) -> BlockItemView {
        match self {
            BlockItem::Declaration(d) => BlockItemView::Declaration(d@),
            BlockItem::Statement(s) => BlockItemView::Statement(s@),
        }
    }
}

/// The values of a sequence of block items.
pub open spec fn block_item_views(items: Seq<BlockItem>) -> Seq<BlockItemView> {
    items.map_values(|item: BlockItem| item@)
}

impl View for FunctionDeclaration {
    type V = FunctionDeclarationView;

    open spec fn view(&self) -> FunctionDeclarationView {
        match self {
            FunctionDeclaration::Function(name, body) => FunctionDeclarationView {
                name: name@,
                body: block_item_views(body@),
            },
        }
    }
}

impl View for Program {
    type V = ProgramView;

    open spec fn view(&self) -> ProgramView {
        match self {
            Program::Program(function) => ProgramView { function: function@ },
        }
    }
}

/// What parsing a prefix of some tokens gives: the value read and the
/// tokens behind it, or the error.
pub type Parsed<T> = Result<(T, Seq<TokenView>), CompileErrorView>;

/// Whether the outcome `r` of an executable parser, which left `rest`
/// unread, is the outcome `expected`.
pub open spec fn parsed_as<T: View>(
    expected: Parsed<T::V>,
    r: Result<T, CompileError>,
    rest: Seq<Token>,
) -> bool {
    match r {
        Ok(value) => expected == Ok::<(T::V, Seq<TokenView>), CompileErrorView>(
            (value@, token_views(rest)),
        ),
        Err(e) => expected == Err::<(T::V, Seq<TokenView>), CompileErrorView>(e@),
    }
}

/// The infix operator that a token of the given type writes, if any.
pub open spec fn binary_op_of(token_type: TokenType) -> Option<BinaryOp> {
    match token_type {
        TokenType::PLUS => Some(BinaryOp::Add),
        TokenType::NegationOp => Some(BinaryOp::Subtract),
        TokenType::STAR => Some(BinaryOp::Multiply),
        TokenType::SLASH => Some(BinaryOp::Divide),
        TokenType::MODULUS => Some(BinaryOp::Modulo),
        TokenType::AMPERSAND => Some(BinaryOp::BitwiseAnd),
        TokenType::PIPE => Some(BinaryOp::BitwiseOr),
        TokenType::CARET => Some(BinaryOp::BitwiseXor),
        TokenType::LeftShift => Some(BinaryOp::LeftShift),
        TokenType::RightShift => Some(BinaryOp::RightShift),
        TokenType::Equal => Some(BinaryOp::Equal),
        TokenType::NotEqual => Some(BinaryOp::NotEqual),
        TokenType::GreaterThan => Some(BinaryOp::GreaterThan),
        TokenType::LessThan => Some(BinaryOp::LessThan),
        TokenType::GreaterThanOrEqual => Some(BinaryOp::GreaterThanOrEqual),
        TokenType::LessThanOrEqual => Some(BinaryOp::LessThanOrEqual),
        TokenType::LogicalAnd => Some(BinaryOp::LogicalAnd),
        TokenType::LogicalOr => Some(BinaryOp::LogicalOr),
        TokenType::Assignment => Some(BinaryOp::Assignment),
        _ => None,
    }
}

/// How tightly an operator binds; a higher number binds tighter.
pub open spec fn precedence(op: BinaryOp) -> int {
    match op {
        BinaryOp::Multiply | BinaryOp::Divide | BinaryOp::Modulo => 50,
        BinaryOp::Add | BinaryOp::Subtract => 45,
        BinaryOp::LeftShift | BinaryOp::RightShift => 45,
        BinaryOp::BitwiseAnd => 44,
        BinaryOp::BitwiseXor => 43,
        BinaryOp::BitwiseOr => 42,
        BinaryOp::GreaterThan
        | BinaryOp::LessThan
        | BinaryOp::GreaterThanOrEqual
        | BinaryOp::LessThanOrEqual => 35,
        BinaryOp::Equal | BinaryOp::NotEqual => 30,
        BinaryOp::LogicalAnd => 10,
        BinaryOp::LogicalOr => 5,
        BinaryOp::Assignment => 1,
    }
}

/// Assignment groups to the right, every other operator to the left.
pub open spec fn associativity(op: BinaryOp) -> Associativity {
    if op == BinaryOp::Assignment {
        Associativity::Right
    } else {
        Associativity::Left
    }
}

/// The least precedence that an operator may have inside the right
/// operand of `op`.
pub open spec fn right_operand_precedence(op: BinaryOp) -> int {
    match associativity(op) {
        Associativity::Right => precedence(op),
        Associativity::Left => precedence(op) + 1,
    }
}

/// The expression that `op` makes of two operands.
pub open spec fn combine(left: ExpView, op: BinaryOp, right: ExpView) -> ExpView {
    if op == BinaryOp::Assignment {
        ExpView::Assignment(Box::new(left), Box::new(right))
    } else {
        ExpView::Binary(Box::new(left), op, Box::new(right))
    }
}

/// Whether the token is the word `word` with the type `token_type`.
pub open spec fn is_word(token: TokenView, token_type: TokenType, word: Seq<char>) -> bool {
    token.token_type == token_type && token.value == word
}

/// The tokens behind a first token of the given type.
pub open spec fn take_token_spec(tokens: Seq<TokenView>, token_type: TokenType) -> Result<
    Seq<TokenView>,
    CompileErrorView,
> {
    if tokens.len() == 0 {
        Err(CompileErrorView::UnexpectedEOF { expected: Expected::Token(token_type) })
    } else if tokens[0].token_type != token_type {
        Err(
            CompileErrorView::UnexpectedToken {
                got: tokens[0],
                expected: Expected::Token(token_type),
            },
        )
    } else {
        Ok(tokens.drop_first())
    }
}

/// The tokens behind a first token that is the given word.
pub open spec fn take_word_spec(
    tokens: Seq<TokenView>,
    token_type: TokenType,
    word: Seq<char>,
    expected: Expected,
) -> Result<Seq<TokenView>, CompileErrorView> {
    if tokens.len() == 0 {
        Err(CompileErrorView::UnexpectedEOF { expected })
    } else if !is_word(tokens[0], token_type, word) {
        Err(CompileErrorView::UnexpectedToken { got: tokens[0], expected })
    } else {
        Ok(tokens.drop_first())
    }
}

/// The factor at the start of the tokens.
pub open spec fn parse_factor_spec(tokens: Seq<TokenView>) -> Parsed<FactorView>
    decreases tokens.len(), 0int,
{
    if tokens.len() == 0 {
        Err(CompileErrorView::UnexpectedEOF { expected: Expected::Expression })
    } else {
        let token = tokens[0];
        let rest = tokens.drop_first();
        match token.token_type {
            TokenType::CONSTANT => {
                if is_i32_numeral(token.value) {
                    Ok((FactorView::Int(digits_value(token.value) as i32), rest))
                } else {
                    Err(
                        CompileErrorView::UnexpectedToken {
                            got: token,
                            expected: Expected::Expression,
                        },
                    )
                }
            },
            TokenType::IDENTIFIER => Ok((FactorView::Var(token.value), rest)),
            TokenType::NegationOp => unary_of(UnaryOp::Negation, parse_factor_spec(rest)),
            TokenType::TildeOp => unary_of(UnaryOp::BitwiseComplement, parse_factor_spec(rest)),
            TokenType::LogicalNot => unary_of(UnaryOp::LogicalNot, parse_factor_spec(rest)),
            TokenType::OpenParen => match parse_expression_spec(rest, 0) {
                Err(e) => Err(e),
                Ok((inner, after)) => match take_token_spec(after, TokenType::CloseParen) {
                    Err(e) => Err(e),
                    Ok(behind) => Ok((FactorView::Parenthesized(Box::new(inner)), behind)),
                },
            },
            _ => Err(
                CompileErrorView::UnexpectedToken { got: token, expected: Expected::Expression },
            ),
        }
    }
}

/// The factor that the prefix operator `op` makes of the factor parsed
/// behind it.
pub open spec fn unary_of(op: UnaryOp, operand: Parsed<FactorView>) -> Parsed<FactorView> {
    match operand {
        Err(e) => Err(e),
        Ok((inner, rest)) => Ok((FactorView::Unary(op, Box::new(inner)), rest)),
    }
}

/// The longest expression at the start of the tokens whose operators
/// outside parentheses all have at least the precedence `min_precedence`.
pub open spec fn parse_expression_spec(tokens: Seq<TokenView>, min_precedence: int) -> Parsed<
    ExpView,
>
    decreases tokens.len(), 2int,
{
    match parse_factor_spec(tokens) {
        Err(e) => Err(e),
        Ok((first, rest)) => {
            if rest.len() < tokens.len() {
                climb_spec(ExpView::Factor(first), rest, min_precedence)
            } else {
                Err(CompileErrorView::InternalInvariantViolation)
            }
        },
    }
}

/// Extends the expression `left` by the operators and operands that
/// follow it, as long as they bind at least as tightly as `min_precedence`.
pub open spec fn climb_spec(left: ExpView, tokens: Seq<TokenView>, min_precedence: int) -> Parsed<
    ExpView,
>
    decreases tokens.len(), 1int,
{
    if tokens.len() == 0 {
        Ok((left, tokens))
    } else {
        match binary_op_of(tokens[0].token_type) {
            None => Ok((left, tokens)),
            Some(op) => {
                if precedence(op) < min_precedence {
                    Ok((left, tokens))
                } else {
                    match parse_expression_spec(
                        tokens.drop_first(),
                        right_operand_precedence(op),
                    ) {
                        Err(e) => Err(e),
                        Ok((right, rest)) => {
                            if rest.len() < tokens.len() {
                                climb_spec(combine(left, op, right), rest, min_precedence)
                            } else {
                                Err(CompileErrorView::InternalInvariantViolation)
                            }
                        },
                    }
                }
            },
        }
    }
}

/// A whole expression and the `;` behind it.
pub open spec fn parse_terminated_spec(tokens: Seq<TokenView>) -> Parsed<ExpView> {
    match parse_expression_spec(tokens, 0) {
        Err(e) => Err(e),
        Ok((e, after)) => match take_token_spec(after, TokenType::SEMICOLON) {
            Err(e) => Err(e),
            Ok(rest) => Ok((e, rest)),
        },
    }
}

/// The statement at the start of the tokens.
pub open spec fn parse_statement_spec(tokens: Seq<TokenView>) -> Parsed<StatementView> {
    if tokens.len() == 0 {
        Err(CompileErrorView::UnexpectedEOF { expected: Expected::Statement })
    } else if tokens[0].token_type == TokenType::SEMICOLON {
        Ok((StatementView::Null, tokens.drop_first()))
    } else if is_word(tokens[0], TokenType::KEYWORD, "return"@) {
        match parse_terminated_spec(tokens.drop_first()) {
            Err(e) => Err(e),
            Ok((e, rest)) => Ok((StatementView::Return(e), rest)),
        }
    } else {
        match parse_terminated_spec(tokens) {
            Err(e) => Err(e),
            Ok((e, rest)) => Ok((StatementView::ExpressionStatement(e), rest)),
        }
    }
}

/// The declaration at the start of the tokens: `int`, a name, an optional
/// `=` with an expression, and `;`.
pub open spec fn parse_declaration_spec(tokens: Seq<TokenView>) -> Parsed<DeclarationView> {
    match take_word_spec(tokens, TokenType::KEYWORD, "int"@, Expected::Int) {
        Err(e) => Err(e),
        Ok(at_name) => {
            if at_name.len() == 0 {
                Err(CompileErrorView::UnexpectedEOF { expected: Expected::Identifier })
            } else if at_name[0].token_type != TokenType::IDENTIFIER {
                Err(
                    CompileErrorView::UnexpectedToken {
                        got: at_name[0],
                        expected: Expected::Identifier,
                    },
                )
            } else {
                let name = at_name[0].value;
                let after_name = at_name.drop_first();
                if after_name.len() > 0 && after_name[0].token_type == TokenType::Assignment {
                    match parse_terminated_spec(after_name.drop_first()) {
                        Err(e) => Err(e),
                        Ok((init, rest)) => Ok((DeclarationView { name, init: Some(init) }, rest)),
                    }
                } else {
                    match take_token_spec(after_name, TokenType::SEMICOLON) {
                        Err(e) => Err(e),
                        Ok(rest) => Ok((DeclarationView { name, init: None }, rest)),
                    }
                }
            }
        },
    }
}

/// The block item at the start of the tokens: a declaration where the
/// first token is the keyword `int`, a statement otherwise.
pub open spec fn parse_block_item_spec(tokens: Seq<TokenView>) -> Parsed<BlockItemView> {
    if tokens.len() > 0 && is_word(tokens[0], TokenType::KEYWORD, "int"@) {
        match parse_declaration_spec(tokens) {
            Err(e) => Err(e),
            Ok((d, rest)) => Ok((BlockItemView::Declaration(d), rest)),
        }
    } else {
        match parse_statement_spec(tokens) {
            Err(e) => Err(e),
            Ok((s, rest)) => Ok((BlockItemView::Statement(s), rest)),
        }
    }
}

/// The block items up to a closing brace, which is left unread.
pub open spec fn parse_body_spec(tokens: Seq<TokenView>) -> Parsed<Seq<BlockItemView>>
    decreases tokens.len(),
{
    if tokens.len() == 0 {
        Err(CompileErrorView::UnexpectedEOF { expected: Expected::Token(TokenType::CloseBrace) })
    } else if tokens[0].token_type == TokenType::CloseBrace {
        Ok((Seq::empty(), tokens))
    } else {
        match parse_block_item_spec(tokens) {
            Err(e) => Err(e),
            Ok((item, rest)) => {
                if rest.len() < tokens.len() {
                    match parse_body_spec(rest) {
                        Err(e) => Err(e),
                        Ok((items, after)) => Ok((seq![item] + items, after)),
                    }
                } else {
                    Err(CompileErrorView::InternalInvariantViolation)
                }
            },
        }
    }
}

/// The tokens behind the header `int main ( void ) {`.
pub open spec fn parse_header_spec(tokens: Seq<TokenView>) -> Result<
    Seq<TokenView>,
    CompileErrorView,
> {
    match take_word_spec(tokens, TokenType::KEYWORD, "int"@, Expected::Int) {
        Err(e) => Err(e),
        Ok(t1) => match take_word_spec(t1, TokenType::IDENTIFIER, "main"@, Expected::Main) {
            Err(e) => Err(e),
            Ok(t2) => match take_token_spec(t2, TokenType::OpenParen) {
                Err(e) => Err(e),
                Ok(t3) => match take_word_spec(t3, TokenType::KEYWORD, "void"@, Expected::Void) {
                    Err(e) => Err(e),
                    Ok(t4) => match take_token_spec(t4, TokenType::CloseParen) {
                        Err(e) => Err(e),
                        Ok(t5) => take_token_spec(t5, TokenType::OpenBrace),
                    },
                },
            },
        },
    }
}

/// The function `int main(void) { ... }` that the tokens write, with
/// nothing behind it.
pub open spec fn parse_function_spec(tokens: Seq<TokenView>) -> Result<
    FunctionDeclarationView,
    CompileErrorView,
> {
    match parse_header_spec(tokens) {
        Err(e) => Err(e),
        Ok(at_body) => match parse_body_spec(at_body) {
            Err(e) => Err(e),
            Ok((body, at_brace)) => match take_token_spec(at_brace, TokenType::CloseBrace) {
                Err(e) => Err(e),
                Ok(rest) => {
                    if rest.len() > 0 {
                        Err(CompileErrorView::TrailingTokens { token: rest[0] })
                    } else {
                        Ok(FunctionDeclarationView { name: "main"@, body })
                    }
                },
            },
        },
    }
}

/// The program that the tokens write.
pub open spec fn parse_program_spec(tokens: Seq<TokenView>) -> Result<
    ProgramView,
    CompileErrorView,
> {
    match parse_function_spec(tokens) {
        Err(e) => Err(e),
        Ok(function) => Ok(ProgramView { function }),
    }
}

/// A factor takes at least one token.
pub proof fn lemma_factor_consumes(tokens: Seq<TokenView>)
    ensures
        parse_factor_spec(tokens) matches Ok((_, rest)) ==> rest.len() < tokens.len(),
    decreases tokens.len(), 0int,
{
    if tokens.len() > 0 {
        let rest = tokens.drop_first();
        match tokens[0].token_type {
            TokenType::NegationOp | TokenType::TildeOp | TokenType::LogicalNot => {
                lemma_factor_consumes(rest);
            },
            TokenType::OpenParen => {
                lemma_expression_consumes(rest, 0);
            },
            _ => {},
        }
    }
}

/// An expression takes at least one token.
pub proof fn lemma_expression_consumes(tokens: Seq<TokenView>, min_precedence: int)
    ensures
        parse_expression_spec(tokens, min_precedence) matches Ok((_, rest)) ==> rest.len()
            < tokens.len(),
    decreases tokens.len(), 2int,
{
    lemma_factor_consumes(tokens);
    if let Ok((first, rest)) = parse_factor_spec(tokens) {
        lemma_climb_consumes(ExpView::Factor(first), rest, min_precedence);
    }
}

/// Extending an expression never gives tokens back.
pub proof fn lemma_climb_consumes(left: ExpView, tokens: Seq<TokenView>, min_precedence: int)
    ensures
        climb_spec(left, tokens, min_precedence) matches Ok((_, rest)) ==> rest.len()
            <= tokens.len(),
    decreases tokens.len(), 1int,
{
    if tokens.len() > 0 {
        if let Some(op) = binary_op_of(tokens[0].token_type) {
            if precedence(op) >= min_precedence {
                let next = right_operand_precedence(op);
                lemma_expression_consumes(tokens.drop_first(), next);
                if let Ok((right, rest)) = parse_expression_spec(tokens.drop_first(), next) {
                    lemma_climb_consumes(combine(left, op, right), rest, min_precedence);
                }
            }
        }
    }
}

/// A statement takes at least one token.
pub proof fn lemma_statement_consumes(tokens: Seq<TokenView>)
    ensures
        parse_statement_spec(tokens) matches Ok((_, rest)) ==> rest.len() < tokens.len(),
{
    if tokens.len() > 0 {
        lemma_expression_consumes(tokens, 0);
        lemma_expression_consumes(tokens.drop_first(), 0);
    }
}

/// A declaration takes at least one token.
pub proof fn lemma_declaration_consumes(tokens: Seq<TokenView>)
    ensures
        parse_declaration_spec(tokens) matches Ok((_, rest)) ==> rest.len() < tokens.len(),
{
    if tokens.len() > 2 {
        lemma_expression_consumes(tokens.drop_first().drop_first().drop_first(), 0);
    }
}

/// A block item takes at least one token.
pub proof fn lemma_block_item_consumes(tokens: Seq<TokenView>)
    ensures
        parse_block_item_spec(tokens) matches Ok((_, rest)) ==> rest.len() < tokens.len(),
{
    lemma_statement_consumes(tokens);
    lemma_declaration_consumes(tokens);
}

/// Takes the first token off.
fn pop_front(tokens: &mut Vec<Token>) -> (token: Token)
    requires
        old(tokens)@.len() > 0,
    ensures
        token@ == token_views(old(tokens)@)[0],
        token_views(final(tokens)@) == token_views(old(tokens)@).drop_first(),
        final(tokens)@.len() == old(tokens)@.len() - 1,
{
    let token = tokens.remove(0);
    assert(token_views(tokens@) =~= token_views(old(tokens)@).drop_first());
    token
}

/// Whether the token is the word `word` with the type `token_type`.
fn token_is_word(token: &Token, token_type: TokenType, word: &str) -> (b: bool)
    ensures
        b == is_word(token@, token_type, word@),
{
    token.token_type == token_type && same_text(token.value.as_str(), word)
}

fn expect_int_keyword(token: &Token) -> (r: Result<(), CompileError>)
    ensures
        r is Ok <==> is_word(token@, TokenType::KEYWORD, "int"@),
        r matches Err(e) ==> e@ == (CompileErrorView::UnexpectedToken {
            got: token@,
            expected: Expected::Int,
        }),
{
    if !token_is_word(token, TokenType::KEYWORD, "int") {
        return Err(CompileError::UnexpectedToken { got: token.clone(), expected: Expected::Int });
    }
    Ok(())
}

fn expect_main_keyword(token: &Token) -> (r: Result<(), CompileError>)
    ensures
        r is Ok <==> is_word(token@, TokenType::IDENTIFIER, "main"@),
        r matches Err(e) ==> e@ == (CompileErrorView::UnexpectedToken {
            got: token@,
            expected: Expected::Main,
        }),
{
    if !token_is_word(token, TokenType::IDENTIFIER, "main") {
        return Err(CompileError::UnexpectedToken { got: token.clone(), expected: Expected::Main });
    }
    Ok(())
}

fn expect_void_keyword(token: &Token) -> (r: Result<(), CompileError>)
    ensures
        r is Ok <==> is_word(token@, TokenType::KEYWORD, "void"@),
        r matches Err(e) ==> e@ == (CompileErrorView::UnexpectedToken {
            got: token@,
            expected: Expected::Void,
        }),
{
    if !token_is_word(token, TokenType::KEYWORD, "void") {
        return Err(CompileError::UnexpectedToken { got: token.clone(), expected: Expected::Void });
    }
    Ok(())
}

fn expect_identifier(token: &Token, expected: Option<&str>) -> (r: Result<(), CompileError>)
    ensures
        r is Ok <==> token@.token_type == TokenType::IDENTIFIER && (expected matches Some(name)
            ==> token@.value == name@),
        r matches Err(e) ==> e@ == (CompileErrorView::UnexpectedToken {
            got: token@,
            expected: Expected::Identifier,
        }),
{
    let fits = match expected {
        Some(name) => token_is_word(token, TokenType::IDENTIFIER, name),
        None => token.token_type == TokenType::IDENTIFIER,
    };
    if !fits {
        return Err(
            CompileError::UnexpectedToken { got: token.clone(), expected: Expected::Identifier },
        );
    }
    Ok(())
}

fn expect_token_type(token: &Token, token_type: TokenType) -> (r: Result<(), CompileError>)
    ensures
        r is Ok <==> token@.token_type == token_type,
        r matches Err(e) ==> e@ == (CompileErrorView::UnexpectedToken {
            got: token@,
            expected: Expected::Token(token_type),
        }),
{
    if token.token_type != token_type {
        return Err(
            CompileError::UnexpectedToken {
                got: token.clone(),
                expected: Expected::Token(token_type),
            },
        );
    }
    Ok(())
}

/// Takes a first token of the given type off.
fn take_token(tokens: &mut Vec<Token>, token_type: TokenType) -> (r: Result<(), CompileError>)
    ensures
        match r {
            Ok(_) => take_token_spec(token_views(old(tokens)@), token_type) == Ok::<
                Seq<TokenView>,
                CompileErrorView,
            >(token_views(final(tokens)@)) && final(tokens)@.len() == old(tokens)@.len() - 1,
            Err(e) => take_token_spec(token_views(old(tokens)@), token_type) == Err::<
                Seq<TokenView>,
                CompileErrorView,
            >(e@),
        },
{
    if tokens.len() == 0 {
        return Err(CompileError::UnexpectedEOF { expected: Expected::Token(token_type) });
    }
    let token = pop_front(tokens);
    expect_token_type(&token, token_type)
}

/// The infix operator that the token writes, if any.
fn parse_op(token: &Token) -> (r: Option<BinaryOp>)
    ensures
        r == binary_op_of(token@.token_type),
{
    match token.token_type {
        TokenType::PLUS => Some(BinaryOp::Add),
        TokenType::NegationOp => Some(BinaryOp::Subtract),
        TokenType::STAR => Some(BinaryOp::Multiply),
        TokenType::SLASH => Some(BinaryOp::Divide),
        TokenType::MODULUS => Some(BinaryOp::Modulo),
        TokenType::AMPERSAND => Some(BinaryOp::BitwiseAnd),
        TokenType::PIPE => Some(BinaryOp::BitwiseOr),
        TokenType::CARET => Some(BinaryOp::BitwiseXor),
        TokenType::LeftShift => Some(BinaryOp::LeftShift),
        TokenType::RightShift => Some(BinaryOp::RightShift),
        TokenType::Equal => Some(BinaryOp::Equal),
        TokenType::NotEqual => Some(BinaryOp::NotEqual),
        TokenType::GreaterThan => Some(BinaryOp::GreaterThan),
        TokenType::LessThan => Some(BinaryOp::LessThan),
        TokenType::GreaterThanOrEqual => Some(BinaryOp::GreaterThanOrEqual),
        TokenType::LessThanOrEqual => Some(BinaryOp::LessThanOrEqual),
        TokenType::LogicalAnd => Some(BinaryOp::LogicalAnd),
        TokenType::LogicalOr => Some(BinaryOp::LogicalOr),
        TokenType::Assignment => Some(BinaryOp::Assignment),
        _ => None,
    }
}

/// How tightly an operator binds.
pub fn get_operator_precedence(op: &BinaryOp) -> (p: u8)
    ensures
        p as int == precedence(*op),
{
    match op {
        BinaryOp::Multiply | BinaryOp::Divide | BinaryOp::Modulo => 50,
        BinaryOp::Add | BinaryOp::Subtract => 45,
        BinaryOp::LeftShift | BinaryOp::RightShift => 45,
        BinaryOp::BitwiseAnd => 44,
        BinaryOp::BitwiseXor => 43,
        BinaryOp::BitwiseOr => 42,
        BinaryOp::GreaterThan
        | BinaryOp::LessThan
        | BinaryOp::GreaterThanOrEqual
        | BinaryOp::LessThanOrEqual => 35,
        BinaryOp::Equal | BinaryOp::NotEqual => 30,
        BinaryOp::LogicalAnd => 10,
        BinaryOp::LogicalOr => 5,
        BinaryOp::Assignment => 1,
    }
}

/// Which way an operator groups.
pub fn get_associativity(op: &BinaryOp) -> (a: Associativity)
    ensures
        a == associativity(*op),
{
    match op {
        BinaryOp::Assignment => Associativity::Right,
        _ => Associativity::Left,
    }
}

/// Parses the factor at the start of the tokens and takes its tokens off.
pub fn parse_factor(tokens: &mut Vec<Token>) -> (r: Result<Factor, CompileError>)
    ensures
        parsed_as(parse_factor_spec(token_views(old(tokens)@)), r, final(tokens)@),
        r is Ok ==> final(tokens)@.len() < old(tokens)@.len(),
    decreases old(tokens)@.len(), 0int,
{
    if tokens.len() == 0 {
        return Err(CompileError::UnexpectedEOF { expected: Expected::Expression });
    }
    let ghost all = token_views(tokens@);
    proof {
        lemma_factor_consumes(all);
    }
    let token = pop_front(tokens);
    match token.token_type {
        TokenType::CONSTANT => {
            match parse_i32(token.value.as_str()) {
                Some(value) => Ok(Factor::Int(value)),
                None => Err(
                    CompileError::UnexpectedToken { got: token, expected: Expected::Expression },
                ),
            }
        },
        TokenType::IDENTIFIER => Ok(Factor::Var(token.value)),
        TokenType::NegationOp => {
            match parse_factor(tokens) {
                Ok(inner) => Ok(Factor::Unary(UnaryOp::Negation, Box::new(inner))),
                Err(e) => Err(e),
            }
        },
        TokenType::TildeOp => {
            match parse_factor(tokens) {
                Ok(inner) => Ok(Factor::Unary(UnaryOp::BitwiseComplement, Box::new(inner))),
                Err(e) => Err(e),
            }
        },
        TokenType::LogicalNot => {
            match parse_factor(tokens) {
                Ok(inner) => Ok(Factor::Unary(UnaryOp::LogicalNot, Box::new(inner))),
                Err(e) => Err(e),
            }
        },
        TokenType::OpenParen => {
            let inner = match parse_expression(tokens, 0) {
                Ok(inner) => inner,
                Err(e) => {
                    return Err(e);
                },
            };
            match take_token(tokens, TokenType::CloseParen) {
                Ok(_) => Ok(Factor::Parenthesized(Box::new(inner))),
                Err(e) => Err(e),
            }
        },
        _ => Err(CompileError::UnexpectedToken { got: token, expected: Expected::Expression }),
    }
}

/// Parses the longest expression at the start of the tokens whose
/// operators outside parentheses have at least the precedence
/// `min_precedence`, and takes its tokens off.
pub fn parse_expression(tokens: &mut Vec<Token>, min_precedence: u8) -> (r: Result<
    Exp,
    CompileError,
>)
    ensures
        parsed_as(
            parse_expression_spec(token_views(old(tokens)@), min_precedence as int),
            r,
            final(tokens)@,
        ),
        r is Ok ==> final(tokens)@.len() < old(tokens)@.len(),
    decreases old(tokens)@.len(), 2int,
{
    let ghost all = token_views(tokens@);
    let first = match parse_factor(tokens) {
        Ok(first) => first,
        Err(e) => {
            return Err(e);
        },
    };
    let mut left = Exp::Factor(first);
    while tokens.len() > 0
        invariant
            tokens@.len() < old(tokens)@.len(),
            all == token_views(old(tokens)@),
            parse_expression_spec(all, min_precedence as int) == climb_spec(
                left@,
                token_views(tokens@),
                min_precedence as int,
            ),
        decreases tokens@.len(),
    {
        let op = match parse_op(&tokens[0]) {
            Some(op) => op,
            None => {
                return Ok(left);
            },
        };
        let precedence: u8 = get_operator_precedence(&op);
        if precedence < min_precedence {
            return Ok(left);
        }
        let ghost here = token_views(tokens@);
        let ghost before = left@;
        let _ = pop_front(tokens);
        proof {
            lemma_expression_consumes(here.drop_first(), right_operand_precedence(op));
        }
        match get_associativity(&op) {
            Associativity::Right => {
                let right = match parse_expression(tokens, precedence) {
                    Ok(right) => right,
                    Err(e) => {
                        return Err(e);
                    },
                };
                left = Exp::Assignment(Box::new(left), Box::new(right));
            },
            Associativity::Left => {
                let right = match parse_expression(tokens, precedence + 1) {
                    Ok(right) => right,
                    Err(e) => {
                        return Err(e);
                    },
                };
                left = Exp::Binary(Box::new(left), op, Box::new(right));
            },
        }
    }
    Ok(left)
}

/// Parses a whole expression and the `;` behind it.
fn parse_terminated(tokens: &mut Vec<Token>) -> (r: Result<Exp, CompileError>)
    ensures
        parsed_as(parse_terminated_spec(token_views(old(tokens)@)), r, final(tokens)@),
        r is Ok ==> final(tokens)@.len() < old(tokens)@.len(),
{
    let e = match parse_expression(tokens, 0) {
        Ok(e) => e,
        Err(e) => {
            return Err(e);
        },
    };
    match take_token(tokens, TokenType::SEMICOLON) {
        Ok(_) => Ok(e),
        Err(e) => Err(e),
    }
}

/// Parses a declaration: `int`, a name, an optional `=` with an
/// expression, and `;`.
pub fn parse_declaration(tokens: &mut Vec<Token>) -> (r: Result<Declaration, CompileError>)
    ensures
        parsed_as(parse_declaration_spec(token_views(old(tokens)@)), r, final(tokens)@),
        r is Ok ==> final(tokens)@.len() < old(tokens)@.len(),
{
    if tokens.len() == 0 {
        return Err(CompileError::UnexpectedEOF { expected: Expected::Int });
    }
    let int_token = pop_front(tokens);
    match expect_int_keyword(&int_token) {
        Ok(_) => {},
        Err(e) => {
            return Err(e);
        },
    }
    if tokens.len() == 0 {
        return Err(CompileError::UnexpectedEOF { expected: Expected::Identifier });
    }
    let name_token = pop_front(tokens);
    match expect_identifier(&name_token, None) {
        Ok(_) => {},
        Err(e) => {
            return Err(e);
        },
    }
    if tokens.len() > 0 && tokens[0].token_type == TokenType::Assignment {
        let _ = pop_front(tokens);
        match parse_terminated(tokens) {
            Ok(init) => Ok(Declaration::Declaration(name_token.value, Some(init))),
            Err(e) => Err(e),
        }
    } else {
        match take_token(tokens, TokenType::SEMICOLON) {
            Ok(_) => Ok(Declaration::Declaration(name_token.value, None)),
            Err(e) => Err(e),
        }
    }
}

/// Parses a statement: `;`, `return` with an expression, or an expression.
pub fn parse_statement(tokens: &mut Vec<Token>) -> (r: Result<Statement, CompileError>)
    ensures
        parsed_as(parse_statement_spec(token_views(old(tokens)@)), r, final(tokens)@),
        r is Ok ==> final(tokens)@.len() < old(tokens)@.len(),
{
    if tokens.len() == 0 {
        return Err(CompileError::UnexpectedEOF { expected: Expected::Statement });
    }
    if tokens[0].token_type == TokenType::SEMICOLON {
        let _ = pop_front(tokens);
        Ok(Statement::Null)
    } else if token_is_word(&tokens[0], TokenType::KEYWORD, "return") {
        let _ = pop_front(tokens);
        match parse_terminated(tokens) {
            Ok(e) => Ok(Statement::Return(e)),
            Err(e) => Err(e),
        }
    } else {
        match parse_terminated(tokens) {
            Ok(e) => Ok(Statement::ExpressionStatement(e)),
            Err(e) => Err(e),
        }
    }
}

/// Parses one block item: a declaration where the first token is the
/// keyword `int`, a statement otherwise.
pub fn parse_block_items(tokens: &mut Vec<Token>) -> (r: Result<BlockItem, CompileError>)
    ensures
        parsed_as(parse_block_item_spec(token_views(old(tokens)@)), r, final(tokens)@),
        r is Ok ==> final(tokens)@.len() < old(tokens)@.len(),
{
    if tokens.len() > 0 && token_is_word(&tokens[0], TokenType::KEYWORD, "int") {
        match parse_declaration(tokens) {
            Ok(declaration) => Ok(BlockItem::Declaration(declaration)),
            Err(e) => Err(e),
        }
    } else {
        match parse_statement(tokens) {
            Ok(statement) => Ok(BlockItem::Statement(statement)),
            Err(e) => Err(e),
        }
    }
}

/// The items found so far, followed by those that the rest gives.
pub open spec fn prepend_items(found: Seq<BlockItemView>, rest: Parsed<Seq<BlockItemView>>) -> Parsed<
    Seq<BlockItemView>,
> {
    match rest {
        Ok((items, tokens)) => Ok((found + items, tokens)),
        Err(e) => Err(e),
    }
}

/// Takes the header `int main ( void ) {` off.
fn parse_header(tokens: &mut Vec<Token>) -> (r: Result<String, CompileError>)
    ensures
        match r {
            Ok(name) => parse_header_spec(token_views(old(tokens)@)) == Ok::<
                Seq<TokenView>,
                CompileErrorView,
            >(token_views(final(tokens)@)) && name@ == "main"@,
            Err(e) => parse_header_spec(token_views(old(tokens)@)) == Err::<
                Seq<TokenView>,
                CompileErrorView,
            >(e@),
        },
{
    if tokens.len() == 0 {
        return Err(CompileError::UnexpectedEOF { expected: Expected::Int });
    }
    match expect_int_keyword(&pop_front(tokens)) {
        Ok(_) => {},
        Err(e) => {
            return Err(e);
        },
    }
    if tokens.len() == 0 {
        return Err(CompileError::UnexpectedEOF { expected: Expected::Main });
    }
    let name_token = pop_front(tokens);
    match expect_main_keyword(&name_token) {
        Ok(_) => {},
        Err(e) => {
            return Err(e);
        },
    }
    match take_token(tokens, TokenType::OpenParen) {
        Ok(_) => {},
        Err(e) => {
            return Err(e);
        },
    }
    if tokens.len() == 0 {
        return Err(CompileError::UnexpectedEOF { expected: Expected::Void });
    }
    match expect_void_keyword(&pop_front(tokens)) {
        Ok(_) => {},
        Err(e) => {
            return Err(e);
        },
    }
    match take_token(tokens, TokenType::CloseParen) {
        Ok(_) => {},
        Err(e) => {
            return Err(e);
        },
    }
    match take_token(tokens, TokenType::OpenBrace) {
        Ok(_) => Ok(name_token.value),
        Err(e) => Err(e),
    }
}

/// Parses the function `int main(void) { ... }`; nothing may follow it.
pub fn parse_function_declaration(tokens: &mut Vec<Token>) -> (r: Result<
    FunctionDeclaration,
    CompileError,
>)
    ensures
        match r {
            Ok(function) => parse_function_spec(token_views(old(tokens)@)) == Ok::<
                FunctionDeclarationView,
                CompileErrorView,
            >(function@) && final(tokens)@.len() == 0,
            Err(e) => parse_function_spec(token_views(old(tokens)@)) == Err::<
                FunctionDeclarationView,
                CompileErrorView,
            >(e@),
        },
{
    let name = match parse_header(tokens) {
        Ok(name) => name,
        Err(e) => {
            return Err(e);
        },
    };
    let ghost at_body = token_views(tokens@);
    let mut block_items: Vec<BlockItem> = Vec::new();
    proof {
        assert(block_item_views(block_items@) =~= Seq::<BlockItemView>::empty());
        if let Ok((items, rest)) = parse_body_spec(at_body) {
            assert(Seq::<BlockItemView>::empty() + items =~= items);
        }
    }
    while tokens.len() > 0 && tokens[0].token_type != TokenType::CloseBrace
        invariant
            parse_header_spec(token_views(old(tokens)@)) == Ok::<Seq<TokenView>, CompileErrorView>(
                at_body,
            ),
            parse_body_spec(at_body) == prepend_items(
                block_item_views(block_items@),
                parse_body_spec(token_views(tokens@)),
            ),
        decreases tokens@.len(),
    {
        let ghost here = token_views(tokens@);
        let ghost found = block_item_views(block_items@);
        assert(here[0].token_type != TokenType::CloseBrace);
        let item = match parse_block_items(tokens) {
            Ok(item) => item,
            Err(e) => {
                return Err(e);
            },
        };
        proof {
            assert(block_item_views(block_items@.push(item)) =~= found.push(item@));
            if let Ok((items, rest)) = parse_body_spec(token_views(tokens@)) {
                assert(found + (seq![item@] + items) =~= found.push(item@) + items);
            }
        }
        block_items.push(item);
    }
    proof {
        assert(block_item_views(block_items@) + Seq::<BlockItemView>::empty()
            =~= block_item_views(block_items@));
    }
    match take_token(tokens, TokenType::CloseBrace) {
        Ok(_) => {},
        Err(e) => {
            return Err(e);
        },
    }
    if tokens.len() > 0 {
        return Err(CompileError::TrailingTokens { token: tokens[0].clone() });
    }
    Ok(FunctionDeclaration::Function(name, block_items))
}

/// Parses a whole program: the function `main` and nothing else.
pub fn parse_program(tokens: &mut Vec<Token>) -> (r: Result<Program, CompileError>)
    ensures
        match r {
            Ok(program) => parse_program_spec(token_views(old(tokens)@)) == Ok::<
                ProgramView,
                CompileErrorView,
            >(program@) && final(tokens)@.len() == 0,
            Err(e) => parse_program_spec(token_views(old(tokens)@)) == Err::<
                ProgramView,
                CompileErrorView,
            >(e@),
        },
{
    match parse_function_declaration(tokens) {
        Ok(function) => Ok(Program::Program(function)),
        Err(e) => Err(e),
    }
}

/// The resolved program that the tokens write.
pub open spec fn parse_and_resolve_spec(tokens: Seq<TokenView>) -> Result<
    ProgramView,
    CompileErrorView,
> {
    match parse_program_spec(tokens) {
        Err(e) => Err(e),
        Ok(program) => resolve_program_spec(program),
    }
}

/// Parses the tokens and resolves the variables of the program. The first
/// error of the parser, or else of the resolver, is returned.
pub fn parse_and_resolve_program(tokens: &mut Vec<Token>) -> (r: Result<Program, CompileError>)
    ensures
        match r {
            Ok(program) => parse_and_resolve_spec(token_views(old(tokens)@)) == Ok::<
                ProgramView,
                CompileErrorView,
            >(program@) && final(tokens)@.len() == 0,
            Err(e) => parse_and_resolve_spec(token_views(old(tokens)@)) == Err::<
                ProgramView,
                CompileErrorView,
            >(e@),
        },
{
    let parsed_program = match parse_program(tokens) {
        Ok(program) => program,
        Err(e) => {
            return Err(e);
        },
    };
    resolve_program(parsed_program)
}

/// Whether `=` stands in the factor only as an assignment, never as the
/// operator of a binary expression.
pub open spec fn factor_is_plain(f: FactorView) -> bool
    decreases f,
{
    match f {
        FactorView::Int(_) => true,
        FactorView::Unary(_, inner) => factor_is_plain(*inner),
        FactorView::Var(_) => true,
        FactorView::Parenthesized(inner) => exp_is_plain(*inner),
    }
}

/// Whether `=` stands in the expression only as an assignment, never as
/// the operator of a binary expression.
pub open spec fn exp_is_plain(e: ExpView) -> bool
    decreases e,
{
    match e {
        ExpView::Factor(f) => factor_is_plain(f),
        ExpView::Binary(left, op, right) => op != BinaryOp::Assignment && exp_is_plain(*left)
            && exp_is_plain(*right),
        ExpView::Assignment(left, right) => exp_is_plain(*left) && exp_is_plain(*right),
    }
}

/// Whether every expression of the block item is plain.
pub open spec fn item_is_plain(item: BlockItemView) -> bool {
    match item {
        BlockItemView::Declaration(d) => d.init matches Some(init) ==> exp_is_plain(init),
        BlockItemView::Statement(StatementView::Return(e)) => exp_is_plain(e),
        BlockItemView::Statement(StatementView::ExpressionStatement(e)) => exp_is_plain(e),
        BlockItemView::Statement(StatementView::Null) => true,
    }
}

/// Whether every expression of the body is plain.
pub open spec fn body_is_plain(items: Seq<BlockItemView>) -> bool {
    forall|i: int| 0 <= i < items.len() ==> item_is_plain(#[trigger] items[i])
}

/// The parser makes an assignment of every `=`: a parsed factor is plain.
pub proof fn lemma_parsed_factor_is_plain(tokens: Seq<TokenView>)
    ensures
        parse_factor_spec(tokens) matches Ok((f, _)) ==> factor_is_plain(f),
    decreases tokens.len(), 0int,
{
    if tokens.len() > 0 {
        let rest = tokens.drop_first();
        match tokens[0].token_type {
            TokenType::NegationOp | TokenType::TildeOp | TokenType::LogicalNot => {
                lemma_parsed_factor_is_plain(rest);
            },
            TokenType::OpenParen => {
                lemma_parsed_expression_is_plain(rest, 0);
            },
            _ => {},
        }
    }
}

/// The parser makes an assignment of every `=`: a parsed expression is plain.
pub proof fn lemma_parsed_expression_is_plain(tokens: Seq<TokenView>, min_precedence: int)
    ensures
        parse_expression_spec(tokens, min_precedence) matches Ok((e, _)) ==> exp_is_plain(e),
    decreases tokens.len(), 2int,
{
    lemma_parsed_factor_is_plain(tokens);
    if let Ok((first, rest)) = parse_factor_spec(tokens) {
        if rest.len() < tokens.len() {
            lemma_climbed_is_plain(ExpView::Factor(first), rest, min_precedence);
        }
    }
}

/// Extending a plain expression gives a plain expression.
pub proof fn lemma_climbed_is_plain(left: ExpView, tokens: Seq<TokenView>, min_precedence: int)
    requires
        exp_is_plain(left),
    ensures
        climb_spec(left, tokens, min_precedence) matches Ok((e, _)) ==> exp_is_plain(e),
    decreases tokens.len(), 1int,
{
    if tokens.len() > 0 {
        if let Some(op) = binary_op_of(tokens[0].token_type) {
            if precedence(op) >= min_precedence {
                let next = right_operand_precedence(op);
                lemma_parsed_expression_is_plain(tokens.drop_first(), next);
                if let Ok((right, rest)) = parse_expression_spec(tokens.drop_first(), next) {
                    if rest.len() < tokens.len() {
                        lemma_climbed_is_plain(combine(left, op, right), rest, min_precedence);
                    }
                }
            }
        }
    }
}

/// A parsed block item is plain.
pub proof fn lemma_parsed_item_is_plain(tokens: Seq<TokenView>)
    ensures
        parse_block_item_spec(tokens) matches Ok((item, _)) ==> item_is_plain(item),
{
    if tokens.len() > 0 {
        lemma_parsed_expression_is_plain(tokens, 0);
        lemma_parsed_expression_is_plain(tokens.drop_first(), 0);
    }
    if tokens.len() > 2 {
        lemma_parsed_expression_is_plain(tokens.drop_first().drop_first().drop_first(), 0);
    }
}

/// A parsed body is plain.
pub proof fn lemma_parsed_body_is_plain(tokens: Seq<TokenView>)
    ensures
        parse_body_spec(tokens) matches Ok((items, _)) ==> body_is_plain(items),
    decreases tokens.len(),
{
    if tokens.len() > 0 && tokens[0].token_type != TokenType::CloseBrace {
        lemma_parsed_item_is_plain(tokens);
        if let Ok((item, rest)) = parse_block_item_spec(tokens) {
            if rest.len() < tokens.len() {
                lemma_parsed_body_is_plain(rest);
                if let Ok((items, _)) = parse_body_spec(rest) {
                    let all = seq![item] + items;
                    assert forall|i: int| 0 <= i < all.len() implies item_is_plain(
                        #[trigger] all[i],
                    ) by {
                        if i > 0 {
                            assert(all[i] == items[i - 1]);
                        }
                    }
                }
            }
        }
    }
}

/// In a parsed program `=` stands only as an assignment.
pub proof fn lemma_parsed_program_is_plain(tokens: Seq<TokenView>)
    ensures
        parse_program_spec(tokens) matches Ok(program) ==> body_is_plain(program.function.body),
{
    if let Ok(at_body) = parse_header_spec(tokens) {
        lemma_parsed_body_is_plain(at_body);
    }
}

/// Whether the error is one that the parser reports.
pub open spec fn is_parser_error(e: CompileErrorView) -> bool {
    e is UnexpectedToken || e is UnexpectedEOF || e is TrailingTokens
}

/// A factor fails to parse only on an unexpected token or end.
pub proof fn lemma_factor_errors(tokens: Seq<TokenView>)
    ensures
        parse_factor_spec(tokens) matches Err(e) ==> is_parser_error(e),
    decreases tokens.len(), 0int,
{
    if tokens.len() > 0 {
        let rest = tokens.drop_first();
        match tokens[0].token_type {
            TokenType::NegationOp | TokenType::TildeOp | TokenType::LogicalNot => {
                lemma_factor_errors(rest);
            },
            TokenType::OpenParen => {
                lemma_expression_errors(rest, 0);
            },
            _ => {},
        }
    }
}

/// An expression fails to parse only on an unexpected token or end.
pub proof fn lemma_expression_errors(tokens: Seq<TokenView>, min_precedence: int)
    ensures
        parse_expression_spec(tokens, min_precedence) matches Err(e) ==> is_parser_error(e),
    decreases tokens.len(), 2int,
{
    lemma_factor_errors(tokens);
    lemma_factor_consumes(tokens);
    if let Ok((first, rest)) = parse_factor_spec(tokens) {
        lemma_climb_errors(ExpView::Factor(first), rest, min_precedence);
    }
}

/// Extending an expression fails only on an unexpected token or end.
pub proof fn lemma_climb_errors(left: ExpView, tokens: Seq<TokenView>, min_precedence: int)
    ensures
        climb_spec(left, tokens, min_precedence) matches Err(e) ==> is_parser_error(e),
    decreases tokens.len(), 1int,
{
    if tokens.len() > 0 {
        if let Some(op) = binary_op_of(tokens[0].token_type) {
            if precedence(op) >= min_precedence {
                let next = right_operand_precedence(op);
                lemma_expression_errors(tokens.drop_first(), next);
                lemma_expression_consumes(tokens.drop_first(), next);
                if let Ok((right, rest)) = parse_expression_spec(tokens.drop_first(), next) {
                    lemma_climb_errors(combine(left, op, right), rest, min_precedence);
                }
            }
        }
    }
}

/// A block item fails to parse only on an unexpected token or end.
pub proof fn lemma_block_item_errors(tokens: Seq<TokenView>)
    ensures
        parse_block_item_spec(tokens) matches Err(e) ==> is_parser_error(e),
{
    if tokens.len() > 0 {
        lemma_expression_errors(tokens, 0);
        lemma_expression_errors(tokens.drop_first(), 0);
    }
    if tokens.len() > 2 {
        lemma_expression_errors(tokens.drop_first().drop_first().drop_first(), 0);
    }
}

/// A body fails to parse only on an unexpected token or end.
pub proof fn lemma_body_errors(tokens: Seq<TokenView>)
    ensures
        parse_body_spec(tokens) matches Err(e) ==> is_parser_error(e),
    decreases tokens.len(),
{
    if tokens.len() > 0 && tokens[0].token_type != TokenType::CloseBrace {
        lemma_block_item_errors(tokens);
        lemma_block_item_consumes(tokens);
        if let Ok((_, rest)) = parse_block_item_spec(tokens) {
            lemma_body_errors(rest);
        }
    }
}

/// The parser fails only on an unexpected token, an unexpected end, or
/// tokens behind the program.
pub proof fn lemma_parser_errors(tokens: Seq<TokenView>)
    ensures
        parse_program_spec(tokens) matches Err(e) ==> is_parser_error(e),
{
    if let Ok(at_body) = parse_header_spec(tokens) {
        lemma_body_errors(at_body);
    }
}

} // verus!
