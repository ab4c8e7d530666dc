//! Reading a syntax tree back: the tokens that a tree is written with.
//! What the parser makes of some tokens reads back as those tokens, so
//! the parser neither drops a token, nor invents one, nor changes their
//! order.
use vstd::prelude::*;
use crate::lex::{TokenType, TokenView};
use crate::error::Expected;
use crate::parser::{
    binary_op_of, climb_spec, combine, parse_block_item_spec, parse_body_spec,
    parse_expression_spec, parse_factor_spec, parse_program_spec, parse_terminated_spec,
    precedence, right_operand_precedence, take_token_spec, take_word_spec, BinaryOp,
    BlockItemView, DeclarationView, ExpView, FactorView, ProgramView, StatementView, UnaryOp,
};
use crate::text::digits_value;

verus! {

/// What the parser reads of a token: of a constant its number, of an
/// identifier or keyword its type and text, of any other token its type.
pub ghost enum Mark {
    Number(nat),
    Word(TokenType, Seq<char>),
    Sign(TokenType),
}

/// What the parser reads of the token.
pub open spec fn mark_of(token: TokenView) -> Mark {
    match token.token_type {
        TokenType::CONSTANT => Mark::Number(digits_value(token.value)),
        TokenType::IDENTIFIER => Mark::Word(TokenType::IDENTIFIER, token.value),
        TokenType::KEYWORD => Mark::Word(TokenType::KEYWORD, token.value),
        other => Mark::Sign(other),
    }
}

/// What the parser reads of the tokens.
pub open spec fn marks(tokens: Seq<TokenView>) -> Seq<Mark> {
    Seq::new(tokens.len(), |i: int| mark_of(tokens[i]))
}

/// The type of the token that writes a prefix operator.
pub open spec fn unary_token(op: UnaryOp) -> TokenType {
    match op {
        UnaryOp::Negation => TokenType::NegationOp,
        UnaryOp::BitwiseComplement => TokenType::TildeOp,
        UnaryOp::LogicalNot => TokenType::LogicalNot,
    }
}

/// The type of the token that writes an infix operator.
pub open spec fn binary_token(op: BinaryOp) -> TokenType {
    match op {
        BinaryOp::Add => TokenType::PLUS,
        BinaryOp::Subtract => TokenType::NegationOp,
        BinaryOp::Multiply => TokenType::STAR,
        BinaryOp::Divide => TokenType::SLASH,
        BinaryOp::Modulo => TokenType::MODULUS,
        BinaryOp::BitwiseAnd => TokenType::AMPERSAND,
        BinaryOp::BitwiseOr => TokenType::PIPE,
        BinaryOp::BitwiseXor => TokenType::CARET,
        BinaryOp::LeftShift => TokenType::LeftShift,
        BinaryOp::RightShift => TokenType::RightShift,
        BinaryOp::Equal => TokenType::Equal,
        BinaryOp::NotEqual => TokenType::NotEqual,
        BinaryOp::GreaterThan => TokenType::GreaterThan,
        BinaryOp::LessThan => TokenType::LessThan,
        BinaryOp::GreaterThanOrEqual => TokenType::GreaterThanOrEqual,
        BinaryOp::LessThanOrEqual => TokenType::LessThanOrEqual,
        BinaryOp::LogicalAnd => TokenType::LogicalAnd,
        BinaryOp::LogicalOr => TokenType::LogicalOr,
        BinaryOp::Assignment => TokenType::Assignment,
    }
}

/// The marks that a factor is written with.
pub open spec fn factor_marks(f: FactorView) -> Seq<Mark>
    decreases f,
{
    match f {
        FactorView::Int(k) => seq![Mark::Number(k as nat)],
        FactorView::Unary(op, inner) => seq![Mark::Sign(unary_token(op))] + factor_marks(*inner),
        FactorView::Var(name) => seq![Mark::Word(TokenType::IDENTIFIER, name)],
        FactorView::Parenthesized(inner) => seq![Mark::Sign(TokenType::OpenParen)] + exp_marks(
            *inner,
        ) + seq![Mark::Sign(TokenType::CloseParen)],
    }
}

/// The marks that an expression is written with.
pub open spec fn exp_marks(e: ExpView) -> Seq<Mark>
    decreases e,
{
    match e {
        ExpView::Factor(f) => factor_marks(f),
        ExpView::Binary(left, op, right) => exp_marks(*left) + seq![Mark::Sign(binary_token(op))]
            + exp_marks(*right),
        ExpView::Assignment(left, right) => exp_marks(*left) + seq![
            Mark::Sign(TokenType::Assignment),
        ] + exp_marks(*right),
    }
}

/// The marks that a statement is written with.
pub open spec fn statement_marks(s: StatementView) -> Seq<Mark> {
    match s {
        StatementView::Return(e) => seq![Mark::Word(TokenType::KEYWORD, "return"@)] + exp_marks(e)
            + seq![Mark::Sign(TokenType::SEMICOLON)],
        StatementView::ExpressionStatement(e) => exp_marks(e) + seq![
            Mark::Sign(TokenType::SEMICOLON),
        ],
        StatementView::Null => seq![Mark::Sign(TokenType::SEMICOLON)],
    }
}

/// The marks that a declaration is written with.
pub open spec fn declaration_marks(d: DeclarationView) -> Seq<Mark> {
    let head = seq![
        Mark::Word(TokenType::KEYWORD, "int"@),
        Mark::Word(TokenType::IDENTIFIER, d.name),
    ];
    match d.init {
        Some(init) => head + seq![Mark::Sign(TokenType::Assignment)] + exp_marks(init) + seq![
            Mark::Sign(TokenType::SEMICOLON),
        ],
        None => head + seq![Mark::Sign(TokenType::SEMICOLON)],
    }
}

/// The marks that a block item is written with.
pub open spec fn item_marks(item: BlockItemView) -> Seq<Mark> {
    match item {
        BlockItemView::Declaration(d) => declaration_marks(d),
        BlockItemView::Statement(s) => statement_marks(s),
    }
}

/// The marks that the block items are written with, one behind the other.
pub open spec fn body_marks(items: Seq<BlockItemView>) -> Seq<Mark>
    decreases items.len(),
{
    if items.len() == 0 {
        Seq::empty()
    } else {
        item_marks(items[0]) + body_marks(items.drop_first())
    }
}

/// The marks that the header `int main ( void ) {` is written with.
pub open spec fn header_marks() -> Seq<Mark> {
    seq![
        Mark::Word(TokenType::KEYWORD, "int"@),
        Mark::Word(TokenType::IDENTIFIER, "main"@),
        Mark::Sign(TokenType::OpenParen),
        Mark::Word(TokenType::KEYWORD, "void"@),
        Mark::Sign(TokenType::CloseParen),
        Mark::Sign(TokenType::OpenBrace),
    ]
}

/// The marks that a program is written with.
pub open spec fn program_marks(p: ProgramView) -> Seq<Mark> {
    header_marks() + body_marks(p.function.body) + seq![Mark::Sign(TokenType::CloseBrace)]
}

/// Whether `rest` is what is left of `tokens` behind a prefix whose marks
/// are `read`.
pub open spec fn reads(tokens: Seq<TokenView>, rest: Seq<TokenView>, read: Seq<Mark>) -> bool {
    &&& rest.len() <= tokens.len()
    &&& rest == tokens.subrange(tokens.len() - rest.len(), tokens.len() as int)
    &&& marks(tokens.subrange(0, tokens.len() - rest.len())) == read
}

/// Reading nothing leaves everything.
pub proof fn lemma_reads_nothing(tokens: Seq<TokenView>)
    ensures
        reads(tokens, tokens, Seq::empty()),
{
    assert(tokens.subrange(0, tokens.len() as int) =~= tokens);
    assert(marks(tokens.subrange(0, 0)) =~= Seq::<Mark>::empty());
}

/// Reading the first token leaves the others.
pub proof fn lemma_reads_one(tokens: Seq<TokenView>)
    requires
        tokens.len() > 0,
    ensures
        reads(tokens, tokens.drop_first(), seq![mark_of(tokens[0])]),
{
    assert(tokens.drop_first() =~= tokens.subrange(1, tokens.len() as int));
    assert(marks(tokens.subrange(0, 1)) =~= seq![mark_of(tokens[0])]);
}

/// Reading on from where a first reading stopped reads both, one behind
/// the other.
pub proof fn lemma_reads_on(
    tokens: Seq<TokenView>,
    middle: Seq<TokenView>,
    rest: Seq<TokenView>,
    first: Seq<Mark>,
    second: Seq<Mark>,
)
    requires
        reads(tokens, middle, first),
        reads(middle, rest, second),
    ensures
        reads(tokens, rest, first + second),
{
    let a = tokens.len() - middle.len();
    let b = middle.len() - rest.len();
    assert(rest =~= tokens.subrange(tokens.len() - rest.len(), tokens.len() as int));
    let read = tokens.subrange(0, a + b);
    assert(marks(read) =~= first + second) by {
        assert(marks(read).len() == a + b);
        assert(first.len() == a);
        assert(second.len() == b);
        assert forall|i: int| 0 <= i < a + b implies marks(read)[i] == (first + second)[i] by {
            if i < a {
                assert(tokens.subrange(0, a)[i] == read[i]);
                assert(marks(tokens.subrange(0, a))[i] == first[i]);
            } else {
                assert(middle.subrange(0, b)[i - a] == read[i]);
                assert(marks(middle.subrange(0, b))[i - a] == second[i - a]);
            }
        }
    }
}

/// Taking a token of a given type reads its sign.
pub proof fn lemma_take_token_reads(tokens: Seq<TokenView>, token_type: TokenType)
    requires
        take_token_spec(tokens, token_type) is Ok,
        token_type != TokenType::CONSTANT,
        token_type != TokenType::IDENTIFIER,
        token_type != TokenType::KEYWORD,
    ensures
        reads(tokens, take_token_spec(tokens, token_type)->Ok_0, seq![Mark::Sign(token_type)]),
{
    lemma_reads_one(tokens);
}

/// Taking a word reads it.
pub proof fn lemma_take_word_reads(
    tokens: Seq<TokenView>,
    token_type: TokenType,
    word: Seq<char>,
    expected: Expected,
)
    requires
        take_word_spec(tokens, token_type, word, expected) is Ok,
        token_type == TokenType::IDENTIFIER || token_type == TokenType::KEYWORD,
    ensures
        reads(
            tokens,
            take_word_spec(tokens, token_type, word, expected)->Ok_0,
            seq![Mark::Word(token_type, word)],
        ),
{
    lemma_reads_one(tokens);
}

/// A parsed factor reads back as the tokens it was parsed from.
pub proof fn lemma_factor_reads_back(tokens: Seq<TokenView>)
    ensures
        parse_factor_spec(tokens) matches Ok((f, rest)) ==> reads(tokens, rest, factor_marks(f)),
    decreases tokens.len(), 0int,
{
    if let Ok((f, rest)) = parse_factor_spec(tokens) {
        let later = tokens.drop_first();
        lemma_reads_one(tokens);
        match tokens[0].token_type {
            TokenType::NegationOp | TokenType::TildeOp | TokenType::LogicalNot => {
                lemma_factor_reads_back(later);
                let inner = parse_factor_spec(later)->Ok_0.0;
                lemma_reads_on(
                    tokens,
                    later,
                    rest,
                    seq![mark_of(tokens[0])],
                    factor_marks(inner),
                );
            },
            TokenType::OpenParen => {
                lemma_expression_reads_back(later, 0);
                let inner = parse_expression_spec(later, 0)->Ok_0.0;
                let after = parse_expression_spec(later, 0)->Ok_0.1;
                lemma_take_token_reads(after, TokenType::CloseParen);
                lemma_reads_on(tokens, later, after, seq![mark_of(tokens[0])], exp_marks(inner));
                lemma_reads_on(
                    tokens,
                    after,
                    rest,
                    seq![mark_of(tokens[0])] + exp_marks(inner),
                    seq![Mark::Sign(TokenType::CloseParen)],
                );
            },
            _ => {},
        }
    }
}

/// A parsed expression reads back as the tokens it was parsed from.
pub proof fn lemma_expression_reads_back(tokens: Seq<TokenView>, min_precedence: int)
    ensures
        parse_expression_spec(tokens, min_precedence) matches Ok((e, rest)) ==> reads(
            tokens,
            rest,
            exp_marks(e),
        ),
    decreases tokens.len(), 2int,
{
    if let Ok((e, rest)) = parse_expression_spec(tokens, min_precedence) {
        lemma_factor_reads_back(tokens);
        let first = parse_factor_spec(tokens)->Ok_0.0;
        let middle = parse_factor_spec(tokens)->Ok_0.1;
        lemma_climb_reads_back(ExpView::Factor(first), middle, min_precedence);
        let more = choose|more: Seq<Mark>|
            reads(middle, rest, more) && exp_marks(e) == factor_marks(first) + more;
        lemma_reads_on(tokens, middle, rest, factor_marks(first), more);
    }
}

/// Extending an expression reads the tokens that it adds to the expression.
pub proof fn lemma_climb_reads_back(left: ExpView, tokens: Seq<TokenView>, min_precedence: int)
    ensures
        climb_spec(left, tokens, min_precedence) matches Ok((e, rest)) ==> exists|
            more: Seq<Mark>,
        |
            reads(tokens, rest, more) && exp_marks(e) == exp_marks(left) + more,
    decreases tokens.len(), 1int,
{
    if let Ok((e, rest)) = climb_spec(left, tokens, min_precedence) {
        let stops = tokens.len() == 0 || match binary_op_of(tokens[0].token_type) {
            None => true,
            Some(op) => precedence(op) < min_precedence,
        };
        if stops {
            lemma_reads_nothing(tokens);
            assert(exp_marks(left) + Seq::<Mark>::empty() =~= exp_marks(left));
            assert(reads(tokens, rest, Seq::<Mark>::empty()) && exp_marks(e) == exp_marks(left)
                + Seq::<Mark>::empty());
        } else {
            let op = binary_op_of(tokens[0].token_type)->Some_0;
            let later = tokens.drop_first();
            let next = right_operand_precedence(op);
            lemma_reads_one(tokens);
            lemma_expression_reads_back(later, next);
            let right = parse_expression_spec(later, next)->Ok_0.0;
            let middle = parse_expression_spec(later, next)->Ok_0.1;
            let joined = combine(left, op, right);
            lemma_climb_reads_back(joined, middle, min_precedence);
            let tail = choose|tail: Seq<Mark>|
                reads(middle, rest, tail) && exp_marks(e) == exp_marks(joined) + tail;
            let sign = seq![mark_of(tokens[0])];
            assert(sign == seq![Mark::Sign(binary_token(op))]);
            lemma_reads_on(tokens, later, middle, sign, exp_marks(right));
            lemma_reads_on(tokens, middle, rest, sign + exp_marks(right), tail);
            let more = sign + exp_marks(right) + tail;
            assert(exp_marks(joined) == exp_marks(left) + sign + exp_marks(right));
            assert(exp_marks(joined) + tail =~= exp_marks(left) + more);
            assert(reads(tokens, rest, more) && exp_marks(e) == exp_marks(left) + more);
        }
    }
}

/// An expression with its `;` reads back as the tokens it was parsed from.
pub proof fn lemma_terminated_reads_back(tokens: Seq<TokenView>)
    ensures
        parse_terminated_spec(tokens) matches Ok((e, rest)) ==> reads(
            tokens,
            rest,
            exp_marks(e) + seq![Mark::Sign(TokenType::SEMICOLON)],
        ),
{
    if let Ok((e, rest)) = parse_terminated_spec(tokens) {
        lemma_expression_reads_back(tokens, 0);
        let after = parse_expression_spec(tokens, 0)->Ok_0.1;
        lemma_take_token_reads(after, TokenType::SEMICOLON);
        lemma_reads_on(
            tokens,
            after,
            rest,
            exp_marks(e),
            seq![Mark::Sign(TokenType::SEMICOLON)],
        );
    }
}

/// A parsed block item reads back as the tokens it was parsed from.
pub proof fn lemma_item_reads_back(tokens: Seq<TokenView>)
    ensures
        parse_block_item_spec(tokens) matches Ok((item, rest)) ==> reads(
            tokens,
            rest,
            item_marks(item),
        ),
{
    if let Ok((item, rest)) = parse_block_item_spec(tokens) {
        let later = tokens.drop_first();
        lemma_reads_one(tokens);
        match item {
            BlockItemView::Statement(StatementView::Null) => {},
            BlockItemView::Statement(StatementView::Return(e)) => {
                lemma_terminated_reads_back(later);
                lemma_reads_on(
                    tokens,
                    later,
                    rest,
                    seq![mark_of(tokens[0])],
                    exp_marks(e) + seq![Mark::Sign(TokenType::SEMICOLON)],
                );
                assert(seq![mark_of(tokens[0])] + (exp_marks(e) + seq![
                    Mark::Sign(TokenType::SEMICOLON),
                ]) =~= item_marks(item));
            },
            BlockItemView::Statement(StatementView::ExpressionStatement(e)) => {
                lemma_terminated_reads_back(tokens);
            },
            BlockItemView::Declaration(d) => {
                let at_name = later;
                let after_name = at_name.drop_first();
                lemma_reads_one(at_name);
                let head = seq![
                    Mark::Word(TokenType::KEYWORD, "int"@),
                    Mark::Word(TokenType::IDENTIFIER, d.name),
                ];
                lemma_reads_on(
                    tokens,
                    at_name,
                    after_name,
                    seq![mark_of(tokens[0])],
                    seq![mark_of(at_name[0])],
                );
                assert(seq![mark_of(tokens[0])] + seq![mark_of(at_name[0])] =~= head);
                match d.init {
                    Some(init) => {
                        let at_init = after_name.drop_first();
                        lemma_reads_one(after_name);
                        lemma_terminated_reads_back(at_init);
                        let sign = seq![Mark::Sign(TokenType::Assignment)];
                        lemma_reads_on(tokens, after_name, at_init, head, sign);
                        lemma_reads_on(
                            tokens,
                            at_init,
                            rest,
                            head + sign,
                            exp_marks(init) + seq![Mark::Sign(TokenType::SEMICOLON)],
                        );
                        assert(head + sign + (exp_marks(init) + seq![
                            Mark::Sign(TokenType::SEMICOLON),
                        ]) =~= item_marks(item));
                    },
                    None => {
                        lemma_take_token_reads(after_name, TokenType::SEMICOLON);
                        lemma_reads_on(
                            tokens,
                            after_name,
                            rest,
                            head,
                            seq![Mark::Sign(TokenType::SEMICOLON)],
                        );
                    },
                }
            },
        }
    }
}

/// A parsed body reads back as the tokens it was parsed from.
pub proof fn lemma_body_reads_back(tokens: Seq<TokenView>)
    ensures
        parse_body_spec(tokens) matches Ok((items, rest)) ==> reads(
            tokens,
            rest,
            body_marks(items),
        ),
    decreases tokens.len(),
{
    if let Ok((items, rest)) = parse_body_spec(tokens) {
        if tokens[0].token_type == TokenType::CloseBrace {
            lemma_reads_nothing(tokens);
        } else {
            lemma_item_reads_back(tokens);
            let item = parse_block_item_spec(tokens)->Ok_0.0;
            let middle = parse_block_item_spec(tokens)->Ok_0.1;
            lemma_body_reads_back(middle);
            let later = parse_body_spec(middle)->Ok_0.0;
            lemma_reads_on(tokens, middle, rest, item_marks(item), body_marks(later));
            assert(items[0] == item);
            assert(items.drop_first() =~= later);
        }
    }
}

/// A parsed program reads back as the tokens it was parsed from: token
/// by token the same types in the same order, every constant with its
/// number, every identifier and keyword with its text.
pub proof fn lemma_program_reads_back(tokens: Seq<TokenView>)
    ensures
        parse_program_spec(tokens) matches Ok(program) ==> marks(tokens) == program_marks(program),
{
    if let Ok(program) = parse_program_spec(tokens) {
        let t1 = take_word_spec(tokens, TokenType::KEYWORD, "int"@, Expected::Int)->Ok_0;
        let t2 = take_word_spec(
            t1,
            TokenType::IDENTIFIER,
            "main"@,
            Expected::Main,
        )->Ok_0;
        let t3 = take_token_spec(t2, TokenType::OpenParen)->Ok_0;
        let t4 = take_word_spec(t3, TokenType::KEYWORD, "void"@, Expected::Void)->Ok_0;
        let t5 = take_token_spec(t4, TokenType::CloseParen)->Ok_0;
        let at_body = take_token_spec(t5, TokenType::OpenBrace)->Ok_0;
        let h = header_marks();
        lemma_take_word_reads(tokens, TokenType::KEYWORD, "int"@, Expected::Int);
        lemma_take_word_reads(t1, TokenType::IDENTIFIER, "main"@, Expected::Main);
        lemma_take_token_reads(t2, TokenType::OpenParen);
        lemma_take_word_reads(t3, TokenType::KEYWORD, "void"@, Expected::Void);
        lemma_take_token_reads(t4, TokenType::CloseParen);
        lemma_take_token_reads(t5, TokenType::OpenBrace);
        let m0 = seq![Mark::Word(TokenType::KEYWORD, "int"@)];
        let m1 = seq![Mark::Word(TokenType::IDENTIFIER, "main"@)];
        let m2 = seq![Mark::Sign(TokenType::OpenParen)];
        let m3 = seq![Mark::Word(TokenType::KEYWORD, "void"@)];
        let m4 = seq![Mark::Sign(TokenType::CloseParen)];
        let m5 = seq![Mark::Sign(TokenType::OpenBrace)];
        lemma_reads_on(tokens, t1, t2, m0, m1);
        lemma_reads_on(tokens, t2, t3, m0 + m1, m2);
        lemma_reads_on(tokens, t3, t4, m0 + m1 + m2, m3);
        lemma_reads_on(tokens, t4, t5, m0 + m1 + m2 + m3, m4);
        lemma_reads_on(tokens, t5, at_body, m0 + m1 + m2 + m3 + m4, m5);
        assert(m0 + m1 + m2 + m3 + m4 + m5 =~= h);
        lemma_body_reads_back(at_body);
        let body = parse_body_spec(at_body)->Ok_0.0;
        let at_brace = parse_body_spec(at_body)->Ok_0.1;
        let rest = take_token_spec(at_brace, TokenType::CloseBrace)->Ok_0;
        lemma_take_token_reads(at_brace, TokenType::CloseBrace);
        lemma_reads_on(tokens, at_body, at_brace, h, body_marks(body));
        lemma_reads_on(
            tokens,
            at_brace,
            rest,
            h + body_marks(body),
            seq![Mark::Sign(TokenType::CloseBrace)],
        );
        assert(rest.len() == 0);
        assert(tokens.subrange(0, tokens.len() as int) =~= tokens);
    }
}

} // verus!
