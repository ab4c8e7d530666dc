use c_compiler::error::CompileError;
use c_compiler::lex::{strip_comments, Lex, Token, TokenType};

fn tok(token_type: TokenType, value: &str) -> Token {
    Token { token_type, value: value.to_string() }
}

fn lex(text: &str) -> Result<Vec<Token>, CompileError> {
    Lex::new(text).get_tokens()
}

fn kinds(text: &str) -> Vec<TokenType> {
    lex(text).unwrap().iter().map(|t| t.token_type).collect()
}

#[test]
fn lexes_the_smallest_program() {
    let tokens = lex("int main(void){ return 2; }").unwrap();
    assert_eq!(
        tokens,
        vec![
            tok(TokenType::KEYWORD, "int"),
            tok(TokenType::IDENTIFIER, "main"),
            tok(TokenType::OpenParen, "("),
            tok(TokenType::KEYWORD, "void"),
            tok(TokenType::CloseParen, ")"),
            tok(TokenType::OpenBrace, "{"),
            tok(TokenType::KEYWORD, "return"),
            tok(TokenType::CONSTANT, "2"),
            tok(TokenType::SEMICOLON, ";"),
            tok(TokenType::CloseBrace, "}"),
        ]
    );
}

#[test]
fn empty_text_has_no_tokens() {
    assert_eq!(lex("").unwrap(), vec![]);
}

#[test]
fn whitespace_alone_has_no_tokens() {
    assert_eq!(lex(" \t\r\n\x0C  ").unwrap(), vec![]);
}

#[test]
fn every_reserved_word_is_a_keyword() {
    assert_eq!(
        lex("int void return if else while for").unwrap(),
        vec![
            tok(TokenType::KEYWORD, "int"),
            tok(TokenType::KEYWORD, "void"),
            tok(TokenType::KEYWORD, "return"),
            tok(TokenType::KEYWORD, "if"),
            tok(TokenType::KEYWORD, "else"),
            tok(TokenType::KEYWORD, "while"),
            tok(TokenType::KEYWORD, "for"),
        ]
    );
}

#[test]
fn a_word_that_only_starts_like_a_keyword_is_an_identifier() {
    assert_eq!(
        lex("integer returns _if for_ x1 _").unwrap(),
        vec![
            tok(TokenType::IDENTIFIER, "integer"),
            tok(TokenType::IDENTIFIER, "returns"),
            tok(TokenType::IDENTIFIER, "_if"),
            tok(TokenType::IDENTIFIER, "for_"),
            tok(TokenType::IDENTIFIER, "x1"),
            tok(TokenType::IDENTIFIER, "_"),
        ]
    );
}

#[test]
fn single_character_tokens() {
    assert_eq!(
        kinds("( ) { } ; * ~ % + ^ ? :"),
        vec![
            TokenType::OpenParen,
            TokenType::CloseParen,
            TokenType::OpenBrace,
            TokenType::CloseBrace,
            TokenType::SEMICOLON,
            TokenType::STAR,
            TokenType::TildeOp,
            TokenType::MODULUS,
            TokenType::PLUS,
            TokenType::CARET,
            TokenType::QuestionMark,
            TokenType::Colon,
        ]
    );
}

#[test]
fn one_and_two_character_operators() {
    assert_eq!(
        lex("- -- & && | || < << <= > >> >= ! != = == /").unwrap(),
        vec![
            tok(TokenType::NegationOp, "-"),
            tok(TokenType::DecrementOp, "--"),
            tok(TokenType::AMPERSAND, "&"),
            tok(TokenType::LogicalAnd, "&&"),
            tok(TokenType::PIPE, "|"),
            tok(TokenType::LogicalOr, "||"),
            tok(TokenType::LessThan, "<"),
            tok(TokenType::LeftShift, "<<"),
            tok(TokenType::LessThanOrEqual, "<="),
            tok(TokenType::GreaterThan, ">"),
            tok(TokenType::RightShift, ">>"),
            tok(TokenType::GreaterThanOrEqual, ">="),
            tok(TokenType::LogicalNot, "!"),
            tok(TokenType::NotEqual, "!="),
            tok(TokenType::Assignment, "="),
            tok(TokenType::Equal, "=="),
            tok(TokenType::SLASH, "/"),
        ]
    );
}

#[test]
fn operators_take_the_longest_match_from_the_left() {
    assert_eq!(
        kinds("---a<<=b"),
        vec![
            TokenType::DecrementOp,
            TokenType::NegationOp,
            TokenType::IDENTIFIER,
            TokenType::LeftShift,
            TokenType::Assignment,
            TokenType::IDENTIFIER,
        ]
    );
}

#[test]
fn tokens_need_no_space_between_them() {
    assert_eq!(
        lex("a=b+12;").unwrap(),
        vec![
            tok(TokenType::IDENTIFIER, "a"),
            tok(TokenType::Assignment, "="),
            tok(TokenType::IDENTIFIER, "b"),
            tok(TokenType::PLUS, "+"),
            tok(TokenType::CONSTANT, "12"),
            tok(TokenType::SEMICOLON, ";"),
        ]
    );
}

#[test]
fn line_comment_runs_to_the_end_of_the_line() {
    assert_eq!(
        lex("a // b c\nd").unwrap(),
        vec![
            tok(TokenType::IDENTIFIER, "a"),
            tok(TokenType::COMMENT, "// b c"),
            tok(TokenType::IDENTIFIER, "d"),
        ]
    );
}

#[test]
fn block_comment_runs_through_its_closing_mark() {
    assert_eq!(
        lex("a /* b\n * c **/ d").unwrap(),
        vec![
            tok(TokenType::IDENTIFIER, "a"),
            tok(TokenType::LongComment, "/* b\n * c **/"),
            tok(TokenType::IDENTIFIER, "d"),
        ]
    );
}

#[test]
fn unterminated_block_comment_runs_to_the_end() {
    assert_eq!(
        lex("a /* b *").unwrap(),
        vec![tok(TokenType::IDENTIFIER, "a"), tok(TokenType::LongComment, "/* b *")]
    );
}

#[test]
fn slash_star_slash_does_not_close_itself() {
    assert_eq!(lex("/*/ a */").unwrap(), vec![tok(TokenType::LongComment, "/*/ a */")]);
}

#[test]
fn preprocessor_line_is_a_tag() {
    assert_eq!(
        lex("#include <x.h>\nint").unwrap(),
        vec![tok(TokenType::Tag, "#include <x.h>"), tok(TokenType::KEYWORD, "int")]
    );
}

#[test]
fn digits_followed_by_a_letter_are_an_invalid_number() {
    assert_eq!(lex("return 1foo;"), Err(CompileError::InvalidNumber { position: 8 }));
    assert_eq!(lex("12x"), Err(CompileError::InvalidNumber { position: 2 }));
}

#[test]
fn digits_followed_by_an_underscore_are_two_tokens() {
    assert_eq!(
        lex("1_a").unwrap(),
        vec![tok(TokenType::CONSTANT, "1"), tok(TokenType::IDENTIFIER, "_a")]
    );
}

#[test]
fn a_character_that_starts_no_token_is_invalid() {
    assert_eq!(
        lex("a @ b"),
        Err(CompileError::InvalidCharacter { character: '@', position: 2 })
    );
    assert_eq!(lex("$"), Err(CompileError::InvalidCharacter { character: '$', position: 0 }));
}

#[test]
fn a_character_outside_ascii_is_invalid() {
    assert_eq!(
        lex("a é"),
        Err(CompileError::InvalidCharacter { character: 'é', position: 2 })
    );
}

#[test]
fn the_first_error_wins() {
    assert_eq!(lex("1a @"), Err(CompileError::InvalidNumber { position: 1 }));
    assert_eq!(
        lex("@ 1a"),
        Err(CompileError::InvalidCharacter { character: '@', position: 0 })
    );
}

#[test]
fn next_reads_one_token_at_a_time() {
    let mut lexer = Lex::new("  x 7 ");
    assert_eq!(lexer.next(), Ok(Some(tok(TokenType::IDENTIFIER, "x"))));
    assert_eq!(lexer.next(), Ok(Some(tok(TokenType::CONSTANT, "7"))));
    assert_eq!(lexer.next(), Ok(None));
    assert_eq!(lexer.next(), Ok(None));
}

#[test]
fn strip_comments_keeps_everything_else_in_order() {
    let tokens = lex("a // x\n/* y */ b # c").unwrap();
    assert_eq!(
        strip_comments(tokens),
        vec![
            tok(TokenType::IDENTIFIER, "a"),
            tok(TokenType::IDENTIFIER, "b"),
            tok(TokenType::Tag, "# c"),
        ]
    );
}

#[test]
fn token_clone_is_equal() {
    let t = tok(TokenType::IDENTIFIER, "abc");
    assert_eq!(t.clone(), t);
}
