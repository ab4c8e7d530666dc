//! The lexer: source text to tokens, in one pass with one character of
//! lookahead.
use vstd::prelude::*;
use vstd::string::*;
use crate::error::{CompileError, CompileErrorView};
use crate::text::{
    all_digits, char_is_digit, char_is_ident_part, char_is_ident_start, char_is_letter,
    char_is_space, is_digit, is_ident_part, is_ident_start, is_letter, is_space, same_text,
};

verus! {

/// The kind of a token.
#[derive(Debug, PartialEq, Eq, Clone, Copy, Structural)]
pub enum TokenType {
    IDENTIFIER,
    CONSTANT,
    KEYWORD,
    OpenParen,
    CloseParen,
    OpenBrace,
    CloseBrace,
    SEMICOLON,
    SLASH,
    COMMENT,
    LongComment,
    STAR,
    PLUS,
    MODULUS,
    TildeOp,
    NegationOp,
    DecrementOp,
    AMPERSAND,
    PIPE,
    CARET,
    LessThan,
    GreaterThan,
    LeftShift,
    RightShift,
    LogicalNot,
    LogicalAnd,
    LogicalOr,
    Assignment,
    Equal,
    NotEqual,
    GreaterThanOrEqual,
    LessThanOrEqual,
    Tag,
    QuestionMark,
    Colon,
}

/// A token: its kind and the text it was read from.
#[derive(Debug, PartialEq, Eq)]
pub struct Token {
    pub token_type: TokenType,
    pub value: String,
}

/// The mathematical value of a [`Token`].
pub ghost struct TokenView {
    pub token_type: TokenType,
    pub value: Seq<char>,
}

impl View for Token {
    type V = TokenView;

    open spec fn view(&self) -> TokenView {
        TokenView { token_type: self.token_type, value: self.value@ }
    }
}

impl Clone for Token {
    fn clone(&self) -> (r: Token)
        ensures
            r@ == self@,
    {
        Token { token_type: self.token_type, value: self.value.clone() }
    }
}

/// The values of a sequence of tokens.
pub open spec fn token_views(tokens: Seq<Token>) -> Seq<TokenView> {
    tokens.map_values(|t: Token| t@)
}

/// Whether `word` is one of the reserved words.
pub open spec fn is_keyword(word: Seq<char>) -> bool {
    ||| word == "int"@
    ||| word == "void"@
    ||| word == "return"@
    ||| word == "if"@
    ||| word == "else"@
    ||| word == "while"@
    ||| word == "for"@
}

/// Whether the character at `pos` exists and is `c`.
pub open spec fn follows(text: Seq<char>, pos: int, c: char) -> bool {
    0 <= pos < text.len() && text[pos] == c
}

/// The sets of characters that the lexer reads in runs.
#[derive(Debug, Clone, Copy, PartialEq, Eq, Structural)]
pub enum CharClass {
    /// ASCII whitespace.
    Space,
    /// Decimal digits.
    Digit,
    /// Letters, digits and `_`.
    IdentPart,
    /// Everything but a line feed.
    LineBody,
}

/// Whether `c` belongs to `class`.
pub open spec fn in_class(class: CharClass, c: char) -> bool {
    match class {
        CharClass::Space => is_space(c),
        CharClass::Digit => is_digit(c),
        CharClass::IdentPart => is_ident_part(c),
        CharClass::LineBody => c != '\n',
    }
}

/// The end of the longest run of characters of `class`, from `pos` on.
pub open spec fn run_end(text: Seq<char>, pos: int, class: CharClass) -> int
    decreases text.len() - pos,
{
    if 0 <= pos < text.len() && in_class(class, text[pos]) {
        run_end(text, pos + 1, class)
    } else {
        pos
    }
}

/// The end of a block comment whose body starts at `pos`: just behind the
/// first `*/`, or the end of the text when the comment is never closed.
pub open spec fn comment_end(text: Seq<char>, pos: int) -> int
    decreases text.len() - pos,
{
    if !(0 <= pos < text.len()) {
        pos
    } else if text[pos] == '*' && follows(text, pos + 1, '/') {
        pos + 2
    } else {
        comment_end(text, pos + 1)
    }
}

/// The kind and the end of the token that starts at `pos`, where `pos` is
/// inside the text and holds no whitespace.
pub open spec fn token_at(text: Seq<char>, pos: int) -> Result<(TokenType, int), CompileErrorView>
    recommends
        0 <= pos < text.len(),
{
    let c = text[pos];
    if is_digit(c) {
        let end = run_end(text, pos, CharClass::Digit);
        if end < text.len() && is_letter(text[end]) {
            Err(CompileErrorView::InvalidNumber { position: end })
        } else {
            Ok((TokenType::CONSTANT, end))
        }
    } else if is_ident_start(c) {
        let end = run_end(text, pos + 1, CharClass::IdentPart);
        if is_keyword(text.subrange(pos, end)) {
            Ok((TokenType::KEYWORD, end))
        } else {
            Ok((TokenType::IDENTIFIER, end))
        }
    } else if c == '(' {
        Ok((TokenType::OpenParen, pos + 1))
    } else if c == ')' {
        Ok((TokenType::CloseParen, pos + 1))
    } else if c == '{' {
        Ok((TokenType::OpenBrace, pos + 1))
    } else if c == '}' {
        Ok((TokenType::CloseBrace, pos + 1))
    } else if c == ';' {
        Ok((TokenType::SEMICOLON, pos + 1))
    } else if c == '*' {
        Ok((TokenType::STAR, pos + 1))
    } else if c == '~' {
        Ok((TokenType::TildeOp, pos + 1))
    } else if c == '%' {
        Ok((TokenType::MODULUS, pos + 1))
    } else if c == '+' {
        Ok((TokenType::PLUS, pos + 1))
    } else if c == '^' {
        Ok((TokenType::CARET, pos + 1))
    } else if c == '?' {
        Ok((TokenType::QuestionMark, pos + 1))
    } else if c == ':' {
        Ok((TokenType::Colon, pos + 1))
    } else if c == '/' {
        if follows(text, pos + 1, '/') {
            Ok((TokenType::COMMENT, run_end(text, pos + 2, CharClass::LineBody)))
        } else if follows(text, pos + 1, '*') {
            Ok((TokenType::LongComment, comment_end(text, pos + 2)))
        } else {
            Ok((TokenType::SLASH, pos + 1))
        }
    } else if c == '-' {
        if follows(text, pos + 1, '-') {
            Ok((TokenType::DecrementOp, pos + 2))
        } else {
            Ok((TokenType::NegationOp, pos + 1))
        }
    } else if c == '&' {
        if follows(text, pos + 1, '&') {
            Ok((TokenType::LogicalAnd, pos + 2))
        } else {
            Ok((TokenType::AMPERSAND, pos + 1))
        }
    } else if c == '|' {
        if follows(text, pos + 1, '|') {
            Ok((TokenType::LogicalOr, pos + 2))
        } else {
            Ok((TokenType::PIPE, pos + 1))
        }
    } else if c == '<' {
        if follows(text, pos + 1, '<') {
            Ok((TokenType::LeftShift, pos + 2))
        } else if follows(text, pos + 1, '=') {
            Ok((TokenType::LessThanOrEqual, pos + 2))
        } else {
            Ok((TokenType::LessThan, pos + 1))
        }
    } else if c == '>' {
        if follows(text, pos + 1, '>') {
            Ok((TokenType::RightShift, pos + 2))
        } else if follows(text, pos + 1, '=') {
            Ok((TokenType::GreaterThanOrEqual, pos + 2))
        } else {
            Ok((TokenType::GreaterThan, pos + 1))
        }
    } else if c == '!' {
        if follows(text, pos + 1, '=') {
            Ok((TokenType::NotEqual, pos + 2))
        } else {
            Ok((TokenType::LogicalNot, pos + 1))
        }
    } else if c == '=' {
        if follows(text, pos + 1, '=') {
            Ok((TokenType::Equal, pos + 2))
        } else {
            Ok((TokenType::Assignment, pos + 1))
        }
    } else if c == '#' {
        Ok((TokenType::Tag, run_end(text, pos + 1, CharClass::LineBody)))
    } else {
        Err(CompileErrorView::InvalidCharacter { character: c, position: pos })
    }
}

/// The next token from `pos` on, behind any whitespace, with the position
/// behind it; `None` when only whitespace is left.
pub open spec fn next_token(text: Seq<char>, pos: int) -> Result<
    Option<(TokenView, int)>,
    CompileErrorView,
> {
    let start = run_end(text, pos, CharClass::Space);
    if start >= text.len() {
        Ok(None)
    } else {
        match token_at(text, start) {
            Err(e) => Err(e),
            Ok((token_type, end)) => Ok(
                Some((TokenView { token_type, value: text.subrange(start, end) }, end)),
            ),
        }
    }
}

/// All tokens from `pos` to the end of the text, or the first error.
pub open spec fn tokens_from(text: Seq<char>, pos: int) -> Result<Seq<TokenView>, CompileErrorView>
    decreases text.len() - pos,
{
    if pos >= text.len() {
        Ok(Seq::empty())
    } else {
        match next_token(text, pos) {
            Err(e) => Err(e),
            Ok(None) => Ok(Seq::empty()),
            Ok(Some((token, end))) => {
                if pos < end <= text.len() {
                    match tokens_from(text, end) {
                        Err(e) => Err(e),
                        Ok(rest) => Ok(seq![token] + rest),
                    }
                } else {
                    Ok(seq![token])
                }
            },
        }
    }
}

/// The tokens of a whole source text.
pub open spec fn tokenize(text: Seq<char>) -> Result<Seq<TokenView>, CompileErrorView> {
    tokens_from(text, 0)
}

/// A run never ends before it starts nor behind the text, everything in it
/// belongs to the class, and what follows it does not.
pub proof fn lemma_run_end(text: Seq<char>, pos: int, class: CharClass)
    requires
        0 <= pos <= text.len(),
    ensures
        pos <= run_end(text, pos, class) <= text.len(),
        forall|i: int| pos <= i < run_end(text, pos, class) ==> in_class(class, #[trigger] text[i]),
        run_end(text, pos, class) < text.len() ==> !in_class(
            class,
            text[run_end(text, pos, class)],
        ),
    decreases text.len() - pos,
{
    if pos < text.len() && in_class(class, text[pos]) {
        lemma_run_end(text, pos + 1, class);
    }
}

/// A block comment ends behind its start and inside the text.
pub proof fn lemma_comment_end(text: Seq<char>, pos: int)
    requires
        0 <= pos <= text.len(),
    ensures
        pos <= comment_end(text, pos) <= text.len(),
    decreases text.len() - pos,
{
    if pos < text.len() && !(text[pos] == '*' && follows(text, pos + 1, '/')) {
        lemma_comment_end(text, pos + 1);
    }
}

/// Every token is at least one character long and ends inside the text.
pub proof fn lemma_token_at_advances(text: Seq<char>, pos: int)
    requires
        0 <= pos < text.len(),
    ensures
        token_at(text, pos) matches Ok((_, end)) ==> pos < end <= text.len(),
{
    lemma_run_end(text, pos, CharClass::Digit);
    lemma_run_end(text, pos + 1, CharClass::IdentPart);
    if pos + 2 <= text.len() {
        lemma_run_end(text, pos + 2, CharClass::LineBody);
        lemma_comment_end(text, pos + 2);
    }
    lemma_run_end(text, pos + 1, CharClass::LineBody);
}

/// The lexer: a source text and the position of the next unread character,
/// counted in characters from the start.
pub struct Lex<'a> {
    text: &'a str,
    len: usize,
    pos: usize,
}

/// Appends the tokens `rest` found later to those found so far.
pub open spec fn prepend_tokens(
    found: Seq<TokenView>,
    rest: Result<Seq<TokenView>, CompileErrorView>,
) -> Result<Seq<TokenView>, CompileErrorView> {
    match rest {
        Ok(tokens) => Ok(found + tokens),
        Err(e) => Err(e),
    }
}

fn class_contains(class: CharClass, c: char) -> (b: bool)
    ensures
        b == in_class(class, c),
{
    match class {
        CharClass::Space => char_is_space(c),
        CharClass::Digit => char_is_digit(c),
        CharClass::IdentPart => char_is_ident_part(c),
        CharClass::LineBody => c != '\n',
    }
}

fn word_is_keyword(word: &str) -> (b: bool)
    ensures
        b == is_keyword(word@),
{
    same_text(word, "int") || same_text(word, "void") || same_text(word, "return") || same_text(
        word,
        "if",
    ) || same_text(word, "else") || same_text(word, "while") || same_text(word, "for")
}

impl<'a> Lex<'a> {
    #[verifier::type_invariant]
    spec fn well_formed(self) -> bool {
        self.len == self.text@.len() && self.pos <= self.len
    }

    /// The text being read.
    pub closed spec fn source(&self) -> Seq<char> {
        self.text@
    }

    /// The position of the next unread character.
    pub closed spec fn position(&self) -> int {
        self.pos as int
    }

    /// A lexer at the start of `text`.
    pub fn new(text: &'a str) -> (lex: Lex<'a>)
        ensures
            lex.source() == text@,
            lex.position() == 0,
    {
        Lex { text, len: text.unicode_len(), pos: 0 }
    }

    /// Steps over one character.
    fn advance(&mut self)
        requires
            old(self).position() < old(self).source().len(),
        ensures
            final(self).source() == old(self).source(),
            final(self).position() == old(self).position() + 1,
    {
        proof {
            use_type_invariant(&*self);
        }
        self.pos += 1;
    }

    /// Whether the character at `at` exists and is `c`.
    fn peek_is(&self, at: usize, c: char) -> (b: bool)
        ensures
            b == follows(self.source(), at as int, c),
    {
        proof {
            use_type_invariant(self);
        }
        at < self.len && self.text.get_char(at) == c
    }

    /// The text between two positions.
    fn lexeme(&self, start: usize, end: usize) -> (s: String)
        requires
            start <= end <= self.source().len(),
        ensures
            s@ == self.source().subrange(start as int, end as int),
    {
        self.text.substring_char(start, end).to_owned()
    }

    /// Steps over the longest run of characters of `class`.
    fn skip_run(&mut self, class: CharClass)
        ensures
            final(self).source() == old(self).source(),
            final(self).position() == run_end(old(self).source(), old(self).position(), class),
            old(self).position() <= final(self).position() <= final(self).source().len(),
    {
        proof {
            use_type_invariant(&*self);
        }
        while self.pos < self.len && class_contains(class, self.text.get_char(self.pos))
            invariant
                self.well_formed(),
                self.source() == old(self).source(),
                old(self).position() <= self.position(),
                run_end(self.source(), old(self).position(), class) == run_end(
                    self.source(),
                    self.position(),
                    class,
                ),
            decreases self.len - self.pos,
        {
            self.pos += 1;
        }
    }

    /// Steps over whitespace.
    fn skip_whitespace(&mut self)
        ensures
            final(self).source() == old(self).source(),
            final(self).position() == run_end(
                old(self).source(),
                old(self).position(),
                CharClass::Space,
            ),
            old(self).position() <= final(self).position() <= final(self).source().len(),
    {
        self.skip_run(CharClass::Space);
    }

    /// Reads the longest run of digits as a constant.
    fn number(&mut self) -> (token: Token)
        ensures
            final(self).source() == old(self).source(),
            final(self).position() == run_end(
                old(self).source(),
                old(self).position(),
                CharClass::Digit,
            ),
            token@ == (TokenView {
                token_type: TokenType::CONSTANT,
                value: old(self).source().subrange(old(self).position(), final(self).position()),
            }),
    {
        let start: usize = self.pos;
        self.skip_run(CharClass::Digit);
        Token { token_type: TokenType::CONSTANT, value: self.lexeme(start, self.pos) }
    }

    /// Reads an identifier or a keyword, whose first character is the next one.
    fn identifier(&mut self) -> (token: Token)
        requires
            old(self).position() < old(self).source().len(),
            is_ident_start(old(self).source()[old(self).position()]),
        ensures
            final(self).source() == old(self).source(),
            final(self).position() == run_end(
                old(self).source(),
                old(self).position() + 1,
                CharClass::IdentPart,
            ),
            token@.value == old(self).source().subrange(
                old(self).position(),
                final(self).position(),
            ),
            token@.token_type == if is_keyword(token@.value) {
                TokenType::KEYWORD
            } else {
                TokenType::IDENTIFIER
            },
    {
        let start: usize = self.pos;
        self.advance();
        self.skip_run(CharClass::IdentPart);
        let value = self.lexeme(start, self.pos);
        if word_is_keyword(value.as_str()) {
            Token { token_type: TokenType::KEYWORD, value }
        } else {
            Token { token_type: TokenType::IDENTIFIER, value }
        }
    }

    /// Steps over the body of a block comment, through its closing `*/` or
    /// to the end of the text.
    fn skip_block_comment(&mut self)
        ensures
            final(self).source() == old(self).source(),
            final(self).position() == comment_end(old(self).source(), old(self).position()),
            final(self).position() <= final(self).source().len(),
    {
        proof {
            use_type_invariant(&*self);
        }
        let mut closed = false;
        while !closed && self.pos < self.len
            invariant
                self.well_formed(),
                self.source() == old(self).source(),
                !closed ==> comment_end(self.source(), old(self).position()) == comment_end(
                    self.source(),
                    self.position(),
                ),
                closed ==> comment_end(self.source(), old(self).position()) == self.position(),
            decreases self.len - self.pos, if closed { 0int } else { 1int },
        {
            if self.text.get_char(self.pos) == '*' && self.peek_is(self.pos + 1, '/') {
                self.pos += 2;
                closed = true;
            } else {
                self.pos += 1;
            }
        }
    }

    /// Reads the next token behind any whitespace; `None` when only
    /// whitespace is left.
    pub fn next(&mut self) -> (r: Result<Option<Token>, CompileError>)
        ensures
            final(self).source() == old(self).source(),
            match r {
                Ok(Some(token)) => next_token(old(self).source(), old(self).position()) == Ok::<
                    Option<(TokenView, int)>,
                    CompileErrorView,
                >(Some((token@, final(self).position())))
                    && old(self).position() < final(self).position(),
                Ok(None) => next_token(old(self).source(), old(self).position()) == Ok::<
                    Option<(TokenView, int)>,
                    CompileErrorView,
                >(None) && final(self).position() == final(self).source().len(),
                Err(e) => next_token(old(self).source(), old(self).position()) == Err::<
                    Option<(TokenView, int)>,
                    CompileErrorView,
                >(e@),
            },
    {
        self.skip_whitespace();
        proof {
            use_type_invariant(&*self);
        }
        if self.pos >= self.len {
            return Ok(None);
        }
        let start: usize = self.pos;
        let c = self.text.get_char(start);
        proof {
            lemma_token_at_advances(self.source(), start as int);
        }
        if char_is_digit(c) {
            let token = self.number();
            proof {
                use_type_invariant(&*self);
            }
            if self.pos < self.len && char_is_letter(self.text.get_char(self.pos)) {
                return Err(CompileError::InvalidNumber { position: self.pos });
            }
            return Ok(Some(token));
        }
        if char_is_ident_start(c) {
            let token = self.identifier();
            return Ok(Some(token));
        }
        self.advance();
        let token_type = if c == '(' {
            TokenType::OpenParen
        } else if c == ')' {
            TokenType::CloseParen
        } else if c == '{' {
            TokenType::OpenBrace
        } else if c == '}' {
            TokenType::CloseBrace
        } else if c == ';' {
            TokenType::SEMICOLON
        } else if c == '*' {
            TokenType::STAR
        } else if c == '~' {
            TokenType::TildeOp
        } else if c == '%' {
            TokenType::MODULUS
        } else if c == '+' {
            TokenType::PLUS
        } else if c == '^' {
            TokenType::CARET
        } else if c == '?' {
            TokenType::QuestionMark
        } else if c == ':' {
            TokenType::Colon
        } else if c == '/' {
            if self.peek_is(self.pos, '/') {
                self.advance();
                self.skip_run(CharClass::LineBody);
                TokenType::COMMENT
            } else if self.peek_is(self.pos, '*') {
                self.advance();
                self.skip_block_comment();
                TokenType::LongComment
            } else {
                TokenType::SLASH
            }
        } else if c == '-' {
            if self.peek_is(self.pos, '-') {
                self.advance();
                TokenType::DecrementOp
            } else {
                TokenType::NegationOp
            }
        } else if c == '&' {
            if self.peek_is(self.pos, '&') {
                self.advance();
                TokenType::LogicalAnd
            } else {
                TokenType::AMPERSAND
            }
        } else if c == '|' {
            if self.peek_is(self.pos, '|') {
                self.advance();
                TokenType::LogicalOr
            } else {
                TokenType::PIPE
            }
        } else if c == '<' {
            if self.peek_is(self.pos, '<') {
                self.advance();
                TokenType::LeftShift
            } else if self.peek_is(self.pos, '=') {
                self.advance();
                TokenType::LessThanOrEqual
            } else {
                TokenType::LessThan
            }
        } else if c == '>' {
            if self.peek_is(self.pos, '>') {
                self.advance();
                TokenType::RightShift
            } else if self.peek_is(self.pos, '=') {
                self.advance();
                TokenType::GreaterThanOrEqual
            } else {
                TokenType::GreaterThan
            }
        } else if c == '!' {
            if self.peek_is(self.pos, '=') {
                self.advance();
                TokenType::NotEqual
            } else {
                TokenType::LogicalNot
            }
        } else if c == '=' {
            if self.peek_is(self.pos, '=') {
                self.advance();
                TokenType::Equal
            } else {
                TokenType::Assignment
            }
        } else if c == '#' {
            self.skip_run(CharClass::LineBody);
            TokenType::Tag
        } else {
            return Err(CompileError::InvalidCharacter { character: c, position: start });
        };
        proof {
            use_type_invariant(&*self);
        }
        Ok(Some(Token { token_type, value: self.lexeme(start, self.pos) }))
    }

    /// Reads every token up to the end of the text. Comments and
    /// preprocessor lines are tokens too.
    pub fn get_tokens(&mut self) -> (r: Result<Vec<Token>, CompileError>)
        ensures
            final(self).source() == old(self).source(),
            match r {
                Ok(tokens) => tokens_from(old(self).source(), old(self).position()) == Ok::<
                    Seq<TokenView>,
                    CompileErrorView,
                >(token_views(tokens@)),
                Err(e) => tokens_from(old(self).source(), old(self).position()) == Err::<
                    Seq<TokenView>,
                    CompileErrorView,
                >(e@),
            },
    {
        let mut tokens: Vec<Token> = Vec::new();
        proof {
            use_type_invariant(&*self);
            assert(token_views(tokens@) + Seq::<TokenView>::empty() =~= Seq::<TokenView>::empty());
            assert(token_views(tokens@) =~= Seq::<TokenView>::empty());
            assert(forall|s: Seq<TokenView>| Seq::<TokenView>::empty() + s =~= s);
        }
        while self.pos < self.len
            invariant
                self.well_formed(),
                self.source() == old(self).source(),
                tokens_from(self.source(), old(self).position()) == prepend_tokens(
                    token_views(tokens@),
                    tokens_from(self.source(), self.position()),
                ),
            decreases self.len - self.pos,
        {
            let ghost before = self.position();
            let ghost found = token_views(tokens@);
            match self.next() {
                Err(e) => {
                    return Err(e);
                },
                Ok(None) => {
                    assert(found + Seq::<TokenView>::empty() =~= found);
                    return Ok(tokens);
                },
                Ok(Some(token)) => {
                    proof {
                        use_type_invariant(&*self);
                        let rest = tokens_from(self.source(), self.position());
                        assert(token_views(tokens@.push(token)) =~= found.push(token@));
                        if let Ok(later) = rest {
                            assert(found + (seq![token@] + later) =~= found.push(token@) + later);
                        }
                    }
                    tokens.push(token);
                },
            }
        }
        assert(token_views(tokens@) + Seq::<TokenView>::empty() =~= token_views(tokens@));
        Ok(tokens)
    }
}

/// Whether a token is a line comment or a block comment.
pub open spec fn is_comment(token: TokenView) -> bool {
    token.token_type == TokenType::COMMENT || token.token_type == TokenType::LongComment
}

/// The tokens that are no comments, in the same order.
pub open spec fn without_comments(tokens: Seq<TokenView>) -> Seq<TokenView>
    decreases tokens.len(),
{
    if tokens.len() == 0 {
        tokens
    } else if is_comment(tokens.last()) {
        without_comments(tokens.drop_last())
    } else {
        without_comments(tokens.drop_last()).push(tokens.last())
    }
}

/// Drops the comments, which the parser does not read.
pub fn strip_comments(tokens: Vec<Token>) -> (kept: Vec<Token>)
    ensures
        token_views(kept@) == without_comments(token_views(tokens@)),
{
    let mut kept: Vec<Token> = Vec::new();
    let mut i: usize = 0;
    let ghost all = token_views(tokens@);
    proof {
        assert(all.subrange(0, 0) =~= Seq::<TokenView>::empty());
        assert(token_views(kept@) =~= Seq::<TokenView>::empty());
    }
    while i < tokens.len()
        invariant
            0 <= i <= tokens.len(),
            all == token_views(tokens@),
            token_views(kept@) == without_comments(all.subrange(0, i as int)),
        decreases tokens.len() - i,
    {
        let token = tokens[i].clone();
        proof {
            let longer = all.subrange(0, i + 1);
            assert(longer.drop_last() =~= all.subrange(0, i as int));
            assert(longer.last() == token@);
        }
        if token.token_type != TokenType::COMMENT && token.token_type != TokenType::LongComment {
            proof {
                assert(token_views(kept@.push(token)) =~= token_views(kept@).push(token@));
            }
            kept.push(token);
        }
        i = i + 1;
    }
    assert(all.subrange(0, tokens.len() as int) =~= all);
    kept
}

/// Whether the error is one that the lexer reports.
pub open spec fn is_lexer_error(e: CompileErrorView) -> bool {
    e is InvalidCharacter || e is InvalidNumber
}

/// The lexer fails only on a character that starts no token and on a
/// number that runs into a letter.
pub proof fn lemma_lexer_errors(text: Seq<char>, pos: int)
    requires
        0 <= pos,
    ensures
        tokens_from(text, pos) matches Err(e) ==> is_lexer_error(e),
    decreases text.len() - pos,
{
    if pos < text.len() {
        if let Ok(Some((_, end))) = next_token(text, pos) {
            if pos < end <= text.len() {
                lemma_lexer_errors(text, end);
            }
        }
    }
}

/// The text without its whitespace.
pub open spec fn without_spaces(s: Seq<char>) -> Seq<char>
    decreases s.len(),
{
    if s.len() == 0 {
        s
    } else if is_space(s.last()) {
        without_spaces(s.drop_last())
    } else {
        without_spaces(s.drop_last()).push(s.last())
    }
}

/// The texts of the tokens, one behind the other.
pub open spec fn joined(tokens: Seq<TokenView>) -> Seq<char>
    decreases tokens.len(),
{
    if tokens.len() == 0 {
        Seq::empty()
    } else {
        tokens[0].value + joined(tokens.drop_first())
    }
}

/// Leaving out the whitespace of two texts one behind the other is
/// leaving it out of each.
pub proof fn lemma_without_spaces_concat(a: Seq<char>, b: Seq<char>)
    ensures
        without_spaces(a + b) == without_spaces(a) + without_spaces(b),
    decreases b.len(),
{
    if b.len() == 0 {
        assert(a + b =~= a);
        assert(without_spaces(a) + without_spaces(b) =~= without_spaces(a));
    } else {
        lemma_without_spaces_concat(a, b.drop_last());
        assert((a + b).drop_last() =~= a + b.drop_last());
        assert((a + b).last() == b.last());
        if !is_space(b.last()) {
            assert((without_spaces(a) + without_spaces(b.drop_last())).push(b.last())
                =~= without_spaces(a) + without_spaces(b.drop_last()).push(b.last()));
        }
    }
}

/// Nothing is left of a text of whitespace.
pub proof fn lemma_without_spaces_of_spaces(s: Seq<char>)
    requires
        forall|i: int| 0 <= i < s.len() ==> is_space(#[trigger] s[i]),
    ensures
        without_spaces(s) == Seq::<char>::empty(),
    decreases s.len(),
{
    if s.len() > 0 {
        assert(is_space(s[s.len() - 1]));
        lemma_without_spaces_of_spaces(s.drop_last());
    }
}

/// The lexer drops nothing but whitespace and invents nothing: leaving
/// out the whitespace, the texts of the tokens one behind the other are
/// the text that was read.
pub proof fn lemma_tokens_cover_text(text: Seq<char>, pos: int)
    requires
        0 <= pos <= text.len(),
    ensures
        tokens_from(text, pos) matches Ok(tokens) ==> without_spaces(joined(tokens))
            == without_spaces(text.subrange(pos, text.len() as int)),
    decreases text.len() - pos,
{
    let len = text.len() as int;
    if let Ok(tokens) = tokens_from(text, pos) {
        if pos >= len {
            assert(text.subrange(pos, len) =~= Seq::<char>::empty());
        } else {
            let start = run_end(text, pos, CharClass::Space);
            lemma_run_end(text, pos, CharClass::Space);
            let gap = text.subrange(pos, start);
            assert forall|i: int| 0 <= i < gap.len() implies is_space(#[trigger] gap[i]) by {
                assert(in_class(CharClass::Space, text[pos + i]));
            }
            lemma_without_spaces_of_spaces(gap);
            if start >= len {
                assert(gap =~= text.subrange(pos, len));
            } else {
                lemma_token_at_advances(text, start);
                let end = token_at(text, start)->Ok_0.1;
                let lexeme = text.subrange(start, end);
                let behind = text.subrange(end, len);
                lemma_tokens_cover_text(text, end);
                let rest = tokens_from(text, end)->Ok_0;
                assert(tokens.drop_first() =~= rest);
                assert(text.subrange(pos, len) =~= gap + (lexeme + behind));
                lemma_without_spaces_concat(gap, lexeme + behind);
                lemma_without_spaces_concat(lexeme, behind);
                lemma_without_spaces_concat(lexeme, joined(rest));
                assert(Seq::<char>::empty() + (without_spaces(lexeme) + without_spaces(behind))
                    =~= without_spaces(lexeme) + without_spaces(behind));
            }
        }
    }
}

/// Whether the text of the token fits its type, for the types whose text
/// the parser reads: a constant is a string of digits, an identifier
/// starts with a letter or `_`, goes on with letters, digits and `_`,
/// and is no reserved word, and a keyword is a reserved word. No token
/// is empty.
pub open spec fn is_well_spelled(token: TokenView) -> bool {
    &&& token.value.len() > 0
    &&& token.token_type == TokenType::CONSTANT ==> all_digits(token.value)
    &&& token.token_type == TokenType::KEYWORD ==> is_keyword(token.value)
    &&& token.token_type == TokenType::IDENTIFIER ==> {
        &&& !is_keyword(token.value)
        &&& is_ident_start(token.value[0])
        &&& forall|i: int| 0 <= i < token.value.len() ==> is_ident_part(#[trigger] token.value[i])
    }
}

/// The token that the lexer reads at a position is well spelled.
pub proof fn lemma_token_is_well_spelled(text: Seq<char>, pos: int)
    requires
        0 <= pos,
    ensures
        next_token(text, pos) matches Ok(Some((token, _))) ==> is_well_spelled(token),
{
    if let Ok(Some((token, end))) = next_token(text, pos) {
        let start = run_end(text, pos, CharClass::Space);
        lemma_run_end(text, pos, CharClass::Space);
        lemma_token_at_advances(text, start);
        assert(token.value == text.subrange(start, end));
        if is_digit(text[start]) {
            lemma_run_end(text, start, CharClass::Digit);
            assert forall|i: int| 0 <= i < token.value.len() implies is_digit(
                #[trigger] token.value[i],
            ) by {
                assert(in_class(CharClass::Digit, text[start + i]));
            }
        } else if is_ident_start(text[start]) {
            lemma_run_end(text, start + 1, CharClass::IdentPart);
            assert forall|i: int| 0 <= i < token.value.len() implies is_ident_part(
                #[trigger] token.value[i],
            ) by {
                if i > 0 {
                    assert(in_class(CharClass::IdentPart, text[start + i]));
                }
            }
        }
    }
}

/// Every token that the lexer gives is well spelled.
pub proof fn lemma_tokens_are_well_spelled(text: Seq<char>, pos: int, i: int)
    requires
        0 <= pos,
        tokens_from(text, pos) matches Ok(tokens) && 0 <= i < tokens.len(),
    ensures
        is_well_spelled(tokens_from(text, pos)->Ok_0[i]),
    decreases text.len() - pos,
{
    let tokens = tokens_from(text, pos)->Ok_0;
    lemma_token_is_well_spelled(text, pos);
    let end = next_token(text, pos)->Ok_0->Some_0.1;
    if i > 0 {
        let rest = tokens_from(text, end)->Ok_0;
        assert(tokens[i] == rest[i - 1]);
        lemma_tokens_are_well_spelled(text, end, i - 1);
    }
}

} // verus!
