use vstd::prelude::*;
use vstd::string::*;
use crate::text::{chars_of, string_of, push_decimal, decimal};

verus! {

#[derive(Clone, Copy, Debug, PartialEq, Eq, Structural)]
pub enum TokenType {
    LeftParen,
    RightParen,
    LeftBrace,
    RightBrace,
    Comma,
    Dot,
    Minus,
    Plus,
    Semicolon,
    Slash,
    Star,
    Bang,
    BangEqual,
    Equal,
    EqualEqual,
    Greater,
    GreaterEqual,
    Less,
    LessEqual,
    Pipe,
    Identifier,
    StringLit,
    Number,
    And,
    Class,
    Else,
    False,
    Fun,
    For,
    If,
    Nil,
    Or,
    Print,
    Limpar,
    Return,
    Super,
    This,
    True,
    Var,
    While,
    Gets,
    Eof,
}

/// What a literal token stands for. A number is kept as the decimal text
/// that the source wrote, so that nothing is lost before it reaches the
/// arithmetic of the host; a string is kept without its quotes.
#[derive(Debug)]
pub enum LiteralValue {
    FValue(String),
    SValue(String),
}

pub enum LiteralView {
    FValue(Seq<char>),
    SValue(Seq<char>),
}

impl View for LiteralValue {
    type V = LiteralView;

    open spec fn view(&self) -> LiteralView {
        match self {
            LiteralValue::FValue(s) => LiteralView::FValue(s@),
            LiteralValue::SValue(s) => LiteralView::SValue(s@),
        }
    }
}

impl Clone for LiteralValue {
    fn clone(&self) -> (r: Self)
        ensures
            r@ == self@,
    {
        match self {
            LiteralValue::FValue(s) => LiteralValue::FValue(s.clone()),
            LiteralValue::SValue(s) => LiteralValue::SValue(s.clone()),
        }
    }
}

#[derive(Debug)]
pub struct Token {
    pub token_type: TokenType,
    pub lexeme: String,
    pub literal: Option<LiteralValue>,
    pub line_number: usize,
}

pub struct TokenView {
    pub token_type: TokenType,
    pub lexeme: Seq<char>,
    pub literal: Option<LiteralView>,
    pub line_number: nat,
}

impl View for Token {
    type V = TokenView;

    open spec fn view(&self) -> TokenView {
        TokenView {
            token_type: self.token_type,
            lexeme: self.lexeme@,
            literal: match self.literal {
                Some(l) => Some(l@),
                None => None,
            },
            line_number: self.line_number as nat,
        }
    }
}

impl Clone for Token {
    fn clone(&self) -> (r: Self)
        ensures
            r@ == self@,
    {
        Token {
            token_type: self.token_type,
            lexeme: self.lexeme.clone(),
            literal: match &self.literal {
                Some(l) => Some(l.clone()),
                None => None,
            },
            line_number: self.line_number,
        }
    }
}

/// The views of a sequence of tokens, one by one.
pub open spec fn token_views(tokens: Seq<Token>) -> Seq<TokenView> {
    Seq::new(tokens.len(), |i: int| tokens[i]@)
}

pub open spec fn is_digit(c: char) -> bool {
    '0' <= c && c <= '9'
}

pub open spec fn is_alpha(c: char) -> bool {
    ('a' <= c && c <= 'z') || ('A' <= c && c <= 'Z') || c == '_'
}

pub open spec fn is_blank(c: char) -> bool {
    c == ' ' || c == '\r' || c == '\t' || c == '\n'
}

/// The classes of characters that a token or a comment runs through.
#[derive(Clone, Copy, PartialEq, Eq, Structural)]
pub enum CharClass {
    /// A decimal digit.
    Digit,
    /// A letter, a digit or an underscore.
    Word,
    /// Anything but a newline: the body of a comment.
    Comment,
    /// Anything but a double quote: the body of a string.
    Quoted,
}

pub open spec fn in_class(class: CharClass, c: char) -> bool {
    match class {
        CharClass::Digit => is_digit(c),
        CharClass::Word => is_alpha(c) || is_digit(c),
        CharClass::Comment => c != '\n',
        CharClass::Quoted => c != '"',
    }
}

/// The first position at or after `pos` whose character is not in `class`
/// (the length of the source if there is none).
pub open spec fn run_end(src: Seq<char>, pos: int, class: CharClass) -> int
    decreases src.len() - pos,
{
    if 0 <= pos < src.len() && in_class(class, src[pos]) {
        run_end(src, pos + 1, class)
    } else {
        pos
    }
}

/// The number of newline characters in `s`.
pub open spec fn newlines(s: Seq<char>) -> nat
    decreases s.len(),
{
    if s.len() == 0 {
        0
    } else {
        newlines(s.drop_last()) + if s.last() == '\n' { 1nat } else { 0nat }
    }
}

/// The line on which the character at `pos` stands: one more than the
/// number of newlines before it.
pub open spec fn line_at(src: Seq<char>, pos: int) -> nat {
    1 + newlines(src.take(pos))
}

/// The kind of token that a word is: a keyword's own kind, or `Identifier`.
pub open spec fn keyword(word: Seq<char>) -> TokenType {
    if word == "e"@ {
        TokenType::And
    } else if word == "ou"@ {
        TokenType::Or
    } else if word == "senao"@ {
        TokenType::Else
    } else if word == "falso"@ {
        TokenType::False
    } else if word == "verdadeiro"@ {
        TokenType::True
    } else if word == "nulo"@ {
        TokenType::Nil
    } else if word == "para"@ {
        TokenType::For
    } else if word == "funcao"@ {
        TokenType::Fun
    } else if word == "se"@ {
        TokenType::If
    } else if word == "enquanto"@ {
        TokenType::While
    } else if word == "saida"@ {
        TokenType::Print
    } else if word == "limpar"@ {
        TokenType::Limpar
    } else if word == "retorna"@ {
        TokenType::Return
    } else if word == "classe"@ {
        TokenType::Class
    } else if word == "este"@ {
        TokenType::This
    } else if word == "super"@ {
        TokenType::Super
    } else if word == "var"@ {
        TokenType::Var
    } else if word == "recebe"@ {
        TokenType::Gets
    } else {
        TokenType::Identifier
    }
}

/// The kind of the token made of the one character `c`, if there is one.
pub open spec fn single(c: char) -> Option<TokenType> {
    if c == '(' {
        Some(TokenType::LeftParen)
    } else if c == ')' {
        Some(TokenType::RightParen)
    } else if c == '{' {
        Some(TokenType::LeftBrace)
    } else if c == '}' {
        Some(TokenType::RightBrace)
    } else if c == ',' {
        Some(TokenType::Comma)
    } else if c == '.' {
        Some(TokenType::Dot)
    } else if c == '-' {
        Some(TokenType::Minus)
    } else if c == '+' {
        Some(TokenType::Plus)
    } else if c == ';' {
        Some(TokenType::Semicolon)
    } else if c == '*' {
        Some(TokenType::Star)
    } else if c == '/' {
        Some(TokenType::Slash)
    } else if c == '!' {
        Some(TokenType::Bang)
    } else if c == '=' {
        Some(TokenType::Equal)
    } else if c == '<' {
        Some(TokenType::Less)
    } else if c == '>' {
        Some(TokenType::Greater)
    } else {
        None
    }
}

/// The kind of the token made of `c` and a following `=`, if there is one.
pub open spec fn with_equal(c: char) -> Option<TokenType> {
    if c == '!' {
        Some(TokenType::BangEqual)
    } else if c == '=' {
        Some(TokenType::EqualEqual)
    } else if c == '<' {
        Some(TokenType::LessEqual)
    } else if c == '>' {
        Some(TokenType::GreaterEqual)
    } else {
        None
    }
}

/// The text of a lexical error: the line, then what is wrong there.
pub open spec fn lexical_error(line: nat, what: Seq<char>) -> Seq<char> {
    "Line "@ + decimal(line) + ": "@ + what
}

/// What stands at one position of the source.
pub enum Lexed {
    /// Whitespace or a comment, which ends at `next`.
    Skip { next: int },
    /// A token, which ends at `next`.
    Token { token: TokenView, next: int },
    /// Nothing that the language knows.
    Error { message: Seq<char> },
}

/// The token of kind `kind` that fills `src[pos..next]`.
pub open spec fn plain(src: Seq<char>, pos: int, next: int, kind: TokenType) -> Lexed {
    Lexed::Token {
        token: TokenView {
            token_type: kind,
            lexeme: src.subrange(pos, next),
            literal: None,
            line_number: line_at(src, pos),
        },
        next,
    }
}

/// Where the number that starts at `pos` ends: after its digits, and after
/// a dot and further digits if a digit follows the dot.
pub open spec fn number_end(src: Seq<char>, pos: int) -> int {
    let whole = run_end(src, pos, CharClass::Digit);
    if whole + 1 < src.len() && src[whole] == '.' && is_digit(src[whole + 1]) {
        run_end(src, whole + 1, CharClass::Digit)
    } else {
        whole
    }
}

/// What stands at `pos`, for `0 <= pos < src.len()`.
pub open spec fn lex_at(src: Seq<char>, pos: int) -> Lexed {
    let c = src[pos];
    let followed_by = |d: char| pos + 1 < src.len() && src[pos + 1] == d;
    if is_blank(c) {
        Lexed::Skip { next: pos + 1 }
    } else if c == '/' && followed_by('/') {
        Lexed::Skip { next: run_end(src, pos + 2, CharClass::Comment) }
    } else if with_equal(c) is Some && followed_by('=') {
        plain(src, pos, pos + 2, with_equal(c).unwrap())
    } else if single(c) is Some {
        plain(src, pos, pos + 1, single(c).unwrap())
    } else if c == '|' && followed_by('>') {
        plain(src, pos, pos + 2, TokenType::Pipe)
    } else if c == '"' {
        let close = run_end(src, pos + 1, CharClass::Quoted);
        if close < src.len() {
            Lexed::Token {
                token: TokenView {
                    token_type: TokenType::StringLit,
                    lexeme: src.subrange(pos, close + 1),
                    literal: Some(LiteralView::SValue(src.subrange(pos + 1, close))),
                    line_number: line_at(src, pos),
                },
                next: close + 1,
            }
        } else {
            Lexed::Error { message: lexical_error(line_at(src, pos), "Texto sem aspas finais"@) }
        }
    } else if is_digit(c) {
        let next = number_end(src, pos);
        Lexed::Token {
            token: TokenView {
                token_type: TokenType::Number,
                lexeme: src.subrange(pos, next),
                literal: Some(LiteralView::FValue(src.subrange(pos, next))),
                line_number: line_at(src, pos),
            },
            next,
        }
    } else if is_alpha(c) {
        let next = run_end(src, pos, CharClass::Word);
        plain(src, pos, next, keyword(src.subrange(pos, next)))
    } else {
        Lexed::Error {
            message: lexical_error(line_at(src, pos), "Caractere inesperado: "@ + seq![c]),
        }
    }
}

/// The token that ends every stream: it stands after the last character.
pub open spec fn eof_token(src: Seq<char>) -> TokenView {
    TokenView {
        token_type: TokenType::Eof,
        lexeme: Seq::empty(),
        literal: None,
        line_number: line_at(src, src.len() as int),
    }
}

/// The tokens of `src` from `pos` on, with `Eof` at their end, or the
/// first lexical error.
pub open spec fn scan_from(src: Seq<char>, pos: int) -> Result<Seq<TokenView>, Seq<char>>
    decreases src.len() - pos,
{
    if pos < 0 || pos >= src.len() {
        Ok(seq![eof_token(src)])
    } else {
        proof {
            lemma_lex_advances(src, pos);
        }
        match lex_at(src, pos) {
            Lexed::Skip { next } => scan_from(src, next),
            Lexed::Token { token, next } => match scan_from(src, next) {
                Ok(rest) => Ok(seq![token] + rest),
                Err(message) => Err(message),
            },
            Lexed::Error { message } => Err(message),
        }
    }
}

/// The tokens of a whole source.
pub open spec fn scan(src: Seq<char>) -> Result<Seq<TokenView>, Seq<char>> {
    scan_from(src, 0)
}

/// Where each token of `src` from `pos` on starts, `Eof` at the end of the
/// source.
pub open spec fn starts_from(src: Seq<char>, pos: int) -> Seq<int>
    decreases src.len() - pos,
{
    if pos < 0 || pos >= src.len() {
        seq![src.len() as int]
    } else {
        proof {
            lemma_lex_advances(src, pos);
        }
        match lex_at(src, pos) {
            Lexed::Skip { next } => starts_from(src, next),
            Lexed::Token { token, next } => seq![pos] + starts_from(src, next),
            Lexed::Error { message } => Seq::empty(),
        }
    }
}

pub proof fn lemma_run_end_bounds(src: Seq<char>, pos: int, class: CharClass)
    requires
        0 <= pos <= src.len(),
    ensures
        pos <= run_end(src, pos, class) <= src.len(),
        run_end(src, pos, class) < src.len() ==> !in_class(class, src[run_end(src, pos, class)]),
        forall|i: int| pos <= i < run_end(src, pos, class) ==> in_class(class, #[trigger] src[i]),
    decreases src.len() - pos,
{
    if pos < src.len() && in_class(class, src[pos]) {
        lemma_run_end_bounds(src, pos + 1, class);
    }
}

/// Whatever stands at a position ends after it, within the source.
pub proof fn lemma_lex_advances(src: Seq<char>, pos: int)
    requires
        0 <= pos < src.len(),
    ensures
        match lex_at(src, pos) {
            Lexed::Skip { next } => pos < next <= src.len(),
            Lexed::Token { token, next } => pos < next <= src.len(),
            Lexed::Error { message } => true,
        },
{
    lemma_run_end_bounds(src, pos + 1, CharClass::Quoted);
    lemma_run_end_bounds(src, pos, CharClass::Digit);
    lemma_run_end_bounds(src, pos, CharClass::Word);
    if pos + 2 <= src.len() {
        lemma_run_end_bounds(src, pos + 2, CharClass::Comment);
    }
    let whole = run_end(src, pos, CharClass::Digit);
    if whole + 1 < src.len() {
        lemma_run_end_bounds(src, whole + 1, CharClass::Digit);
    }
}

/// Stepping over one character adds one to the line exactly when that
/// character is a newline.
pub proof fn lemma_line_step(src: Seq<char>, pos: int)
    requires
        0 <= pos < src.len(),
    ensures
        line_at(src, pos + 1) == line_at(src, pos) + if src[pos] == '\n' { 1nat } else { 0nat },
        line_at(src, pos) <= pos + 1,
    decreases pos,
{
    assert(src.take(pos + 1).drop_last() =~= src.take(pos));
    if pos > 0 {
        lemma_line_step(src, pos - 1);
    } else {
        assert(src.take(0).len() == 0);
    }
}

/// What holds of the `i`-th token of a scan and the place where it starts.
pub open spec fn starts_on_its_line(src: Seq<char>, token: TokenView, start: int) -> bool {
    &&& 0 <= start
    &&& start + token.lexeme.len() <= src.len()
    &&& src.subrange(start, start + token.lexeme.len()) == token.lexeme
    &&& token.line_number == 1 + newlines(src.take(start))
}

proof fn lemma_lines_from(src: Seq<char>, pos: int)
    requires
        0 <= pos <= src.len(),
        scan_from(src, pos) is Ok,
    ensures
        starts_from(src, pos).len() == scan_from(src, pos)->Ok_0.len(),
        forall|i: int|
            0 <= i < starts_from(src, pos).len() ==> starts_on_its_line(
                src,
                #[trigger] scan_from(src, pos)->Ok_0[i],
                starts_from(src, pos)[i],
            ),
    decreases src.len() - pos,
{
    if pos >= src.len() {
        assert(src.subrange(src.len() as int, src.len() as int) =~= Seq::<char>::empty());
    } else {
        lemma_lex_advances(src, pos);
        match lex_at(src, pos) {
            Lexed::Skip { next } => {
                lemma_lines_from(src, next);
            },
            Lexed::Token { token, next } => {
                lemma_lines_from(src, next);
                let rest = scan_from(src, next)->Ok_0;
                let starts = starts_from(src, next);
                assert(starts_on_its_line(src, token, pos)) by {
                    lemma_run_end_bounds(src, pos + 1, CharClass::Quoted);
                }
                assert forall|i: int| 0 <= i < starts_from(src, pos).len() implies starts_on_its_line(
                    src,
                    #[trigger] scan_from(src, pos)->Ok_0[i],
                    starts_from(src, pos)[i],
                ) by {
                    if i > 0 {
                        assert(scan_from(src, pos)->Ok_0[i] == rest[i - 1]);
                        assert(starts_from(src, pos)[i] == starts[i - 1]);
                    }
                }
            },
            Lexed::Error { message } => {},
        }
    }
}

/// The line of every token of a scan is one more than the number of
/// newlines before the character at which the token starts, and the
/// token's lexeme is the text that stands there.
pub proof fn lemma_token_line(src: Seq<char>, i: int)
    requires
        scan(src) is Ok,
        0 <= i < scan(src)->Ok_0.len(),
    ensures
        starts_from(src, 0).len() == scan(src)->Ok_0.len(),
        starts_on_its_line(src, scan(src)->Ok_0[i], starts_from(src, 0)[i]),
{
    lemma_lines_from(src, 0);
}

pub struct Scanner {
    source: Vec<char>,
    tokens: Vec<Token>,
    current: usize,
    line: usize,
}

fn word_is(word: &String, keyword: &str) -> (r: bool)
    ensures
        r == (word@ == keyword@),
{
    let k = String::from_str(keyword);
    *word == k
}

/// The kind of token that `word` is.
pub fn keyword_type(word: &String) -> (r: TokenType)
    ensures
        r == keyword(word@),
{
    if word_is(word, "e") {
        TokenType::And
    } else if word_is(word, "ou") {
        TokenType::Or
    } else if word_is(word, "senao") {
        TokenType::Else
    } else if word_is(word, "falso") {
        TokenType::False
    } else if word_is(word, "verdadeiro") {
        TokenType::True
    } else if word_is(word, "nulo") {
        TokenType::Nil
    } else if word_is(word, "para") {
        TokenType::For
    } else if word_is(word, "funcao") {
        TokenType::Fun
    } else if word_is(word, "se") {
        TokenType::If
    } else if word_is(word, "enquanto") {
        TokenType::While
    } else if word_is(word, "saida") {
        TokenType::Print
    } else if word_is(word, "limpar") {
        TokenType::Limpar
    } else if word_is(word, "retorna") {
        TokenType::Return
    } else if word_is(word, "classe") {
        TokenType::Class
    } else if word_is(word, "este") {
        TokenType::This
    } else if word_is(word, "super") {
        TokenType::Super
    } else if word_is(word, "var") {
        TokenType::Var
    } else if word_is(word, "recebe") {
        TokenType::Gets
    } else {
        TokenType::Identifier
    }
}

fn single_type(c: char) -> (r: Option<TokenType>)
    ensures
        r == single(c),
{
    if c == '(' {
        Some(TokenType::LeftParen)
    } else if c == ')' {
        Some(TokenType::RightParen)
    } else if c == '{' {
        Some(TokenType::LeftBrace)
    } else if c == '}' {
        Some(TokenType::RightBrace)
    } else if c == ',' {
        Some(TokenType::Comma)
    } else if c == '.' {
        Some(TokenType::Dot)
    } else if c == '-' {
        Some(TokenType::Minus)
    } else if c == '+' {
        Some(TokenType::Plus)
    } else if c == ';' {
        Some(TokenType::Semicolon)
    } else if c == '*' {
        Some(TokenType::Star)
    } else if c == '/' {
        Some(TokenType::Slash)
    } else if c == '!' {
        Some(TokenType::Bang)
    } else if c == '=' {
        Some(TokenType::Equal)
    } else if c == '<' {
        Some(TokenType::Less)
    } else if c == '>' {
        Some(TokenType::Greater)
    } else {
        None
    }
}

fn with_equal_type(c: char) -> (r: Option<TokenType>)
    ensures
        r == with_equal(c),
{
    if c == '!' {
        Some(TokenType::BangEqual)
    } else if c == '=' {
        Some(TokenType::EqualEqual)
    } else if c == '<' {
        Some(TokenType::LessEqual)
    } else if c == '>' {
        Some(TokenType::GreaterEqual)
    } else {
        None
    }
}

fn class_has(class: CharClass, c: char) -> (r: bool)
    ensures
        r == in_class(class, c),
{
    match class {
        CharClass::Digit => '0' <= c && c <= '9',
        CharClass::Word => ('a' <= c && c <= 'z') || ('A' <= c && c <= 'Z') || c == '_' || ('0'
            <= c && c <= '9'),
        CharClass::Comment => c != '\n',
        CharClass::Quoted => c != '"',
    }
}

impl Scanner {
    /// The scanner keeps its place in the source and the line of that
    /// place.
    pub closed spec fn wf(&self) -> bool {
        &&& self.current <= self.source@.len() < usize::MAX
        &&& self.line == line_at(self.source@, self.current as int)
    }

    pub closed spec fn source(&self) -> Seq<char> {
        self.source@
    }

    pub closed spec fn position(&self) -> int {
        self.current as int
    }

    pub fn new(source: &str) -> (r: Self)
        requires
            source@.len() < usize::MAX,
        ensures
            r.source() == source@,
            r.position() == 0,
            r.wf(),
    {
        let chars = chars_of(source);
        assert(chars@.take(0).len() == 0);
        Scanner { source: chars, tokens: Vec::new(), current: 0, line: 1 }
    }

    /// Steps over one character.
    fn advance(&mut self)
        requires
            old(self).wf(),
            old(self).current < old(self).source@.len(),
        ensures
            final(self).wf(),
            final(self).source == old(self).source,
            final(self).tokens == old(self).tokens,
            final(self).current == old(self).current + 1,
    {
        proof {
            lemma_line_step(self.source@, self.current as int);
        }
        if self.source[self.current] == '\n' {
            self.line = self.line + 1;
        }
        self.current = self.current + 1;
    }

    /// Steps over the characters of `class` that follow.
    fn run(&mut self, class: CharClass)
        requires
            old(self).wf(),
        ensures
            final(self).wf(),
            final(self).source == old(self).source,
            final(self).tokens == old(self).tokens,
            final(self).current == run_end(old(self).source@, old(self).current as int, class),
            final(self).current >= old(self).current,
    {
        while self.current < self.source.len() && class_has(class, self.source[self.current])
            invariant
                self.wf(),
                self.source == old(self).source,
                self.tokens == old(self).tokens,
                self.current >= old(self).current,
                run_end(self.source@, self.current as int, class) == run_end(
                    old(self).source@,
                    old(self).current as int,
                    class,
                ),
            decreases self.source@.len() - self.current,
        {
            self.advance();
        }
    }

    fn followed_by(&self, c: char) -> (r: bool)
        requires
            self.wf(),
        ensures
            r == (self.current + 1 < self.source@.len() && self.source@[self.current + 1] == c),
    {
        self.current + 1 < self.source.len() && self.source[self.current + 1] == c
    }

    fn push(&mut self, kind: TokenType, start: usize, line: usize, literal: Option<LiteralValue>)
        requires
            start <= old(self).current <= old(self).source@.len(),
        ensures
            final(self).source == old(self).source,
            final(self).current == old(self).current,
            final(self).line == old(self).line,
            final(self).tokens@.len() == old(self).tokens@.len() + 1,
            final(self).tokens@.drop_last() == old(self).tokens@,
            final(self).tokens@.last()@ == (TokenView {
                token_type: kind,
                lexeme: old(self).source@.subrange(start as int, old(self).current as int),
                literal: match literal {
                    Some(l) => Some(l@),
                    None => None,
                },
                line_number: line as nat,
            }),
    {
        let lexeme = string_of(&self.source, start, self.current);
        self.tokens.push(Token { token_type: kind, lexeme, literal, line_number: line });
        assert(self.tokens@.drop_last() =~= old(self).tokens@);
    }

    fn error(&self, line: usize, what: String) -> (r: String)
        ensures
            r@ == lexical_error(line as nat, what@),
    {
        let mut message = String::from_str("Line ");
        push_decimal(&mut message, line);
        message.append(": ");
        message.append(what.as_str());
        assert(message@ =~= lexical_error(line as nat, what@));
        message
    }

    /// Reads what stands at the current position: steps over it, and adds
    /// its token if it is one.
    fn scan_token(&mut self) -> (r: Result<(), String>)
        requires
            old(self).wf(),
            old(self).current < old(self).source@.len(),
        ensures
            final(self).source == old(self).source,
            match lex_at(old(self).source@, old(self).current as int) {
                Lexed::Skip { next } => {
                    &&& r is Ok
                    &&& final(self).wf()
                    &&& final(self).current == next
                    &&& final(self).tokens == old(self).tokens
                },
                Lexed::Token { token, next } => {
                    &&& r is Ok
                    &&& final(self).wf()
                    &&& final(self).current == next
                    &&& final(self).tokens@.len() == old(self).tokens@.len() + 1
                    &&& final(self).tokens@.drop_last() == old(self).tokens@
                    &&& final(self).tokens@.last()@ == token
                },
                Lexed::Error { message } => r matches Err(m) && m@ == message,
            },
    {
        let start: usize = self.current;
        let line: usize = self.line;
        let c = self.source[start];
        let paired = with_equal_type(c);
        let alone = single_type(c);
        if c == ' ' || c == '\r' || c == '\t' || c == '\n' {
            self.advance();
            Ok(())
        } else if c == '/' && self.followed_by('/') {
            self.advance();
            self.advance();
            self.run(CharClass::Comment);
            Ok(())
        } else if paired.is_some() && self.followed_by('=') {
            self.advance();
            self.advance();
            self.push(paired.unwrap(), start, line, None);
            Ok(())
        } else if alone.is_some() {
            self.advance();
            self.push(alone.unwrap(), start, line, None);
            Ok(())
        } else if c == '|' && self.followed_by('>') {
            self.advance();
            self.advance();
            self.push(TokenType::Pipe, start, line, None);
            Ok(())
        } else if c == '"' {
            self.advance();
            self.run(CharClass::Quoted);
            proof {
                lemma_run_end_bounds(self.source@, start + 1, CharClass::Quoted);
            }
            if self.current < self.source.len() {
                let text = string_of(&self.source, start + 1, self.current);
                self.advance();
                self.push(TokenType::StringLit, start, line, Some(LiteralValue::SValue(text)));
                Ok(())
            } else {
                Err(self.error(line, String::from_str("Texto sem aspas finais")))
            }
        } else if '0' <= c && c <= '9' {
            self.run(CharClass::Digit);
            proof {
                lemma_run_end_bounds(self.source@, start as int, CharClass::Digit);
            }
            if self.current + 1 < self.source.len() && self.source[self.current] == '.'
                && class_has(CharClass::Digit, self.source[self.current + 1]) {
                self.advance();
                self.run(CharClass::Digit);
            }
            let text = string_of(&self.source, start, self.current);
            self.push(TokenType::Number, start, line, Some(LiteralValue::FValue(text)));
            Ok(())
        } else if ('a' <= c && c <= 'z') || ('A' <= c && c <= 'Z') || c == '_' {
            self.run(CharClass::Word);
            let word = string_of(&self.source, start, self.current);
            let kind = keyword_type(&word);
            self.push(kind, start, line, None);
            Ok(())
        } else {
            let mut what = String::from_str("Caractere inesperado: ");
            let shown = string_of(&self.source, start, start + 1);
            what.append(shown.as_str());
            assert(shown@ =~= seq![c]);
            Err(self.error(line, what))
        }
    }

    /// Reads the whole source: its tokens with `Eof` at their end, or the
    /// first lexical error. The line of each token is the line on which it
    /// starts.
    pub fn scan_tokens(&mut self) -> (r: Result<Vec<Token>, String>)
        requires
            old(self).wf(),
            old(self).position() == 0,
        ensures
            match scan(old(self).source()) {
                Ok(tokens) => r matches Ok(v) && token_views(v@) == tokens,
                Err(message) => r matches Err(m) && m@ == message,
            },
    {
        let mut tokens: Vec<Token> = Vec::new();
        self.tokens = Vec::new();
        while self.current < self.source.len()
            invariant
                self.wf(),
                self.source == old(self).source,
                scan(self.source@) == match scan_from(self.source@, self.current as int) {
                    Ok(rest) => Ok::<Seq<TokenView>, Seq<char>>(token_views(self.tokens@) + rest),
                    Err(message) => Err(message),
                },
            decreases self.source@.len() - self.current,
        {
            let ghost before = token_views(self.tokens@);
            let ghost pos = self.current as int;
            proof {
                lemma_lex_advances(self.source@, pos);
            }
            match self.scan_token() {
                Ok(()) => {
                    proof {
                        let now = token_views(self.tokens@);
                        match lex_at(self.source@, pos) {
                            Lexed::Token { token, next } => {
                                assert(now =~= before + seq![token]);
                                assert(forall|rest: Seq<TokenView>|
                                    before + (seq![token] + rest) =~= #[trigger] (now + rest));
                            },
                            _ => {},
                        }
                    }
                },
                Err(message) => {
                    return Err(message);
                },
            }
        }
        let line: usize = self.line;
        let ghost before = token_views(self.tokens@);
        self.push(TokenType::Eof, self.current, line, None);
        assert(self.source@.subrange(self.current as int, self.current as int) =~= Seq::empty());
        assert(token_views(self.tokens@) =~= before + seq![eof_token(self.source@)]);
        std::mem::swap(&mut tokens, &mut self.tokens);
        Ok(tokens)
    }
}

} // verus!
