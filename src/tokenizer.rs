//! The scanner: source text to tokens.
use vstd::prelude::*;
use crate::text::spells;

verus! {

/// The lexical category of a token.
#[derive(PartialEq, Eq, Structural, Copy, Clone, Debug)]
pub enum TokenType {
    LeftParen,
    RightParen,
    LeftBrace,
    RightBrace,
    Comma,
    Dot,
    Minus,
    Plus,
    Semicolon,
    Slash,
    Star,
    Bang,
    BangEqual,
    Equal,
    EqualEqual,
    Greater,
    GreaterEqual,
    Less,
    LessEqual,
    Identifier,
    StringLiteral,
    Number,
    And,
    Class,
    Else,
    False,
    Fun,
    For,
    If,
    Nil,
    Or,
    Print,
    Return,
    Super,
    This,
    True,
    Var,
    While,
    Eof,
}


/// The name under which a token kind is listed, such as `LEFT_PAREN`.
pub open spec fn kind_name(k: TokenType) -> Seq<char> {
    match k {
        TokenType::LeftParen => "LEFT_PAREN"@,
        TokenType::RightParen => "RIGHT_PAREN"@,
        TokenType::LeftBrace => "LEFT_BRACE"@,
        TokenType::RightBrace => "RIGHT_BRACE"@,
        TokenType::Comma => "COMMA"@,
        TokenType::Dot => "DOT"@,
        TokenType::Minus => "MINUS"@,
        TokenType::Plus => "PLUS"@,
        TokenType::Semicolon => "SEMICOLON"@,
        TokenType::Slash => "SLASH"@,
        TokenType::Star => "STAR"@,
        TokenType::Bang => "BANG"@,
        TokenType::BangEqual => "BANG_EQUAL"@,
        TokenType::Equal => "EQUAL"@,
        TokenType::EqualEqual => "EQUAL_EQUAL"@,
        TokenType::Greater => "GREATER"@,
        TokenType::GreaterEqual => "GREATER_EQUAL"@,
        TokenType::Less => "LESS"@,
        TokenType::LessEqual => "LESS_EQUAL"@,
        TokenType::Identifier => "IDENTIFIER"@,
        TokenType::StringLiteral => "STRING"@,
        TokenType::Number => "NUMBER"@,
        TokenType::And => "AND"@,
        TokenType::Class => "CLASS"@,
        TokenType::Else => "ELSE"@,
        TokenType::False => "FALSE"@,
        TokenType::Fun => "FUN"@,
        TokenType::For => "FOR"@,
        TokenType::If => "IF"@,
        TokenType::Nil => "NIL"@,
        TokenType::Or => "OR"@,
        TokenType::Print => "PRINT"@,
        TokenType::Return => "RETURN"@,
        TokenType::Super => "SUPER"@,
        TokenType::This => "THIS"@,
        TokenType::True => "TRUE"@,
        TokenType::Var => "VAR"@,
        TokenType::While => "WHILE"@,
        TokenType::Eof => "EOF"@,
    }
}

/// The keyword spelled by `w`, if any.
pub open spec fn keyword_of(w: Seq<char>) -> Option<TokenType> {
    if w == "and"@ {
        Some(TokenType::And)
    } else if w == "class"@ {
        Some(TokenType::Class)
    } else if w == "else"@ {
        Some(TokenType::Else)
    } else if w == "false"@ {
        Some(TokenType::False)
    } else if w == "fun"@ {
        Some(TokenType::Fun)
    } else if w == "for"@ {
        Some(TokenType::For)
    } else if w == "if"@ {
        Some(TokenType::If)
    } else if w == "nil"@ {
        Some(TokenType::Nil)
    } else if w == "or"@ {
        Some(TokenType::Or)
    } else if w == "print"@ {
        Some(TokenType::Print)
    } else if w == "return"@ {
        Some(TokenType::Return)
    } else if w == "super"@ {
        Some(TokenType::Super)
    } else if w == "this"@ {
        Some(TokenType::This)
    } else if w == "true"@ {
        Some(TokenType::True)
    } else if w == "var"@ {
        Some(TokenType::Var)
    } else if w == "while"@ {
        Some(TokenType::While)
    } else {
        None
    }
}

impl TokenType {
    /// The name under which this kind is listed, such as `LEFT_PAREN`.
    pub fn name(&self) -> (r: &'static str)
        ensures
            r@ == kind_name(*self),
    {
        match self {
            TokenType::LeftParen => "LEFT_PAREN",
            TokenType::RightParen => "RIGHT_PAREN",
            TokenType::LeftBrace => "LEFT_BRACE",
            TokenType::RightBrace => "RIGHT_BRACE",
            TokenType::Comma => "COMMA",
            TokenType::Dot => "DOT",
            TokenType::Minus => "MINUS",
            TokenType::Plus => "PLUS",
            TokenType::Semicolon => "SEMICOLON",
            TokenType::Slash => "SLASH",
            TokenType::Star => "STAR",
            TokenType::Bang => "BANG",
            TokenType::BangEqual => "BANG_EQUAL",
            TokenType::Equal => "EQUAL",
            TokenType::EqualEqual => "EQUAL_EQUAL",
            TokenType::Greater => "GREATER",
            TokenType::GreaterEqual => "GREATER_EQUAL",
            TokenType::Less => "LESS",
            TokenType::LessEqual => "LESS_EQUAL",
            TokenType::Identifier => "IDENTIFIER",
            TokenType::StringLiteral => "STRING",
            TokenType::Number => "NUMBER",
            TokenType::And => "AND",
            TokenType::Class => "CLASS",
            TokenType::Else => "ELSE",
            TokenType::False => "FALSE",
            TokenType::Fun => "FUN",
            TokenType::For => "FOR",
            TokenType::If => "IF",
            TokenType::Nil => "NIL",
            TokenType::Or => "OR",
            TokenType::Print => "PRINT",
            TokenType::Return => "RETURN",
            TokenType::Super => "SUPER",
            TokenType::This => "THIS",
            TokenType::True => "TRUE",
            TokenType::Var => "VAR",
            TokenType::While => "WHILE",
            TokenType::Eof => "EOF",
        }
    }
}

/// The keyword spelled by `w`, if any.
fn get_keyword(w: &str) -> (r: Option<TokenType>)
    ensures
        r == keyword_of(w@),
{
    if spells(w, "and") {
        Some(TokenType::And)
    } else if spells(w, "class") {
        Some(TokenType::Class)
    } else if spells(w, "else") {
        Some(TokenType::Else)
    } else if spells(w, "false") {
        Some(TokenType::False)
    } else if spells(w, "fun") {
        Some(TokenType::Fun)
    } else if spells(w, "for") {
        Some(TokenType::For)
    } else if spells(w, "if") {
        Some(TokenType::If)
    } else if spells(w, "nil") {
        Some(TokenType::Nil)
    } else if spells(w, "or") {
        Some(TokenType::Or)
    } else if spells(w, "print") {
        Some(TokenType::Print)
    } else if spells(w, "return") {
        Some(TokenType::Return)
    } else if spells(w, "super") {
        Some(TokenType::Super)
    } else if spells(w, "this") {
        Some(TokenType::This)
    } else if spells(w, "true") {
        Some(TokenType::True)
    } else if spells(w, "var") {
        Some(TokenType::Var)
    } else if spells(w, "while") {
        Some(TokenType::While)
    } else {
        None
    }
}


/// A token as a value: its kind, its exact source text and its line.
pub struct TokenModel {
    pub kind: TokenType,
    pub lexeme: Seq<char>,
    pub line: nat,
}

/// A lexical error as a value: the line it is reported at, and its message.
pub struct LexErrorModel {
    pub line: nat,
    pub message: Seq<char>,
}

pub open spec fn is_digit(c: char) -> bool {
    '0' <= c <= '9'
}

pub open spec fn is_alpha(c: char) -> bool {
    ('a' <= c <= 'z') || ('A' <= c <= 'Z') || c == '_'
}

pub open spec fn is_ident_char(c: char) -> bool {
    is_alpha(c) || is_digit(c)
}

/// The number of line breaks among the first `n` characters of `src`.
pub open spec fn newlines(src: Seq<char>, n: int) -> nat
    decreases n,
{
    if n <= 0 {
        0
    } else {
        newlines(src, n - 1) + if src[n - 1] == '\n' {
            1nat
        } else {
            0nat
        }
    }
}

/// The 1-based line on which position `n` of `src` stands.
pub open spec fn line_at(src: Seq<char>, n: int) -> nat {
    newlines(src, n) + 1
}

/// The end of the run of digits that starts at `j`.
pub open spec fn digits_end(src: Seq<char>, j: int) -> int
    decreases src.len() - j,
{
    if 0 <= j < src.len() && is_digit(src[j]) {
        digits_end(src, j + 1)
    } else {
        j
    }
}

/// The end of the run of identifier characters that starts at `j`.
pub open spec fn ident_end(src: Seq<char>, j: int) -> int
    decreases src.len() - j,
{
    if 0 <= j < src.len() && is_ident_char(src[j]) {
        ident_end(src, j + 1)
    } else {
        j
    }
}

/// Just past the first line break at or after `j`, or the end of `src`.
pub open spec fn comment_end(src: Seq<char>, j: int) -> int
    decreases src.len() - j,
{
    if j < 0 || j >= src.len() {
        src.len() as int
    } else if src[j] == '\n' {
        j + 1
    } else {
        comment_end(src, j + 1)
    }
}

/// The position of the first `"` at or after `j`, if there is one.
pub open spec fn quote_at_or_after(src: Seq<char>, j: int) -> Option<int>
    decreases src.len() - j,
{
    if j < 0 || j >= src.len() {
        None
    } else if src[j] == '"' {
        Some(j)
    } else {
        quote_at_or_after(src, j + 1)
    }
}

/// The end of a number literal that starts at `i`: digits, then a `.` and
/// more digits only where a digit follows the `.`.
pub open spec fn number_end(src: Seq<char>, i: int) -> int {
    let d = digits_end(src, i);
    if d + 1 < src.len() && src[d] == '.' && is_digit(src[d + 1]) {
        digits_end(src, d + 1)
    } else {
        d
    }
}

/// The kind of a token made of the single character `c`, if there is one.
pub open spec fn single_kind(c: char) -> Option<TokenType> {
    if c == '(' {
        Some(TokenType::LeftParen)
    } else if c == ')' {
        Some(TokenType::RightParen)
    } else if c == '{' {
        Some(TokenType::LeftBrace)
    } else if c == '}' {
        Some(TokenType::RightBrace)
    } else if c == ',' {
        Some(TokenType::Comma)
    } else if c == '.' {
        Some(TokenType::Dot)
    } else if c == '-' {
        Some(TokenType::Minus)
    } else if c == '+' {
        Some(TokenType::Plus)
    } else if c == ';' {
        Some(TokenType::Semicolon)
    } else if c == '*' {
        Some(TokenType::Star)
    } else {
        None
    }
}

/// For `!`, `=`, `>` and `<`: the kind alone and the kind followed by `=`.
pub open spec fn operator_kinds(c: char) -> Option<(TokenType, TokenType)> {
    if c == '!' {
        Some((TokenType::Bang, TokenType::BangEqual))
    } else if c == '=' {
        Some((TokenType::Equal, TokenType::EqualEqual))
    } else if c == '>' {
        Some((TokenType::Greater, TokenType::GreaterEqual))
    } else if c == '<' {
        Some((TokenType::Less, TokenType::LessEqual))
    } else {
        None
    }
}

/// What the scanner makes of the text that starts at one position.
pub enum Lexed {
    /// Nothing: white space or a comment.
    Skip,
    /// A token of this kind.
    Token(TokenType),
    /// A lexical error with this message, reported at the starting line.
    Error(Seq<char>),
}

/// What starts at position `i` of `src` (which must be in range), and where it ends.
pub open spec fn lex_at(src: Seq<char>, i: int) -> (Lexed, int) {
    let c = src[i];
    if c == ' ' || c == '\t' || c == '\n' {
        (Lexed::Skip, i + 1)
    } else if single_kind(c) is Some {
        (Lexed::Token(single_kind(c)->0), i + 1)
    } else if operator_kinds(c) is Some {
        let (alone, with_equal) = operator_kinds(c)->0;
        if i + 1 < src.len() && src[i + 1] == '=' {
            (Lexed::Token(with_equal), i + 2)
        } else {
            (Lexed::Token(alone), i + 1)
        }
    } else if c == '/' {
        if i + 1 < src.len() && src[i + 1] == '/' {
            (Lexed::Skip, comment_end(src, i + 2))
        } else {
            (Lexed::Token(TokenType::Slash), i + 1)
        }
    } else if c == '"' {
        match quote_at_or_after(src, i + 1) {
            Some(j) => (Lexed::Token(TokenType::StringLiteral), j + 1),
            None => (Lexed::Error("Unterminated string."@), src.len() as int),
        }
    } else if is_digit(c) {
        (Lexed::Token(TokenType::Number), number_end(src, i))
    } else if is_alpha(c) {
        let e = ident_end(src, i);
        match keyword_of(src.subrange(i, e)) {
            Some(k) => (Lexed::Token(k), e),
            None => (Lexed::Token(TokenType::Identifier), e),
        }
    } else {
        (Lexed::Error("Unexpected character: "@.push(c)), i + 1)
    }
}

/// The tokens and the lexical errors of `src` from position `i` on, in order
/// (without the end-of-input token).
pub open spec fn scan_from(src: Seq<char>, i: int) -> (Seq<TokenModel>, Seq<LexErrorModel>)
    decreases src.len() - i,
{
    if i < 0 || i >= src.len() {
        (Seq::empty(), Seq::empty())
    } else {
        let (lexed, end) = lex_at(src, i);
        if end <= i || end > src.len() {
            (Seq::empty(), Seq::empty())
        } else {
            let rest = scan_from(src, end);
            match lexed {
                Lexed::Skip => rest,
                Lexed::Token(k) => (
                    seq![TokenModel { kind: k, lexeme: src.subrange(i, end), line: line_at(src, end) }]
                        + rest.0,
                    rest.1,
                ),
                Lexed::Error(m) => (
                    rest.0,
                    seq![LexErrorModel { line: line_at(src, i), message: m }] + rest.1,
                ),
            }
        }
    }
}

/// The end-of-input token of `src`.
pub open spec fn eof_token(src: Seq<char>) -> TokenModel {
    TokenModel { kind: TokenType::Eof, lexeme: Seq::empty(), line: line_at(src, src.len() as int) }
}

/// All tokens of `src`, the end-of-input token last.
pub open spec fn tokens_of(src: Seq<char>) -> Seq<TokenModel> {
    scan_from(src, 0).0.push(eof_token(src))
}

/// All lexical errors of `src`, in order.
pub open spec fn lex_errors_of(src: Seq<char>) -> Seq<LexErrorModel> {
    scan_from(src, 0).1
}


/// A token: its kind, its exact source text and the line it ends on.
#[derive(Clone, Debug)]
pub struct Token {
    pub token_type: TokenType,
    pub lexeme: String,
    pub line: usize,
}

impl View for Token {
    type V = TokenModel;

    open spec fn view(&self) -> TokenModel {
        TokenModel { kind: self.token_type, lexeme: self.lexeme@, line: self.line as nat }
    }
}

/// A lexical error: the line it is reported at, and its message.
#[derive(Clone, Debug)]
pub struct LexError {
    pub line: usize,
    pub message: String,
}

impl View for LexError {
    type V = LexErrorModel;

    open spec fn view(&self) -> LexErrorModel {
        LexErrorModel { line: self.line as nat, message: self.message@ }
    }
}

/// The tokens in `v`, as values.
pub open spec fn tokens_view(v: Seq<Token>) -> Seq<TokenModel> {
    v.map_values(|t: Token| t@)
}

/// The lexical errors in `v`, as values.
pub open spec fn errors_view(v: Seq<LexError>) -> Seq<LexErrorModel> {
    v.map_values(|e: LexError| e@)
}

proof fn lemma_newlines_bound(src: Seq<char>, n: int)
    requires
        0 <= n,
    ensures
        newlines(src, n) <= n,
    decreases n,
{
    if n > 0 {
        lemma_newlines_bound(src, n - 1);
    }
}

proof fn lemma_run_ends(src: Seq<char>, j: int)
    requires
        0 <= j <= src.len(),
    ensures
        j <= digits_end(src, j) <= src.len(),
        j <= ident_end(src, j) <= src.len(),
        j <= comment_end(src, j) <= src.len(),
        quote_at_or_after(src, j) is Some ==> j <= quote_at_or_after(src, j)->0 < src.len(),
    decreases src.len() - j,
{
    if j < src.len() {
        lemma_run_ends(src, j + 1);
    }
}

fn is_digit_char(c: char) -> (r: bool)
    ensures
        r == is_digit(c),
{
    '0' <= c && c <= '9'
}

fn is_alpha_char(c: char) -> (r: bool)
    ensures
        r == is_alpha(c),
{
    ('a' <= c && c <= 'z') || ('A' <= c && c <= 'Z') || c == '_'
}

struct Scanner {
    source: Vec<char>,
    current: usize,
    line: usize,
    errors: Vec<LexError>,
}

impl Scanner {
    spec fn wf(&self) -> bool {
        &&& self.current <= self.source@.len() < usize::MAX
        &&& self.line == line_at(self.source@, self.current as int)
    }

    fn new(source: &str) -> (s: Scanner)
        requires
            source@.len() < usize::MAX,
        ensures
            s.wf(),
            s.source@ == source@,
            s.current == 0,
            s.errors@.len() == 0,
    {
        Scanner {
            source: crate::text::chars_of(source),
            current: 0,
            line: 1,
            errors: Vec::new(),
        }
    }

    fn has_more(&self) -> (r: bool)
        ensures
            r == (self.current < self.source@.len()),
    {
        self.current < self.source.len()
    }

    /// Consumes the next character, which must exist.
    fn advance(&mut self) -> (c: char)
        requires
            old(self).wf(),
            old(self).current < old(self).source@.len(),
        ensures
            final(self).wf(),
            final(self).source@ == old(self).source@,
            final(self).errors@ == old(self).errors@,
            final(self).current == old(self).current + 1,
            c == old(self).source@[old(self).current as int],
    {
        let c = self.source[self.current];
        proof {
            lemma_newlines_bound(self.source@, self.current as int);
        }
        self.current += 1;
        if c == '\n' {
            self.line += 1;
        }
        c
    }

    fn peek(&self) -> (r: Option<char>)
        ensures
            r == (if self.current < self.source@.len() {
                Some(self.source@[self.current as int])
            } else {
                None
            }),
    {
        if self.has_more() {
            Some(self.source[self.current])
        } else {
            None
        }
    }

    fn peek_is_digit(&self) -> (r: bool)
        ensures
            r == (self.current < self.source@.len() && is_digit(self.source@[self.current as int])),
    {
        match self.peek() {
            Some(d) => is_digit_char(d),
            None => false,
        }
    }

    fn peek_is_ident_char(&self) -> (r: bool)
        ensures
            r == (self.current < self.source@.len() && is_ident_char(
                self.source@[self.current as int],
            )),
    {
        match self.peek() {
            Some(d) => is_alpha_char(d) || is_digit_char(d),
            None => false,
        }
    }

    fn peek_next(&self) -> (r: Option<char>)
        requires
            self.current < usize::MAX,
        ensures
            r == (if self.current + 1 < self.source@.len() {
                Some(self.source@[self.current + 1])
            } else {
                None
            }),
    {
        if self.current + 1 < self.source.len() {
            Some(self.source[self.current + 1])
        } else {
            None
        }
    }

    /// Consumes the next character where it is `c`.
    fn is_match(&mut self, c: char) -> (r: bool)
        requires
            old(self).wf(),
        ensures
            final(self).wf(),
            final(self).source@ == old(self).source@,
            final(self).errors@ == old(self).errors@,
            r == (old(self).current < old(self).source@.len() && old(self).source@[old(
                self,
            ).current as int] == c),
            final(self).current == old(self).current + if r {
                1int
            } else {
                0int
            },
    {
        let is_match = self.peek() == Some(c);
        if is_match {
            self.advance();
        }
        is_match
    }

    fn error(&mut self, line: usize, message: String)
        ensures
            final(self).source@ == old(self).source@,
            final(self).current == old(self).current,
            final(self).line == old(self).line,
            final(self).errors@ == old(self).errors@.push(LexError { line, message }),
    {
        self.errors.push(LexError { line, message });
    }

    fn substr(&self, start: usize, end: usize) -> (r: String)
        requires
            start <= end <= self.source@.len(),
        ensures
            r@ == self.source@.subrange(start as int, end as int),
    {
        crate::text::string_of_range(&self.source, start, end)
    }
}


/// What `scan_token` did to the scanner and returned, against `lex_at`.
spec fn scanned(old_s: Scanner, new_s: Scanner, r: Option<Token>) -> bool {
    let src = old_s.source@;
    let i = old_s.current as int;
    let (lexed, end) = lex_at(src, i);
    &&& new_s.wf()
    &&& new_s.source@ == src
    &&& new_s.current == end
    &&& i < end <= src.len()
    &&& match lexed {
        Lexed::Skip => r is None && new_s.errors@ == old_s.errors@,
        Lexed::Token(k) => r is Some && r->0@ == TokenModel {
            kind: k,
            lexeme: src.subrange(i, end),
            line: line_at(src, end),
        } && new_s.errors@ == old_s.errors@,
        Lexed::Error(m) => r is None && errors_view(new_s.errors@) == errors_view(
            old_s.errors@,
        ).push(LexErrorModel { line: line_at(src, i), message: m }),
    }
}

/// Consumes the rest of a comment, up to and including the line break.
fn skip_comment(scanner: &mut Scanner)
    requires
        old(scanner).wf(),
    ensures
        final(scanner).wf(),
        final(scanner).source@ == old(scanner).source@,
        final(scanner).errors@ == old(scanner).errors@,
        final(scanner).current == comment_end(old(scanner).source@, old(scanner).current as int),
{
    let ghost src = scanner.source@;
    let ghost from = scanner.current as int;
    let mut done = false;
    while !done && scanner.has_more()
        invariant
            scanner.wf(),
            scanner.source@ == src,
            scanner.errors@ == old(scanner).errors@,
            from <= scanner.current,
            done ==> scanner.current == comment_end(src, from),
            !done ==> comment_end(src, scanner.current as int) == comment_end(src, from),
        decreases src.len() - scanner.current, if done {
            0int
        } else {
            1int
        },
    {
        let d = scanner.advance();
        if d == '\n' {
            done = true;
        }
    }
}

/// Consumes the rest of a string literal; whether its closing quote was found.
fn skip_string(scanner: &mut Scanner) -> (closed: bool)
    requires
        old(scanner).wf(),
    ensures
        final(scanner).wf(),
        final(scanner).source@ == old(scanner).source@,
        final(scanner).errors@ == old(scanner).errors@,
        closed == quote_at_or_after(old(scanner).source@, old(scanner).current as int) is Some,
        closed ==> final(scanner).current == quote_at_or_after(
            old(scanner).source@,
            old(scanner).current as int,
        )->0 + 1,
        !closed ==> final(scanner).current == old(scanner).source@.len(),
{
    let ghost src = scanner.source@;
    let ghost from = scanner.current as int;
    let mut closed = false;
    let mut done = false;
    while !done
        invariant
            scanner.wf(),
            scanner.source@ == src,
            scanner.errors@ == old(scanner).errors@,
            from <= scanner.current,
            !done ==> !closed,
            !done ==> quote_at_or_after(src, scanner.current as int) == quote_at_or_after(src, from),
            done && closed ==> quote_at_or_after(src, from) is Some && scanner.current
                == quote_at_or_after(src, from)->0 + 1,
            done && !closed ==> quote_at_or_after(src, from) is None && scanner.current
                == src.len(),
        decreases src.len() - scanner.current, if done {
            0int
        } else {
            1int
        },
    {
        if !scanner.has_more() {
            done = true;
        } else {
            let ghost at = scanner.current as int;
            let d = scanner.advance();
            if d == '"' {
                assert(quote_at_or_after(src, at) == Some(at));
                closed = true;
                done = true;
            }
        }
    }
    closed
}

/// Consumes a run of digits.
fn skip_digits(scanner: &mut Scanner)
    requires
        old(scanner).wf(),
    ensures
        final(scanner).wf(),
        final(scanner).source@ == old(scanner).source@,
        final(scanner).errors@ == old(scanner).errors@,
        final(scanner).current == digits_end(old(scanner).source@, old(scanner).current as int),
{
    let ghost src = scanner.source@;
    let ghost from = scanner.current as int;
    while scanner.peek_is_digit()
        invariant
            scanner.wf(),
            scanner.source@ == src,
            scanner.errors@ == old(scanner).errors@,
            from <= scanner.current,
            digits_end(src, scanner.current as int) == digits_end(src, from),
        decreases src.len() - scanner.current,
    {
        scanner.advance();
    }
}

/// Consumes the rest of a number literal that started one character back.
fn skip_number(scanner: &mut Scanner)
    requires
        old(scanner).wf(),
        old(scanner).current >= 1,
        is_digit(old(scanner).source@[old(scanner).current - 1]),
    ensures
        final(scanner).wf(),
        final(scanner).source@ == old(scanner).source@,
        final(scanner).errors@ == old(scanner).errors@,
        final(scanner).current == number_end(old(scanner).source@, old(scanner).current - 1),
{
    skip_digits(scanner);
    let dot = scanner.peek() == Some('.');
    let digit_after = match scanner.peek_next() {
        Some(d) => is_digit_char(d),
        None => false,
    };
    if dot && digit_after {
        scanner.advance();
        skip_digits(scanner);
    }
}

/// Consumes the rest of an identifier that started one character back.
fn skip_identifier(scanner: &mut Scanner)
    requires
        old(scanner).wf(),
        old(scanner).current >= 1,
        is_ident_char(old(scanner).source@[old(scanner).current - 1]),
    ensures
        final(scanner).wf(),
        final(scanner).source@ == old(scanner).source@,
        final(scanner).errors@ == old(scanner).errors@,
        final(scanner).current == ident_end(old(scanner).source@, old(scanner).current - 1),
{
    let ghost src = scanner.source@;
    let ghost from = scanner.current as int;
    while scanner.peek_is_ident_char()
        invariant
            scanner.wf(),
            scanner.source@ == src,
            scanner.errors@ == old(scanner).errors@,
            from <= scanner.current,
            ident_end(src, scanner.current as int) == ident_end(src, from - 1),
        decreases src.len() - scanner.current,
    {
        scanner.advance();
    }
}

/// The token kind of a character that makes a token by itself, if any.
fn single_char_kind(c: char) -> (r: Option<TokenType>)
    ensures
        r == single_kind(c),
{
    if c == '(' {
        Some(TokenType::LeftParen)
    } else if c == ')' {
        Some(TokenType::RightParen)
    } else if c == '{' {
        Some(TokenType::LeftBrace)
    } else if c == '}' {
        Some(TokenType::RightBrace)
    } else if c == ',' {
        Some(TokenType::Comma)
    } else if c == '.' {
        Some(TokenType::Dot)
    } else if c == '-' {
        Some(TokenType::Minus)
    } else if c == '+' {
        Some(TokenType::Plus)
    } else if c == ';' {
        Some(TokenType::Semicolon)
    } else if c == '*' {
        Some(TokenType::Star)
    } else {
        None
    }
}

/// Consumes at least one character; returns the token that they make, if any.
fn scan_token(scanner: &mut Scanner) -> (r: Option<Token>)
    requires
        old(scanner).wf(),
        old(scanner).current < old(scanner).source@.len(),
    ensures
        scanned(*old(scanner), *final(scanner), r),
{
    let ghost src = scanner.source@;
    let start = scanner.current;
    let start_line = scanner.line;
    let c = scanner.advance();
    proof {
        lemma_run_ends(src, start + 1);
        lemma_run_ends(src, start as int);
        if start + 2 <= src.len() {
            lemma_run_ends(src, start + 2);
        }
        let d = digits_end(src, start as int);
        if d + 1 < src.len() {
            lemma_run_ends(src, d + 1);
        }
    }
    let single = single_char_kind(c);
    let token_type = if c == ' ' || c == '\t' || c == '\n' {
        return None;
    } else if let Some(k) = single {
        k
    } else if c == '!' || c == '=' || c == '>' || c == '<' {
        let with_equal = scanner.is_match('=');
        if c == '!' {
            if with_equal { TokenType::BangEqual } else { TokenType::Bang }
        } else if c == '=' {
            if with_equal { TokenType::EqualEqual } else { TokenType::Equal }
        } else if c == '>' {
            if with_equal { TokenType::GreaterEqual } else { TokenType::Greater }
        } else {
            if with_equal { TokenType::LessEqual } else { TokenType::Less }
        }
    } else if c == '/' {
        if scanner.is_match('/') {
            skip_comment(scanner);
            return None;
        } else {
            TokenType::Slash
        }
    } else if c == '"' {
        if !skip_string(scanner) {
            scanner.error(start_line, String::from_str("Unterminated string."));
            proof {
                assert(errors_view(scanner.errors@) =~= errors_view(old(scanner).errors@).push(
                    LexErrorModel { line: line_at(src, start as int), message: "Unterminated string."@ },
                ));
            }
            return None;
        }
        TokenType::StringLiteral
    } else if is_digit_char(c) {
        skip_number(scanner);
        TokenType::Number
    } else if is_alpha_char(c) {
        skip_identifier(scanner);
        let word = scanner.substr(start, scanner.current);
        match get_keyword(word.as_str()) {
            Some(k) => k,
            None => TokenType::Identifier,
        }
    } else {
        let mut message = String::from_str("Unexpected character: ");
        crate::text::push_char(&mut message, c);
        let ghost m = message@;
        scanner.error(start_line, message);
        proof {
            assert(errors_view(scanner.errors@) =~= errors_view(old(scanner).errors@).push(
                LexErrorModel { line: line_at(src, start as int), message: m },
            ));
        }
        return None;
    };
    let lexeme = scanner.substr(start, scanner.current);
    Some(Token { token_type, lexeme, line: scanner.line })
}


/// Scans all of `contents`: its tokens, the end-of-input token last, and its
/// lexical errors, in order. Scanning goes on after an error.
pub fn scan(contents: &str) -> (r: (Vec<Token>, Vec<LexError>))
    requires
        contents@.len() < usize::MAX,
    ensures
        tokens_view(r.0@) == tokens_of(contents@),
        strings_closed(tokens_view(r.0@)),
        errors_view(r.1@) == lex_errors_of(contents@),
{
    let mut tokens = Vec::<Token>::new();
    let mut scanner = Scanner::new(contents);
    let ghost src = contents@;
    while scanner.has_more()
        invariant
            scanner.wf(),
            scanner.source@ == src,
            tokens_view(tokens@) + scan_from(src, scanner.current as int).0 == scan_from(src, 0).0,
            errors_view(scanner.errors@) + scan_from(src, scanner.current as int).1 == scan_from(
                src,
                0,
            ).1,
        decreases src.len() - scanner.current,
    {
        let ghost before = scanner;
        let ghost toks = tokens_view(tokens@);
        let token = scan_token(&mut scanner);
        let ghost i = before.current as int;
        let ghost end = scanner.current as int;
        let ghost rest = scan_from(src, end);
        match token {
            Some(t) => {
                tokens.push(t);
                proof {
                    assert(tokens_view(tokens@) =~= toks.push(t@));
                    assert(scan_from(src, i).0 == seq![t@] + rest.0);
                    assert(toks + scan_from(src, i).0 =~= toks.push(t@) + rest.0);
                }
            },
            None => {},
        }
        proof {
            match lex_at(src, i).0 {
                Lexed::Error(m) => {
                    let e = LexErrorModel { line: line_at(src, i), message: m };
                    assert(errors_view(before.errors@) + scan_from(src, i).1 =~= errors_view(
                        before.errors@,
                    ).push(e) + rest.1);
                },
                _ => {},
            }
        }
    }
    proof {
        assert(tokens_view(tokens@) =~= scan_from(src, 0).0);
        assert(errors_view(scanner.errors@) =~= scan_from(src, 0).1);
    }
    let eof = Token { token_type: TokenType::Eof, lexeme: String::new(), line: scanner.line };
    tokens.push(eof);
    proof {
        assert(tokens_view(tokens@) =~= tokens_of(src));
        lemma_scanned_strings_closed(src, 0);
    }
    (tokens, scanner.errors)
}

/// Scans all of `contents`: its tokens, the end-of-input token last, and
/// whether any lexical error was found.
pub fn tokenize(contents: &str) -> (r: (Vec<Token>, bool))
    requires
        contents@.len() < usize::MAX,
    ensures
        tokens_view(r.0@) == tokens_of(contents@),
        strings_closed(tokens_view(r.0@)),
        r.1 == (lex_errors_of(contents@).len() > 0),
{
    let (tokens, errors) = scan(contents);
    let had_error = errors.len() > 0;
    (tokens, had_error)
}


/// Whether every character of `t` is a decimal digit.
pub open spec fn all_digits(t: Seq<char>) -> bool {
    forall|i: int| 0 <= i < t.len() ==> is_digit(#[trigger] t[i])
}

/// The position of the first `.` at or after `j`, or the length of `s`.
pub open spec fn dot_at_or_after(s: Seq<char>, j: int) -> int
    decreases s.len() - j,
{
    if j < 0 || j >= s.len() {
        s.len() as int
    } else if s[j] == '.' {
        j
    } else {
        dot_at_or_after(s, j + 1)
    }
}

/// Whether `s` is a number literal as the scanner reads one: one or more
/// digits, then optionally a `.` and one or more digits.
pub open spec fn is_number_literal(s: Seq<char>) -> bool {
    let d = dot_at_or_after(s, 0);
    &&& 0 < d
    &&& all_digits(s.take(d))
    &&& d < s.len() ==> d + 1 < s.len() && all_digits(s.skip(d + 1))
}

/// The position of the first character at or after `j` that is not `0`.
pub open spec fn skip_zeros(s: Seq<char>, j: int) -> int
    decreases s.len() - j,
{
    if 0 <= j < s.len() && s[j] == '0' {
        skip_zeros(s, j + 1)
    } else {
        j
    }
}

/// `e` moved back over the `0`s that end `s[lo..e]`.
pub open spec fn trim_zeros(s: Seq<char>, lo: int, e: int) -> int
    decreases e - lo,
{
    if lo < e && e <= s.len() && s[e - 1] == '0' {
        trim_zeros(s, lo, e - 1)
    } else {
        e
    }
}

/// `t`, or `0` where `t` is empty.
pub open spec fn or_zero(t: Seq<char>) -> Seq<char> {
    if t.len() == 0 {
        seq!['0']
    } else {
        t
    }
}

/// The canonical decimal form of a number literal: no leading zeros in the
/// whole part, no trailing zeros in the fraction, and always a `.` with at
/// least one digit on each side (`007` is `7.0`, `1.50` is `1.5`).
pub open spec fn canonical_decimal(s: Seq<char>) -> Seq<char> {
    let d = dot_at_or_after(s, 0);
    let whole = s.subrange(skip_zeros(s, 0), d);
    let fraction = if d < s.len() {
        s.subrange(d + 1, trim_zeros(s, d + 1, s.len() as int))
    } else {
        Seq::empty()
    };
    or_zero(whole) + seq!['.'] + or_zero(fraction)
}

/// Whether `t` has the shape that its kind asks for: a string literal keeps
/// its two quotes.
pub open spec fn literal_shape_ok(t: TokenModel) -> bool {
    t.kind == TokenType::StringLiteral ==> t.lexeme.len() >= 2
}

/// Whether every string-literal token of `toks` keeps its two quotes.
pub open spec fn strings_closed(toks: Seq<TokenModel>) -> bool {
    forall|i: int|
        0 <= i < toks.len() && #[trigger] toks[i].kind == TokenType::StringLiteral
            ==> toks[i].lexeme.len() >= 2
}

/// The literal form of a token: the text between the quotes of a string, the
/// canonical decimal of a number, and `null` for any other token.
pub open spec fn literal_text(t: TokenModel) -> Seq<char> {
    match t.kind {
        TokenType::StringLiteral => t.lexeme.subrange(1, t.lexeme.len() - 1),
        TokenType::Number => canonical_decimal(t.lexeme),
        _ => "null"@,
    }
}

proof fn lemma_zero_runs(s: Seq<char>, j: int, lo: int, e: int)
    requires
        0 <= j <= s.len(),
        0 <= lo <= e <= s.len(),
    ensures
        j <= skip_zeros(s, j) <= s.len(),
        lo <= trim_zeros(s, lo, e) <= e,
        j <= dot_at_or_after(s, j) <= s.len(),
    decreases s.len() - j + e - lo,
{
    if j < s.len() {
        lemma_zero_runs(s, j + 1, lo, e);
    } else if lo < e {
        lemma_zero_runs(s, j, lo, e - 1);
    }
}

proof fn lemma_zeros_stop_at_dot(s: Seq<char>, j: int, d: int)
    requires
        0 <= j <= d <= s.len(),
        d < s.len() ==> s[d] == '.',
    ensures
        skip_zeros(s, j) <= d,
    decreases d - j,
{
    if j < d {
        lemma_zeros_stop_at_dot(s, j + 1, d);
    }
}

/// The canonical decimal form of the number literal `s`.
pub fn canonical_number(s: &Vec<char>) -> (r: Vec<char>)
    ensures
        r@ == canonical_decimal(s@),
{
    let n = s.len();
    proof {
        lemma_zero_runs(s@, 0, 0, 0);
    }
    let mut d: usize = 0;
    while d < n && s[d] != '.'
        invariant
            d <= n == s@.len(),
            dot_at_or_after(s@, d as int) == dot_at_or_after(s@, 0),
        decreases n - d,
    {
        d += 1;
    }
    let mut w: usize = 0;
    while w < n && s[w] == '0'
        invariant
            w <= n == s@.len(),
            skip_zeros(s@, w as int) == skip_zeros(s@, 0),
        decreases n - w,
    {
        w += 1;
    }
    proof {
        lemma_zeros_stop_at_dot(s@, 0, d as int);
    }
    let mut r: Vec<char> = Vec::new();
    if w == d {
        r.push('0');
    } else {
        let mut i: usize = w;
        while i < d
            invariant
                w <= i <= d <= n == s@.len(),
                r@ == s@.subrange(w as int, i as int),
            decreases d - i,
        {
            r.push(s[i]);
            proof {
                assert(s@.subrange(w as int, i + 1) =~= s@.subrange(w as int, i as int).push(
                    s@[i as int],
                ));
            }
            i += 1;
        }
    }
    let ghost whole = r@;
    r.push('.');
    let ghost fraction: Seq<char> = Seq::empty();
    let mut e: usize = n;
    if d < n {
        proof {
            lemma_zero_runs(s@, 0, d + 1, n as int);
        }
        while e > d + 1 && s[e - 1] == '0'
            invariant
                d + 1 <= e <= n == s@.len(),
                trim_zeros(s@, d + 1, e as int) == trim_zeros(s@, d + 1, n as int),
            decreases e,
        {
            e -= 1;
        }
        let mut i: usize = d + 1;
        while i < e
            invariant
                d + 1 <= i <= e <= n == s@.len(),
                r@ == whole.push('.') + s@.subrange(d + 1, i as int),
            decreases e - i,
        {
            r.push(s[i]);
            proof {
                assert(s@.subrange(d + 1, i + 1) =~= s@.subrange(d + 1, i as int).push(
                    s@[i as int],
                ));
            }
            i += 1;
        }
        proof {
            fraction = s@.subrange(d + 1, e as int);
        }
    }
    if d >= n || e == d + 1 {
        r.push('0');
    }
    proof {
        assert(r@ =~= or_zero(s@.subrange(w as int, d as int)) + seq!['.'] + or_zero(fraction));
    }
    r
}


impl Token {
    /// The literal form of this token: the text between the quotes of a
    /// string, the canonical decimal of a number, `null` otherwise.
    pub fn literal_str(&self) -> (r: String)
        requires
            literal_shape_ok(self@),
        ensures
            r@ == literal_text(self@),
    {
        match self.token_type {
            TokenType::StringLiteral => {
                let chars = crate::text::chars_of(self.lexeme.as_str());
                crate::text::string_of_range(&chars, 1, chars.len() - 1)
            },
            TokenType::Number => {
                let chars = crate::text::chars_of(self.lexeme.as_str());
                crate::text::string_of(&canonical_number(&chars))
            },
            _ => String::from_str("null"),
        }
    }
}


proof fn lemma_digit_run(s: Seq<char>, j: int, k: int)
    requires
        0 <= j <= k <= s.len(),
        forall|i: int| j <= i < k ==> is_digit(#[trigger] s[i]),
        k == s.len() || !is_digit(s[k]),
    ensures
        digits_end(s, j) == k,
    decreases k - j,
{
    if j < k {
        lemma_digit_run(s, j + 1, k);
    }
}

proof fn lemma_dot_found(s: Seq<char>, j: int)
    requires
        0 <= j <= s.len(),
    ensures
        j <= dot_at_or_after(s, j) <= s.len(),
        dot_at_or_after(s, j) < s.len() ==> s[dot_at_or_after(s, j)] == '.',
    decreases s.len() - j,
{
    if j < s.len() {
        lemma_dot_found(s, j + 1);
    }
}

/// A number literal, scanned on its own, is one number token that spans
/// all of it, then the end of input; and its literal form is its canonical
/// decimal (`123` gives `123.0`).
pub proof fn number_literal_round_trip(n: Seq<char>)
    requires
        is_number_literal(n),
    ensures
        lex_errors_of(n).len() == 0,
        tokens_of(n).len() == 2,
        tokens_of(n)[0].kind == TokenType::Number,
        tokens_of(n)[0].lexeme == n,
        tokens_of(n)[1].kind == TokenType::Eof,
        literal_text(tokens_of(n)[0]) == canonical_decimal(n),
{
    let d = dot_at_or_after(n, 0);
    lemma_dot_found(n, 0);
    assert(is_digit(n[0])) by {
        assert(n.take(d)[0] == n[0]);
    }
    assert forall|i: int| 0 <= i < d implies is_digit(#[trigger] n[i]) by {
        assert(n.take(d)[i] == n[i]);
    }
    lemma_digit_run(n, 0, d);
    if d < n.len() {
        assert forall|i: int| d + 1 <= i < n.len() implies is_digit(#[trigger] n[i]) by {
            assert(n.skip(d + 1)[i - d - 1] == n[i]);
        }
        lemma_digit_run(n, d + 1, n.len() as int);
        assert(is_digit(n[d + 1])) by {
            assert(n.skip(d + 1)[0] == n[d + 1]);
        }
    }
    assert(lex_at(n, 0) == (Lexed::Token(TokenType::Number), n.len() as int));
    assert(scan_from(n, n.len() as int) == (Seq::<TokenModel>::empty(), Seq::<LexErrorModel>::empty()));
    assert(n.subrange(0, n.len() as int) =~= n);
}

/// A string literal whose closing quote never comes makes a lexical error
/// at its starting line and no token: nothing from its opening quote on
/// gives a token.
pub proof fn unterminated_string_gives_no_token(src: Seq<char>, i: int)
    requires
        0 <= i < src.len(),
        src[i] == '"',
        quote_at_or_after(src, i + 1) is None,
    ensures
        scan_from(src, i).0.len() == 0,
        scan_from(src, i).1 == seq![
            LexErrorModel { line: line_at(src, i), message: "Unterminated string."@ },
        ],
{
    assert(lex_at(src, i) == (Lexed::Error("Unterminated string."@), src.len() as int));
    assert(scan_from(src, src.len() as int) == (Seq::<TokenModel>::empty(), Seq::<LexErrorModel>::empty()));
    assert(scan_from(src, i).1 =~= seq![
        LexErrorModel { line: line_at(src, i), message: "Unterminated string."@ },
    ]);
}


proof fn lemma_scanned_strings_closed(src: Seq<char>, i: int)
    ensures
        strings_closed(scan_from(src, i).0),
    decreases src.len() - i,
{
    if 0 <= i < src.len() {
        let (lexed, end) = lex_at(src, i);
        if i < end <= src.len() {
            lemma_scanned_strings_closed(src, end);
            let rest = scan_from(src, end).0;
            match lexed {
                Lexed::Token(k) => {
                    if k == TokenType::StringLiteral {
                        lemma_run_ends(src, i + 1);
                    }
                    let t = TokenModel { kind: k, lexeme: src.subrange(i, end), line: line_at(src, end) };
                    assert forall|j: int|
                        0 <= j < scan_from(src, i).0.len() && #[trigger] scan_from(src, i).0[j].kind
                            == TokenType::StringLiteral implies scan_from(src, i).0[j].lexeme.len()
                        >= 2 by {
                        if j > 0 {
                            assert(scan_from(src, i).0[j] == rest[j - 1]);
                        }
                    }
                },
                _ => {},
            }
        }
    }
}

} // verus!
