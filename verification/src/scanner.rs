//! Tokens and the scanner that produces them from source text.

use vstd::prelude::*;
use crate::number::Number;
use crate::text::{append, chars_of, decimal, decimal_text, push_char, string_of};

verus! {

/// The ten decimal digits.
pub open spec fn digit(ch: char) -> bool {
    '0' <= ch && ch <= '9'
}

/// The ASCII letters and the underscore.
pub open spec fn alpha(ch: char) -> bool {
    ('a' <= ch && ch <= 'z') || ('A' <= ch && ch <= 'Z') || ch == '_'
}

/// What may continue an identifier.
pub open spec fn alpha_num(ch: char) -> bool {
    alpha(ch) || digit(ch)
}

pub fn is_digit(ch: char) -> (r: bool)
    ensures
        r == digit(ch),
{
    '0' <= ch && ch <= '9'
}

pub fn is_alpha(ch: char) -> (r: bool)
    ensures
        r == alpha(ch),
{
    ('a' <= ch && ch <= 'z') || ('A' <= ch && ch <= 'Z') || ch == '_'
}

pub fn is_alpha_num(ch: char) -> (r: bool)
    ensures
        r == alpha_num(ch),
{
    is_alpha(ch) || is_digit(ch)
}

/// The types of tokens.
#[derive(Debug, Clone, Copy, PartialEq, Eq, Structural)]
pub enum TokenType {
    LeftParen,
    RightParen,
    LeftBrace,
    RightBrace,
    Comma,
    Dot,
    Plus,
    Minus,
    Semicolon,
    Slash,
    Star,
    Bang,
    BangEqual,
    Greater,
    GreaterEqual,
    Less,
    LessEqual,
    Equal,
    EqualEqual,
    Identifier,
    String_,
    Number,
    And,
    Or,
    True,
    False,
    Class,
    If,
    Else,
    Func,
    For,
    While,
    Nil,
    Print,
    Return,
    Super,
    This,
    Var,
    Eof,
}

/// What a literal token stands for.
#[derive(Debug)]
pub enum LiteralValue {
    FloatValue(Number),
    StringValue(String),
}

impl Clone for LiteralValue {
    fn clone(&self) -> (r: Self)
        ensures
            r == *self,
    {
        match self {
            LiteralValue::FloatValue(n) => LiteralValue::FloatValue(n.clone()),
            LiteralValue::StringValue(s) => LiteralValue::StringValue(s.clone()),
        }
    }
}

/// A token: its type, the text it was read from, what it stands for if it
/// is a literal, and the line it is on.
#[derive(Debug)]
pub struct Token {
    pub token_type: TokenType,
    pub lexeme: String,
    pub literal: Option<LiteralValue>,
    pub line_number: usize,
}

impl Clone for Token {
    fn clone(&self) -> (r: Self)
        ensures
            r == *self,
    {
        let literal = match &self.literal {
            Some(l) => Some(l.clone()),
            None => None,
        };
        Token {
            token_type: self.token_type,
            lexeme: self.lexeme.clone(),
            literal,
            line_number: self.line_number,
        }
    }
}

/// What a literal token stands for, as plain values.
pub ghost enum LiteralModel {
    FloatValue { bits: u64, text: Seq<char> },
    StringValue(Seq<char>),
}

/// A token as plain values.
pub ghost struct TokenModel {
    pub token_type: TokenType,
    pub lexeme: Seq<char>,
    pub literal: Option<LiteralModel>,
    pub line_number: usize,
}

impl LiteralValue {
    pub open spec fn view(&self) -> LiteralModel {
        match self {
            LiteralValue::FloatValue(n) => LiteralModel::FloatValue { bits: n.bits, text: n.text@ },
            LiteralValue::StringValue(s) => LiteralModel::StringValue(s@),
        }
    }
}

impl Token {
    pub open spec fn view(&self) -> TokenModel {
        TokenModel {
            token_type: self.token_type,
            lexeme: self.lexeme@,
            literal: match self.literal {
                Some(l) => Some(l@),
                None => None,
            },
            line_number: self.line_number,
        }
    }
}

/// The tokens of a sequence, as plain values.
pub open spec fn models(tokens: Seq<Token>) -> Seq<TokenModel> {
    Seq::new(tokens.len(), |i: int| tokens[i]@)
}

/// A lexical error, with the line it is attributed to.
#[derive(Debug, Clone, Copy, PartialEq, Eq, Structural)]
pub enum LexError {
    /// A character that begins no token.
    UnrecognisedChar { ch: char, line: usize },
    /// A string literal without its closing quote; `line` is the line on
    /// which the literal begins.
    UnterminatedString { line: usize },
}

/// What scanning a whole source comes to.
pub ghost struct Lexed {
    pub tokens: Seq<TokenModel>,
    pub errors: Seq<LexError>,
}

/// What scanning one lexical item comes to: a token or none, an error or
/// none, and the position and line at which scanning goes on.
pub ghost struct Piece {
    pub token: Option<TokenModel>,
    pub error: Option<LexError>,
    pub next: int,
    pub line: usize,
}

/// The line after `line`.
pub open spec fn next_line(line: usize) -> usize {
    if line < usize::MAX {
        (line + 1) as usize
    } else {
        line
    }
}

/// The first position from `pos` on that holds no digit, or the end.
pub open spec fn digits_end(src: Seq<char>, pos: int) -> int
    decreases src.len() - pos,
{
    if 0 <= pos < src.len() && digit(src[pos]) {
        digits_end(src, pos + 1)
    } else {
        pos
    }
}

/// The first position from `pos` on that cannot continue an identifier, or
/// the end.
pub open spec fn word_end(src: Seq<char>, pos: int) -> int
    decreases src.len() - pos,
{
    if 0 <= pos < src.len() && alpha_num(src[pos]) {
        word_end(src, pos + 1)
    } else {
        pos
    }
}

/// The first position from `pos` on that holds a line feed, or the end.
pub open spec fn line_end(src: Seq<char>, pos: int) -> int
    decreases src.len() - pos,
{
    if 0 <= pos < src.len() && src[pos] != '\n' {
        line_end(src, pos + 1)
    } else {
        pos
    }
}

/// The first position from `pos` on that holds a double quote, or the end.
pub open spec fn quote_at(src: Seq<char>, pos: int) -> int
    decreases src.len() - pos,
{
    if 0 <= pos < src.len() && src[pos] != '"' {
        quote_at(src, pos + 1)
    } else {
        pos
    }
}

/// The line reached from `line` after the characters of `src[from..to]`.
pub open spec fn line_after(src: Seq<char>, from: int, to: int, line: usize) -> usize
    decreases to - from,
{
    if 0 <= from < to && from < src.len() {
        line_after(
            src,
            from + 1,
            to,
            if src[from] == '\n' {
                next_line(line)
            } else {
                line
            },
        )
    } else {
        line
    }
}

/// The reserved word that `word` is, if it is one.
pub open spec fn keyword(word: Seq<char>) -> Option<TokenType> {
    if word == "and"@ {
        Some(TokenType::And)
    } else if word == "or"@ {
        Some(TokenType::Or)
    } else if word == "class"@ {
        Some(TokenType::Class)
    } else if word == "else"@ {
        Some(TokenType::Else)
    } else if word == "if"@ {
        Some(TokenType::If)
    } else if word == "true"@ {
        Some(TokenType::True)
    } else if word == "false"@ {
        Some(TokenType::False)
    } else if word == "for"@ {
        Some(TokenType::For)
    } else if word == "nil"@ {
        Some(TokenType::Nil)
    } else if word == "print"@ {
        Some(TokenType::Print)
    } else if word == "return"@ {
        Some(TokenType::Return)
    } else if word == "func"@ {
        Some(TokenType::Func)
    } else if word == "this"@ {
        Some(TokenType::This)
    } else if word == "while"@ {
        Some(TokenType::While)
    } else if word == "super"@ {
        Some(TokenType::Super)
    } else if word == "var"@ {
        Some(TokenType::Var)
    } else {
        None
    }
}

/// The token of type `t` that spans `src[pos..end]`, followed by nothing
/// else.
pub open spec fn plain(src: Seq<char>, pos: int, end: int, t: TokenType, line: usize) -> Piece {
    Piece {
        token: Some(TokenModel { token_type: t, lexeme: src.subrange(pos, end), literal: None, line_number: line }),
        error: None,
        next: end,
        line,
    }
}

/// No token and no error: scanning goes on at `next` on line `line`.
pub open spec fn skip(next: int, line: usize) -> Piece {
    Piece { token: None, error: None, next, line }
}

/// Whether `src[pos]` is followed by the character `c`.
pub open spec fn followed_by(src: Seq<char>, pos: int, c: char) -> bool {
    pos + 1 < src.len() && src[pos + 1] == c
}

/// One or two characters: the longer operator where `=` follows.
pub open spec fn operator(src: Seq<char>, pos: int, single: TokenType, double: TokenType, line: usize) -> Piece {
    if followed_by(src, pos, '=') {
        plain(src, pos, pos + 2, double, line)
    } else {
        plain(src, pos, pos + 1, single, line)
    }
}

/// A string literal that opens at `pos`. It runs to the next double quote
/// with no escapes; line feeds inside it count. The token is put on the
/// line where the literal ends; a literal left open is an error on the
/// line where it begins.
pub open spec fn string_piece(src: Seq<char>, pos: int, line: usize) -> Piece {
    let close = quote_at(src, pos + 1);
    let end_line = line_after(src, pos + 1, close, line);
    if close < src.len() {
        Piece {
            token: Some(
                TokenModel {
                    token_type: TokenType::String_,
                    lexeme: src.subrange(pos, close + 1),
                    literal: Some(LiteralModel::StringValue(src.subrange(pos + 1, close))),
                    line_number: end_line,
                },
            ),
            error: None,
            next: close + 1,
            line: end_line,
        }
    } else {
        Piece { token: None, error: Some(LexError::UnterminatedString { line }), next: close, line: end_line }
    }
}

/// Where the number that begins at `pos` ends: after its digits, and
/// after a fraction if a dot and a digit follow them.
pub open spec fn number_end(src: Seq<char>, pos: int) -> int {
    let whole = digits_end(src, pos + 1);
    if whole + 1 < src.len() && src[whole] == '.' && digit(src[whole + 1]) {
        digits_end(src, whole + 1)
    } else {
        whole
    }
}

/// An identifier or a reserved word that begins at `pos`.
pub open spec fn word_piece(src: Seq<char>, pos: int, line: usize) -> Piece {
    let end = word_end(src, pos + 1);
    let t = match keyword(src.subrange(pos, end)) {
        Some(k) => k,
        None => TokenType::Identifier,
    };
    plain(src, pos, end, t, line)
}

/// The lexical item that begins at `pos`.
pub open spec fn scan_one(src: Seq<char>, pos: int, line: usize) -> Piece {
    let c = src[pos];
    if c == '(' {
        plain(src, pos, pos + 1, TokenType::LeftParen, line)
    } else if c == ')' {
        plain(src, pos, pos + 1, TokenType::RightParen, line)
    } else if c == '{' {
        plain(src, pos, pos + 1, TokenType::LeftBrace, line)
    } else if c == '}' {
        plain(src, pos, pos + 1, TokenType::RightBrace, line)
    } else if c == ',' {
        plain(src, pos, pos + 1, TokenType::Comma, line)
    } else if c == '.' {
        plain(src, pos, pos + 1, TokenType::Dot, line)
    } else if c == '+' {
        plain(src, pos, pos + 1, TokenType::Plus, line)
    } else if c == '-' {
        plain(src, pos, pos + 1, TokenType::Minus, line)
    } else if c == ';' {
        plain(src, pos, pos + 1, TokenType::Semicolon, line)
    } else if c == '*' {
        plain(src, pos, pos + 1, TokenType::Star, line)
    } else if c == '!' {
        operator(src, pos, TokenType::Bang, TokenType::BangEqual, line)
    } else if c == '=' {
        operator(src, pos, TokenType::Equal, TokenType::EqualEqual, line)
    } else if c == '>' {
        operator(src, pos, TokenType::Greater, TokenType::GreaterEqual, line)
    } else if c == '<' {
        operator(src, pos, TokenType::Less, TokenType::LessEqual, line)
    } else if c == '/' {
        if followed_by(src, pos, '/') {
            skip(line_end(src, pos + 2), line)
        } else {
            plain(src, pos, pos + 1, TokenType::Slash, line)
        }
    } else if c == '"' {
        string_piece(src, pos, line)
    } else if c == ' ' || c == '\r' || c == '\t' {
        skip(pos + 1, line)
    } else if c == '\n' {
        skip(pos + 1, next_line(line))
    } else if digit(c) {
        plain(src, pos, number_end(src, pos), TokenType::Number, line)
    } else if alpha(c) {
        word_piece(src, pos, line)
    } else {
        Piece { token: None, error: Some(LexError::UnrecognisedChar { ch: c, line }), next: pos + 1, line }
    }
}

/// The end marker on line `line`.
pub open spec fn end_marker(line: usize) -> TokenModel {
    TokenModel { token_type: TokenType::Eof, lexeme: Seq::empty(), literal: None, line_number: line }
}

/// The tokens and errors of `src` from `pos` on, where `pos` is on line
/// `line`: those of each lexical item in turn, with the end marker as the
/// last token.
pub open spec fn scan_from(src: Seq<char>, pos: int, line: usize) -> Lexed
    decreases src.len() - pos,
{
    if pos < 0 || pos >= src.len() {
        Lexed { tokens: seq![end_marker(line)], errors: Seq::empty() }
    } else {
        let piece = scan_one(src, pos, line);
        let next = if pos < piece.next <= src.len() {
            piece.next
        } else {
            pos + 1
        };
        let rest = scan_from(src, next, piece.line);
        Lexed {
            tokens: match piece.token {
                Some(t) => seq![t] + rest.tokens,
                None => rest.tokens,
            },
            errors: match piece.error {
                Some(e) => seq![e] + rest.errors,
                None => rest.errors,
            },
        }
    }
}

/// The tokens and errors of a whole source.
pub open spec fn scan(src: Seq<char>) -> Lexed {
    scan_from(src, 0, 1)
}

/// A run of digits ends at or after the position where it begins, and
/// within the source.
proof fn digits_end_bounds(src: Seq<char>, pos: int)
    requires
        0 <= pos <= src.len(),
    ensures
        pos <= digits_end(src, pos) <= src.len(),
    decreases src.len() - pos,
{
    if pos < src.len() && digit(src[pos]) {
        digits_end_bounds(src, pos + 1);
    }
}

proof fn word_end_bounds(src: Seq<char>, pos: int)
    requires
        0 <= pos <= src.len(),
    ensures
        pos <= word_end(src, pos) <= src.len(),
    decreases src.len() - pos,
{
    if pos < src.len() && alpha_num(src[pos]) {
        word_end_bounds(src, pos + 1);
    }
}

proof fn line_end_bounds(src: Seq<char>, pos: int)
    requires
        0 <= pos <= src.len(),
    ensures
        pos <= line_end(src, pos) <= src.len(),
    decreases src.len() - pos,
{
    if pos < src.len() && src[pos] != '\n' {
        line_end_bounds(src, pos + 1);
    }
}

proof fn quote_at_bounds(src: Seq<char>, pos: int)
    requires
        0 <= pos <= src.len(),
    ensures
        pos <= quote_at(src, pos) <= src.len(),
    decreases src.len() - pos,
{
    if pos < src.len() && src[pos] != '"' {
        quote_at_bounds(src, pos + 1);
    }
}

/// Whether the tokens `after` are the tokens `before`, followed by `token`
/// if there is one.
pub open spec fn grown(before: Seq<Token>, after: Seq<Token>, token: Option<TokenModel>) -> bool {
    match token {
        Some(t) => after.len() == before.len() + 1 && after.last()@ == t && after.drop_last() == before,
        None => after == before,
    }
}

/// Whether `r` reports `error`, if there is one, and success otherwise.
pub open spec fn reported(r: Result<(), LexError>, error: Option<LexError>) -> bool {
    match error {
        Some(e) => r == Err::<(), LexError>(e),
        None => r is Ok,
    }
}

/// Whether `chars[from..to]` spells `word`.
fn spells(chars: &Vec<char>, from: usize, to: usize, word: &str) -> (r: bool)
    requires
        from <= to <= chars.len(),
    ensures
        r == (chars@.subrange(from as int, to as int) == word@),
{
    let w = chars_of(word);
    if w.len() != to - from {
        return false;
    }
    let mut i: usize = 0;
    while i < w.len()
        invariant
            0 <= i <= w.len(),
            w.len() == to - from,
            from <= to <= chars.len(),
            w@ == word@,
            forall|j: int| 0 <= j < i ==> chars@[from + j] == w@[j],
        decreases w.len() - i,
    {
        if chars[from + i] != w[i] {
            proof {
                assert(chars@.subrange(from as int, to as int)[i as int] != word@[i as int]);
            }
            return false;
        }
        i += 1;
    }
    proof {
        assert(chars@.subrange(from as int, to as int) =~= word@);
    }
    true
}

/// Decides `keyword` for `chars[from..to]`.
fn keyword_of(chars: &Vec<char>, from: usize, to: usize) -> (r: Option<TokenType>)
    requires
        from <= to <= chars.len(),
    ensures
        r == keyword(chars@.subrange(from as int, to as int)),
{
    if spells(chars, from, to, "and") {
        Some(TokenType::And)
    } else if spells(chars, from, to, "or") {
        Some(TokenType::Or)
    } else if spells(chars, from, to, "class") {
        Some(TokenType::Class)
    } else if spells(chars, from, to, "else") {
        Some(TokenType::Else)
    } else if spells(chars, from, to, "if") {
        Some(TokenType::If)
    } else if spells(chars, from, to, "true") {
        Some(TokenType::True)
    } else if spells(chars, from, to, "false") {
        Some(TokenType::False)
    } else if spells(chars, from, to, "for") {
        Some(TokenType::For)
    } else if spells(chars, from, to, "nil") {
        Some(TokenType::Nil)
    } else if spells(chars, from, to, "print") {
        Some(TokenType::Print)
    } else if spells(chars, from, to, "return") {
        Some(TokenType::Return)
    } else if spells(chars, from, to, "func") {
        Some(TokenType::Func)
    } else if spells(chars, from, to, "this") {
        Some(TokenType::This)
    } else if spells(chars, from, to, "while") {
        Some(TokenType::While)
    } else if spells(chars, from, to, "super") {
        Some(TokenType::Super)
    } else if spells(chars, from, to, "var") {
        Some(TokenType::Var)
    } else {
        None
    }
}

/// A copy of a vector of tokens.
pub fn clone_tokens(tokens: &Vec<Token>) -> (r: Vec<Token>)
    ensures
        r@ == tokens@,
{
    let mut r: Vec<Token> = Vec::new();
    let mut i: usize = 0;
    while i < tokens.len()
        invariant
            0 <= i <= tokens.len(),
            r@ == tokens@.subrange(0, i as int),
        decreases tokens.len() - i,
    {
        r.push(tokens[i].clone());
        i += 1;
        proof {
            assert(r@ =~= tokens@.subrange(0, i as int));
        }
    }
    proof {
        assert(tokens@.subrange(0, tokens.len() as int) =~= tokens@);
    }
    r
}

/// Scans a source text for tokens, one lexical item at a time.
pub struct Scanner {
    source: Vec<char>,
    tokens: Vec<Token>,
    start: usize,
    current: usize,
    line: usize,
}

impl Scanner {
    /// The characters of the source.
    pub closed spec fn source(&self) -> Seq<char> {
        self.source@
    }

    /// The tokens made so far.
    pub closed spec fn tokens(&self) -> Seq<Token> {
        self.tokens@
    }

    /// The position of the next character to read.
    pub closed spec fn current(&self) -> int {
        self.current as int
    }

    /// The position at which the lexical item under way began.
    pub closed spec fn start(&self) -> int {
        self.start as int
    }

    /// The line of the next character to read.
    pub closed spec fn line(&self) -> usize {
        self.line
    }

    pub open spec fn wf(&self) -> bool {
        0 <= self.start() <= self.current() <= self.source().len()
    }

    /// A scanner at the start of `source`, on line 1.
    pub fn new(source: &str) -> (r: Self)
        ensures
            r.wf(),
            r.source() == source@,
            r.tokens() == Seq::<Token>::empty(),
            r.current() == 0,
            r.start() == 0,
            r.line() == 1,
    {
        Scanner { source: chars_of(source), tokens: Vec::new(), start: 0, current: 0, line: 1 }
    }

    /// Scans the rest of the source. The tokens are added to those made
    /// so far, the end marker last. With no error in what was scanned, all
    /// tokens are returned; otherwise the errors are, in the order in which
    /// they were met.
    pub fn scan_tokens(&mut self) -> (r: Result<Vec<Token>, Vec<LexError>>)
        requires
            old(self).wf(),
        ensures
            final(self).wf(),
            final(self).source() == old(self).source(),
            final(self).current() == old(self).source().len(),
            models(final(self).tokens()) == models(old(self).tokens()) + scan_from(
                old(self).source(),
                old(self).current(),
                old(self).line(),
            ).tokens,
            match r {
                Ok(tokens) => {
                    &&& scan_from(old(self).source(), old(self).current(), old(self).line()).errors.len() == 0
                    &&& tokens@ == final(self).tokens()
                },
                Err(errors) => {
                    &&& errors@.len() > 0
                    &&& errors@ == scan_from(old(self).source(), old(self).current(), old(self).line()).errors
                },
            },
    {
        let mut errors: Vec<LexError> = Vec::new();
        let ghost src = self.source@;
        let ghost whole = scan_from(src, self.current as int, self.line);
        let ghost before = models(self.tokens@);
        while !self.is_at_end()
            invariant
                self.wf(),
                self.source@ == src,
                before + whole.tokens == models(self.tokens@) + scan_from(src, self.current as int, self.line).tokens,
                whole.errors == errors@ + scan_from(src, self.current as int, self.line).errors,
            decreases src.len() - self.current,
        {
            self.start = self.current;
            let ghost piece = scan_one(src, self.current as int, self.line);
            let ghost toks = models(self.tokens@);
            let ghost rest = scan_from(src, piece.next, piece.line);
            match self.scan_token() {
                Ok(()) => {
                    proof {
                        match piece.token {
                            Some(t) => {
                                assert(models(self.tokens@) =~= toks.push(t));
                                assert(toks + (seq![t] + rest.tokens) =~= toks.push(t) + rest.tokens);
                            },
                            None => {
                                assert(models(self.tokens@) =~= toks);
                            },
                        }
                    }
                },
                Err(e) => {
                    proof {
                        assert(models(self.tokens@) =~= toks);
                        assert(errors@ + (seq![e] + rest.errors) =~= errors@.push(e) + rest.errors);
                    }
                    errors.push(e);
                },
            }
        }
        let end = Token { token_type: TokenType::Eof, lexeme: String::new(), literal: None, line_number: self.line };
        proof {
            assert(end@ == end_marker(self.line));
            assert(models(self.tokens@.push(end)) =~= models(self.tokens@).push(end@));
            assert(models(self.tokens@) + seq![end_marker(self.line)] =~= models(self.tokens@).push(end@));
            assert(errors@ + Seq::<LexError>::empty() =~= errors@);
        }
        self.tokens.push(end);
        if errors.len() > 0 {
            Err(errors)
        } else {
            Ok(clone_tokens(&self.tokens))
        }
    }

    fn is_at_end(&self) -> (r: bool)
        requires
            self.wf(),
        ensures
            r == (self.current() >= self.source().len()),
    {
        self.current >= self.source.len()
    }

    /// Scans the lexical item that begins at the current position.
    fn scan_token(&mut self) -> (r: Result<(), LexError>)
        requires
            old(self).wf(),
            old(self).start() == old(self).current(),
            old(self).current() < old(self).source().len(),
        ensures
            final(self).wf(),
            final(self).source() == old(self).source(),
            final(self).current() > old(self).current(),
            ({
                let piece = scan_one(old(self).source(), old(self).current(), old(self).line());
                &&& final(self).current() == piece.next
                &&& final(self).line() == piece.line
                &&& grown(old(self).tokens(), final(self).tokens(), piece.token)
                &&& reported(r, piece.error)
            }),
    {
        let c = self.advance();
        if c == '(' {
            self.add_token(TokenType::LeftParen);
        } else if c == ')' {
            self.add_token(TokenType::RightParen);
        } else if c == '{' {
            self.add_token(TokenType::LeftBrace);
        } else if c == '}' {
            self.add_token(TokenType::RightBrace);
        } else if c == ',' {
            self.add_token(TokenType::Comma);
        } else if c == '.' {
            self.add_token(TokenType::Dot);
        } else if c == '+' {
            self.add_token(TokenType::Plus);
        } else if c == '-' {
            self.add_token(TokenType::Minus);
        } else if c == ';' {
            self.add_token(TokenType::Semicolon);
        } else if c == '*' {
            self.add_token(TokenType::Star);
        } else if c == '!' {
            let token = if self.char_match('=') {
                TokenType::BangEqual
            } else {
                TokenType::Bang
            };
            self.add_token(token);
        } else if c == '=' {
            let token = if self.char_match('=') {
                TokenType::EqualEqual
            } else {
                TokenType::Equal
            };
            self.add_token(token);
        } else if c == '>' {
            let token = if self.char_match('=') {
                TokenType::GreaterEqual
            } else {
                TokenType::Greater
            };
            self.add_token(token);
        } else if c == '<' {
            let token = if self.char_match('=') {
                TokenType::LessEqual
            } else {
                TokenType::Less
            };
            self.add_token(token);
        } else if c == '/' {
            if self.char_match('/') {
                while !self.is_at_end() && self.peek() != '\n'
                    invariant
                        self.wf(),
                        self.source@ == old(self).source@,
                        self.tokens@ == old(self).tokens@,
                        self.line == old(self).line,
                        self.start == old(self).start,
                        self.current >= old(self).current + 2,
                        line_end(self.source@, old(self).current + 2) == line_end(self.source@, self.current as int),
                    decreases self.source@.len() - self.current,
                {
                    self.advance();
                }
            } else {
                self.add_token(TokenType::Slash);
            }
        } else if c == '"' {
            return self.string_literal();
        } else if c == ' ' || c == '\r' || c == '\t' {
        } else if c == '\n' {
            self.next_line();
        } else if is_digit(c) {
            self.number();
        } else if is_alpha(c) {
            self.identifier();
        } else {
            return Err(LexError::UnrecognisedChar { ch: c, line: self.line });
        }
        Ok(())
    }

    fn next_line(&mut self)
        requires
            old(self).wf(),
        ensures
            final(self).wf(),
            final(self).source() == old(self).source(),
            final(self).tokens() == old(self).tokens(),
            final(self).current() == old(self).current(),
            final(self).start() == old(self).start(),
            final(self).line() == next_line(old(self).line()),
    {
        if self.line < usize::MAX {
            self.line += 1;
        }
    }

    /// An identifier or a reserved word, whose first character has been
    /// read.
    fn identifier(&mut self)
        requires
            old(self).wf(),
            old(self).start() + 1 == old(self).current(),
        ensures
            final(self).wf(),
            final(self).source() == old(self).source(),
            final(self).line() == old(self).line(),
            final(self).current() == word_end(old(self).source(), old(self).current()),
            final(self).current() >= old(self).current(),
            final(self).tokens().len() == old(self).tokens().len() + 1,
            final(self).tokens().drop_last() == old(self).tokens(),
            Some(final(self).tokens().last()@) == word_piece(
                old(self).source(),
                old(self).start(),
                old(self).line(),
            ).token,
    {
        while !self.is_at_end() && is_alpha_num(self.peek())
            invariant
                self.wf(),
                self.source@ == old(self).source@,
                self.tokens@ == old(self).tokens@,
                self.line == old(self).line,
                self.start == old(self).start,
                self.current >= old(self).current,
                word_end(self.source@, old(self).current as int) == word_end(self.source@, self.current as int),
            decreases self.source@.len() - self.current,
        {
            self.advance();
        }
        let token_type = match keyword_of(&self.source, self.start, self.current) {
            Some(t) => t,
            None => TokenType::Identifier,
        };
        self.add_token(token_type);
    }

    /// A number, whose first digit has been read.
    fn number(&mut self)
        requires
            old(self).wf(),
            old(self).start() + 1 == old(self).current(),
        ensures
            final(self).wf(),
            final(self).source() == old(self).source(),
            final(self).line() == old(self).line(),
            final(self).current() == number_end(old(self).source(), old(self).start()),
            final(self).current() >= old(self).current(),
            final(self).tokens().len() == old(self).tokens().len() + 1,
            final(self).tokens().drop_last() == old(self).tokens(),
            Some(final(self).tokens().last()@) == plain(
                old(self).source(),
                old(self).start(),
                number_end(old(self).source(), old(self).start()),
                TokenType::Number,
                old(self).line(),
            ).token,
    {
        self.digits();
        if self.peek() == '.' && is_digit(self.peek_next()) {
            self.advance();
            self.digits();
        }
        self.add_token(TokenType::Number);
    }

    /// Reads digits as long as there are any.
    fn digits(&mut self)
        requires
            old(self).wf(),
        ensures
            final(self).wf(),
            final(self).source() == old(self).source(),
            final(self).tokens() == old(self).tokens(),
            final(self).line() == old(self).line(),
            final(self).start() == old(self).start(),
            final(self).current() == digits_end(old(self).source(), old(self).current()),
            final(self).current() >= old(self).current(),
    {
        while !self.is_at_end() && is_digit(self.peek())
            invariant
                self.wf(),
                self.source@ == old(self).source@,
                self.tokens@ == old(self).tokens@,
                self.line == old(self).line,
                self.start == old(self).start,
                self.current >= old(self).current,
                digits_end(self.source@, old(self).current as int) == digits_end(self.source@, self.current as int),
            decreases self.source@.len() - self.current,
        {
            self.advance();
        }
    }

    /// Reads the character `c` if it is the next one.
    fn char_match(&mut self, c: char) -> (r: bool)
        requires
            old(self).wf(),
            old(self).current() >= 1,
        ensures
            final(self).wf(),
            final(self).source() == old(self).source(),
            final(self).tokens() == old(self).tokens(),
            final(self).line() == old(self).line(),
            final(self).start() == old(self).start(),
            r == followed_by(old(self).source(), old(self).current() - 1, c),
            final(self).current() == if r {
                old(self).current() + 1
            } else {
                old(self).current()
            },
    {
        if self.is_at_end() {
            return false;
        }
        if self.source[self.current] != c {
            false
        } else {
            assert(self.current < self.source.len());
            self.current += 1;
            true
        }
    }

    /// A string literal, whose opening quote has been read.
    fn string_literal(&mut self) -> (r: Result<(), LexError>)
        requires
            old(self).wf(),
            old(self).start() + 1 == old(self).current(),
        ensures
            final(self).wf(),
            final(self).source() == old(self).source(),
            final(self).current() > old(self).start(),
            ({
                let piece = string_piece(old(self).source(), old(self).start(), old(self).line());
                &&& final(self).current() == piece.next
                &&& final(self).line() == piece.line
                &&& grown(old(self).tokens(), final(self).tokens(), piece.token)
                &&& reported(r, piece.error)
            }),
    {
        let first_line = self.line;
        proof {
            quote_at_bounds(self.source@, self.current as int);
        }
        while !self.is_at_end() && self.peek() != '"'
            invariant
                self.wf(),
                self.source@ == old(self).source@,
                self.tokens@ == old(self).tokens@,
                self.start == old(self).start,
                self.current >= old(self).current,
                quote_at(self.source@, old(self).current as int) == quote_at(self.source@, self.current as int),
                self.current <= quote_at(self.source@, self.current as int),
                line_after(
                    self.source@,
                    old(self).current as int,
                    quote_at(self.source@, old(self).current as int),
                    old(self).line,
                ) == line_after(
                    self.source@,
                    self.current as int,
                    quote_at(self.source@, old(self).current as int),
                    self.line,
                ),
            decreases self.source@.len() - self.current,
        {
            proof {
                quote_at_bounds(self.source@, self.current + 1);
            }
            if self.peek() == '\n' {
                self.next_line();
            }
            self.advance();
        }
        if self.is_at_end() {
            return Err(LexError::UnterminatedString { line: first_line });
        }
        self.advance();
        let literal = string_of(&self.source, self.start + 1, self.current - 1);
        self.add_token_lit(TokenType::String_, Some(LiteralValue::StringValue(literal)));
        Ok(())
    }

    /// The next character, or NUL at the end.
    fn peek(&self) -> (c: char)
        requires
            self.wf(),
        ensures
            self.current() < self.source().len() ==> c == self.source()[self.current()],
            self.current() >= self.source().len() ==> c == '\0',
    {
        if self.is_at_end() {
            return '\0';
        }
        self.source[self.current]
    }

    /// The character after the next one, or NUL if there is none.
    fn peek_next(&self) -> (c: char)
        requires
            self.wf(),
        ensures
            self.current() + 1 < self.source().len() ==> c == self.source()[self.current() + 1],
            self.current() + 1 >= self.source().len() ==> c == '\0',
    {
        if self.current >= self.source.len() || self.current + 1 >= self.source.len() {
            '\0'
        } else {
            self.source[self.current + 1]
        }
    }

    /// Adds a token without a literal for the characters read since
    /// `start`.
    fn add_token(&mut self, token_type: TokenType)
        requires
            old(self).wf(),
        ensures
            final(self).wf(),
            final(self).source() == old(self).source(),
            final(self).line() == old(self).line(),
            final(self).current() == old(self).current(),
            final(self).start() == old(self).start(),
            final(self).tokens().len() == old(self).tokens().len() + 1,
            final(self).tokens().drop_last() == old(self).tokens(),
            final(self).tokens().last()@ == (TokenModel {
                token_type,
                lexeme: old(self).source().subrange(old(self).start(), old(self).current()),
                literal: None,
                line_number: old(self).line(),
            }),
    {
        self.add_token_lit(token_type, None);
    }

    /// Adds a token for the characters read since `start`.
    fn add_token_lit(&mut self, token_type: TokenType, literal: Option<LiteralValue>)
        requires
            old(self).wf(),
        ensures
            final(self).wf(),
            final(self).source() == old(self).source(),
            final(self).line() == old(self).line(),
            final(self).current() == old(self).current(),
            final(self).start() == old(self).start(),
            final(self).tokens().len() == old(self).tokens().len() + 1,
            final(self).tokens().drop_last() == old(self).tokens(),
            final(self).tokens().last() == (Token {
                token_type,
                lexeme: final(self).tokens().last().lexeme,
                literal,
                line_number: old(self).line(),
            }),
            final(self).tokens().last().lexeme@ == old(self).source().subrange(old(self).start(), old(self).current()),
    {
        let text = string_of(&self.source, self.start, self.current);
        self.tokens.push(Token { token_type, lexeme: text, literal, line_number: self.line });
        proof {
            assert(self.tokens@.drop_last() =~= old(self).tokens@);
        }
    }

    /// Reads the next character; NUL, and nothing read, at the end.
    fn advance(&mut self) -> (c: char)
        requires
            old(self).wf(),
        ensures
            final(self).wf(),
            final(self).source() == old(self).source(),
            final(self).tokens() == old(self).tokens(),
            final(self).line() == old(self).line(),
            final(self).start() == old(self).start(),
            old(self).current() < old(self).source().len() ==> c == old(self).source()[old(self).current()]
                && final(self).current() == old(self).current() + 1,
            old(self).current() >= old(self).source().len() ==> c == '\0' && final(self).current() == old(self).current(),
    {
        if self.is_at_end() {
            return '\0';
        }
        let c = self.source[self.current];
        assert(self.current < self.source.len());
            self.current += 1;
        c
    }
}

/// The name of a token type.
pub open spec fn token_type_name(t: TokenType) -> Seq<char> {
    match t {
        TokenType::LeftParen => "LeftParen"@,
        TokenType::RightParen => "RightParen"@,
        TokenType::LeftBrace => "LeftBrace"@,
        TokenType::RightBrace => "RightBrace"@,
        TokenType::Comma => "Comma"@,
        TokenType::Dot => "Dot"@,
        TokenType::Plus => "Plus"@,
        TokenType::Minus => "Minus"@,
        TokenType::Semicolon => "Semicolon"@,
        TokenType::Slash => "Slash"@,
        TokenType::Star => "Star"@,
        TokenType::Bang => "Bang"@,
        TokenType::BangEqual => "BangEqual"@,
        TokenType::Greater => "Greater"@,
        TokenType::GreaterEqual => "GreaterEqual"@,
        TokenType::Less => "Less"@,
        TokenType::LessEqual => "LessEqual"@,
        TokenType::Equal => "Equal"@,
        TokenType::EqualEqual => "EqualEqual"@,
        TokenType::Identifier => "Identifier"@,
        TokenType::String_ => "String_"@,
        TokenType::Number => "Number"@,
        TokenType::And => "And"@,
        TokenType::Or => "Or"@,
        TokenType::True => "True"@,
        TokenType::False => "False"@,
        TokenType::Class => "Class"@,
        TokenType::If => "If"@,
        TokenType::Else => "Else"@,
        TokenType::Func => "Func"@,
        TokenType::For => "For"@,
        TokenType::While => "While"@,
        TokenType::Nil => "Nil"@,
        TokenType::Print => "Print"@,
        TokenType::Return => "Return"@,
        TokenType::Super => "Super"@,
        TokenType::This => "This"@,
        TokenType::Var => "Var"@,
        TokenType::Eof => "Eof"@,
    }
}

/// How the literal of a token is written out. A number is written as its
/// text, a string between double quotes as it is.
pub open spec fn literal_text(literal: Option<LiteralValue>) -> Seq<char> {
    match literal {
        None => "None"@,
        Some(LiteralValue::FloatValue(n)) => "Some(FloatValue("@ + n.text@ + "))"@,
        Some(LiteralValue::StringValue(s)) => "Some(StringValue(\""@ + s@ + "\"))"@,
    }
}

/// How a token is written out: its type, its lexeme and its literal.
pub open spec fn token_text(t: Token) -> Seq<char> {
    token_type_name(t.token_type) + " "@ + t.lexeme@ + " "@ + literal_text(t.literal)
}

/// How a token is written out with the names of its fields.
pub open spec fn token_record(t: Token) -> Seq<char> {
    "Token { token_type: "@ + token_type_name(t.token_type) + ", lexeme: \""@ + t.lexeme@ + "\", literal: "@
        + literal_text(t.literal) + ", line_number: "@ + decimal_text(t.line_number as nat) + " }"@
}

/// The message of a lexical error.
pub open spec fn lex_error_text(e: LexError) -> Seq<char> {
    match e {
        LexError::UnrecognisedChar { ch, line } => "Unrecognised char "@.push(ch) + " at line "@ + decimal_text(
            line as nat,
        ),
        LexError::UnterminatedString { line } => "String is not terminated at line "@ + decimal_text(line as nat),
    }
}

/// The messages of some errors, each followed by a line feed.
pub open spec fn lex_report(errors: Seq<LexError>) -> Seq<char>
    decreases errors.len(),
{
    if errors.len() == 0 {
        Seq::empty()
    } else {
        lex_report(errors.drop_last()) + lex_error_text(errors.last()) + "\n"@
    }
}

impl TokenType {
    pub fn name(&self) -> (r: &'static str)
        ensures
            r@ == token_type_name(*self),
    {
        match self {
            TokenType::LeftParen => "LeftParen",
            TokenType::RightParen => "RightParen",
            TokenType::LeftBrace => "LeftBrace",
            TokenType::RightBrace => "RightBrace",
            TokenType::Comma => "Comma",
            TokenType::Dot => "Dot",
            TokenType::Plus => "Plus",
            TokenType::Minus => "Minus",
            TokenType::Semicolon => "Semicolon",
            TokenType::Slash => "Slash",
            TokenType::Star => "Star",
            TokenType::Bang => "Bang",
            TokenType::BangEqual => "BangEqual",
            TokenType::Greater => "Greater",
            TokenType::GreaterEqual => "GreaterEqual",
            TokenType::Less => "Less",
            TokenType::LessEqual => "LessEqual",
            TokenType::Equal => "Equal",
            TokenType::EqualEqual => "EqualEqual",
            TokenType::Identifier => "Identifier",
            TokenType::String_ => "String_",
            TokenType::Number => "Number",
            TokenType::And => "And",
            TokenType::Or => "Or",
            TokenType::True => "True",
            TokenType::False => "False",
            TokenType::Class => "Class",
            TokenType::If => "If",
            TokenType::Else => "Else",
            TokenType::Func => "Func",
            TokenType::For => "For",
            TokenType::While => "While",
            TokenType::Nil => "Nil",
            TokenType::Print => "Print",
            TokenType::Return => "Return",
            TokenType::Super => "Super",
            TokenType::This => "This",
            TokenType::Var => "Var",
            TokenType::Eof => "Eof",
        }
    }

    pub fn to_string(&self) -> (r: String)
        ensures
            r@ == token_type_name(*self),
    {
        String::from_str(self.name())
    }
}

/// Writes out the literal of a token.
pub fn literal_to_string(literal: &Option<LiteralValue>) -> (r: String)
    ensures
        r@ == literal_text(*literal),
{
    match literal {
        None => String::from_str("None"),
        Some(LiteralValue::FloatValue(n)) => {
            let mut s = String::from_str("Some(FloatValue(");
            append(&mut s, n.text.as_str());
            append(&mut s, "))");
            s
        },
        Some(LiteralValue::StringValue(t)) => {
            let mut s = String::from_str("Some(StringValue(\"");
            append(&mut s, t.as_str());
            append(&mut s, "\"))");
            s
        },
    }
}

impl Token {
    pub fn to_string(&self) -> (r: String)
        ensures
            r@ == token_text(*self),
    {
        let mut s = self.token_type.to_string();
        append(&mut s, " ");
        append(&mut s, self.lexeme.as_str());
        append(&mut s, " ");
        append(&mut s, literal_to_string(&self.literal).as_str());
        s
    }

    /// Writes the token out with the names of its fields.
    pub fn record(&self) -> (r: String)
        ensures
            r@ == token_record(*self),
    {
        let mut s = String::from_str("Token { token_type: ");
        append(&mut s, self.token_type.name());
        append(&mut s, ", lexeme: \"");
        append(&mut s, self.lexeme.as_str());
        append(&mut s, "\", literal: ");
        append(&mut s, literal_to_string(&self.literal).as_str());
        append(&mut s, ", line_number: ");
        append(&mut s, decimal(self.line_number).as_str());
        append(&mut s, " }");
        s
    }
}

impl LexError {
    pub fn message(&self) -> (r: String)
        ensures
            r@ == lex_error_text(*self),
    {
        match self {
            LexError::UnrecognisedChar { ch, line } => {
                let mut s = String::from_str("Unrecognised char ");
                push_char(&mut s, *ch);
                append(&mut s, " at line ");
                append(&mut s, decimal(*line).as_str());
                s
            },
            LexError::UnterminatedString { line } => {
                let mut s = String::from_str("String is not terminated at line ");
                append(&mut s, decimal(*line).as_str());
                s
            },
        }
    }

    /// The messages of `errors`, each followed by a line feed.
    pub fn report(errors: &Vec<LexError>) -> (r: String)
        ensures
            r@ == lex_report(errors@),
    {
        let mut s = String::new();
        let mut i: usize = 0;
        while i < errors.len()
            invariant
                0 <= i <= errors.len(),
                s@ == lex_report(errors@.take(i as int)),
            decreases errors.len() - i,
        {
            proof {
                assert(errors@.take(i + 1).drop_last() =~= errors@.take(i as int));
            }
            append(&mut s, errors[i].message().as_str());
            append(&mut s, "\n");
            i += 1;
        }
        proof {
            assert(errors@.take(errors@.len() as int) =~= errors@);
        }
        s
    }
}

/// The tokens `tokens` with the numbers `numbers` as the literals of the
/// number tokens, in order; `None` unless there is one number for each
/// number token.
pub open spec fn with_numbers(tokens: Seq<TokenModel>, numbers: Seq<Number>) -> Option<Seq<TokenModel>>
    decreases tokens.len(),
{
    if tokens.len() == 0 {
        if numbers.len() == 0 {
            Some(Seq::empty())
        } else {
            None
        }
    } else if tokens.last().token_type == TokenType::Number {
        if numbers.len() == 0 {
            None
        } else {
            match with_numbers(tokens.drop_last(), numbers.drop_last()) {
                Some(done) => Some(
                    done.push(
                        TokenModel {
                            token_type: tokens.last().token_type,
                            lexeme: tokens.last().lexeme,
                            literal: Some(
                                LiteralModel::FloatValue { bits: numbers.last().bits, text: numbers.last().text@ },
                            ),
                            line_number: tokens.last().line_number,
                        },
                    ),
                ),
                None => None,
            }
        }
    } else {
        match with_numbers(tokens.drop_last(), numbers) {
            Some(done) => Some(done.push(tokens.last())),
            None => None,
        }
    }
}

/// The number of number tokens among `tokens`.
pub open spec fn count_numbers(tokens: Seq<TokenModel>) -> nat
    decreases tokens.len(),
{
    if tokens.len() == 0 {
        0
    } else {
        count_numbers(tokens.drop_last()) + if tokens.last().token_type == TokenType::Number {
            1nat
        } else {
            0nat
        }
    }
}

/// Numbers can be given to the number tokens exactly when there are as
/// many of the ones as of the others.
pub proof fn numbers_fit_by_count(tokens: Seq<TokenModel>, numbers: Seq<Number>)
    ensures
        with_numbers(tokens, numbers) is Some <==> count_numbers(tokens) == numbers.len(),
        with_numbers(tokens, numbers) matches Some(done) ==> done.len() == tokens.len(),
    decreases tokens.len(),
{
    if tokens.len() > 0 {
        if tokens.last().token_type == TokenType::Number {
            if numbers.len() > 0 {
                numbers_fit_by_count(tokens.drop_last(), numbers.drop_last());
            }
        } else {
            numbers_fit_by_count(tokens.drop_last(), numbers);
        }
    }
}

/// Gives each number token its number as literal: the first of `numbers`
/// to the first number token, and so on. Returns `None` unless there is
/// one number for each number token.
pub fn attach_numbers(tokens: Vec<Token>, numbers: &Vec<Number>) -> (r: Option<Vec<Token>>)
    ensures
        match r {
            Some(done) => with_numbers(models(tokens@), numbers@) == Some(models(done@)),
            None => with_numbers(models(tokens@), numbers@) is None,
        },
{
    let mut done: Vec<Token> = Vec::new();
    let mut used: usize = 0;
    let mut i: usize = 0;
    let ghost all = models(tokens@);
    while i < tokens.len()
        invariant
            0 <= i <= tokens.len(),
            0 <= used <= numbers.len(),
            all == models(tokens@),
            with_numbers(all.take(i as int), numbers@.take(used as int)) == Some(models(done@)),
        decreases tokens.len() - i,
    {
        let token = &tokens[i];
        proof {
            assert(all.take(i + 1).drop_last() =~= all.take(i as int));
            assert(all.take(i + 1).last() == token@);
        }
        if token.token_type == TokenType::Number {
            if used >= numbers.len() {
                proof {
                    assert(numbers@.take(used as int) =~= numbers@);
                    numbers_fit_by_count(all.take(i as int), numbers@);
                    count_grows(all, i + 1, tokens@.len() as int);
                    assert(all.take(tokens@.len() as int) =~= all);
                    numbers_fit_by_count(all, numbers@);
                }
                return None;
            }
            let number = numbers[used].clone();
            proof {
                assert(numbers@.take(used + 1).drop_last() =~= numbers@.take(used as int));
                assert(numbers@.take(used + 1).last() == number);
            }
            let ghost before = models(done@);
            let made = Token {
                token_type: token.token_type,
                lexeme: token.lexeme.clone(),
                literal: Some(LiteralValue::FloatValue(number)),
                line_number: token.line_number,
            };
            done.push(made);
            proof {
                assert(models(done@) =~= before.push(made@));
            }
            used += 1;
        } else {
            let ghost before = models(done@);
            let made = token.clone();
            done.push(made);
            proof {
                assert(models(done@) =~= before.push(made@));
            }
        }
        i += 1;
    }
    proof {
        assert(all.take(tokens@.len() as int) =~= all);
    }
    if used == numbers.len() {
        proof {
            assert(numbers@.take(used as int) =~= numbers@);
        }
        Some(done)
    } else {
        proof {
            numbers_fit_by_count(all, numbers@.take(used as int));
            numbers_fit_by_count(all, numbers@);
        }
        None
    }
}

/// A longer run of tokens holds at least as many number tokens.
proof fn count_grows(tokens: Seq<TokenModel>, shorter: int, longer: int)
    requires
        0 <= shorter <= longer <= tokens.len(),
    ensures
        count_numbers(tokens.take(shorter)) <= count_numbers(tokens.take(longer)),
    decreases longer - shorter,
{
    if shorter < longer {
        count_grows(tokens, shorter, longer - 1);
        assert(tokens.take(longer).drop_last() =~= tokens.take(longer - 1));
    }
}

/// No lexical item is an end marker.
pub proof fn no_item_is_the_end_marker(src: Seq<char>, pos: int, line: usize)
    requires
        0 <= pos < src.len(),
    ensures
        scan_one(src, pos, line).token matches Some(t) ==> t.token_type != TokenType::Eof,
{
    let c = src[pos];
    if alpha(c) {
        let end = word_end(src, pos + 1);
        let word = src.subrange(pos, end);
        assert(keyword(word) matches Some(k) ==> k != TokenType::Eof);
    }
}

/// The tokens of a source end with the end marker, and hold no other.
pub proof fn scan_ends_with_the_end_marker(src: Seq<char>, pos: int, line: usize)
    ensures
        scan_from(src, pos, line).tokens.len() > 0,
        scan_from(src, pos, line).tokens.last().token_type == TokenType::Eof,
        forall|i: int|
            0 <= i < scan_from(src, pos, line).tokens.len() - 1 ==> (#[trigger] scan_from(
                src,
                pos,
                line,
            ).tokens[i]).token_type != TokenType::Eof,
    decreases src.len() - pos,
{
    if 0 <= pos < src.len() {
        let piece = scan_one(src, pos, line);
        let next = if pos < piece.next <= src.len() {
            piece.next
        } else {
            pos + 1
        };
        scan_ends_with_the_end_marker(src, next, piece.line);
        no_item_is_the_end_marker(src, pos, line);
        let rest = scan_from(src, next, piece.line).tokens;
        match piece.token {
            Some(t) => {
                let all = seq![t] + rest;
                assert(scan_from(src, pos, line).tokens == all);
                assert(all.last() == rest.last());
                assert forall|i: int| 0 <= i < all.len() - 1 implies (#[trigger] all[i]).token_type
                    != TokenType::Eof by {
                    if i > 0 {
                        assert(all[i] == rest[i - 1]);
                    }
                }
            },
            None => {},
        }
    }
}

/// Giving the number tokens their numbers changes no type and moves no
/// token.
pub proof fn numbers_keep_the_types(tokens: Seq<TokenModel>, numbers: Seq<Number>)
    ensures
        with_numbers(tokens, numbers) matches Some(done) ==> {
            &&& done.len() == tokens.len()
            &&& forall|i: int|
                0 <= i < tokens.len() ==> (#[trigger] done[i]).token_type == tokens[i].token_type && done[i].lexeme
                    == tokens[i].lexeme && done[i].line_number == tokens[i].line_number
        },
    decreases tokens.len(),
{
    if tokens.len() > 0 {
        if tokens.last().token_type == TokenType::Number {
            if numbers.len() > 0 {
                numbers_keep_the_types(tokens.drop_last(), numbers.drop_last());
            }
        } else {
            numbers_keep_the_types(tokens.drop_last(), numbers);
        }
    }
}

} // verus!
