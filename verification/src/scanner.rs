use crate::lox::{LoxError, Message};
use crate::token::{same_bytes, Literal, LiteralView, RcToken, Token, TokenView};
use crate::token_type::TokenType;
use std::rc::Rc;
use vstd::prelude::*;
use vstd::string::StringSliceAdditionalSpecFns;

verus! {

pub open spec fn is_digit(c: u8) -> bool {
    '0' as u8 <= c <= '9' as u8
}

pub open spec fn is_alpha(c: u8) -> bool {
    ('a' as u8 <= c <= 'z' as u8) || ('A' as u8 <= c <= 'Z' as u8) || c == '_' as u8
}

pub open spec fn is_identifier_byte(c: u8) -> bool {
    is_alpha(c) || is_digit(c)
}

/// Whether the byte at `at` exists and is `c`.
pub open spec fn follows(src: Seq<u8>, at: int, c: u8) -> bool {
    0 <= at < src.len() && src[at] == c
}

/// The number of digits that stand at `from` in a row.
pub open spec fn digit_run(src: Seq<u8>, from: int) -> nat
    decreases src.len() - from,
{
    if 0 <= from < src.len() && is_digit(src[from]) {
        1 + digit_run(src, from + 1)
    } else {
        0
    }
}

/// The number of identifier bytes that stand at `from` in a row.
pub open spec fn identifier_run(src: Seq<u8>, from: int) -> nat
    decreases src.len() - from,
{
    if 0 <= from < src.len() && is_identifier_byte(src[from]) {
        1 + identifier_run(src, from + 1)
    } else {
        0
    }
}

/// The number of bytes from `from` up to the next `stop`, or to the end.
pub open spec fn until(src: Seq<u8>, from: int, stop: u8) -> nat
    decreases src.len() - from,
{
    if 0 <= from < src.len() && src[from] != stop {
        1 + until(src, from + 1, stop)
    } else {
        0
    }
}

pub open spec fn next_line(line: usize) -> usize {
    if line < usize::MAX {
        (line + 1) as usize
    } else {
        line
    }
}

/// The line reached from `line` after the bytes of `src` in `from..to`.
pub open spec fn line_after(src: Seq<u8>, from: int, to: int, line: usize) -> usize
    decreases to - from,
{
    if 0 <= from < to <= src.len() {
        line_after(
            src,
            from + 1,
            to,
            if src[from] == '\n' as u8 {
                next_line(line)
            } else {
                line
            },
        )
    } else {
        line
    }
}

/// The token that a punctuation byte makes by itself.
pub open spec fn single(c: u8) -> Option<TokenType> {
    if c == '(' as u8 {
        Some(TokenType::LEFT_PAREN)
    } else if c == ')' as u8 {
        Some(TokenType::RIGHT_PAREN)
    } else if c == '{' as u8 {
        Some(TokenType::LEFT_BRACE)
    } else if c == '}' as u8 {
        Some(TokenType::RIGHT_BRACE)
    } else if c == ',' as u8 {
        Some(TokenType::COMMA)
    } else if c == '.' as u8 {
        Some(TokenType::DOT)
    } else if c == '-' as u8 {
        Some(TokenType::MINUS)
    } else if c == '+' as u8 {
        Some(TokenType::PLUS)
    } else if c == ';' as u8 {
        Some(TokenType::SEMICOLON)
    } else if c == '*' as u8 {
        Some(TokenType::STAR)
    } else {
        None
    }
}

/// The operators that an `=` may follow: the token without it, and with it.
pub open spec fn paired(c: u8) -> Option<(TokenType, TokenType)> {
    if c == '!' as u8 {
        Some((TokenType::BANG, TokenType::BANG_EQUAL))
    } else if c == '=' as u8 {
        Some((TokenType::EQUAL, TokenType::EQUAL_EQUAL))
    } else if c == '<' as u8 {
        Some((TokenType::LESS, TokenType::LESS_EQUAL))
    } else if c == '>' as u8 {
        Some((TokenType::GREATER, TokenType::GREATER_EQUAL))
    } else {
        None
    }
}

/// The reserved word that `text` is, if it is one.
pub open spec fn keyword(text: Seq<u8>) -> Option<TokenType> {
    if text == "and".spec_bytes() {
        Some(TokenType::AND)
    } else if text == "class".spec_bytes() {
        Some(TokenType::CLASS)
    } else if text == "else".spec_bytes() {
        Some(TokenType::ELSE)
    } else if text == "false".spec_bytes() {
        Some(TokenType::FALSE)
    } else if text == "for".spec_bytes() {
        Some(TokenType::FOR)
    } else if text == "fun".spec_bytes() {
        Some(TokenType::FUN)
    } else if text == "if".spec_bytes() {
        Some(TokenType::IF)
    } else if text == "nil".spec_bytes() {
        Some(TokenType::NIL)
    } else if text == "or".spec_bytes() {
        Some(TokenType::OR)
    } else if text == "print".spec_bytes() {
        Some(TokenType::PRINT)
    } else if text == "return".spec_bytes() {
        Some(TokenType::RETURN)
    } else if text == "super".spec_bytes() {
        Some(TokenType::SUPER)
    } else if text == "this".spec_bytes() {
        Some(TokenType::THIS)
    } else if text == "true".spec_bytes() {
        Some(TokenType::TRUE)
    } else if text == "var".spec_bytes() {
        Some(TokenType::VAR)
    } else if text == "while".spec_bytes() {
        Some(TokenType::WHILE)
    } else {
        None
    }
}

pub open spec fn word_kind(text: Seq<u8>) -> TokenType {
    match keyword(text) {
        Some(k) => k,
        None => TokenType::IDENTIFIER,
    }
}

/// What stands at one position of the source. `extra` counts the bytes that
/// belong to it beyond the first.
pub enum Lexed {
    Token { kind: TokenType, literal: LiteralView, extra: nat, line: usize },
    /// White space, a line break or a comment.
    Skip { extra: nat, line: usize },
    Fault { extra: nat, line: usize, message: Message },
}

/// The number of bytes beyond the first of the numeral that starts at `pos`:
/// digits, and a fraction where a point and a digit follow them.
pub open spec fn number_extra(src: Seq<u8>, pos: int) -> nat {
    let whole = digit_run(src, pos + 1);
    let point = pos + 1 + whole;
    if follows(src, point, '.' as u8) && point + 1 < src.len() && is_digit(src[point + 1]) {
        whole + 1 + digit_run(src, point + 1)
    } else {
        whole
    }
}

/// What stands at `pos`, seen on line `line`.
pub open spec fn lexed(src: Seq<u8>, pos: int, line: usize) -> Lexed
    recommends
        0 <= pos < src.len(),
{
    let c = src[pos];
    if single(c) is Some {
        Lexed::Token { kind: single(c)->Some_0, literal: LiteralView::NIL, extra: 0, line }
    } else if paired(c) is Some {
        if follows(src, pos + 1, '=' as u8) {
            Lexed::Token { kind: paired(c)->Some_0.1, literal: LiteralView::NIL, extra: 1, line }
        } else {
            Lexed::Token { kind: paired(c)->Some_0.0, literal: LiteralView::NIL, extra: 0, line }
        }
    } else if c == '/' as u8 {
        if follows(src, pos + 1, '/' as u8) {
            Lexed::Skip { extra: 1 + until(src, pos + 2, '\n' as u8), line }
        } else {
            Lexed::Token { kind: TokenType::SLASH, literal: LiteralView::NIL, extra: 0, line }
        }
    } else if c == ' ' as u8 || c == '\r' as u8 || c == '\t' as u8 {
        Lexed::Skip { extra: 0, line }
    } else if c == '\n' as u8 {
        Lexed::Skip { extra: 0, line: next_line(line) }
    } else if c == '"' as u8 {
        let inside = until(src, pos + 1, '"' as u8);
        let close = pos + 1 + inside;
        let reached = line_after(src, pos + 1, close, line);
        if close >= src.len() {
            Lexed::Fault { extra: inside, line: reached, message: Message::UnterminatedString }
        } else {
            Lexed::Token {
                kind: TokenType::STRING,
                literal: LiteralView::STRING(src.subrange(pos + 1, close)),
                extra: inside + 1,
                line: reached,
            }
        }
    } else if is_digit(c) {
        let extra = number_extra(src, pos);
        Lexed::Token {
            kind: TokenType::NUMBER,
            literal: LiteralView::NUMBER(src.subrange(pos, pos + 1 + extra)),
            extra,
            line,
        }
    } else if is_alpha(c) {
        let extra = identifier_run(src, pos + 1);
        Lexed::Token {
            kind: word_kind(src.subrange(pos, pos + 1 + extra)),
            literal: LiteralView::NIL,
            extra,
            line,
        }
    } else {
        Lexed::Fault { extra: 0, line, message: Message::UnexpectedCharacter }
    }
}

/// A scanner's state as mathematics: the source, the tokens made so far, the
/// position of the next byte to read, and the line it is on.
pub struct ScannerState {
    pub source: Seq<u8>,
    pub tokens: Seq<TokenView>,
    pub current: int,
    pub line: usize,
}

/// A state and the error that stopped the scan there, if one did.
pub struct Scanned {
    pub state: ScannerState,
    pub error: Option<LoxError>,
}

impl Scanned {
    pub open spec fn result(self) -> Result<(), LoxError> {
        match self.error {
            Some(e) => Err(e),
            None => Ok(()),
        }
    }
}

/// Reads what stands at the current position.
pub open spec fn scanned_one(st: ScannerState) -> Scanned
    recommends
        0 <= st.current < st.source.len(),
{
    match lexed(st.source, st.current, st.line) {
        Lexed::Token { kind, literal, extra, line } => Scanned {
            state: ScannerState {
                tokens: st.tokens.push(
                    TokenView {
                        kind,
                        lexeme: st.source.subrange(st.current, st.current + 1 + extra),
                        literal,
                        line,
                    },
                ),
                current: st.current + 1 + extra,
                line,
                ..st
            },
            error: None,
        },
        Lexed::Skip { extra, line } => Scanned {
            state: ScannerState { current: st.current + 1 + extra, line, ..st },
            error: None,
        },
        Lexed::Fault { extra, line, message } => Scanned {
            state: ScannerState { current: st.current + 1 + extra, line, ..st },
            error: Some(LoxError::ScanError { line, message }),
        },
    }
}

pub open spec fn end_of_input(line: usize) -> TokenView {
    TokenView { kind: TokenType::EOF, lexeme: Seq::empty(), literal: LiteralView::NIL, line }
}

/// The bytes of the source that are still to be read.
pub open spec fn unread(st: ScannerState) -> int {
    if 0 <= st.current < st.source.len() {
        st.source.len() - st.current
    } else {
        0
    }
}

/// Scans from the current position to the end: token after token, then the
/// end-of-input token. The first error stops the scan at once.
pub open spec fn scanned(st: ScannerState) -> Scanned
    decreases unread(st),
{
    if 0 <= st.current < st.source.len() {
        let one = scanned_one(st);
        if one.error is Some {
            one
        } else {
            scanned(one.state)
        }
    } else {
        Scanned {
            state: ScannerState { tokens: st.tokens.push(end_of_input(st.line)), ..st },
            error: None,
        }
    }
}

/// The state of a scanner that has read nothing of `source` yet.
pub open spec fn fresh(source: Seq<u8>) -> ScannerState {
    ScannerState { source, tokens: Seq::empty(), current: 0, line: 1 }
}

/// The views of a list of shared tokens.
pub open spec fn token_views(tokens: Seq<RcToken>) -> Seq<TokenView> {
    Seq::new(tokens.len(), |i: int| tokens[i]@)
}

/// A run up to a stop byte ends within the source.
pub proof fn lemma_until_bound(src: Seq<u8>, from: int, stop: u8)
    requires
        0 <= from <= src.len(),
    ensures
        from + until(src, from, stop) <= src.len(),
        from + until(src, from, stop) < src.len() ==> src[from + until(src, from, stop)] == stop,
        forall|i: int| from <= i < from + until(src, from, stop) ==> src[i] != stop,
    decreases src.len() - from,
{
    if from < src.len() && src[from] != stop {
        lemma_until_bound(src, from + 1, stop);
    }
}

/// A scan that succeeds ends the token list with the end-of-input token.
pub proof fn lemma_scan_ends_with_eof(st: ScannerState)
    ensures
        scanned(st).error is None ==> scanned(st).state.tokens.len() > 0 && scanned(
            st,
        ).state.tokens.last().kind == TokenType::EOF,
    decreases unread(st),
{
    if 0 <= st.current < st.source.len() {
        let one = scanned_one(st);
        if one.error is None {
            lemma_scan_ends_with_eof(one.state);
        }
    }
}

/// Splits source text into tokens.
pub struct Scanner {
    source: Vec<u8>,
    pub tokens: Vec<RcToken>,
    start: usize,
    current: usize,
    line: usize,
}

impl View for Scanner {
    type V = ScannerState;

    closed spec fn view(&self) -> ScannerState {
        ScannerState {
            source: self.source@,
            tokens: token_views(self.tokens@),
            current: self.current as int,
            line: self.line,
        }
    }
}

/// The reserved word that `text` is, if it is one.
fn reserved(text: &[u8]) -> (r: Option<TokenType>)
    ensures
        r == keyword(text@),
{
    if same_bytes(text, "and".as_bytes()) {
        Some(TokenType::AND)
    } else if same_bytes(text, "class".as_bytes()) {
        Some(TokenType::CLASS)
    } else if same_bytes(text, "else".as_bytes()) {
        Some(TokenType::ELSE)
    } else if same_bytes(text, "false".as_bytes()) {
        Some(TokenType::FALSE)
    } else if same_bytes(text, "for".as_bytes()) {
        Some(TokenType::FOR)
    } else if same_bytes(text, "fun".as_bytes()) {
        Some(TokenType::FUN)
    } else if same_bytes(text, "if".as_bytes()) {
        Some(TokenType::IF)
    } else if same_bytes(text, "nil".as_bytes()) {
        Some(TokenType::NIL)
    } else if same_bytes(text, "or".as_bytes()) {
        Some(TokenType::OR)
    } else if same_bytes(text, "print".as_bytes()) {
        Some(TokenType::PRINT)
    } else if same_bytes(text, "return".as_bytes()) {
        Some(TokenType::RETURN)
    } else if same_bytes(text, "super".as_bytes()) {
        Some(TokenType::SUPER)
    } else if same_bytes(text, "this".as_bytes()) {
        Some(TokenType::THIS)
    } else if same_bytes(text, "true".as_bytes()) {
        Some(TokenType::TRUE)
    } else if same_bytes(text, "var".as_bytes()) {
        Some(TokenType::VAR)
    } else if same_bytes(text, "while".as_bytes()) {
        Some(TokenType::WHILE)
    } else {
        None
    }
}

fn punctuation(c: u8) -> (r: Option<TokenType>)
    ensures
        r == single(c),
{
    if c == '(' as u8 {
        Some(TokenType::LEFT_PAREN)
    } else if c == ')' as u8 {
        Some(TokenType::RIGHT_PAREN)
    } else if c == '{' as u8 {
        Some(TokenType::LEFT_BRACE)
    } else if c == '}' as u8 {
        Some(TokenType::RIGHT_BRACE)
    } else if c == ',' as u8 {
        Some(TokenType::COMMA)
    } else if c == '.' as u8 {
        Some(TokenType::DOT)
    } else if c == '-' as u8 {
        Some(TokenType::MINUS)
    } else if c == '+' as u8 {
        Some(TokenType::PLUS)
    } else if c == ';' as u8 {
        Some(TokenType::SEMICOLON)
    } else if c == '*' as u8 {
        Some(TokenType::STAR)
    } else {
        None
    }
}

fn operator_pair(c: u8) -> (r: Option<(TokenType, TokenType)>)
    ensures
        r == paired(c),
{
    if c == '!' as u8 {
        Some((TokenType::BANG, TokenType::BANG_EQUAL))
    } else if c == '=' as u8 {
        Some((TokenType::EQUAL, TokenType::EQUAL_EQUAL))
    } else if c == '<' as u8 {
        Some((TokenType::LESS, TokenType::LESS_EQUAL))
    } else if c == '>' as u8 {
        Some((TokenType::GREATER, TokenType::GREATER_EQUAL))
    } else {
        None
    }
}

/// A copy of `src[from..to]`.
fn slice_copy(src: &Vec<u8>, from: usize, to: usize) -> (r: Vec<u8>)
    requires
        from <= to <= src@.len(),
    ensures
        r@ == src@.subrange(from as int, to as int),
{
    let mut out: Vec<u8> = Vec::new();
    let mut i: usize = from;
    while i < to
        invariant
            from <= i <= to <= src@.len(),
            out@ == src@.subrange(from as int, i as int),
        decreases to - i,
    {
        out.push(src[i]);
        i += 1;
        assert(out@ =~= src@.subrange(from as int, i as int));
    }
    out
}

impl Scanner {
    pub fn new(source: Vec<u8>) -> (r: Self)
        ensures
            r@ == fresh(source@),
    {
        let r = Scanner { source, tokens: Vec::new(), start: 0, current: 0, line: 1 };
        assert(r@.tokens =~= Seq::empty());
        r
    }

    /// Scans the rest of the source and ends the token list with the
    /// end-of-input token. At the first error the scan stops.
    pub fn scan_tokens(&mut self) -> (r: Result<(), LoxError>)
        ensures
            final(self)@ == scanned(old(self)@).state,
            r == scanned(old(self)@).result(),
    {
        while !self.is_at_end()
            invariant
                scanned(self@) == scanned(old(self)@),
            decreases self.source@.len() - self.current,
        {
            self.start = self.current;
            match self.scan_token() {
                Err(e) => {
                    return Err(e);
                },
                Ok(()) => {},
            }
        }
        let ghost before = self@;
        let token = Token::new(TokenType::EOF, Vec::new(), Literal::NIL, self.line);
        assert(token@.lexeme =~= Seq::empty());
        self.tokens.push(Rc::new(token));
        assert(self@.tokens =~= before.tokens.push(end_of_input(self.line)));
        Ok(())
    }

    fn is_at_end(&self) -> (r: bool)
        ensures
            r == (self.current >= self.source@.len()),
    {
        self.current >= self.source.len()
    }

    /// Reads what stands at the current position.
    fn scan_token(&mut self) -> (r: Result<(), LoxError>)
        requires
            old(self).current < old(self).source@.len(),
            old(self).start == old(self).current,
        ensures
            final(self)@ == scanned_one(old(self)@).state,
            r == scanned_one(old(self)@).result(),
            final(self).current <= final(self).source@.len(),
            final(self).current > old(self).current,
    {
        let c = self.advance();
        if let Some(kind) = punctuation(c) {
            self.add_token(kind);
        } else if let Some((short, long)) = operator_pair(c) {
            if self.matches('=' as u8) {
                self.add_token(long);
            } else {
                self.add_token(short);
            }
        } else if c == '/' as u8 {
            if self.matches('/' as u8) {
                self.skip_until('\n' as u8);
            } else {
                self.add_token(TokenType::SLASH);
            }
        } else if c == ' ' as u8 || c == '\r' as u8 || c == '\t' as u8 {
        } else if c == '\n' as u8 {
            self.next_line();
        } else if c == '"' as u8 {
            return self.string();
        } else if Scanner::is_digit(c) {
            self.number();
        } else if (c >= 'a' as u8 && c <= 'z' as u8) || (c >= 'A' as u8 && c <= 'Z' as u8) || c
            == '_' as u8 {
            self.identifier();
        } else {
            return Err(
                LoxError::ScanError { line: self.line, message: Message::UnexpectedCharacter },
            );
        }
        Ok(())
    }

    fn next_line(&mut self)
        ensures
            *final(self) == (Scanner { line: next_line(old(self).line), ..*old(self) }),
    {
        if self.line < usize::MAX {
            self.line = self.line + 1;
        }
    }

    fn advance(&mut self) -> (r: u8)
        requires
            old(self).current < old(self).source@.len(),
        ensures
            r == old(self).source@[old(self).current as int],
            final(self).current == old(self).current + 1,
            *final(self) == (Scanner { current: final(self).current, ..*old(self) }),
    {
        let res = self.source[self.current];
        assert(self.current < self.source.len());
        self.current += 1;
        res
    }

    /// Reads the next byte if it is `expected`.
    fn matches(&mut self, expected: u8) -> (r: bool)
        requires
            old(self).current <= old(self).source@.len(),
        ensures
            r == follows(old(self).source@, old(self).current as int, expected),
            final(self).current == old(self).current + (if r {
                1int
            } else {
                0int
            }),
            *final(self) == (Scanner { current: final(self).current, ..*old(self) }),
    {
        if self.is_at_end() {
            return false;
        }
        if self.source[self.current] != expected {
            return false;
        }
        assert(self.current < self.source.len());
        self.current += 1;
        true
    }

    /// Reads on to the next `stop`, or to the end, counting the lines passed.
    fn skip_until(&mut self, stop: u8)
        requires
            old(self).current <= old(self).source@.len(),
        ensures
            final(self).current == old(self).current + until(
                old(self).source@,
                old(self).current as int,
                stop,
            ),
            final(self).current <= final(self).source@.len(),
            *final(self) == (Scanner { current: final(self).current, ..*old(self) }),
    {
        while self.peek() != stop && !self.is_at_end()
            invariant
                self.current <= self.source@.len(),
                old(self).current <= self.current,
                self.current + until(self.source@, self.current as int, stop) == old(self).current
                    + until(old(self).source@, old(self).current as int, stop),
                *self == (Scanner { current: self.current, ..*old(self) }),
            decreases self.source@.len() - self.current,
        {
            self.advance();
        }
    }

    fn add_token_literal(&mut self, type_: TokenType, literal: Literal)
        requires
            old(self).start <= old(self).current <= old(self).source@.len(),
        ensures
            final(self)@ == (ScannerState {
                tokens: old(self)@.tokens.push(
                    TokenView {
                        kind: type_,
                        lexeme: old(self).source@.subrange(
                            old(self).start as int,
                            old(self).current as int,
                        ),
                        literal: literal@,
                        line: old(self).line,
                    },
                ),
                ..old(self)@
            }),
            final(self).start == old(self).start,
            final(self).current == old(self).current,
            final(self).source == old(self).source,
    {
        let text = slice_copy(&self.source, self.start, self.current);
        let token = Token::new(type_, text, literal, self.line);
        let ghost shown = token@;
        self.tokens.push(Rc::new(token));
        assert(self@.tokens =~= old(self)@.tokens.push(shown));
    }

    fn add_token(&mut self, type_: TokenType)
        requires
            old(self).start <= old(self).current <= old(self).source@.len(),
        ensures
            final(self)@ == (ScannerState {
                tokens: old(self)@.tokens.push(
                    TokenView {
                        kind: type_,
                        lexeme: old(self).source@.subrange(
                            old(self).start as int,
                            old(self).current as int,
                        ),
                        literal: LiteralView::NIL,
                        line: old(self).line,
                    },
                ),
                ..old(self)@
            }),
            final(self).start == old(self).start,
            final(self).current == old(self).current,
            final(self).source == old(self).source,
    {
        self.add_token_literal(type_, Literal::NIL);
    }

    /// The byte at the current position; 0 at the end of the source.
    fn peek(&self) -> (r: u8)
        ensures
            r == (if self.current < self.source@.len() {
                self.source@[self.current as int]
            } else {
                0u8
            }),
    {
        if self.is_at_end() {
            return 0;
        }
        self.source[self.current]
    }

    /// The byte after the current one; 0 where there is none.
    fn peek_next(&self) -> (r: u8)
        requires
            self.current <= self.source@.len(),
        ensures
            r == (if self.current + 1 < self.source@.len() {
                self.source@[self.current + 1]
            } else {
                0u8
            }),
    {
        if self.source.len() - self.current <= 1 {
            return 0;
        }
        self.source[self.current + 1]
    }

    /// Reads a string literal whose opening quote has been read.
    fn string(&mut self) -> (r: Result<(), LoxError>)
        requires
            old(self).current <= old(self).source@.len(),
            old(self).current == old(self).start + 1,
            old(self).source@[old(self).start as int] == '"' as u8,
        ensures
            final(self)@ == scanned_one(
                ScannerState { current: old(self).start as int, ..old(self)@ },
            ).state,
            r == scanned_one(ScannerState { current: old(self).start as int, ..old(self)@ }).result(),
            final(self).current <= final(self).source@.len(),
            final(self).current > old(self).start,
    {
        let ghost first = self.current as int;
        while self.peek() != '"' as u8 && !self.is_at_end()
            invariant
                self.current <= self.source@.len(),
                first <= self.current,
                first == old(self).current,
                self.current + until(self.source@, self.current as int, '"' as u8) == first
                    + until(self.source@, first, '"' as u8),
                line_after(self.source@, self.current as int, first + until(
                    self.source@,
                    first,
                    '"' as u8,
                ), self.line) == line_after(
                    self.source@,
                    first,
                    first + until(self.source@, first, '"' as u8),
                    old(self).line,
                ),
                *self == (Scanner { current: self.current, line: self.line, ..*old(self) }),
            decreases self.source@.len() - self.current,
        {
            proof {
                lemma_until_bound(self.source@, first, '"' as u8);
            }
            if self.peek() == '\n' as u8 {
                self.next_line();
            }
            self.advance();
        }
        if self.is_at_end() {
            return Err(
                LoxError::ScanError { line: self.line, message: Message::UnterminatedString },
            );
        }
        self.advance();
        let value = slice_copy(&self.source, self.start + 1, self.current - 1);
        self.add_token_literal(TokenType::STRING, Literal::STRING(Rc::new(value)));
        Ok(())
    }

    fn is_digit(c: u8) -> (r: bool)
        ensures
            r == is_digit(c),
    {
        c >= '0' as u8 && c <= '9' as u8
    }

    fn is_ascii_identifier(c: u8) -> (r: bool)
        ensures
            r == is_identifier_byte(c),
    {
        (c >= 'a' as u8 && c <= 'z' as u8) || (c >= 'A' as u8 && c <= 'Z' as u8) || c == '_' as u8
            || (c >= '0' as u8 && c <= '9' as u8)
    }

    /// Reads on over the digits at the current position.
    fn digits(&mut self)
        requires
            old(self).current <= old(self).source@.len(),
        ensures
            final(self).current == old(self).current + digit_run(
                old(self).source@,
                old(self).current as int,
            ),
            final(self).current <= final(self).source@.len(),
            *final(self) == (Scanner { current: final(self).current, ..*old(self) }),
    {
        while Scanner::is_digit(self.peek())
            invariant
                self.current <= self.source@.len(),
                old(self).current <= self.current,
                self.current + digit_run(self.source@, self.current as int) == old(self).current
                    + digit_run(old(self).source@, old(self).current as int),
                *self == (Scanner { current: self.current, ..*old(self) }),
            decreases self.source@.len() - self.current,
        {
            self.advance();
        }
    }

    /// Reads a numeral whose first digit has been read.
    fn number(&mut self)
        requires
            old(self).current <= old(self).source@.len(),
            old(self).current == old(self).start + 1,
            is_digit(old(self).source@[old(self).start as int]),
        ensures
            final(self)@ == scanned_one(
                ScannerState { current: old(self).start as int, ..old(self)@ },
            ).state,
            final(self).current <= final(self).source@.len(),
            final(self).current > old(self).start,
    {
        self.digits();
        if self.peek() == '.' as u8 && Scanner::is_digit(self.peek_next()) {
            self.advance();
            self.digits();
        }
        let text = slice_copy(&self.source, self.start, self.current);
        self.add_token_literal(TokenType::NUMBER, Literal::NUMBER(Rc::new(text)));
    }

    /// Reads a name or a reserved word whose first byte has been read.
    fn identifier(&mut self)
        requires
            old(self).current <= old(self).source@.len(),
            old(self).current == old(self).start + 1,
            is_alpha(old(self).source@[old(self).start as int]),
        ensures
            final(self)@ == scanned_one(
                ScannerState { current: old(self).start as int, ..old(self)@ },
            ).state,
            final(self).current <= final(self).source@.len(),
            final(self).current > old(self).start,
    {
        while Scanner::is_ascii_identifier(self.peek())
            invariant
                self.current <= self.source@.len(),
                old(self).current <= self.current,
                self.current + identifier_run(self.source@, self.current as int) == old(
                    self,
                ).current + identifier_run(old(self).source@, old(self).current as int),
                *self == (Scanner { current: self.current, ..*old(self) }),
            decreases self.source@.len() - self.current,
        {
            self.advance();
        }
        let text = slice_copy(&self.source, self.start, self.current);
        let token_type = match reserved(text.as_slice()) {
            Some(k) => k,
            None => TokenType::IDENTIFIER,
        };
        self.add_token(token_type);
    }
}

/// Scans `source`: the tokens read, and the error that stopped the scan, if
/// one did. Without an error the tokens end with the end-of-input token.
pub fn scan(source: Vec<u8>) -> (r: (Vec<RcToken>, Option<LoxError>))
    ensures
        token_views(r.0@) == scanned(fresh(source@)).state.tokens,
        r.1 == scanned(fresh(source@)).error,
{
    let mut scanner = Scanner::new(source);
    let outcome = scanner.scan_tokens();
    let error = match outcome {
        Ok(()) => None,
        Err(e) => Some(e),
    };
    (scanner.tokens, error)
}

} // verus!

verus! {

/// A run of digits ends within the source.
pub proof fn lemma_digit_run_bound(src: Seq<u8>, from: int)
    requires
        0 <= from <= src.len(),
    ensures
        from + digit_run(src, from) <= src.len(),
    decreases src.len() - from,
{
    if from < src.len() && is_digit(src[from]) {
        lemma_digit_run_bound(src, from + 1);
    }
}

/// A run of identifier bytes ends within the source.
pub proof fn lemma_identifier_run_bound(src: Seq<u8>, from: int)
    requires
        0 <= from <= src.len(),
    ensures
        from + identifier_run(src, from) <= src.len(),
    decreases src.len() - from,
{
    if from < src.len() && is_identifier_byte(src[from]) {
        lemma_identifier_run_bound(src, from + 1);
    }
}

/// In a piece `src[lo..hi]` of the source, a run of digits is as long as in
/// the whole source, unless the piece ends first.
pub proof fn lemma_digit_run_cut(src: Seq<u8>, lo: int, hi: int, from: int)
    requires
        0 <= lo <= from <= hi <= src.len(),
    ensures
        digit_run(src.subrange(lo, hi), from - lo) == (if from + digit_run(src, from) < hi {
            digit_run(src, from)
        } else {
            (hi - from) as nat
        }),
    decreases hi - from,
{
    if from < hi {
        lemma_digit_run_cut(src, lo, hi, from + 1);
    }
}

/// In a piece `src[lo..hi]` of the source, a run of identifier bytes is as
/// long as in the whole source, unless the piece ends first.
pub proof fn lemma_identifier_run_cut(src: Seq<u8>, lo: int, hi: int, from: int)
    requires
        0 <= lo <= from <= hi <= src.len(),
    ensures
        identifier_run(src.subrange(lo, hi), from - lo) == (if from + identifier_run(src, from)
            < hi {
            identifier_run(src, from)
        } else {
            (hi - from) as nat
        }),
    decreases hi - from,
{
    if from < hi {
        lemma_identifier_run_cut(src, lo, hi, from + 1);
    }
}

/// In a piece `src[lo..hi]` of the source, a run up to a stop byte is as
/// long as in the whole source, unless the piece ends first.
pub proof fn lemma_until_cut(src: Seq<u8>, lo: int, hi: int, from: int, stop: u8)
    requires
        0 <= lo <= from <= hi <= src.len(),
    ensures
        until(src.subrange(lo, hi), from - lo, stop) == (if from + until(src, from, stop) < hi {
            until(src, from, stop)
        } else {
            (hi - from) as nat
        }),
    decreases hi - from,
{
    if from < hi {
        lemma_until_cut(src, lo, hi, from + 1, stop);
    }
}

/// A token lies within the source.
pub proof fn lemma_token_within(src: Seq<u8>, pos: int, line: usize)
    requires
        0 <= pos < src.len(),
    ensures
        lexed(src, pos, line) matches Lexed::Token { extra, .. } ==> pos + 1 + extra <= src.len(),
{
    lemma_until_bound(src, pos + 1, '"' as u8);
    lemma_digit_run_bound(src, pos + 1);
    lemma_identifier_run_bound(src, pos + 1);
    let point = pos + 1 + digit_run(src, pos + 1);
    if point + 1 <= src.len() {
        lemma_digit_run_bound(src, point + 1);
    }
}

/// The text of a token, read by itself, is a token of the same kind with
/// the same literal, and it is the whole of that text.
pub proof fn lemma_lexeme_rescans(src: Seq<u8>, pos: int, line: usize, again: usize)
    requires
        0 <= pos < src.len(),
        lexed(src, pos, line) is Token,
    ensures
        ({
            let first = lexed(src, pos, line);
            let text = src.subrange(pos, pos + 1 + first->Token_extra);
            let second = lexed(text, 0, again);
            &&& second is Token
            &&& second->Token_kind == first->Token_kind
            &&& second->Token_literal == first->Token_literal
            &&& second->Token_extra == first->Token_extra
            &&& text.len() == 1 + first->Token_extra
        }),
{
    lemma_token_within(src, pos, line);
    let first = lexed(src, pos, line);
    let extra = first->Token_extra;
    let hi = pos + 1 + extra;
    let text = src.subrange(pos, hi);
    let c = src[pos];
    assert(text[0] == c);
    if single(c) is Some {
    } else if paired(c) is Some {
    } else if c == '/' as u8 {
    } else if c == '"' as u8 {
        let inside = until(src, pos + 1, '"' as u8);
        lemma_until_bound(src, pos + 1, '"' as u8);
        lemma_until_cut(src, pos, hi, pos + 1, '"' as u8);
        assert(text.subrange(1, (1 + inside) as int) =~= src.subrange(pos + 1, pos + 1 + inside));
    } else if is_digit(c) {
        let whole = digit_run(src, pos + 1);
        let point = pos + 1 + whole;
        lemma_digit_run_bound(src, pos + 1);
        lemma_digit_run_cut(src, pos, hi, pos + 1);
        if follows(src, point, '.' as u8) && point + 1 < src.len() && is_digit(src[point + 1]) {
            lemma_digit_run_bound(src, point + 1);
            lemma_digit_run_cut(src, pos, hi, point + 1);
            assert(text[(1 + whole) as int] == src[point]);
            assert(text[(1 + whole + 1) as int] == src[point + 1]);
        }
        assert(text.subrange(0, (1 + extra) as int) =~= text);
    } else if is_alpha(c) {
        lemma_identifier_run_bound(src, pos + 1);
        lemma_identifier_run_cut(src, pos, hi, pos + 1);
        assert(text.subrange(0, (1 + extra) as int) =~= text);
    }
}

/// Scanning goes on from the tokens already made: it keeps them, in place.
pub proof fn lemma_scan_keeps_tokens(st: ScannerState)
    ensures
        scanned(st).state.tokens.len() >= st.tokens.len(),
        scanned(st).state.tokens.subrange(0, st.tokens.len() as int) == st.tokens,
        scanned(st).state.source == st.source,
    decreases unread(st),
{
    if 0 <= st.current < st.source.len() {
        let one = scanned_one(st);
        if one.error is None {
            lemma_scan_keeps_tokens(one.state);
            assert(scanned(st).state.tokens.subrange(0, st.tokens.len() as int)
                =~= one.state.tokens.subrange(0, st.tokens.len() as int));
        }
        assert(one.state.tokens.subrange(0, st.tokens.len() as int) =~= st.tokens);
    } else {
        assert(scanned(st).state.tokens.subrange(0, st.tokens.len() as int) =~= st.tokens);
    }
}

/// Whether the token `t` is what stands at some position of `src`, or the
/// end-of-input token.
pub open spec fn token_of(src: Seq<u8>, t: TokenView) -> bool {
    ||| t.kind == TokenType::EOF && t.lexeme == Seq::<u8>::empty() && t.literal
        == LiteralView::NIL
    ||| exists|pos: int, line: usize|
        0 <= pos < src.len() && #[trigger] lexed(src, pos, line) is Token && t.kind == lexed(
            src,
            pos,
            line,
        )->Token_kind && t.literal == lexed(src, pos, line)->Token_literal && t.lexeme
            == src.subrange(pos, pos + 1 + lexed(src, pos, line)->Token_extra)
}

/// Every token that a scan adds is what stands at some position of the
/// source, or the end-of-input token.
pub proof fn lemma_tokens_of_source(st: ScannerState, i: int)
    requires
        st.tokens.len() <= i < scanned(st).state.tokens.len(),
    ensures
        token_of(st.source, scanned(st).state.tokens[i]),
    decreases unread(st),
{
    if 0 <= st.current < st.source.len() {
        let one = scanned_one(st);
        if one.error is None {
            lemma_scan_keeps_tokens(one.state);
            if i < one.state.tokens.len() {
                assert(scanned(st).state.tokens.subrange(0, one.state.tokens.len() as int)[i]
                    == scanned(st).state.tokens[i]);
                assert(lexed(st.source, st.current, st.line) is Token);
            } else {
                lemma_tokens_of_source(one.state, i);
            }
        } else {
        }
    } else {
    }
}

/// Scanning is stable: the text of any token that a scan made, scanned by
/// itself, gives a token of the same kind with the same literal, and after
/// it nothing but the end of input.
pub proof fn lemma_rescan(source: Seq<u8>, i: int)
    requires
        0 <= i < scanned(fresh(source)).state.tokens.len(),
    ensures
        ({
            let token = scanned(fresh(source)).state.tokens[i];
            let again = scanned(fresh(token.lexeme));
            &&& again.error is None
            &&& again.state.tokens.len() >= 1
            &&& again.state.tokens[0].kind == token.kind
            &&& again.state.tokens[0].literal == token.literal
            &&& again.state.tokens.len() == (if token.kind == TokenType::EOF {
                1nat
            } else {
                2nat
            })
            &&& again.state.tokens.last().kind == TokenType::EOF
        }),
{
    let token = scanned(fresh(source)).state.tokens[i];
    lemma_tokens_of_source(fresh(source), i);
    if token.kind == TokenType::EOF && token.lexeme == Seq::<u8>::empty() && token.literal
        == LiteralView::NIL {
        assert(scanned(fresh(token.lexeme)).state.tokens =~= seq![end_of_input(1)]);
    } else {
        let (pos, line) = choose|pos: int, line: usize|
            0 <= pos < source.len() && #[trigger] lexed(source, pos, line) is Token && token.kind
                == lexed(source, pos, line)->Token_kind && token.literal == lexed(
                source,
                pos,
                line,
            )->Token_literal && token.lexeme == source.subrange(
                pos,
                pos + 1 + lexed(source, pos, line)->Token_extra,
            );
        lemma_lexeme_rescans(source, pos, line, 1);
        let text = token.lexeme;
        let start = fresh(text);
        let one = scanned_one(start);
        assert(one.error is None);
        assert(one.state.current == text.len());
        assert(scanned(start) == scanned(one.state));
        let second = lexed(text, 0, 1);
        assert(scanned(one.state).state.tokens =~= seq![one.state.tokens[0], end_of_input(
            one.state.line,
        )]);
    }
}

} // verus!
