use crate::lox::{phrase_of, LoxError, Message};
use crate::token::{literal_text, Literal, LiteralView, Token, TokenView};
use crate::token_type::{kind_name, TokenType};
use vstd::prelude::*;
use vstd::string::StringSliceAdditionalSpecFns;

verus! {

/// The decimal numeral of `n`.
pub open spec fn decimal(n: nat) -> Seq<u8>
    decreases n,
{
    if n < 10 {
        seq![('0' as u8 + n) as u8]
    } else {
        decimal(n / 10).push(('0' as u8 + n % 10) as u8)
    }
}

/// The decimal numeral of `n`.
pub fn decimal_text(n: usize) -> (r: Vec<u8>)
    ensures
        r@ == decimal(n as nat),
    decreases n,
{
    if n < 10 {
        let mut out: Vec<u8> = Vec::new();
        out.push('0' as u8 + n as u8);
        assert(out@ =~= decimal(n as nat));
        out
    } else {
        let mut out = decimal_text(n / 10);
        out.push('0' as u8 + (n % 10) as u8);
        out
    }
}

/// The full wording of a message about the token with text `lexeme` and
/// kind `kind`.
pub open spec fn message_text(message: Message, lexeme: Seq<u8>, kind: TokenType) -> Seq<u8> {
    match message {
        Message::UndefinedVariable => "Undefined variable '".spec_bytes() + lexeme
            + "'.".spec_bytes(),
        Message::ArityMismatch { expected, got } => "Expected ".spec_bytes() + decimal(
            expected as nat,
        ) + " arguments but got ".spec_bytes() + decimal(got as nat) + ".".spec_bytes(),
        Message::OperandsMustBeNumbers => kind_name(kind).spec_bytes()
            + " operands must be a number(s)".spec_bytes(),
        Message::OperandsMustBeNumbersOrStrings => kind_name(kind).spec_bytes()
            + " operand must be numbers or strings".spec_bytes(),
        _ => phrase_of(message).spec_bytes(),
    }
}

/// Where an error was found, as it stands in a report: nothing for a place
/// in the source text, `at end` for the end of input, and else the token's
/// text in quotes.
pub open spec fn location_text(token: Option<TokenView>) -> Seq<u8> {
    match token {
        None => Seq::empty(),
        Some(t) => if t.kind == TokenType::EOF {
            "at end".spec_bytes()
        } else {
            "at '".spec_bytes() + t.lexeme + "'".spec_bytes()
        },
    }
}

/// One line of an error report.
pub open spec fn report_line(line: usize, location: Seq<u8>, message: Seq<u8>) -> Seq<u8> {
    "[line ".spec_bytes() + decimal(line as nat) + "] Error ".spec_bytes() + location
        + ": ".spec_bytes() + message
}

/// The report of an error.
pub open spec fn report_text(error: LoxError) -> Seq<u8> {
    match error {
        LoxError::ScanError { line, message } => report_line(
            line,
            location_text(None),
            phrase_of(message).spec_bytes(),
        ),
        LoxError::ParseError { token, message } => report_line(
            token.line,
            location_text(Some(token@)),
            message_text(message, token.lexeme@, token.type_),
        ),
        LoxError::ResolveError { token, message } => report_line(
            token.line,
            location_text(Some(token@)),
            message_text(message, token.lexeme@, token.type_),
        ),
        LoxError::RuntimeError { token, message } => report_line(
            token.line,
            location_text(Some(token@)),
            message_text(message, token.lexeme@, token.type_),
        ),
    }
}

impl Message {
    /// The full wording of the message, about `token`.
    pub fn text(&self, token: &Token) -> (r: Vec<u8>)
        ensures
            r@ == message_text(*self, token.lexeme@, token.type_),
    {
        let mut out: Vec<u8> = Vec::new();
        match self {
            Message::UndefinedVariable => {
                out.extend_from_slice("Undefined variable '".as_bytes());
                out.extend_from_slice(token.lexeme.as_slice());
                out.extend_from_slice("'.".as_bytes());
            },
            Message::ArityMismatch { expected, got } => {
                out.extend_from_slice("Expected ".as_bytes());
                let first = decimal_text(*expected);
                out.extend_from_slice(first.as_slice());
                out.extend_from_slice(" arguments but got ".as_bytes());
                let second = decimal_text(*got);
                out.extend_from_slice(second.as_slice());
                out.extend_from_slice(".".as_bytes());
            },
            Message::OperandsMustBeNumbers => {
                out.extend_from_slice(token.type_.name().as_bytes());
                out.extend_from_slice(" operands must be a number(s)".as_bytes());
            },
            Message::OperandsMustBeNumbersOrStrings => {
                out.extend_from_slice(token.type_.name().as_bytes());
                out.extend_from_slice(" operand must be numbers or strings".as_bytes());
            },
            _ => {
                out.extend_from_slice(self.phrase().as_bytes());
            },
        }
        out
    }
}

/// One line of an error report.
pub fn report(line: usize, location: &[u8], message: &[u8]) -> (r: Vec<u8>)
    ensures
        r@ == report_line(line, location@, message@),
{
    let mut out: Vec<u8> = Vec::new();
    out.extend_from_slice("[line ".as_bytes());
    let number = decimal_text(line);
    out.extend_from_slice(number.as_slice());
    out.extend_from_slice("] Error ".as_bytes());
    out.extend_from_slice(location);
    out.extend_from_slice(": ".as_bytes());
    out.extend_from_slice(message);
    out
}

/// The report of an error found at `token`.
pub fn error_token(token: &Token, message: &[u8]) -> (r: Vec<u8>)
    ensures
        r@ == report_line(token.line, location_text(Some(token@)), message@),
{
    if matches!(token.type_, TokenType::EOF) {
        report(token.line, "at end".as_bytes(), message)
    } else {
        let mut location: Vec<u8> = Vec::new();
        location.extend_from_slice("at '".as_bytes());
        location.extend_from_slice(token.lexeme.as_slice());
        location.extend_from_slice("'".as_bytes());
        report(token.line, location.as_slice(), message)
    }
}

impl LoxError {
    /// The report of the error: its line, its place and its message.
    pub fn report(&self) -> (r: Vec<u8>)
        ensures
            r@ == report_text(*self),
    {
        match self {
            LoxError::ScanError { line, message } => {
                let empty: Vec<u8> = Vec::new();
                report(*line, empty.as_slice(), message.phrase().as_bytes())
            },
            LoxError::ParseError { token, message } => {
                let text = message.text(token);
                error_token(token, text.as_slice())
            },
            LoxError::ResolveError { token, message } => {
                let text = message.text(token);
                error_token(token, text.as_slice())
            },
            LoxError::RuntimeError { token, message } => {
                let text = message.text(token);
                error_token(token, text.as_slice())
            },
        }
    }
}

/// A literal as it stands in the description of a token.
pub open spec fn literal_description(literal: LiteralView) -> Seq<u8> {
    match literal {
        LiteralView::IDENTIFIER(t) => "IDENTIFIER(\"".spec_bytes() + t + "\")".spec_bytes(),
        LiteralView::STRING(t) => "STRING(\"".spec_bytes() + t + "\")".spec_bytes(),
        LiteralView::NUMBER(t) => "NUMBER(".spec_bytes() + t + ")".spec_bytes(),
        LiteralView::BOOL(b) => "BOOL(".spec_bytes() + literal_text(literal) + ")".spec_bytes(),
        LiteralView::NIL => "NIL".spec_bytes(),
    }
}

/// The description of a token: its kind, text, literal and line.
pub open spec fn token_description(token: TokenView) -> Seq<u8> {
    "[Token] type: ".spec_bytes() + kind_name(token.kind).spec_bytes() + ", lexeme: ".spec_bytes()
        + token.lexeme + ", literal: ".spec_bytes() + literal_description(token.literal)
        + ", line: ".spec_bytes() + decimal(token.line as nat)
}

impl Literal {
    /// The literal as it stands in the description of a token. Text is
    /// given as it is, without escapes.
    pub fn describe(&self) -> (r: Vec<u8>)
        ensures
            r@ == literal_description(self@),
    {
        let mut out: Vec<u8> = Vec::new();
        match self {
            Literal::IDENTIFIER(t) => {
                out.extend_from_slice("IDENTIFIER(\"".as_bytes());
                out.extend_from_slice(t.as_slice());
                out.extend_from_slice("\")".as_bytes());
            },
            Literal::STRING(t) => {
                out.extend_from_slice("STRING(\"".as_bytes());
                out.extend_from_slice(t.as_slice());
                out.extend_from_slice("\")".as_bytes());
            },
            Literal::NUMBER(t) => {
                out.extend_from_slice("NUMBER(".as_bytes());
                out.extend_from_slice(t.as_slice());
                out.extend_from_slice(")".as_bytes());
            },
            Literal::BOOL(_) => {
                out.extend_from_slice("BOOL(".as_bytes());
                let text = self.to_string();
                out.extend_from_slice(text.as_slice());
                out.extend_from_slice(")".as_bytes());
            },
            Literal::NIL => {
                out.extend_from_slice("NIL".as_bytes());
            },
        }
        out
    }
}

impl Token {
    /// A description of the token, for diagnostics.
    pub fn to_string(&self) -> (r: Vec<u8>)
        ensures
            r@ == token_description(self@),
    {
        let mut out: Vec<u8> = Vec::new();
        out.extend_from_slice("[Token] type: ".as_bytes());
        out.extend_from_slice(self.type_.name().as_bytes());
        out.extend_from_slice(", lexeme: ".as_bytes());
        out.extend_from_slice(self.lexeme.as_slice());
        out.extend_from_slice(", literal: ".as_bytes());
        let literal = self.literal.describe();
        out.extend_from_slice(literal.as_slice());
        out.extend_from_slice(", line: ".as_bytes());
        let line = decimal_text(self.line);
        out.extend_from_slice(line.as_slice());
        out
    }
}

} // verus!
