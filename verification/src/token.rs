use crate::token_type::TokenType;
use std::rc::Rc;
use vstd::prelude::*;
use vstd::string::StringSliceAdditionalSpecFns;

verus! {

/// A literal value carried by a token or a literal expression.
///
/// Text is held as bytes, exactly as it stands in the source. A number is held
/// as its decimal numeral (`digits` or `digits.digits`); the numeral denotes a
/// binary64 value, which the host computes when the literal is evaluated.
#[allow(non_camel_case_types)]
#[derive(Debug, PartialEq, Eq, Hash)]
pub enum Literal {
    IDENTIFIER(Rc<Vec<u8>>),
    STRING(Rc<Vec<u8>>),
    NUMBER(Rc<Vec<u8>>),
    BOOL(bool),
    NIL,
}

/// The mathematical content of a [`Literal`].
#[allow(non_camel_case_types)]
pub enum LiteralView {
    IDENTIFIER(Seq<u8>),
    STRING(Seq<u8>),
    NUMBER(Seq<u8>),
    BOOL(bool),
    NIL,
}

impl View for Literal {
    type V = LiteralView;

    open spec fn view(&self) -> LiteralView {
        match *self {
            Literal::IDENTIFIER(t) => LiteralView::IDENTIFIER(t@),
            Literal::STRING(t) => LiteralView::STRING(t@),
            Literal::NUMBER(t) => LiteralView::NUMBER(t@),
            Literal::BOOL(b) => LiteralView::BOOL(b),
            Literal::NIL => LiteralView::NIL,
        }
    }
}

impl Clone for Literal {
    /// Shares the text of the literal; the copy equals the value it was made from.
    fn clone(&self) -> (r: Self)
        ensures
            r == *self,
    {
        match self {
            Literal::IDENTIFIER(t) => Literal::IDENTIFIER(Rc::clone(t)),
            Literal::STRING(t) => Literal::STRING(Rc::clone(t)),
            Literal::NUMBER(t) => Literal::NUMBER(Rc::clone(t)),
            Literal::BOOL(b) => Literal::BOOL(*b),
            Literal::NIL => Literal::NIL,
        }
    }
}

/// The text that [`Literal::to_string`] yields.
pub open spec fn literal_text(l: LiteralView) -> Seq<u8> {
    match l {
        LiteralView::IDENTIFIER(t) => t,
        LiteralView::STRING(t) => t,
        LiteralView::NUMBER(t) => t,
        LiteralView::BOOL(b) => if b {
            "true".spec_bytes()
        } else {
            "false".spec_bytes()
        },
        LiteralView::NIL => "nil".spec_bytes(),
    }
}

/// Copies `text` into a fresh vector.
pub fn copy_bytes(text: &[u8]) -> (r: Vec<u8>)
    ensures
        r@ == text@,
{
    let mut out: Vec<u8> = Vec::new();
    let mut i: usize = 0;
    while i < text.len()
        invariant
            i <= text.len(),
            out@ == text@.subrange(0, i as int),
        decreases text.len() - i,
    {
        out.push(text[i]);
        i += 1;
        assert(out@ =~= text@.subrange(0, i as int));
    }
    assert(out@ =~= text@);
    out
}

/// Tells whether two byte strings hold the same bytes.
pub fn same_bytes(a: &[u8], b: &[u8]) -> (r: bool)
    ensures
        r == (a@ == b@),
{
    if a.len() != b.len() {
        return false;
    }
    let mut i: usize = 0;
    while i < a.len()
        invariant
            a.len() == b.len(),
            i <= a.len(),
            forall|j: int| 0 <= j < i ==> a@[j] == b@[j],
        decreases a.len() - i,
    {
        if a[i] != b[i] {
            return false;
        }
        i += 1;
    }
    assert(a@ =~= b@);
    true
}

impl Literal {
    /// The literal as text: an identifier, a string or a numeral as written,
    /// `true` / `false` for a boolean, and `nil`.
    pub fn to_string(&self) -> (r: Vec<u8>)
        ensures
            r@ == literal_text(self@),
    {
        match self {
            Literal::IDENTIFIER(t) => copy_bytes(t.as_slice()),
            Literal::STRING(t) => copy_bytes(t.as_slice()),
            Literal::NUMBER(t) => copy_bytes(t.as_slice()),
            Literal::BOOL(b) => if *b {
                copy_bytes("true".as_bytes())
            } else {
                copy_bytes("false".as_bytes())
            },
            Literal::NIL => copy_bytes("nil".as_bytes()),
        }
    }
}

/// One lexical token: its kind, the source text it was read from, the literal
/// it carries, and the line on which it ends.
#[derive(Debug, Clone, PartialEq, Eq, Hash)]
pub struct Token {
    pub type_: TokenType,
    pub lexeme: Vec<u8>,
    pub literal: Literal,
    pub line: usize,
}

/// The mathematical content of a [`Token`].
pub struct TokenView {
    pub kind: TokenType,
    pub lexeme: Seq<u8>,
    pub literal: LiteralView,
    pub line: usize,
}

impl View for Token {
    type V = TokenView;

    open spec fn view(&self) -> TokenView {
        TokenView {
            kind: self.type_,
            lexeme: self.lexeme@,
            literal: self.literal@,
            line: self.line,
        }
    }
}

/// A token shared between the token list and the syntax tree.
pub type RcToken = Rc<Token>;

impl Token {
    pub fn new(type_: TokenType, lexeme: Vec<u8>, literal: Literal, line: usize) -> (r: Token)
        ensures
            r == (Token { type_, lexeme, literal, line }),
    {
        Token { type_, lexeme, literal, line }
    }
}

} // verus!
