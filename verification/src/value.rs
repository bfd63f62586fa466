use crate::lox_function::{function_text, LoxFunction};
use crate::token::copy_bytes;
use std::rc::Rc;
use vstd::prelude::*;
use vstd::string::StringSliceAdditionalSpecFns;

verus! {

/// A function that the interpreter itself provides.
#[derive(Clone, Copy, Debug, PartialEq, Eq, Structural)]
pub enum NativeFunction {
    /// `clock()`: the seconds since the epoch, as a number.
    Clock,
}

/// The number of arguments that a native function takes.
pub open spec fn native_arity(f: NativeFunction) -> usize {
    match f {
        NativeFunction::Clock => 0,
    }
}

impl NativeFunction {
    /// The number of arguments that a call must supply.
    pub fn arity(&self) -> (r: usize)
        ensures
            r == native_arity(*self),
    {
        match self {
            NativeFunction::Clock => 0,
        }
    }

    /// A description of the function.
    pub fn to_string(&self) -> (r: Vec<u8>)
        ensures
            r@ == "<native fn>".spec_bytes(),
    {
        copy_bytes("<native fn>".as_bytes())
    }
}

/// A value at run time.
///
/// A number is the bit pattern of a binary64 value. This library never looks
/// inside it: whatever is to be computed from numbers is asked of the host.
#[derive(Debug)]
pub enum ExprValue {
    Nil,
    Bool(bool),
    Number(u64),
    Text(Rc<Vec<u8>>),
    Function(LoxFunction),
    Native(NativeFunction),
}

/// The mathematical content of an [`ExprValue`].
pub enum ValueView {
    Nil,
    Bool(bool),
    Number(u64),
    Text(Seq<u8>),
    Function(LoxFunction),
    Native(NativeFunction),
}

impl View for ExprValue {
    type V = ValueView;

    open spec fn view(&self) -> ValueView {
        match *self {
            ExprValue::Nil => ValueView::Nil,
            ExprValue::Bool(b) => ValueView::Bool(b),
            ExprValue::Number(n) => ValueView::Number(n),
            ExprValue::Text(t) => ValueView::Text(t@),
            ExprValue::Function(f) => ValueView::Function(f),
            ExprValue::Native(n) => ValueView::Native(n),
        }
    }
}

impl Clone for ExprValue {
    /// Shares text and syntax; the copy equals the value it was made from.
    fn clone(&self) -> (r: Self)
        ensures
            r == *self,
    {
        match self {
            ExprValue::Nil => ExprValue::Nil,
            ExprValue::Bool(b) => ExprValue::Bool(*b),
            ExprValue::Number(n) => ExprValue::Number(*n),
            ExprValue::Text(t) => ExprValue::Text(Rc::clone(t)),
            ExprValue::Function(f) => ExprValue::Function(f.clone()),
            ExprValue::Native(n) => ExprValue::Native(*n),
        }
    }
}

/// Only `nil` and `false` are falsy.
pub open spec fn truthy(v: ValueView) -> bool {
    match v {
        ValueView::Nil => false,
        ValueView::Bool(b) => b,
        _ => true,
    }
}

/// Equality of two values of which at most one is a number: values of
/// different kinds differ, text is equal byte for byte, and a function equals
/// only itself. Whether two numbers are equal is not decided here.
pub open spec fn same_value(a: ValueView, b: ValueView) -> bool {
    match (a, b) {
        (ValueView::Nil, ValueView::Nil) => true,
        (ValueView::Bool(x), ValueView::Bool(y)) => x == y,
        (ValueView::Text(x), ValueView::Text(y)) => x == y,
        (ValueView::Function(f), ValueView::Function(g)) => f.id == g.id,
        (ValueView::Native(m), ValueView::Native(n)) => m == n,
        _ => false,
    }
}

/// The printed form of a value that is not a number.
pub open spec fn value_text(v: ValueView) -> Seq<u8> {
    match v {
        ValueView::Nil => "nil".spec_bytes(),
        ValueView::Bool(b) => if b {
            "true".spec_bytes()
        } else {
            "false".spec_bytes()
        },
        ValueView::Number(_) => Seq::empty(),
        ValueView::Text(t) => t,
        ValueView::Function(f) => function_text(f.name.lexeme@),
        ValueView::Native(_) => "<native fn>".spec_bytes(),
    }
}

/// The printed form of a number, given the text `formatted` that the host
/// made of it: that text, without a final `.0`.
pub open spec fn number_text(formatted: Seq<u8>) -> Seq<u8> {
    if formatted.len() >= 2 && formatted[formatted.len() - 2] == 46 && formatted[formatted.len()
        - 1] == 48 {
        formatted.subrange(0, formatted.len() - 2)
    } else {
        formatted
    }
}

impl ExprValue {
    pub fn is_truthy(&self) -> (r: bool)
        ensures
            r == truthy(self@),
    {
        match self {
            ExprValue::Nil => false,
            ExprValue::Bool(b) => *b,
            _ => true,
        }
    }

    /// The number that the value holds, if it is one.
    pub fn get_number(&self) -> (r: Option<u64>)
        ensures
            r == (match self@ {
                ValueView::Number(n) => Some(n),
                _ => None,
            }),
    {
        match self {
            ExprValue::Number(n) => Some(*n),
            _ => None,
        }
    }

    /// The text that the value holds, if it is a string.
    pub fn get_string(&self) -> (r: Option<&Rc<Vec<u8>>>)
        ensures
            match self@ {
                ValueView::Text(t) => r is Some && r->Some_0@ == t,
                _ => r is None,
            },
    {
        match self {
            ExprValue::Text(t) => Some(t),
            _ => None,
        }
    }

    /// Equality of two values of which at most one is a number.
    pub fn same_as(&self, other: &ExprValue) -> (r: bool)
        ensures
            r == same_value(self@, other@),
    {
        match (self, other) {
            (ExprValue::Nil, ExprValue::Nil) => true,
            (ExprValue::Bool(x), ExprValue::Bool(y)) => *x == *y,
            (ExprValue::Text(x), ExprValue::Text(y)) => crate::token::same_bytes(
                x.as_slice(),
                y.as_slice(),
            ),
            (ExprValue::Function(f), ExprValue::Function(g)) => f.id == g.id,
            (ExprValue::Native(m), ExprValue::Native(n)) => match (m, n) {
                (NativeFunction::Clock, NativeFunction::Clock) => true,
            },
            _ => false,
        }
    }

    /// The printed form of a value that is not a number; of a number, the
    /// empty text.
    pub fn stringify(&self) -> (r: Vec<u8>)
        ensures
            r@ == value_text(self@),
    {
        match self {
            ExprValue::Nil => copy_bytes("nil".as_bytes()),
            ExprValue::Bool(b) => if *b {
                copy_bytes("true".as_bytes())
            } else {
                copy_bytes("false".as_bytes())
            },
            ExprValue::Number(_) => Vec::new(),
            ExprValue::Text(t) => copy_bytes(t.as_slice()),
            ExprValue::Function(f) => f.to_string(),
            ExprValue::Native(f) => f.to_string(),
        }
    }
}

/// The printed form of a number, from the text that the host made of it.
pub fn printed_number(formatted: &[u8]) -> (r: Vec<u8>)
    ensures
        r@ == number_text(formatted@),
{
    let n = formatted.len();
    if n >= 2 && formatted[n - 2] == 46 && formatted[n - 1] == 48 {
        let mut out: Vec<u8> = Vec::new();
        let mut i: usize = 0;
        while i < n - 2
            invariant
                n == formatted@.len(),
                n >= 2,
                i <= n - 2,
                out@ == formatted@.subrange(0, i as int),
            decreases n - i,
        {
            out.push(formatted[i]);
            i += 1;
            assert(out@ =~= formatted@.subrange(0, i as int));
        }
        out
    } else {
        copy_bytes(formatted)
    }
}

} // verus!
