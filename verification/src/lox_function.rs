use crate::stmt::RcStmt;
use crate::token::RcToken;
use std::rc::Rc;
use vstd::prelude::*;
use vstd::string::StringSliceAdditionalSpecFns;

verus! {

/// A function declared in the program, together with the scope in which its
/// declaration was executed.
///
/// `closure` is the index of that scope in the interpreter's environment.
/// `id` tells one function value from every other: each execution of a
/// declaration makes a value with an id of its own.
#[derive(Debug)]
pub struct LoxFunction {
    pub name: RcToken,
    pub params: Rc<Vec<RcToken>>,
    pub body: Rc<Vec<RcStmt>>,
    pub closure: usize,
    pub id: usize,
}

/// The text that describes a function named `name`.
pub open spec fn function_text(name: Seq<u8>) -> Seq<u8> {
    "<fn ".spec_bytes() + name + " >".spec_bytes()
}

impl Clone for LoxFunction {
    fn clone(&self) -> (r: Self)
        ensures
            r == *self,
    {
        LoxFunction {
            name: Rc::clone(&self.name),
            params: Rc::clone(&self.params),
            body: Rc::clone(&self.body),
            closure: self.closure,
            id: self.id,
        }
    }
}

impl LoxFunction {
    /// The number of arguments that a call must supply.
    pub fn arity(&self) -> (r: usize)
        ensures
            r == self.params@.len(),
    {
        self.params.len()
    }

    /// A description of the function that holds its name.
    pub fn to_string(&self) -> (r: Vec<u8>)
        ensures
            r@ == function_text(self.name.lexeme@),
    {
        let mut out: Vec<u8> = Vec::new();
        out.extend_from_slice("<fn ".as_bytes());
        out.extend_from_slice(self.name.lexeme.as_slice());
        out.extend_from_slice(" >".as_bytes());
        out
    }
}

} // verus!
