use crate::lox::{LoxError, Message};
use crate::table::NameTable;
use crate::token::RcToken;
use crate::value::{ExprValue, ValueView};
use std::rc::Rc;
use vstd::prelude::*;

verus! {

/// One scope: the variables declared in it, and the scope around it.
pub struct Scope {
    values: NameTable<ExprValue>,
    enclosing: Option<usize>,
}

/// One scope as mathematics.
pub struct ScopeView {
    pub values: Map<Seq<u8>, ValueView>,
    pub enclosing: Option<usize>,
}

/// All the scopes of a running program, each known by its index.
///
/// Scope 0 is the global scope. A scope is made after the scope around it, so
/// following `enclosing` leads to ever smaller indices and ends. Scopes are
/// never removed: a closure may hold on to the index of any of them.
pub struct Environment {
    scopes: Vec<Scope>,
}

/// The enclosing scope of `scope`, where it has one.
pub open spec fn parent(env: Seq<ScopeView>, scope: usize) -> Option<usize> {
    if scope < env.len() {
        match env[scope as int].enclosing {
            Some(p) => if p < scope {
                Some(p)
            } else {
                None
            },
            None => None,
        }
    } else {
        None
    }
}

/// The nearest scope, from `scope` outward, that declares `name`.
pub open spec fn owner(env: Seq<ScopeView>, scope: usize, name: Seq<u8>) -> Option<usize>
    decreases scope,
{
    if scope >= env.len() {
        None
    } else if env[scope as int].values.dom().contains(name) {
        Some(scope)
    } else {
        match parent(env, scope) {
            Some(p) => owner(env, p, name),
            None => None,
        }
    }
}

/// The scope reached from `scope` by exactly `distance` steps outward.
pub open spec fn ancestor(env: Seq<ScopeView>, scope: usize, distance: nat) -> Option<usize>
    decreases distance,
{
    if scope >= env.len() {
        None
    } else if distance == 0 {
        Some(scope)
    } else {
        match parent(env, scope) {
            Some(p) => ancestor(env, p, (distance - 1) as nat),
            None => None,
        }
    }
}

/// The scope at exactly `distance` steps outward of `scope`, if it declares `name`.
pub open spec fn owner_at(env: Seq<ScopeView>, scope: usize, distance: nat, name: Seq<u8>) -> Option<
    usize,
> {
    match ancestor(env, scope, distance) {
        Some(s) => if env[s as int].values.dom().contains(name) {
            Some(s)
        } else {
            None
        },
        None => None,
    }
}

/// `env` with `name` bound to `value` in scope `scope`.
pub open spec fn stored(env: Seq<ScopeView>, scope: usize, name: Seq<u8>, value: ValueView) -> Seq<
    ScopeView,
> {
    if scope < env.len() {
        env.update(
            scope as int,
            ScopeView { values: env[scope as int].values.insert(name, value), ..env[scope as int] },
        )
    } else {
        env
    }
}

/// `env` with one more scope, inside `enclosing`.
pub open spec fn extended(env: Seq<ScopeView>, enclosing: usize) -> Seq<ScopeView> {
    env.push(
        ScopeView {
            values: Map::empty(),
            enclosing: if enclosing < env.len() {
                Some(enclosing)
            } else {
                None
            },
        },
    )
}

/// A value that was left out stands for `nil`.
pub open spec fn or_nil(value: Option<ExprValue>) -> ValueView {
    match value {
        Some(v) => v@,
        None => ValueView::Nil,
    }
}

pub open spec fn undefined(name: RcToken) -> LoxError {
    LoxError::RuntimeError { token: name, message: Message::UndefinedVariable }
}

impl Scope {
    pub closed spec fn model(&self) -> ScopeView {
        ScopeView {
            values: self.values@.map_values(|v: ExprValue| v@),
            enclosing: self.enclosing,
        }
    }
}

impl View for Environment {
    type V = Seq<ScopeView>;

    closed spec fn view(&self) -> Seq<ScopeView> {
        Seq::new(self.scopes@.len(), |i: int| self.scopes@[i].model())
    }
}

impl Environment {
    /// Every scope's table is well formed.
    pub closed spec fn wf(&self) -> bool {
        forall|i: int| 0 <= i < self.scopes@.len() ==> (#[trigger] self.scopes@[i]).values.wf()
    }

    /// An environment that holds the global scope alone, with nothing in it.
    pub fn new() -> (r: Self)
        ensures
            r.wf(),
            r@ == seq![ScopeView { values: Map::empty(), enclosing: None }],
    {
        let mut scopes: Vec<Scope> = Vec::new();
        scopes.push(Scope { values: NameTable::new(), enclosing: None });
        let r = Environment { scopes };
        assert(r.scopes@[0].model().values =~= Map::empty());
        assert(r@ =~= seq![ScopeView { values: Map::empty(), enclosing: None }]);
        r
    }

    /// The number of scopes made so far.
    pub fn len(&self) -> (r: usize)
        ensures
            r == self@.len(),
    {
        self.scopes.len()
    }

    /// Makes a scope inside `enclosing` and returns its index.
    pub fn child(&mut self, enclosing: usize) -> (r: usize)
        requires
            old(self).wf(),
        ensures
            final(self).wf(),
            r == old(self)@.len(),
            final(self)@ == extended(old(self)@, enclosing),
    {
        let n = self.scopes.len();
        let around = if enclosing < n {
            Some(enclosing)
        } else {
            None
        };
        self.scopes.push(Scope { values: NameTable::new(), enclosing: around });
        assert(self.scopes@[n as int].model().values =~= Map::empty());
        assert(self@ =~= extended(old(self)@, enclosing));
        n
    }

    /// Binds `name` in scope `scope` alone, over any earlier binding there.
    /// Without a value the name is bound to `nil`.
    pub fn define(&mut self, scope: usize, name: &[u8], value: Option<ExprValue>)
        requires
            old(self).wf(),
        ensures
            final(self).wf(),
            final(self)@ == stored(old(self)@, scope, name@, or_nil(value)),
    {
        if scope < self.scopes.len() {
            let v = match value {
                Some(v) => v,
                None => ExprValue::Nil,
            };
            let ghost before = self.scopes@[scope as int].values@;
            self.scopes[scope].values.insert(name, v);
            assert(self.scopes@[scope as int].model().values =~= before.map_values(
                |v: ExprValue| v@,
            ).insert(name@, v@));
            assert(self@ =~= stored(old(self)@, scope, name@, or_nil(value)));
        }
    }

    fn find(&self, scope: usize, name: &[u8]) -> (r: Option<usize>)
        requires
            self.wf(),
        ensures
            r == owner(self@, scope, name@),
    {
        let mut at: usize = scope;
        loop
            invariant
                self.wf(),
                owner(self@, at, name@) == owner(self@, scope, name@),
            decreases at,
        {
            if at >= self.scopes.len() {
                return None;
            }
            if self.scopes[at].values.contains(name) {
                return Some(at);
            }
            match self.scopes[at].enclosing {
                Some(p) => {
                    if p < at {
                        at = p;
                    } else {
                        return None;
                    }
                },
                None => {
                    return None;
                },
            }
        }
    }

    fn find_at(&self, scope: usize, distance: usize, name: &[u8]) -> (r: Option<usize>)
        requires
            self.wf(),
        ensures
            r == owner_at(self@, scope, distance as nat, name@),
    {
        let mut at: usize = scope;
        let mut left: usize = distance;
        loop
            invariant
                self.wf(),
                ancestor(self@, at, left as nat) == ancestor(self@, scope, distance as nat),
            decreases left,
        {
            if at >= self.scopes.len() {
                return None;
            }
            if left == 0 {
                if self.scopes[at].values.contains(name) {
                    return Some(at);
                } else {
                    return None;
                }
            }
            match self.scopes[at].enclosing {
                Some(p) => {
                    if p < at {
                        at = p;
                        left -= 1;
                    } else {
                        return None;
                    }
                },
                None => {
                    return None;
                },
            }
        }
    }

    fn read(&self, slot: Option<usize>, name: &RcToken) -> (r: Result<ExprValue, LoxError>)
        requires
            self.wf(),
            slot matches Some(s) ==> s < self@.len() && self@[s as int].values.dom().contains(
                name.lexeme@,
            ),
        ensures
            match slot {
                Some(s) => r is Ok && r->Ok_0@ == self@[s as int].values[name.lexeme@],
                None => r == Err::<ExprValue, LoxError>(undefined(*name)),
            },
    {
        match slot {
            Some(s) => {
                match self.scopes[s].values.get(name.lexeme.as_slice()) {
                    Some(v) => Ok(v.clone()),
                    None => Err(
                        LoxError::RuntimeError {
                            token: Rc::clone(name),
                            message: Message::UndefinedVariable,
                        },
                    ),
                }
            },
            None => Err(
                LoxError::RuntimeError { token: Rc::clone(name), message: Message::UndefinedVariable },
            ),
        }
    }

    fn write(&mut self, slot: Option<usize>, name: &RcToken, value: Option<ExprValue>) -> (r: Result<
        (),
        LoxError,
    >)
        requires
            old(self).wf(),
            slot matches Some(s) ==> s < old(self)@.len(),
        ensures
            final(self).wf(),
            match slot {
                Some(s) => r is Ok && final(self)@ == stored(
                    old(self)@,
                    s,
                    name.lexeme@,
                    or_nil(value),
                ),
                None => r == Err::<(), LoxError>(undefined(*name)) && final(self)@ == old(self)@,
            },
    {
        match slot {
            Some(s) => {
                self.define(s, name.lexeme.as_slice(), value);
                Ok(())
            },
            None => Err(
                LoxError::RuntimeError { token: Rc::clone(name), message: Message::UndefinedVariable },
            ),
        }
    }

    /// The value of `name` in the nearest scope, from `scope` outward, that
    /// declares it; an error where none does.
    pub fn get(&self, scope: usize, name: &RcToken) -> (r: Result<ExprValue, LoxError>)
        requires
            self.wf(),
        ensures
            match owner(self@, scope, name.lexeme@) {
                Some(s) => r is Ok && r->Ok_0@ == self@[s as int].values[name.lexeme@],
                None => r == Err::<ExprValue, LoxError>(undefined(*name)),
            },
    {
        let slot = self.find(scope, name.lexeme.as_slice());
        proof {
            lemma_owner_declares(self@, scope, name.lexeme@);
        }
        self.read(slot, name)
    }

    /// Gives `name` a new value in the nearest scope, from `scope` outward,
    /// that declares it. Where none does, nothing changes and the call fails.
    pub fn assign(&mut self, scope: usize, name: &RcToken, value: Option<ExprValue>) -> (r: Result<
        (),
        LoxError,
    >)
        requires
            old(self).wf(),
        ensures
            final(self).wf(),
            match owner(old(self)@, scope, name.lexeme@) {
                Some(s) => r is Ok && final(self)@ == stored(
                    old(self)@,
                    s,
                    name.lexeme@,
                    or_nil(value),
                ),
                None => r == Err::<(), LoxError>(undefined(*name)) && final(self)@ == old(self)@,
            },
    {
        let slot = self.find(scope, name.lexeme.as_slice());
        proof {
            lemma_owner_declares(self@, scope, name.lexeme@);
        }
        self.write(slot, name, value)
    }

    /// The value of `name` in the scope exactly `distance` steps outward of
    /// `scope`; an error where there is no such scope or it lacks the name.
    pub fn get_at(&self, scope: usize, distance: usize, name: &RcToken) -> (r: Result<
        ExprValue,
        LoxError,
    >)
        requires
            self.wf(),
        ensures
            match owner_at(self@, scope, distance as nat, name.lexeme@) {
                Some(s) => r is Ok && r->Ok_0@ == self@[s as int].values[name.lexeme@],
                None => r == Err::<ExprValue, LoxError>(undefined(*name)),
            },
    {
        let slot = self.find_at(scope, distance, name.lexeme.as_slice());
        proof {
            lemma_ancestor_exists(self@, scope, distance as nat);
        }
        self.read(slot, name)
    }

    /// Gives `name` a new value in the scope exactly `distance` steps outward
    /// of `scope`. Where there is no such scope or it lacks the name, nothing
    /// changes and the call fails.
    pub fn assign_at(
        &mut self,
        scope: usize,
        distance: usize,
        name: &RcToken,
        value: Option<ExprValue>,
    ) -> (r: Result<(), LoxError>)
        requires
            old(self).wf(),
        ensures
            final(self).wf(),
            match owner_at(old(self)@, scope, distance as nat, name.lexeme@) {
                Some(s) => r is Ok && final(self)@ == stored(
                    old(self)@,
                    s,
                    name.lexeme@,
                    or_nil(value),
                ),
                None => r == Err::<(), LoxError>(undefined(*name)) && final(self)@ == old(self)@,
            },
    {
        let slot = self.find_at(scope, distance, name.lexeme.as_slice());
        proof {
            lemma_ancestor_exists(self@, scope, distance as nat);
        }
        self.write(slot, name, value)
    }
}

/// The scope that `owner` finds exists and declares the name.
pub proof fn lemma_owner_declares(env: Seq<ScopeView>, scope: usize, name: Seq<u8>)
    ensures
        owner(env, scope, name) matches Some(s) ==> s < env.len() && s <= scope && env[s as int].values.dom().contains(
            name,
        ),
    decreases scope,
{
    if scope < env.len() && !env[scope as int].values.dom().contains(name) {
        match parent(env, scope) {
            Some(p) => lemma_owner_declares(env, p, name),
            None => {},
        }
    }
}

/// The scope that `ancestor` finds exists.
pub proof fn lemma_ancestor_exists(env: Seq<ScopeView>, scope: usize, distance: nat)
    ensures
        ancestor(env, scope, distance) matches Some(s) ==> s < env.len() && s <= scope,
    decreases distance,
{
    if scope < env.len() && distance > 0 {
        match parent(env, scope) {
            Some(p) => lemma_ancestor_exists(env, p, (distance - 1) as nat),
            None => {},
        }
    }
}

} // verus!
