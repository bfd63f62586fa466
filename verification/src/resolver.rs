use crate::expr::{expr_view, expr_views, lemma_expr_views, Expr, ExprView, RcExpr};
use crate::lox::{LoxError, Message};
use crate::stmt::{lemma_stmt_views, stmt_view, stmt_views, RcStmt, Stmt, StmtView};
use crate::table::NameTable;
use crate::token::RcToken;
use std::collections::HashMap;
use std::rc::Rc;
use vstd::prelude::*;

verus! {

/// Whether the code being resolved lies inside a function body.
#[allow(non_camel_case_types)]
#[derive(Clone, Copy, Debug, PartialEq, Eq, Structural)]
pub enum FunctionType {
    NONE,
    FUNCTION,
}

/// For each resolved `Variable` or `Assign` node, by its id, the number of
/// scopes between the reference and the scope that declares the name.
pub type BindingTable = HashMap<usize, usize>;

/// The resolver's state as mathematics: the stack of open block scopes
/// (innermost last), each a map from a declared name to whether its
/// initializer has finished; such a map for the names declared outside every
/// block; the function marker; and the bindings so far.
pub struct ResolverState {
    pub scopes: Seq<Map<Seq<u8>, bool>>,
    pub globals: Map<Seq<u8>, bool>,
    pub current_function: FunctionType,
    pub bindings: Map<usize, usize>,
}

/// What resolving a piece of syntax leads to: the state reached, and the
/// error that stopped the walk there, if one did.
pub struct Resolved {
    pub state: ResolverState,
    pub error: Option<LoxError>,
}

impl Resolved {
    pub open spec fn result(self) -> Result<(), LoxError> {
        match self.error {
            Some(e) => Err(e),
            None => Ok(()),
        }
    }
}

pub open spec fn initial_state() -> ResolverState {
    ResolverState {
        scopes: Seq::empty(),
        globals: Map::empty(),
        current_function: FunctionType::NONE,
        bindings: Map::empty(),
    }
}

pub open spec fn scope_begun(st: ResolverState) -> ResolverState {
    ResolverState { scopes: st.scopes.push(Map::empty()), ..st }
}

pub open spec fn scope_ended(st: ResolverState) -> ResolverState {
    if st.scopes.len() == 0 {
        st
    } else {
        ResolverState { scopes: st.scopes.drop_last(), ..st }
    }
}

/// Declaring `name` adds it, not yet ready, to the innermost scope. In a
/// block, a name already in that scope is an error; outside every block a
/// name may be declared again.
pub open spec fn declared(st: ResolverState, name: RcToken) -> Resolved {
    if st.scopes.len() == 0 {
        Resolved {
            state: ResolverState { globals: st.globals.insert(name.lexeme@, false), ..st },
            error: None,
        }
    } else if st.scopes.last().dom().contains(name.lexeme@) {
        Resolved {
            state: st,
            error: Some(LoxError::ResolveError { token: name, message: Message::AlreadyDeclared }),
        }
    } else {
        Resolved {
            state: ResolverState {
                scopes: st.scopes.update(
                    st.scopes.len() - 1,
                    st.scopes.last().insert(name.lexeme@, false),
                ),
                ..st
            },
            error: None,
        }
    }
}

/// Defining `name` marks it ready in the innermost scope.
pub open spec fn defined(st: ResolverState, name: RcToken) -> ResolverState {
    if st.scopes.len() == 0 {
        ResolverState { globals: st.globals.insert(name.lexeme@, true), ..st }
    } else {
        ResolverState {
            scopes: st.scopes.update(
                st.scopes.len() - 1,
                st.scopes.last().insert(name.lexeme@, true),
            ),
            ..st
        }
    }
}

/// The number of scopes to leave, starting with `hops` already left, to reach
/// the nearest scope that declares `name`; `None` where no open scope does.
pub open spec fn scope_distance(scopes: Seq<Map<Seq<u8>, bool>>, name: Seq<u8>, hops: nat) -> Option<
    usize,
>
    decreases scopes.len() - hops,
{
    if hops >= scopes.len() {
        None
    } else if scopes[scopes.len() - 1 - hops].dom().contains(name) {
        Some(hops as usize)
    } else {
        scope_distance(scopes, name, hops + 1)
    }
}

/// Records for node `id` the distance to the scope that declares `name`.
/// A name that no open scope declares is global and gets no entry.
pub open spec fn located(st: ResolverState, id: usize, name: RcToken) -> ResolverState {
    match scope_distance(st.scopes, name.lexeme@, 0) {
        Some(d) => ResolverState { bindings: st.bindings.insert(id, d), ..st },
        None => st,
    }
}

/// The innermost scope: that of the innermost open block, or outside every
/// block the one of the global names.
pub open spec fn innermost(st: ResolverState) -> Map<Seq<u8>, bool> {
    if st.scopes.len() == 0 {
        st.globals
    } else {
        st.scopes.last()
    }
}

/// A variable is read in its own initializer when the innermost scope holds
/// its name, not yet ready.
pub open spec fn read_too_early(st: ResolverState, name: RcToken) -> bool {
    innermost(st).dom().contains(name.lexeme@) && !innermost(st)[name.lexeme@]
}

pub open spec fn resolved_expr(st: ResolverState, e: ExprView) -> Resolved
    decreases e,
{
    match e {
        ExprView::Variable { name, id } => {
            if read_too_early(st, name) {
                Resolved {
                    state: st,
                    error: Some(
                        LoxError::ResolveError { token: name, message: Message::ReadInOwnInitializer },
                    ),
                }
            } else {
                Resolved { state: located(st, id, name), error: None }
            }
        },
        ExprView::Assign { name, value, id } => {
            let r = resolved_expr(st, *value);
            if r.error is Some {
                r
            } else {
                Resolved { state: located(r.state, id, name), error: None }
            }
        },
        ExprView::Binary { left, operator, right } => {
            let r = resolved_expr(st, *left);
            if r.error is Some {
                r
            } else {
                resolved_expr(r.state, *right)
            }
        },
        ExprView::Call { callee, paren, arguments } => {
            let r = resolved_expr(st, *callee);
            if r.error is Some {
                r
            } else {
                resolved_exprs(r.state, arguments, 0)
            }
        },
        ExprView::Grouping(inner) => resolved_expr(st, *inner),
        ExprView::Literal(_) => Resolved { state: st, error: None },
        ExprView::Logical { left, operator, right } => {
            let r = resolved_expr(st, *left);
            if r.error is Some {
                r
            } else {
                resolved_expr(r.state, *right)
            }
        },
        ExprView::Unary { operator, right } => resolved_expr(st, *right),
    }
}

/// Resolves the expressions of `list` from index `from` on, in order.
pub open spec fn resolved_exprs(st: ResolverState, list: Seq<ExprView>, from: nat) -> Resolved
    decreases list, list.len() - from,
{
    if from >= list.len() {
        Resolved { state: st, error: None }
    } else {
        let r = resolved_expr(st, list[from as int]);
        if r.error is Some {
            r
        } else {
            resolved_exprs(r.state, list, from + 1)
        }
    }
}

/// Declares and defines the parameters of `params` from index `from` on.
pub open spec fn resolved_params(st: ResolverState, params: Seq<RcToken>, from: nat) -> Resolved
    decreases params.len() - from,
{
    if from >= params.len() {
        Resolved { state: st, error: None }
    } else {
        let r = declared(st, params[from as int]);
        if r.error is Some {
            r
        } else {
            resolved_params(defined(r.state, params[from as int]), params, from + 1)
        }
    }
}

/// A function's parameters and body, resolved in one new scope, inside a
/// function of kind `kind`. Afterwards the scope is closed and the marker is
/// what it was.
pub open spec fn resolved_function(
    st: ResolverState,
    params: Seq<RcToken>,
    body: Seq<StmtView>,
    kind: FunctionType,
) -> Resolved
    decreases body, body.len() + 1,
{
    let inner = ResolverState { current_function: kind, ..scope_begun(st) };
    let p = resolved_params(inner, params, 0);
    if p.error is Some {
        p
    } else {
        let r = resolved_stmts(p.state, body, 0);
        if r.error is Some {
            r
        } else {
            Resolved {
                state: ResolverState {
                    current_function: st.current_function,
                    ..scope_ended(r.state)
                },
                error: None,
            }
        }
    }
}

pub open spec fn resolved_stmt(st: ResolverState, s: StmtView) -> Resolved
    decreases s, 0nat,
{
    match s {
        StmtView::Block { statements } => {
            let r = resolved_stmts(scope_begun(st), statements, 0);
            if r.error is Some {
                r
            } else {
                Resolved { state: scope_ended(r.state), error: None }
            }
        },
        StmtView::Expression { expr } => resolved_expr(st, expr),
        StmtView::Var { name, initializer } => {
            let d = declared(st, name);
            if d.error is Some {
                d
            } else {
                match initializer {
                    Some(init) => {
                        let r = resolved_expr(d.state, init);
                        if r.error is Some {
                            r
                        } else {
                            Resolved { state: defined(r.state, name), error: None }
                        }
                    },
                    None => Resolved { state: defined(d.state, name), error: None },
                }
            }
        },
        StmtView::Function { name, params, body } => {
            let d = declared(st, name);
            if d.error is Some {
                d
            } else {
                resolved_function(defined(d.state, name), params, body, FunctionType::FUNCTION)
            }
        },
        StmtView::If { condition, then_branch, else_branch } => {
            let c = resolved_expr(st, condition);
            if c.error is Some {
                c
            } else {
                let t = resolved_stmt(c.state, *then_branch);
                if t.error is Some {
                    t
                } else {
                    match else_branch {
                        Some(e) => resolved_stmt(t.state, *e),
                        None => t,
                    }
                }
            }
        },
        StmtView::Print { expr } => resolved_expr(st, expr),
        StmtView::Return { keyword, value } => {
            if st.current_function == FunctionType::NONE {
                Resolved {
                    state: st,
                    error: Some(
                        LoxError::ResolveError {
                            token: keyword,
                            message: Message::ReturnOutsideFunction,
                        },
                    ),
                }
            } else {
                resolved_expr(st, value)
            }
        },
        StmtView::While { condition, body } => {
            let c = resolved_expr(st, condition);
            if c.error is Some {
                c
            } else {
                resolved_stmt(c.state, *body)
            }
        },
    }
}

/// Resolves the statements of `list` from index `from` on, in order.
pub open spec fn resolved_stmts(st: ResolverState, list: Seq<StmtView>, from: nat) -> Resolved
    decreases list, list.len() - from,
{
    if from >= list.len() {
        Resolved { state: st, error: None }
    } else {
        let r = resolved_stmt(st, list[from as int]);
        if r.error is Some {
            r
        } else {
            resolved_stmts(r.state, list, from + 1)
        }
    }
}

/// The static pass that finds, for each reference to a local variable, the
/// scope that declares it.
pub struct Resolver {
    scopes: Vec<NameTable<bool>>,
    globals: NameTable<bool>,
    current_function: FunctionType,
    bindings: BindingTable,
}

impl View for Resolver {
    type V = ResolverState;

    closed spec fn view(&self) -> ResolverState {
        ResolverState {
            scopes: Seq::new(self.scopes@.len(), |i: int| self.scopes@[i]@),
            globals: self.globals@,
            current_function: self.current_function,
            bindings: self.bindings@,
        }
    }
}

impl Resolver {
    /// Every scope is a well-formed table.
    pub closed spec fn wf(&self) -> bool {
        &&& self.globals.wf()
        &&& forall|i: int| 0 <= i < self.scopes@.len() ==> (#[trigger] self.scopes@[i]).wf()
    }

    pub fn new() -> (r: Self)
        ensures
            r.wf(),
            r@ == initial_state(),
    {
        let r = Resolver {
            scopes: Vec::new(),
            globals: NameTable::new(),
            current_function: FunctionType::NONE,
            bindings: HashMap::new(),
        };
        assert(r@.scopes =~= Seq::empty());
        r
    }

    /// A resolver that adds to `bindings`, the table of the programs resolved
    /// before.
    pub fn with_bindings(bindings: BindingTable) -> (r: Self)
        ensures
            r.wf(),
            r@ == (ResolverState { bindings: bindings@, ..initial_state() }),
    {
        let r = Resolver {
            scopes: Vec::new(),
            globals: NameTable::new(),
            current_function: FunctionType::NONE,
            bindings,
        };
        assert(r@.scopes =~= Seq::empty());
        r
    }

    /// The bindings recorded so far.
    pub fn bindings(&self) -> (r: &BindingTable)
        ensures
            r@ == self@.bindings,
    {
        &self.bindings
    }

    /// Gives up the resolver for the bindings it recorded.
    pub fn into_bindings(self) -> (r: BindingTable)
        ensures
            r@ == self@.bindings,
    {
        self.bindings
    }

    pub fn resolve_statements(&mut self, stmts: &Vec<RcStmt>) -> (r: Result<(), LoxError>)
        requires
            old(self).wf(),
        ensures
            final(self).wf(),
            final(self)@ == resolved_stmts(old(self)@, stmt_views(stmts@, stmts@.len()), 0).state,
            r == resolved_stmts(old(self)@, stmt_views(stmts@, stmts@.len()), 0).result(),
        decreases stmts@, 0nat,
    {
        let ghost start = self@;
        proof {
            lemma_stmt_views(stmts@, stmts@.len());
        }
        let mut i: usize = 0;
        while i < stmts.len()
            invariant
                self.wf(),
                i <= stmts@.len(),
                start == old(self)@,
                stmt_views(stmts@, stmts@.len()).len() == stmts@.len(),
                forall|k: int|
                    0 <= k < stmts@.len() ==> (#[trigger] stmt_views(stmts@, stmts@.len())[k])
                        == stmt_view(*stmts@[k]),
                resolved_stmts(start, stmt_views(stmts@, stmts@.len()), 0) == resolved_stmts(
                    self@,
                    stmt_views(stmts@, stmts@.len()),
                    i as nat,
                ),
            decreases stmts@.len() - i,
        {
            match self.resolve(&stmts[i]) {
                Err(e) => {
                    return Err(e);
                },
                Ok(()) => {},
            }
            i += 1;
        }
        Ok(())
    }

    fn resolve_expressions(&mut self, list: &Vec<RcExpr>) -> (r: Result<(), LoxError>)
        requires
            old(self).wf(),
        ensures
            final(self).wf(),
            final(self)@ == resolved_exprs(old(self)@, expr_views(list@, list@.len()), 0).state,
            r == resolved_exprs(old(self)@, expr_views(list@, list@.len()), 0).result(),
        decreases list@, 0nat,
    {
        let ghost start = self@;
        proof {
            lemma_expr_views(list@, list@.len());
        }
        let mut i: usize = 0;
        while i < list.len()
            invariant
                self.wf(),
                i <= list@.len(),
                start == old(self)@,
                expr_views(list@, list@.len()).len() == list@.len(),
                forall|k: int|
                    0 <= k < list@.len() ==> (#[trigger] expr_views(list@, list@.len())[k])
                        == expr_view(*list@[k]),
                resolved_exprs(start, expr_views(list@, list@.len()), 0) == resolved_exprs(
                    self@,
                    expr_views(list@, list@.len()),
                    i as nat,
                ),
            decreases list@.len() - i,
        {
            match self.resolve_expr(&list[i]) {
                Err(e) => {
                    return Err(e);
                },
                Ok(()) => {},
            }
            i += 1;
        }
        Ok(())
    }

    /// Resolves one statement.
    #[verifier::rlimit(50)]
    pub fn resolve(&mut self, stmt: &Stmt) -> (r: Result<(), LoxError>)
        requires
            old(self).wf(),
        ensures
            final(self).wf(),
            final(self)@ == resolved_stmt(old(self)@, stmt_view(*stmt)).state,
            r == resolved_stmt(old(self)@, stmt_view(*stmt)).result(),
        decreases *stmt, 0nat,
    {
        match stmt {
            Stmt::Block { statements } => {
                self.begin_scope();
                self.resolve_statements(statements)?;
                self.end_scope();
                Ok(())
            },
            Stmt::Expression { expr } => self.resolve_expr(expr),
            Stmt::Var { name, initializer } => {
                self.declare(name)?;
                if let Some(i) = initializer {
                    self.resolve_expr(i)?;
                }
                self.define(name);
                Ok(())
            },
            Stmt::Function { name, params, body } => {
                self.declare(name)?;
                self.define(name);
                self.resolve_function(params, body, FunctionType::FUNCTION)
            },
            Stmt::If { condition, then_branch, else_branch } => {
                self.resolve_expr(condition)?;
                self.resolve(then_branch)?;
                if let Some(el) = else_branch {
                    self.resolve(el)?;
                }
                Ok(())
            },
            Stmt::Print { expr } => self.resolve_expr(expr),
            Stmt::Return { keyword, value } => {
                if matches!(self.current_function, FunctionType::NONE) {
                    return Err(
                        LoxError::ResolveError {
                            token: Rc::clone(keyword),
                            message: Message::ReturnOutsideFunction,
                        },
                    );
                }
                self.resolve_expr(value)
            },
            Stmt::While { condition, body } => {
                self.resolve_expr(condition)?;
                self.resolve(body)
            },
        }
    }

    /// Resolves one expression.
    pub fn resolve_expr(&mut self, expr: &Expr) -> (r: Result<(), LoxError>)
        requires
            old(self).wf(),
        ensures
            final(self).wf(),
            final(self)@ == resolved_expr(old(self)@, expr_view(*expr)).state,
            r == resolved_expr(old(self)@, expr_view(*expr)).result(),
        decreases *expr, 0nat,
    {
        match expr {
            Expr::Variable { name, id } => {
                if self.reads_too_early(name) {
                    return Err(
                        LoxError::ResolveError {
                            token: Rc::clone(name),
                            message: Message::ReadInOwnInitializer,
                        },
                    );
                }
                self.resolve_local(*id, name);
                Ok(())
            },
            Expr::Assign { name, value, id } => {
                self.resolve_expr(value)?;
                self.resolve_local(*id, name);
                Ok(())
            },
            Expr::Binary { left, operator: _, right } => {
                self.resolve_expr(left)?;
                self.resolve_expr(right)
            },
            Expr::Call { callee, paren: _, arguments } => {
                self.resolve_expr(callee)?;
                self.resolve_expressions(arguments)
            },
            Expr::Grouping(e) => self.resolve_expr(e),
            Expr::Literal(_e) => Ok(()),
            Expr::Logical { left, operator: _, right } => {
                self.resolve_expr(left)?;
                self.resolve_expr(right)
            },
            Expr::Unary { operator: _, right } => self.resolve_expr(right),
        }
    }

    fn reads_too_early(&self, name: &RcToken) -> (r: bool)
        requires
            self.wf(),
        ensures
            r == read_too_early(self@, *name),
    {
        let n = self.scopes.len();
        let found = if n == 0 {
            self.globals.get(name.lexeme.as_slice())
        } else {
            self.scopes[n - 1].get(name.lexeme.as_slice())
        };
        match found {
            Some(ready) => !*ready,
            None => false,
        }
    }

    fn resolve_local(&mut self, id: usize, name: &RcToken)
        requires
            old(self).wf(),
        ensures
            final(self).wf(),
            final(self)@ == located(old(self)@, id, *name),
    {
        let n = self.scopes.len();
        let mut depth: usize = 0;
        while depth < n
            invariant
                self.wf(),
                n == self.scopes@.len(),
                depth <= n,
                self@ == old(self)@,
                scope_distance(self@.scopes, name.lexeme@, 0) == scope_distance(
                    self@.scopes,
                    name.lexeme@,
                    depth as nat,
                ),
            decreases n - depth,
        {
            if self.scopes[n - 1 - depth].contains(name.lexeme.as_slice()) {
                self.bindings.insert(id, depth);
                return ;
            }
            depth += 1;
        }
    }

    fn resolve_function(
        &mut self,
        params: &Vec<RcToken>,
        body: &Vec<RcStmt>,
        func_type: FunctionType,
    ) -> (r: Result<(), LoxError>)
        requires
            old(self).wf(),
        ensures
            final(self).wf(),
            final(self)@ == resolved_function(
                old(self)@,
                params@,
                stmt_views(body@, body@.len()),
                func_type,
            ).state,
            r == resolved_function(
                old(self)@,
                params@,
                stmt_views(body@, body@.len()),
                func_type,
            ).result(),
        decreases body@, 1nat,
    {
        let enclosing_function = self.current_function;
        self.current_function = func_type;
        self.begin_scope();
        let ghost inner = self@;
        let mut i: usize = 0;
        while i < params.len()
            invariant
                self.wf(),
                i <= params@.len(),
                inner == (ResolverState { current_function: func_type, ..scope_begun(old(self)@) }),
                resolved_params(inner, params@, 0) == resolved_params(self@, params@, i as nat),
            decreases params@.len() - i,
        {
            match self.declare(&params[i]) {
                Err(e) => {
                    return Err(e);
                },
                Ok(()) => {},
            }
            self.define(&params[i]);
            i += 1;
        }
        self.resolve_statements(body)?;
        self.end_scope();
        self.current_function = enclosing_function;
        Ok(())
    }

    fn begin_scope(&mut self)
        requires
            old(self).wf(),
        ensures
            final(self).wf(),
            final(self)@ == scope_begun(old(self)@),
    {
        self.scopes.push(NameTable::new());
        assert(self@.scopes =~= old(self)@.scopes.push(Map::empty()));
    }

    pub fn end_scope(&mut self)
        requires
            old(self).wf(),
        ensures
            final(self).wf(),
            final(self)@ == scope_ended(old(self)@),
    {
        self.scopes.pop();
        assert(self@.scopes =~= scope_ended(old(self)@).scopes);
    }

    fn declare(&mut self, name: &RcToken) -> (r: Result<(), LoxError>)
        requires
            old(self).wf(),
        ensures
            final(self).wf(),
            final(self)@ == declared(old(self)@, *name).state,
            r == declared(old(self)@, *name).result(),
    {
        let n = self.scopes.len();
        if n == 0 {
            self.globals.insert(name.lexeme.as_slice(), false);
            assert(self@.scopes =~= old(self)@.scopes);
            return Ok(());
        }
        if self.scopes[n - 1].contains(name.lexeme.as_slice()) {
            return Err(
                LoxError::ResolveError { token: Rc::clone(name), message: Message::AlreadyDeclared },
            );
        }
        self.scopes[n - 1].insert(name.lexeme.as_slice(), false);
        assert(self@.scopes =~= declared(old(self)@, *name).state.scopes);
        Ok(())
    }

    fn define(&mut self, name: &RcToken)
        requires
            old(self).wf(),
        ensures
            final(self).wf(),
            final(self)@ == defined(old(self)@, *name),
    {
        let n = self.scopes.len();
        if n == 0 {
            self.globals.insert(name.lexeme.as_slice(), true);
            assert(self@.scopes =~= old(self)@.scopes);
            return ;
        }
        self.scopes[n - 1].insert(name.lexeme.as_slice(), true);
        assert(self@.scopes =~= defined(old(self)@, *name).scopes);
    }
}

/// Resolves a whole program: the binding table of its local references, or
/// the first static error.
pub fn resolve(statements: &Vec<RcStmt>) -> (r: Result<BindingTable, LoxError>)
    ensures
        match resolved_stmts(
            initial_state(),
            stmt_views(statements@, statements@.len()),
            0,
        ).error {
            Some(e) => r == Err::<BindingTable, LoxError>(e),
            None => r is Ok && r->Ok_0@ == resolved_stmts(
                initial_state(),
                stmt_views(statements@, statements@.len()),
                0,
            ).state.bindings,
        },
{
    let mut resolver = Resolver::new();
    match resolver.resolve_statements(statements) {
        Err(e) => Err(e),
        Ok(()) => Ok(resolver.into_bindings()),
    }
}

} // verus!
