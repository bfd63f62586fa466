use crate::environment::{
    extended, owner, owner_at, stored, undefined, Environment, ScopeView,
};
use crate::expr::{Expr, RcExpr};
use crate::lox::{LoxError, Message};
use crate::lox_function::LoxFunction;
use crate::resolver::BindingTable;
use crate::stmt::{RcStmt, Stmt};
use crate::token::{Literal, RcToken};
use crate::token_type::TokenType;
use crate::value::{
    native_arity, number_text, printed_number, same_value, truthy, value_text, ExprValue,
    NativeFunction, ValueView,
};
use std::collections::HashMap;
use std::rc::Rc;
use vstd::prelude::*;
use vstd::string::StringSliceAdditionalSpecFns;

verus! {

/// One piece of work that the interpreter has put off. The interpreter keeps
/// a stack of them and performs the topmost at each step.
///
/// `Execute`, `ExecuteList` and `Evaluate` start on a piece of syntax. The
/// others go on with a construct once the values they need lie on the stack
/// of operands.
#[derive(Debug)]
pub enum Task {
    Execute(RcStmt),
    /// Executes `statements[next..]`, in order.
    ExecuteList { statements: Rc<Vec<RcStmt>>, next: usize },
    Evaluate(RcExpr),
    /// Stores the topmost operand in the variable and leaves it in place.
    Assign { name: RcToken, id: usize },
    /// Takes the right and the left operand and applies the operator.
    BinaryApply { operator: RcToken },
    /// Keeps the left operand, or drops it and evaluates the right one.
    LogicalRight { operator: RcToken, right: RcExpr },
    UnaryApply { operator: RcToken },
    /// Calls the value that lies under the topmost `count` operands.
    Invoke { paren: RcToken, count: usize },
    Discard,
    Define { name: RcToken },
    Branch { then_branch: RcStmt, else_branch: Option<RcStmt> },
    Print,
    Return { keyword: RcToken },
    /// Takes the condition's value; while it is truthy, runs the body and
    /// evaluates the condition again.
    Loop { condition: RcExpr, body: RcStmt },
    /// Makes `environment` the current scope again, at the end of a block.
    Leave { environment: usize },
    /// The end of a function body: makes `environment`, the caller's scope,
    /// current again, and yields `nil` where the body did not return.
    EndCall { environment: usize },
}

/// Work that only the host can do. Each asks for one value in reply.
#[derive(Debug)]
pub enum Request {
    /// The number that a decimal numeral denotes: a `Reply::Number`.
    ParseNumber(Rc<Vec<u8>>),
    /// The shortest decimal text of a number: a `Reply::Text`.
    FormatNumber(u64),
    /// The negation of a number: a `Reply::Number`.
    Negate(u64),
    /// `left operator right` for `PLUS`, `MINUS`, `STAR` or `SLASH`: a `Reply::Number`.
    Arithmetic { operator: TokenType, left: u64, right: u64 },
    /// `left operator right` for a comparison or an equality operator: a `Reply::Bool`.
    Compare { operator: TokenType, left: u64, right: u64 },
    /// The seconds since the epoch: a `Reply::Number`.
    Clock,
}

impl Clone for Request {
    fn clone(&self) -> (r: Self)
        ensures
            r == *self,
    {
        match self {
            Request::ParseNumber(t) => Request::ParseNumber(Rc::clone(t)),
            Request::FormatNumber(n) => Request::FormatNumber(*n),
            Request::Negate(n) => Request::Negate(*n),
            Request::Arithmetic { operator, left, right } => Request::Arithmetic {
                operator: *operator,
                left: *left,
                right: *right,
            },
            Request::Compare { operator, left, right } => Request::Compare {
                operator: *operator,
                left: *left,
                right: *right,
            },
            Request::Clock => Request::Clock,
        }
    }
}

/// The host's answer to a [`Request`].
#[derive(Debug)]
pub enum Reply {
    Number(u64),
    Bool(bool),
    Text(Vec<u8>),
}

pub enum ReplyView {
    Number(u64),
    Bool(bool),
    Text(Seq<u8>),
}

impl View for Reply {
    type V = ReplyView;

    open spec fn view(&self) -> ReplyView {
        match *self {
            Reply::Number(n) => ReplyView::Number(n),
            Reply::Bool(b) => ReplyView::Bool(b),
            Reply::Text(t) => ReplyView::Text(t@),
        }
    }
}

/// What one step of the interpreter came to.
#[derive(Debug)]
pub enum Step {
    /// A piece of work was done; there may be more.
    Continue,
    /// Nothing is left to do.
    Finished,
    /// The program printed this line.
    Print(Vec<u8>),
    /// The interpreter waits for the host's reply to this request.
    Ask(Request),
    /// The program failed. What it did before stays done.
    Failed(LoxError),
}

pub enum StepView {
    Continue,
    Finished,
    Print(Seq<u8>),
    Ask(Request),
    Failed(LoxError),
}

impl View for Step {
    type V = StepView;

    open spec fn view(&self) -> StepView {
        match *self {
            Step::Continue => StepView::Continue,
            Step::Finished => StepView::Finished,
            Step::Print(t) => StepView::Print(t@),
            Step::Ask(r) => StepView::Ask(r),
            Step::Failed(e) => StepView::Failed(e),
        }
    }
}

/// The interpreter's state as mathematics.
pub struct Machine {
    /// The work put off, the next piece last.
    pub tasks: Seq<Task>,
    /// The values computed and not yet used, the newest last.
    pub operands: Seq<ValueView>,
    pub scopes: Seq<ScopeView>,
    /// The index of the current scope.
    pub environment: usize,
    pub bindings: Map<usize, usize>,
    /// The request that the host has not answered yet.
    pub pending: Option<Request>,
    /// The id that the next function value gets.
    pub functions: usize,
}

/// A state and the outcome of the step that led to it.
pub struct Moved {
    pub machine: Machine,
    pub step: StepView,
}

pub open spec fn went_on(m: Machine) -> Moved {
    Moved { machine: m, step: StepView::Continue }
}

/// A failure ends the run: the work put off is dropped and the global scope
/// is current again. The scopes and their variables stay as they are.
pub open spec fn failed(m: Machine, e: LoxError) -> Moved {
    Moved {
        machine: Machine {
            tasks: Seq::empty(),
            operands: Seq::empty(),
            environment: 0,
            pending: None,
            ..m
        },
        step: StepView::Failed(e),
    }
}

pub open spec fn asked(m: Machine, request: Request) -> Moved {
    Moved { machine: Machine { pending: Some(request), ..m }, step: StepView::Ask(request) }
}

pub open spec fn pushed(m: Machine, v: ValueView) -> Machine {
    Machine { operands: m.operands.push(v), ..m }
}

pub open spec fn scheduled(m: Machine, t: Task) -> Machine {
    Machine { tasks: m.tasks.push(t), ..m }
}

/// The topmost operand; `nil` where there is none.
pub open spec fn top(operands: Seq<ValueView>) -> ValueView {
    if operands.len() > 0 {
        operands.last()
    } else {
        ValueView::Nil
    }
}

/// The operands without the topmost.
pub open spec fn rest(operands: Seq<ValueView>) -> Seq<ValueView> {
    if operands.len() > 0 {
        operands.drop_last()
    } else {
        operands
    }
}

pub open spec fn popped(m: Machine) -> Machine {
    Machine { operands: rest(m.operands), ..m }
}

pub open spec fn next_id(n: usize) -> usize {
    if n < usize::MAX {
        (n + 1) as usize
    } else {
        n
    }
}

/// The scope in which the reference `id` to `name` finds its variable: by the
/// recorded distance where the binding table has one, else among the globals.
pub open spec fn variable_scope(m: Machine, id: usize, name: RcToken) -> Option<usize> {
    if m.bindings.dom().contains(id) {
        owner_at(m.scopes, m.environment, m.bindings[id] as nat, name.lexeme@)
    } else {
        owner(m.scopes, 0, name.lexeme@)
    }
}

/// Runs `statements` in scope `environment`, then makes the scope that is
/// current now current again.
pub open spec fn block_entered(m: Machine, statements: Rc<Vec<RcStmt>>, environment: usize) -> Machine {
    Machine {
        tasks: m.tasks.push(Task::Leave { environment: m.environment }).push(
            Task::ExecuteList { statements, next: 0 },
        ),
        environment,
        ..m
    }
}

pub open spec fn executed(m: Machine, s: Stmt) -> Moved {
    match s {
        Stmt::Block { statements } => went_on(
            block_entered(
                Machine { scopes: extended(m.scopes, m.environment), ..m },
                statements,
                m.scopes.len() as usize,
            ),
        ),
        Stmt::Expression { expr } => went_on(
            scheduled(scheduled(m, Task::Discard), Task::Evaluate(expr)),
        ),
        Stmt::Function { name, params, body } => went_on(
            Machine {
                scopes: stored(
                    m.scopes,
                    m.environment,
                    name.lexeme@,
                    ValueView::Function(
                        LoxFunction { name, params, body, closure: m.environment, id: m.functions },
                    ),
                ),
                functions: next_id(m.functions),
                ..m
            },
        ),
        Stmt::If { condition, then_branch, else_branch } => went_on(
            scheduled(
                scheduled(m, Task::Branch { then_branch, else_branch }),
                Task::Evaluate(condition),
            ),
        ),
        Stmt::Print { expr } => went_on(scheduled(scheduled(m, Task::Print), Task::Evaluate(expr))),
        Stmt::Return { keyword, value } => went_on(
            scheduled(scheduled(m, Task::Return { keyword }), Task::Evaluate(value)),
        ),
        Stmt::Var { name, initializer } => match initializer {
            Some(e) => went_on(scheduled(scheduled(m, Task::Define { name }), Task::Evaluate(e))),
            None => went_on(
                Machine {
                    scopes: stored(m.scopes, m.environment, name.lexeme@, ValueView::Nil),
                    ..m
                },
            ),
        },
        Stmt::While { condition, body } => went_on(
            scheduled(scheduled(m, Task::Loop { condition, body }), Task::Evaluate(condition)),
        ),
    }
}

/// The evaluations of `arguments`, the first argument's last, so that it is
/// performed first.
pub open spec fn argument_tasks(arguments: Seq<RcExpr>) -> Seq<Task> {
    Seq::new(arguments.len(), |j: int| Task::Evaluate(arguments[arguments.len() - 1 - j]))
}

pub open spec fn evaluated(m: Machine, e: Expr) -> Moved {
    match e {
        Expr::Literal(l) => match l {
            Literal::NIL => went_on(pushed(m, ValueView::Nil)),
            Literal::BOOL(b) => went_on(pushed(m, ValueView::Bool(b))),
            Literal::STRING(t) => went_on(pushed(m, ValueView::Text(t@))),
            Literal::IDENTIFIER(t) => went_on(pushed(m, ValueView::Text(t@))),
            Literal::NUMBER(t) => asked(m, Request::ParseNumber(t)),
        },
        Expr::Grouping(inner) => went_on(scheduled(m, Task::Evaluate(inner))),
        Expr::Variable { name, id } => match variable_scope(m, id, name) {
            Some(s) => went_on(pushed(m, m.scopes[s as int].values[name.lexeme@])),
            None => failed(m, undefined(name)),
        },
        Expr::Assign { name, value, id } => went_on(
            scheduled(scheduled(m, Task::Assign { name, id }), Task::Evaluate(value)),
        ),
        Expr::Binary { left, operator, right } => went_on(
            scheduled(
                scheduled(scheduled(m, Task::BinaryApply { operator }), Task::Evaluate(right)),
                Task::Evaluate(left),
            ),
        ),
        Expr::Logical { left, operator, right } => went_on(
            scheduled(scheduled(m, Task::LogicalRight { operator, right }), Task::Evaluate(left)),
        ),
        Expr::Unary { operator, right } => went_on(
            scheduled(scheduled(m, Task::UnaryApply { operator }), Task::Evaluate(right)),
        ),
        Expr::Call { callee, paren, arguments } => went_on(
            Machine {
                tasks: (m.tasks.push(Task::Invoke { paren, count: arguments@.len() as usize })
                    + argument_tasks(arguments@)).push(Task::Evaluate(callee)),
                ..m
            },
        ),
    }
}

pub open spec fn operand_error(operator: RcToken) -> LoxError {
    LoxError::RuntimeError { token: operator, message: Message::OperandsMustBeNumbers }
}

/// Applies a binary operator to two values. Numbers are handed to the host;
/// `+` joins two strings; `==` and `!=` compare any two values.
pub open spec fn binary_applied(m: Machine, operator: RcToken, left: ValueView, right: ValueView) -> Moved {
    let numbers = left is Number && right is Number;
    match operator.type_ {
        TokenType::GREATER | TokenType::GREATER_EQUAL | TokenType::LESS | TokenType::LESS_EQUAL => {
            if numbers {
                asked(
                    m,
                    Request::Compare {
                        operator: operator.type_,
                        left: left->Number_0,
                        right: right->Number_0,
                    },
                )
            } else {
                failed(m, operand_error(operator))
            }
        },
        TokenType::BANG_EQUAL | TokenType::EQUAL_EQUAL => {
            if numbers {
                asked(
                    m,
                    Request::Compare {
                        operator: operator.type_,
                        left: left->Number_0,
                        right: right->Number_0,
                    },
                )
            } else {
                went_on(
                    pushed(
                        m,
                        ValueView::Bool(
                            same_value(left, right) == (operator.type_ == TokenType::EQUAL_EQUAL),
                        ),
                    ),
                )
            }
        },
        TokenType::MINUS | TokenType::SLASH | TokenType::STAR => {
            if numbers {
                asked(
                    m,
                    Request::Arithmetic {
                        operator: operator.type_,
                        left: left->Number_0,
                        right: right->Number_0,
                    },
                )
            } else {
                failed(m, operand_error(operator))
            }
        },
        TokenType::PLUS => {
            if numbers {
                asked(
                    m,
                    Request::Arithmetic {
                        operator: operator.type_,
                        left: left->Number_0,
                        right: right->Number_0,
                    },
                )
            } else if left is Text && right is Text {
                went_on(pushed(m, ValueView::Text(left->Text_0 + right->Text_0)))
            } else {
                failed(
                    m,
                    LoxError::RuntimeError {
                        token: operator,
                        message: Message::OperandsMustBeNumbersOrStrings,
                    },
                )
            }
        },
        _ => failed(
            m,
            LoxError::RuntimeError { token: operator, message: Message::UnknownOperator },
        ),
    }
}

/// Applies a unary operator: `-` to a number, by way of the host; `!` to any value.
pub open spec fn unary_applied(m: Machine, operator: RcToken, v: ValueView) -> Moved {
    match operator.type_ {
        TokenType::MINUS => match v {
            ValueView::Number(n) => asked(m, Request::Negate(n)),
            _ => failed(m, operand_error(operator)),
        },
        TokenType::BANG => went_on(pushed(m, ValueView::Bool(!truthy(v)))),
        _ => failed(
            m,
            LoxError::RuntimeError { token: operator, message: Message::UnknownOperator },
        ),
    }
}

/// `and` and `or` yield the left value itself where it decides, and else the
/// right value: never a boolean made from them.
pub open spec fn logical_continued(m: Machine, operator: RcToken, right: RcExpr) -> Moved {
    let left = top(m.operands);
    let decided = if operator.type_ == TokenType::OR {
        truthy(left)
    } else {
        !truthy(left)
    };
    if decided {
        went_on(pushed(popped(m), left))
    } else {
        went_on(scheduled(popped(m), Task::Evaluate(right)))
    }
}

/// `env` with the first `n` parameters bound, in scope `scope`, to the
/// arguments at the same positions.
pub open spec fn bound(
    env: Seq<ScopeView>,
    scope: usize,
    params: Seq<RcToken>,
    arguments: Seq<ValueView>,
    n: nat,
) -> Seq<ScopeView>
    decreases n,
{
    if n == 0 {
        env
    } else {
        stored(
            bound(env, scope, params, arguments, (n - 1) as nat),
            scope,
            params[n - 1].lexeme@,
            arguments[n - 1],
        )
    }
}

pub open spec fn arity_error(paren: RcToken, expected: usize, got: usize) -> LoxError {
    LoxError::RuntimeError { token: paren, message: Message::ArityMismatch { expected, got } }
}

/// Calls the value under the topmost `count` operands with those operands.
///
/// A function gets a new scope inside the scope it was declared in, with its
/// parameters bound there, and its body runs in that scope.
pub open spec fn invoked(m: Machine, paren: RcToken, count: usize) -> Moved {
    if m.operands.len() <= count {
        failed(m, LoxError::RuntimeError { token: paren, message: Message::NotCallable })
    } else {
        let callee = m.operands[m.operands.len() - 1 - count];
        let arguments = m.operands.subrange(m.operands.len() - count, m.operands.len() as int);
        let base = Machine { operands: m.operands.subrange(0, m.operands.len() - 1 - count), ..m };
        match callee {
            ValueView::Native(NativeFunction::Clock) => {
                if count != native_arity(NativeFunction::Clock) {
                    failed(m, arity_error(paren, native_arity(NativeFunction::Clock), count))
                } else {
                    asked(base, Request::Clock)
                }
            },
            ValueView::Function(f) => {
                if count != f.params@.len() {
                    failed(m, arity_error(paren, f.params@.len() as usize, count))
                } else {
                    let scope = m.scopes.len() as usize;
                    went_on(
                        block_entered(
                            Machine {
                                tasks: m.tasks.push(Task::EndCall { environment: m.environment }),
                                scopes: bound(
                                    extended(m.scopes, f.closure),
                                    scope,
                                    f.params@,
                                    arguments,
                                    count as nat,
                                ),
                                ..base
                            },
                            f.body,
                            scope,
                        ),
                    )
                }
            },
            _ => failed(m, LoxError::RuntimeError { token: paren, message: Message::NotCallable }),
        }
    }
}

/// The position of the nearest end of a function body among the first `n` tasks.
pub open spec fn call_boundary(tasks: Seq<Task>, n: nat) -> Option<nat>
    decreases n,
{
    if n == 0 || n > tasks.len() {
        None
    } else if tasks[n - 1] is EndCall {
        Some((n - 1) as nat)
    } else {
        call_boundary(tasks, (n - 1) as nat)
    }
}

/// `return` drops the work put off up to and with the end of the nearest
/// function body, makes the caller's scope current and yields the value.
/// Outside every function body it fails.
pub open spec fn returned(m: Machine, keyword: RcToken) -> Moved {
    match call_boundary(m.tasks, m.tasks.len()) {
        Some(k) => went_on(
            Machine {
                tasks: m.tasks.subrange(0, k as int),
                environment: m.tasks[k as int]->EndCall_environment,
                operands: rest(m.operands).push(top(m.operands)),
                ..m
            },
        ),
        None => failed(
            m,
            LoxError::RuntimeError { token: keyword, message: Message::ReturnOutsideFunction },
        ),
    }
}

/// Performs the task `task`, which has been taken off the stack of `m`.
pub open spec fn performed(m: Machine, task: Task) -> Moved {
    match task {
        Task::Execute(s) => executed(m, *s),
        Task::ExecuteList { statements, next } => {
            if next < statements@.len() {
                went_on(
                    scheduled(
                        scheduled(
                            m,
                            Task::ExecuteList { statements, next: (next + 1) as usize },
                        ),
                        Task::Execute(statements@[next as int]),
                    ),
                )
            } else {
                went_on(m)
            }
        },
        Task::Evaluate(e) => evaluated(m, *e),
        Task::Assign { name, id } => match variable_scope(m, id, name) {
            Some(s) => went_on(
                Machine {
                    scopes: stored(m.scopes, s, name.lexeme@, top(m.operands)),
                    operands: rest(m.operands).push(top(m.operands)),
                    ..m
                },
            ),
            None => failed(m, undefined(name)),
        },
        Task::BinaryApply { operator } => binary_applied(
            popped(popped(m)),
            operator,
            top(rest(m.operands)),
            top(m.operands),
        ),
        Task::LogicalRight { operator, right } => logical_continued(m, operator, right),
        Task::UnaryApply { operator } => unary_applied(popped(m), operator, top(m.operands)),
        Task::Invoke { paren, count } => invoked(m, paren, count),
        Task::Discard => went_on(popped(m)),
        Task::Define { name } => went_on(
            Machine {
                scopes: stored(m.scopes, m.environment, name.lexeme@, top(m.operands)),
                ..popped(m)
            },
        ),
        Task::Branch { then_branch, else_branch } => {
            if truthy(top(m.operands)) {
                went_on(scheduled(popped(m), Task::Execute(then_branch)))
            } else {
                match else_branch {
                    Some(e) => went_on(scheduled(popped(m), Task::Execute(e))),
                    None => went_on(popped(m)),
                }
            }
        },
        Task::Print => match top(m.operands) {
            ValueView::Number(n) => asked(popped(m), Request::FormatNumber(n)),
            v => Moved { machine: popped(m), step: StepView::Print(value_text(v)) },
        },
        Task::Return { keyword } => returned(m, keyword),
        Task::Loop { condition, body } => {
            if truthy(top(m.operands)) {
                went_on(
                    scheduled(
                        scheduled(
                            scheduled(popped(m), Task::Loop { condition, body }),
                            Task::Evaluate(condition),
                        ),
                        Task::Execute(body),
                    ),
                )
            } else {
                went_on(popped(m))
            }
        },
        Task::Leave { environment } => went_on(Machine { environment, ..m }),
        Task::EndCall { environment } => went_on(
            pushed(Machine { environment, ..m }, ValueView::Nil),
        ),
    }
}

/// Takes the host's reply to the pending request `request`. A reply of the
/// kind that the request asks for ends the wait; without one the request is
/// made again.
pub open spec fn answered(m: Machine, request: Request, reply: Option<ReplyView>) -> Moved {
    let resumed = Machine { pending: None, ..m };
    match (request, reply) {
        (Request::FormatNumber(_), Some(ReplyView::Text(t))) => Moved {
            machine: resumed,
            step: StepView::Print(number_text(t)),
        },
        (Request::ParseNumber(_), Some(ReplyView::Number(n))) => went_on(
            pushed(resumed, ValueView::Number(n)),
        ),
        (Request::Negate(_), Some(ReplyView::Number(n))) => went_on(
            pushed(resumed, ValueView::Number(n)),
        ),
        (Request::Arithmetic { .. }, Some(ReplyView::Number(n))) => went_on(
            pushed(resumed, ValueView::Number(n)),
        ),
        (Request::Clock, Some(ReplyView::Number(n))) => went_on(
            pushed(resumed, ValueView::Number(n)),
        ),
        (Request::Compare { .. }, Some(ReplyView::Bool(b))) => went_on(
            pushed(resumed, ValueView::Bool(b)),
        ),
        _ => Moved { machine: m, step: StepView::Ask(request) },
    }
}

pub open spec fn reply_view(reply: Option<Reply>) -> Option<ReplyView> {
    match reply {
        Some(r) => Some(r@),
        None => None,
    }
}

/// One step of the interpreter.
pub open spec fn stepped(m: Machine, reply: Option<ReplyView>) -> Moved {
    match m.pending {
        Some(request) => answered(m, request, reply),
        None => {
            if m.tasks.len() == 0 {
                Moved { machine: m, step: StepView::Finished }
            } else {
                performed(Machine { tasks: m.tasks.drop_last(), ..m }, m.tasks.last())
            }
        },
    }
}

/// The state of a new interpreter: the global scope with `clock` in it, and
/// nothing to do.
pub open spec fn initial_machine() -> Machine {
    Machine {
        tasks: Seq::empty(),
        operands: Seq::empty(),
        scopes: stored(
            seq![ScopeView { values: Map::empty(), enclosing: None }],
            0,
            "clock".spec_bytes(),
            ValueView::Native(NativeFunction::Clock),
        ),
        environment: 0,
        bindings: Map::empty(),
        pending: None,
        functions: 0,
    }
}


/// The evaluator: a stack machine that walks the syntax tree one step at a
/// time and never computes on numbers itself.
pub struct Interpreter {
    store: Environment,
    environment: usize,
    tasks: Vec<Task>,
    operands: Vec<ExprValue>,
    bindings: BindingTable,
    pending: Option<Request>,
    functions: usize,
}

impl View for Interpreter {
    type V = Machine;

    closed spec fn view(&self) -> Machine {
        Machine {
            tasks: self.tasks@,
            operands: Seq::new(self.operands@.len(), |i: int| self.operands@[i]@),
            scopes: self.store@,
            environment: self.environment,
            bindings: self.bindings@,
            pending: self.pending,
            functions: self.functions,
        }
    }
}

impl Interpreter {
    /// The interpreter's invariant: its environment is well formed.
    pub closed spec fn wf(&self) -> bool {
        self.store.wf()
    }

    /// An interpreter with `clock` among its globals and nothing to do.
    pub fn new() -> (r: Self)
        ensures
            r.wf(),
            r@ == initial_machine(),
    {
        let mut store = Environment::new();
        store.define(0, "clock".as_bytes(), Some(ExprValue::Native(NativeFunction::Clock)));
        let r = Interpreter {
            store,
            environment: 0,
            tasks: Vec::new(),
            operands: Vec::new(),
            bindings: HashMap::new(),
            pending: None,
            functions: 0,
        };
        assert(r@.operands =~= Seq::empty());
        r
    }

    /// The index of the global scope.
    pub fn globals(&self) -> (r: usize)
        ensures
            r == 0,
    {
        0
    }

    /// The index of the current scope.
    pub fn environment(&self) -> (r: usize)
        ensures
            r == self@.environment,
    {
        self.environment
    }

    /// Binds `name` among the globals: the way to add a native function.
    pub fn define_global(&mut self, name: &[u8], value: ExprValue)
        requires
            old(self).wf(),
        ensures
            final(self).wf(),
            final(self)@ == (Machine {
                scopes: stored(old(self)@.scopes, 0, name@, value@),
                ..old(self)@
            }),
    {
        self.store.define(0, name, Some(value));
    }

    /// Hands out the binding table and leaves an empty one.
    pub fn take_bindings(&mut self) -> (r: BindingTable)
        requires
            old(self).wf(),
        ensures
            final(self).wf(),
            r@ == old(self)@.bindings,
            final(self)@ == (Machine { bindings: Map::empty(), ..old(self)@ }),
    {
        let mut table: BindingTable = HashMap::new();
        std::mem::swap(&mut table, &mut self.bindings);
        table
    }

    /// Makes `bindings` the binding table.
    pub fn set_bindings(&mut self, bindings: BindingTable)
        requires
            old(self).wf(),
        ensures
            final(self).wf(),
            final(self)@ == (Machine { bindings: bindings@, ..old(self)@ }),
    {
        self.bindings = bindings;
    }

    /// Schedules `statements` to run next, with `bindings` as the binding
    /// table from now on. The host then calls [`Interpreter::step`] until it
    /// yields `Finished` or `Failed`.
    pub fn interpret(&mut self, statements: Vec<RcStmt>, bindings: BindingTable)
        requires
            old(self).wf(),
        ensures
            final(self).wf(),
            final(self)@.tasks.len() == old(self)@.tasks.len() + 1,
            final(self)@.tasks.drop_last() == old(self)@.tasks,
            final(self)@.tasks.last() matches Task::ExecuteList { statements: list, next }
                && *list == statements && next == 0,
            final(self)@ == (Machine {
                tasks: final(self)@.tasks,
                bindings: bindings@,
                ..old(self)@
            }),
    {
        self.bindings = bindings;
        self.tasks.push(Task::ExecuteList { statements: Rc::new(statements), next: 0 });
        assert(self@.tasks.drop_last() =~= old(self)@.tasks);
    }

    /// Runs `statements` in scope `environment`; afterwards the scope that is
    /// current now is current again.
    pub fn execute_block(&mut self, statements: Rc<Vec<RcStmt>>, environment: usize)
        requires
            old(self).wf(),
        ensures
            final(self).wf(),
            final(self)@ == block_entered(old(self)@, statements, environment),
    {
        self.tasks.push(Task::Leave { environment: self.environment });
        self.tasks.push(Task::ExecuteList { statements, next: 0 });
        self.environment = environment;
    }

    fn schedule(&mut self, task: Task)
        requires
            old(self).wf(),
        ensures
            final(self).wf(),
            final(self)@ == scheduled(old(self)@, task),
    {
        self.tasks.push(task);
    }

    fn push(&mut self, value: ExprValue)
        requires
            old(self).wf(),
        ensures
            final(self).wf(),
            final(self)@ == pushed(old(self)@, value@),
    {
        self.operands.push(value);
        assert(self@.operands =~= old(self)@.operands.push(value@));
    }

    fn pop(&mut self) -> (r: ExprValue)
        requires
            old(self).wf(),
        ensures
            final(self).wf(),
            final(self)@ == popped(old(self)@),
            r@ == top(old(self)@.operands),
    {
        let r = match self.operands.pop() {
            Some(v) => v,
            None => ExprValue::Nil,
        };
        assert(self@.operands =~= rest(old(self)@.operands));
        r
    }

    fn fail(&mut self, error: LoxError) -> (r: Step)
        requires
            old(self).wf(),
        ensures
            final(self).wf(),
            final(self)@ == failed(old(self)@, error).machine,
            r@ == failed(old(self)@, error).step,
    {
        self.tasks.clear();
        self.operands.clear();
        self.environment = 0;
        self.pending = None;
        assert(self@.operands =~= Seq::empty());
        Step::Failed(error)
    }

    fn ask(&mut self, request: Request) -> (r: Step)
        requires
            old(self).wf(),
        ensures
            final(self).wf(),
            final(self)@ == asked(old(self)@, request).machine,
            r@ == asked(old(self)@, request).step,
    {
        self.pending = Some(request.clone());
        Step::Ask(request)
    }

    /// The value of the variable that the reference `id` to `name` means.
    fn look_up_variable(&self, id: usize, name: &RcToken) -> (r: Result<ExprValue, LoxError>)
        requires
            self.wf(),
        ensures
            match variable_scope(self@, id, *name) {
                Some(s) => r is Ok && r->Ok_0@ == self@.scopes[s as int].values[name.lexeme@],
                None => r == Err::<ExprValue, LoxError>(undefined(*name)),
            },
    {
        match self.bindings.get(&id) {
            Some(distance) => self.store.get_at(self.environment, *distance, name),
            None => self.store.get(0, name),
        }
    }

    /// Gives the variable that the reference `id` to `name` means a new value.
    fn assign_variable(&mut self, id: usize, name: &RcToken, value: ExprValue) -> (r: Result<
        (),
        LoxError,
    >)
        requires
            old(self).wf(),
        ensures
            final(self).wf(),
            match variable_scope(old(self)@, id, *name) {
                Some(s) => r is Ok && final(self)@ == (Machine {
                    scopes: stored(old(self)@.scopes, s, name.lexeme@, value@),
                    ..old(self)@
                }),
                None => r == Err::<(), LoxError>(undefined(*name)) && final(self)@ == old(self)@,
            },
    {
        match self.bindings.get(&id) {
            Some(distance) => {
                let d = *distance;
                self.store.assign_at(self.environment, d, name, Some(value))
            },
            None => self.store.assign(0, name, Some(value)),
        }
    }

    /// Starts on one statement.
    fn execute(&mut self, stmt: RcStmt) -> (r: Step)
        requires
            old(self).wf(),
        ensures
            final(self).wf(),
            final(self)@ == executed(old(self)@, *stmt).machine,
            r@ == executed(old(self)@, *stmt).step,
    {
        match &*stmt {
            Stmt::Block { statements } => {
                let scope = self.store.child(self.environment);
                self.execute_block(Rc::clone(statements), scope);
            },
            Stmt::Expression { expr } => {
                self.schedule(Task::Discard);
                self.schedule(Task::Evaluate(Rc::clone(expr)));
            },
            Stmt::Function { name, params, body } => {
                let function = LoxFunction {
                    name: Rc::clone(name),
                    params: Rc::clone(params),
                    body: Rc::clone(body),
                    closure: self.environment,
                    id: self.functions,
                };
                if self.functions < usize::MAX {
                    self.functions = self.functions + 1;
                }
                self.store.define(
                    self.environment,
                    name.lexeme.as_slice(),
                    Some(ExprValue::Function(function)),
                );
            },
            Stmt::If { condition, then_branch, else_branch } => {
                let otherwise = match else_branch {
                    Some(e) => Some(Rc::clone(e)),
                    None => None,
                };
                self.schedule(
                    Task::Branch { then_branch: Rc::clone(then_branch), else_branch: otherwise },
                );
                self.schedule(Task::Evaluate(Rc::clone(condition)));
            },
            Stmt::Print { expr } => {
                self.schedule(Task::Print);
                self.schedule(Task::Evaluate(Rc::clone(expr)));
            },
            Stmt::Return { keyword, value } => {
                self.schedule(Task::Return { keyword: Rc::clone(keyword) });
                self.schedule(Task::Evaluate(Rc::clone(value)));
            },
            Stmt::Var { name, initializer } => {
                match initializer {
                    Some(e) => {
                        self.schedule(Task::Define { name: Rc::clone(name) });
                        self.schedule(Task::Evaluate(Rc::clone(e)));
                    },
                    None => {
                        self.store.define(self.environment, name.lexeme.as_slice(), None);
                    },
                }
            },
            Stmt::While { condition, body } => {
                self.schedule(
                    Task::Loop { condition: Rc::clone(condition), body: Rc::clone(body) },
                );
                self.schedule(Task::Evaluate(Rc::clone(condition)));
            },
        }
        Step::Continue
    }

    /// Starts on one expression.
    fn evaluate(&mut self, expr: RcExpr) -> (r: Step)
        requires
            old(self).wf(),
        ensures
            final(self).wf(),
            final(self)@ == evaluated(old(self)@, *expr).machine,
            r@ == evaluated(old(self)@, *expr).step,
    {
        match &*expr {
            Expr::Literal(literal) => {
                match literal {
                    Literal::NIL => self.push(ExprValue::Nil),
                    Literal::BOOL(b) => self.push(ExprValue::Bool(*b)),
                    Literal::STRING(t) => self.push(ExprValue::Text(Rc::clone(t))),
                    Literal::IDENTIFIER(t) => self.push(ExprValue::Text(Rc::clone(t))),
                    Literal::NUMBER(t) => {
                        return self.ask(Request::ParseNumber(Rc::clone(t)));
                    },
                }
            },
            Expr::Grouping(inner) => {
                self.schedule(Task::Evaluate(Rc::clone(inner)));
            },
            Expr::Variable { name, id } => {
                match self.look_up_variable(*id, name) {
                    Ok(v) => self.push(v),
                    Err(e) => {
                        return self.fail(e);
                    },
                }
            },
            Expr::Assign { name, value, id } => {
                self.schedule(Task::Assign { name: Rc::clone(name), id: *id });
                self.schedule(Task::Evaluate(Rc::clone(value)));
            },
            Expr::Binary { left, operator, right } => {
                self.schedule(Task::BinaryApply { operator: Rc::clone(operator) });
                self.schedule(Task::Evaluate(Rc::clone(right)));
                self.schedule(Task::Evaluate(Rc::clone(left)));
            },
            Expr::Logical { left, operator, right } => {
                self.schedule(
                    Task::LogicalRight { operator: Rc::clone(operator), right: Rc::clone(right) },
                );
                self.schedule(Task::Evaluate(Rc::clone(left)));
            },
            Expr::Unary { operator, right } => {
                self.schedule(Task::UnaryApply { operator: Rc::clone(operator) });
                self.schedule(Task::Evaluate(Rc::clone(right)));
            },
            Expr::Call { callee, paren, arguments } => {
                self.schedule(Task::Invoke { paren: Rc::clone(paren), count: arguments.len() });
                let ghost base = self@.tasks;
                let mut i: usize = arguments.len();
                while i > 0
                    invariant
                        self.wf(),
                        i <= arguments@.len(),
                        self@ == (Machine {
                            tasks: base + argument_tasks(arguments@).subrange(
                                0,
                                arguments@.len() - i,
                            ),
                            ..old(self)@
                        }),
                    decreases i,
                {
                    i -= 1;
                    self.schedule(Task::Evaluate(Rc::clone(&arguments[i])));
                    assert(self@.tasks =~= base + argument_tasks(arguments@).subrange(
                        0,
                        arguments@.len() - i,
                    ));
                }
                assert(argument_tasks(arguments@).subrange(0, arguments@.len() as int)
                    =~= argument_tasks(arguments@));
                self.schedule(Task::Evaluate(Rc::clone(callee)));
            },
        }
        Step::Continue
    }

    /// Applies a binary operator to two values.
    fn interpret_expr_binary(&mut self, operator: RcToken, left: ExprValue, right: ExprValue) -> (r:
        Step)
        requires
            old(self).wf(),
        ensures
            final(self).wf(),
            final(self)@ == binary_applied(old(self)@, operator, left@, right@).machine,
            r@ == binary_applied(old(self)@, operator, left@, right@).step,
    {
        let numbers = match (left.get_number(), right.get_number()) {
            (Some(l), Some(r)) => Some((l, r)),
            _ => None,
        };
        match operator.type_ {
            TokenType::GREATER
            | TokenType::GREATER_EQUAL
            | TokenType::LESS
            | TokenType::LESS_EQUAL => {
                match numbers {
                    Some((l, r)) => self.ask(
                        Request::Compare { operator: operator.type_, left: l, right: r },
                    ),
                    None => self.fail(
                        LoxError::RuntimeError {
                            token: operator,
                            message: Message::OperandsMustBeNumbers,
                        },
                    ),
                }
            },
            TokenType::BANG_EQUAL | TokenType::EQUAL_EQUAL => {
                match numbers {
                    Some((l, r)) => self.ask(
                        Request::Compare { operator: operator.type_, left: l, right: r },
                    ),
                    None => {
                        let same = left.same_as(&right);
                        let wanted = matches!(operator.type_, TokenType::EQUAL_EQUAL);
                        self.push(ExprValue::Bool(same == wanted));
                        Step::Continue
                    },
                }
            },
            TokenType::MINUS | TokenType::SLASH | TokenType::STAR => {
                match numbers {
                    Some((l, r)) => self.ask(
                        Request::Arithmetic { operator: operator.type_, left: l, right: r },
                    ),
                    None => self.fail(
                        LoxError::RuntimeError {
                            token: operator,
                            message: Message::OperandsMustBeNumbers,
                        },
                    ),
                }
            },
            TokenType::PLUS => {
                match numbers {
                    Some((l, r)) => self.ask(
                        Request::Arithmetic { operator: operator.type_, left: l, right: r },
                    ),
                    None => {
                        match (left.get_string(), right.get_string()) {
                            (Some(a), Some(b)) => {
                                let mut joined: Vec<u8> = Vec::new();
                                joined.extend_from_slice(a.as_slice());
                                joined.extend_from_slice(b.as_slice());
                                assert(joined@ =~= a@ + b@);
                                self.push(ExprValue::Text(Rc::new(joined)));
                                Step::Continue
                            },
                            _ => self.fail(
                                LoxError::RuntimeError {
                                    token: operator,
                                    message: Message::OperandsMustBeNumbersOrStrings,
                                },
                            ),
                        }
                    },
                }
            },
            _ => self.fail(
                LoxError::RuntimeError { token: operator, message: Message::UnknownOperator },
            ),
        }
    }

    /// Applies a unary operator to a value.
    fn interpret_expr_unary(&mut self, operator: RcToken, value: ExprValue) -> (r: Step)
        requires
            old(self).wf(),
        ensures
            final(self).wf(),
            final(self)@ == unary_applied(old(self)@, operator, value@).machine,
            r@ == unary_applied(old(self)@, operator, value@).step,
    {
        match operator.type_ {
            TokenType::MINUS => {
                match value.get_number() {
                    Some(n) => self.ask(Request::Negate(n)),
                    None => self.fail(
                        LoxError::RuntimeError {
                            token: operator,
                            message: Message::OperandsMustBeNumbers,
                        },
                    ),
                }
            },
            TokenType::BANG => {
                self.push(ExprValue::Bool(!value.is_truthy()));
                Step::Continue
            },
            _ => self.fail(
                LoxError::RuntimeError { token: operator, message: Message::UnknownOperator },
            ),
        }
    }

    /// Goes on with `and` or `or` once the left operand is known.
    fn interpret_logical(&mut self, operator: RcToken, right: RcExpr) -> (r: Step)
        requires
            old(self).wf(),
        ensures
            final(self).wf(),
            final(self)@ == logical_continued(old(self)@, operator, right).machine,
            r@ == logical_continued(old(self)@, operator, right).step,
    {
        let left = self.pop();
        let decided = if matches!(operator.type_, TokenType::OR) {
            left.is_truthy()
        } else {
            !left.is_truthy()
        };
        if decided {
            self.push(left);
        } else {
            self.schedule(Task::Evaluate(right));
        }
        Step::Continue
    }
    /// Calls the value that lies under the topmost `count` operands.
    fn call(&mut self, paren: RcToken, count: usize) -> (r: Step)
        requires
            old(self).wf(),
        ensures
            final(self).wf(),
            final(self)@ == invoked(old(self)@, paren, count).machine,
            r@ == invoked(old(self)@, paren, count).step,
    {
        let n = self.operands.len();
        if n <= count {
            return self.fail(
                LoxError::RuntimeError { token: paren, message: Message::NotCallable },
            );
        }
        let callee = self.operands[n - 1 - count].clone();
        let ghost arguments = old(self)@.operands.subrange(n - count, n as int);
        match callee {
            ExprValue::Native(NativeFunction::Clock) => {
                let arity = NativeFunction::Clock.arity();
                if count != arity {
                    return self.fail(
                        LoxError::RuntimeError {
                            token: paren,
                            message: Message::ArityMismatch { expected: arity, got: count },
                        },
                    );
                }
                self.operands.truncate(n - 1 - count);
                assert(self@.operands =~= old(self)@.operands.subrange(0, n - 1 - count));
                self.ask(Request::Clock)
            },
            ExprValue::Function(f) => {
                let arity = f.arity();
                if count != arity {
                    return self.fail(
                        LoxError::RuntimeError {
                            token: paren,
                            message: Message::ArityMismatch { expected: arity, got: count },
                        },
                    );
                }
                let scope = self.store.child(f.closure);
                let ghost fresh = self.store@;
                let mut i: usize = 0;
                while i < count
                    invariant
                        self.wf(),
                        i <= count,
                        count == f.params@.len(),
                        n == self.operands@.len(),
                        count < n,
                        self.operands == old(self).operands,
                        arguments == old(self)@.operands.subrange(n - count, n as int),
                        self.store@ == bound(fresh, scope, f.params@, arguments, i as nat),
                        self@ == (Machine { scopes: self.store@, ..old(self)@ }),
                    decreases count - i,
                {
                    let value = self.operands[n - count + i].clone();
                    assert(value@ == arguments[i as int]);
                    self.store.define(scope, f.params[i].lexeme.as_slice(), Some(value));
                    i += 1;
                }
                self.operands.truncate(n - 1 - count);
                assert(self@.operands =~= old(self)@.operands.subrange(0, n - 1 - count));
                self.tasks.push(Task::EndCall { environment: self.environment });
                self.execute_block(Rc::clone(&f.body), scope);
                Step::Continue
            },
            _ => self.fail(LoxError::RuntimeError { token: paren, message: Message::NotCallable }),
        }
    }

    /// Leaves the function body that is running, with the topmost operand as
    /// the call's value.
    fn interpret_return(&mut self, keyword: RcToken) -> (r: Step)
        requires
            old(self).wf(),
        ensures
            final(self).wf(),
            final(self)@ == returned(old(self)@, keyword).machine,
            r@ == returned(old(self)@, keyword).step,
    {
        let value = self.pop();
        let ghost all = self.tasks@;
        loop
            invariant
                self.wf(),
                all == old(self)@.tasks,
                self.tasks@.len() <= all.len(),
                self.tasks@ == all.subrange(0, self.tasks@.len() as int),
                call_boundary(all, all.len()) == call_boundary(all, self.tasks@.len()),
                self@ == (Machine { tasks: self.tasks@, ..popped(old(self)@) }),
                value@ == top(old(self)@.operands),
            decreases self.tasks@.len(),
        {
            match self.tasks.pop() {
                Some(Task::EndCall { environment }) => {
                    assert(self.tasks@ =~= all.subrange(0, self.tasks@.len() as int));
                    self.environment = environment;
                    self.push(value);
                    return Step::Continue;
                },
                Some(_) => {
                    assert(self.tasks@ =~= all.subrange(0, self.tasks@.len() as int));
                },
                None => {
                    return self.fail(
                        LoxError::RuntimeError {
                            token: keyword,
                            message: Message::ReturnOutsideFunction,
                        },
                    );
                },
            }
        }
    }

    /// Performs a task that has been taken off the stack.
    fn perform(&mut self, task: Task) -> (r: Step)
        requires
            old(self).wf(),
        ensures
            final(self).wf(),
            final(self)@ == performed(old(self)@, task).machine,
            r@ == performed(old(self)@, task).step,
    {
        match task {
            Task::Execute(s) => self.execute(s),
            Task::ExecuteList { statements, next } => {
                if next < statements.len() {
                    let statement = Rc::clone(&statements[next]);
                    self.schedule(Task::ExecuteList { statements, next: next + 1 });
                    self.schedule(Task::Execute(statement));
                }
                Step::Continue
            },
            Task::Evaluate(e) => self.evaluate(e),
            Task::Assign { name, id } => {
                let value = self.pop();
                match self.assign_variable(id, &name, value.clone()) {
                    Ok(()) => {
                        self.push(value);
                        Step::Continue
                    },
                    Err(e) => self.fail(e),
                }
            },
            Task::BinaryApply { operator } => {
                let right = self.pop();
                let left = self.pop();
                self.interpret_expr_binary(operator, left, right)
            },
            Task::LogicalRight { operator, right } => self.interpret_logical(operator, right),
            Task::UnaryApply { operator } => {
                let value = self.pop();
                self.interpret_expr_unary(operator, value)
            },
            Task::Invoke { paren, count } => self.call(paren, count),
            Task::Discard => {
                self.pop();
                Step::Continue
            },
            Task::Define { name } => {
                let value = self.pop();
                self.store.define(self.environment, name.lexeme.as_slice(), Some(value));
                Step::Continue
            },
            Task::Branch { then_branch, else_branch } => {
                let value = self.pop();
                if value.is_truthy() {
                    self.schedule(Task::Execute(then_branch));
                } else {
                    match else_branch {
                        Some(e) => self.schedule(Task::Execute(e)),
                        None => {},
                    }
                }
                Step::Continue
            },
            Task::Print => {
                let value = self.pop();
                match value.get_number() {
                    Some(n) => self.ask(Request::FormatNumber(n)),
                    None => Step::Print(value.stringify()),
                }
            },
            Task::Return { keyword } => self.interpret_return(keyword),
            Task::Loop { condition, body } => {
                let value = self.pop();
                if value.is_truthy() {
                    self.schedule(
                        Task::Loop { condition: Rc::clone(&condition), body: Rc::clone(&body) },
                    );
                    self.schedule(Task::Evaluate(condition));
                    self.schedule(Task::Execute(body));
                }
                Step::Continue
            },
            Task::Leave { environment } => {
                self.environment = environment;
                Step::Continue
            },
            Task::EndCall { environment } => {
                self.environment = environment;
                self.push(ExprValue::Nil);
                Step::Continue
            },
        }
    }

    /// Takes the host's reply to the pending request.
    fn answer(&mut self, request: Request, reply: Option<Reply>) -> (r: Step)
        requires
            old(self).wf(),
        ensures
            final(self).wf(),
            final(self)@ == answered(old(self)@, request, reply_view(reply)).machine,
            r@ == answered(old(self)@, request, reply_view(reply)).step,
    {
        match (request, reply) {
            (Request::FormatNumber(_), Some(Reply::Text(t))) => {
                self.pending = None;
                Step::Print(printed_number(t.as_slice()))
            },
            (Request::ParseNumber(_), Some(Reply::Number(n))) => {
                self.pending = None;
                self.push(ExprValue::Number(n));
                Step::Continue
            },
            (Request::Negate(_), Some(Reply::Number(n))) => {
                self.pending = None;
                self.push(ExprValue::Number(n));
                Step::Continue
            },
            (Request::Arithmetic { .. }, Some(Reply::Number(n))) => {
                self.pending = None;
                self.push(ExprValue::Number(n));
                Step::Continue
            },
            (Request::Clock, Some(Reply::Number(n))) => {
                self.pending = None;
                self.push(ExprValue::Number(n));
                Step::Continue
            },
            (Request::Compare { .. }, Some(Reply::Bool(b))) => {
                self.pending = None;
                self.push(ExprValue::Bool(b));
                Step::Continue
            },
            (request, _) => Step::Ask(request),
        }
    }

    /// Performs one step.
    ///
    /// While a request is pending, the step takes `reply`: a reply of the
    /// right kind is used, anything else makes the interpreter ask again.
    /// Otherwise `reply` is ignored and the topmost task is performed.
    pub fn step(&mut self, reply: Option<Reply>) -> (r: Step)
        requires
            old(self).wf(),
        ensures
            final(self).wf(),
            final(self)@ == stepped(old(self)@, reply_view(reply)).machine,
            r@ == stepped(old(self)@, reply_view(reply)).step,
    {
        let waiting = match &self.pending {
            Some(request) => Some(request.clone()),
            None => None,
        };
        match waiting {
            Some(request) => self.answer(request, reply),
            None => {
                match self.tasks.pop() {
                    Some(task) => self.perform(task),
                    None => Step::Finished,
                }
            },
        }
    }
}

} // verus!
