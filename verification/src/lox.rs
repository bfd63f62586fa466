use crate::grammar::{program, Program, Source};
use crate::interpreter::{stepped, went_on, Interpreter, Machine, Moved, StepView, Task};
use crate::parser::Parser;
use crate::resolver::{initial_state, resolved_stmts, Resolved, Resolver, ResolverState};
use crate::scanner::{fresh, lemma_scan_ends_with_eof, scan, scanned, token_views};
use crate::stmt::{stmt_views, RcStmt, StmtView};
use crate::token::RcToken;
use std::rc::Rc;
use vstd::prelude::*;

verus! {

/// What went wrong, without the place where it did.
#[derive(Clone, Copy, Debug, PartialEq, Eq, Structural)]
pub enum Message {
    // Scanning.
    UnexpectedCharacter,
    UnterminatedString,
    // Parsing.
    ExpectParenAfterFor,
    ExpectSemicolonAfterLoopCondition,
    ExpectParenAfterForClauses,
    ExpectParenAfterIf,
    ExpectParenAfterIfCondition,
    ExpectSemicolonAfterValue,
    ExpectSemicolonAfterReturnValue,
    ExpectVariableName,
    ExpectSemicolonAfterVariableDeclaration,
    ExpectParenAfterWhile,
    ExpectParenAfterCondition,
    ExpectSemicolonAfterExpression,
    ExpectFunctionName,
    ExpectParenAfterFunctionName,
    TooManyParameters,
    ExpectParameterName,
    ExpectParenAfterParameters,
    ExpectBraceBeforeFunctionBody,
    ExpectBraceAfterBlock,
    InvalidAssignmentTarget,
    TooManyArguments,
    ExpectParenAfterArguments,
    ExpectParenAfterExpression,
    ExpectExpression,
    // Resolving.
    ReturnOutsideFunction,
    ReadInOwnInitializer,
    AlreadyDeclared,
    // Running.
    UndefinedVariable,
    NotCallable,
    ArityMismatch { expected: usize, got: usize },
    OperandsMustBeNumbers,
    OperandsMustBeNumbersOrStrings,
    UnknownOperator,
}

/// The fixed wording of each message. A message that names something of the
/// program (a variable, an operator, two counts) has the name left out here.
pub open spec fn phrase_of(m: Message) -> &'static str {
    match m {
        Message::UnexpectedCharacter => "Unexpected character.",
        Message::UnterminatedString => "Unterminated string",
        Message::ExpectParenAfterFor => "Expect '(' after 'for'.",
        Message::ExpectSemicolonAfterLoopCondition => "Expect ';' after loop condition",
        Message::ExpectParenAfterForClauses => "Expect ')' after for clauses.",
        Message::ExpectParenAfterIf => "Expect '(' after 'if'.",
        Message::ExpectParenAfterIfCondition => "Expect ')' after 'if'.",
        Message::ExpectSemicolonAfterValue => "Expect ';' after value.",
        Message::ExpectSemicolonAfterReturnValue => "Expect ';' after return value.",
        Message::ExpectVariableName => "Expect variable name.",
        Message::ExpectSemicolonAfterVariableDeclaration => "Expect ';' after variable declaration.",
        Message::ExpectParenAfterWhile => "Expect '(', after 'while'.",
        Message::ExpectParenAfterCondition => "Expect ')' after condition.",
        Message::ExpectSemicolonAfterExpression => "Expect ';' after expression.",
        Message::ExpectFunctionName => "Expect function name.",
        Message::ExpectParenAfterFunctionName => "Expect '(' after function name.",
        Message::TooManyParameters => "Can't have more than 255 parameters.",
        Message::ExpectParameterName => "Expect parameter name.",
        Message::ExpectParenAfterParameters => "Expect ')' after parameters.",
        Message::ExpectBraceBeforeFunctionBody => "Expect '{ before function body.",
        Message::ExpectBraceAfterBlock => "Expect '}' after block.",
        Message::InvalidAssignmentTarget => "Invalid assignment target.",
        Message::TooManyArguments => "Can't have more than 255 arguments",
        Message::ExpectParenAfterArguments => "Expect ')' after arguments.",
        Message::ExpectParenAfterExpression => "Expect ')' after expression.",
        Message::ExpectExpression => "Expect expression",
        Message::ReturnOutsideFunction => "Can't return from top-level code.",
        Message::ReadInOwnInitializer => "Can't read local variable in its own initializer.",
        Message::AlreadyDeclared => "Already a variable with this name in this scope.",
        Message::UndefinedVariable => "Undefined variable",
        Message::NotCallable => "Can only call functions and classes.",
        Message::ArityMismatch { .. } => "Wrong number of arguments",
        Message::OperandsMustBeNumbers => "operands must be a number(s)",
        Message::OperandsMustBeNumbersOrStrings => "operand must be numbers or strings",
        Message::UnknownOperator => "Unknown operator.",
    }
}

impl Message {
    /// The fixed wording of the message.
    pub fn phrase(&self) -> (r: &'static str)
        ensures
            r == phrase_of(*self),
    {
        match self {
            Message::UnexpectedCharacter => "Unexpected character.",
            Message::UnterminatedString => "Unterminated string",
            Message::ExpectParenAfterFor => "Expect '(' after 'for'.",
            Message::ExpectSemicolonAfterLoopCondition => "Expect ';' after loop condition",
            Message::ExpectParenAfterForClauses => "Expect ')' after for clauses.",
            Message::ExpectParenAfterIf => "Expect '(' after 'if'.",
            Message::ExpectParenAfterIfCondition => "Expect ')' after 'if'.",
            Message::ExpectSemicolonAfterValue => "Expect ';' after value.",
            Message::ExpectSemicolonAfterReturnValue => "Expect ';' after return value.",
            Message::ExpectVariableName => "Expect variable name.",
            Message::ExpectSemicolonAfterVariableDeclaration => "Expect ';' after variable declaration.",
            Message::ExpectParenAfterWhile => "Expect '(', after 'while'.",
            Message::ExpectParenAfterCondition => "Expect ')' after condition.",
            Message::ExpectSemicolonAfterExpression => "Expect ';' after expression.",
            Message::ExpectFunctionName => "Expect function name.",
            Message::ExpectParenAfterFunctionName => "Expect '(' after function name.",
            Message::TooManyParameters => "Can't have more than 255 parameters.",
            Message::ExpectParameterName => "Expect parameter name.",
            Message::ExpectParenAfterParameters => "Expect ')' after parameters.",
            Message::ExpectBraceBeforeFunctionBody => "Expect '{ before function body.",
            Message::ExpectBraceAfterBlock => "Expect '}' after block.",
            Message::InvalidAssignmentTarget => "Invalid assignment target.",
            Message::TooManyArguments => "Can't have more than 255 arguments",
            Message::ExpectParenAfterArguments => "Expect ')' after arguments.",
            Message::ExpectParenAfterExpression => "Expect ')' after expression.",
            Message::ExpectExpression => "Expect expression",
            Message::ReturnOutsideFunction => "Can't return from top-level code.",
            Message::ReadInOwnInitializer => "Can't read local variable in its own initializer.",
            Message::AlreadyDeclared => "Already a variable with this name in this scope.",
            Message::UndefinedVariable => "Undefined variable",
            Message::NotCallable => "Can only call functions and classes.",
            Message::ArityMismatch { .. } => "Wrong number of arguments",
            Message::OperandsMustBeNumbers => "operands must be a number(s)",
            Message::OperandsMustBeNumbersOrStrings => "operand must be numbers or strings",
            Message::UnknownOperator => "Unknown operator.",
        }
    }
}

/// A failure of one of the stages, with the place where it was found: a line
/// for the scanner, a token for the later stages.
#[derive(Debug, PartialEq, Eq)]
pub enum LoxError {
    ScanError { line: usize, message: Message },
    ParseError { token: RcToken, message: Message },
    ResolveError { token: RcToken, message: Message },
    RuntimeError { token: RcToken, message: Message },
}

impl Clone for LoxError {
    fn clone(&self) -> (r: Self)
        ensures
            r == *self,
    {
        match self {
            LoxError::ScanError { line, message } => LoxError::ScanError {
                line: *line,
                message: *message,
            },
            LoxError::ParseError { token, message } => LoxError::ParseError {
                token: Rc::clone(token),
                message: *message,
            },
            LoxError::ResolveError { token, message } => LoxError::ResolveError {
                token: Rc::clone(token),
                message: *message,
            },
            LoxError::RuntimeError { token, message } => LoxError::RuntimeError {
                token: Rc::clone(token),
                message: *message,
            },
        }
    }
}


/// An interpreter session: the evaluator, and whether an error was reported.
pub struct Lox {
    pub had_error: bool,
    pub had_runtime_error: bool,
    pub interpreter: Interpreter,
    /// The id that the first node of the next program gets.
    pub next_id: usize,
}

/// What [`Lox::run`] found in a piece of source text: the tokens it scanned,
/// and the errors that keep the program from running. Without errors the
/// program has been handed to the interpreter.
pub struct Outcome {
    pub tokens: Vec<RcToken>,
    pub errors: Vec<LoxError>,
}

/// The id after those of a program of `count` tokens that starts at `base`.
pub open spec fn id_after(base: usize, count: nat) -> usize {
    if base + count <= usize::MAX {
        (base + count) as usize
    } else {
        usize::MAX
    }
}

/// The resolver's state before it resolves a program, with the bindings of
/// the programs that ran before.
pub open spec fn resolving(bindings: Map<usize, usize>) -> ResolverState {
    ResolverState { bindings, ..initial_state() }
}

impl Lox {
    /// A session with a new interpreter.
    pub fn new() -> (r: Lox)
        ensures
            r.interpreter.wf(),
            r.interpreter@ == crate::interpreter::initial_machine(),
            !r.had_error,
            !r.had_runtime_error,
            r.next_id == 0,
    {
        Lox { had_error: false, had_runtime_error: false, interpreter: Interpreter::new(), next_id: 0 }
    }

    /// Notes that an error was found and returns its report, which the host
    /// prints.
    pub fn error(&mut self, err: &LoxError) -> (r: Vec<u8>)
        ensures
            r@ == crate::report::report_text(*err),
            *final(self) == (Lox { had_error: true, ..*old(self) }),
    {
        self.had_error = true;
        err.report()
    }

    /// Scans, parses and resolves `source`, and schedules the program in the
    /// interpreter if that went without an error.
    ///
    /// The stages run in order and the first one that fails ends the run:
    /// a scan error, else all the parse errors, else the resolve error. In
    /// each of these cases `had_error` is set, and the interpreter gets
    /// nothing to do.
    pub fn run(&mut self, source: Vec<u8>) -> (r: Outcome)
        requires
            old(self).interpreter.wf(),
        ensures
            final(self).interpreter.wf(),
            final(self).had_runtime_error == old(self).had_runtime_error,
            final(self).had_error == (old(self).had_error || r.errors@.len() > 0),
            token_views(r.tokens@) == scanned(fresh(source@)).state.tokens,
            ({
                let before = old(self).interpreter@;
                let after = final(self).interpreter@;
                let src = Source { tokens: r.tokens@, base: old(self).next_id };
                let parsed = program(src, 0);
                let resolved = resolved_stmts(resolving(before.bindings), parsed.statements, 0);
                match scanned(fresh(source@)).error {
                    Some(e) => {
                        &&& r.errors@ == seq![e]
                        &&& after == before
                        &&& final(self).next_id == old(self).next_id
                    },
                    None => {
                        &&& final(self).next_id == id_after(old(self).next_id, r.tokens@.len())
                        &&& if parsed.errors.len() > 0 {
                            r.errors@ == parsed.errors && after == before
                        } else if resolved.error is Some {
                            &&& r.errors@ == seq![resolved.error->Some_0]
                            &&& after == (Machine { bindings: resolved.state.bindings, ..before })
                        } else {
                            &&& r.errors@.len() == 0
                            &&& after.tasks.len() == before.tasks.len() + 1
                            &&& after.tasks.drop_last() == before.tasks
                            &&& after.tasks.last() matches Task::ExecuteList { statements, next }
                                && next == 0 && stmt_views(statements@, statements@.len())
                                == parsed.statements
                            &&& after == (Machine {
                                tasks: after.tasks,
                                bindings: resolved.state.bindings,
                                ..before
                            })
                        }
                    },
                }
            }),
    {
        let (tokens, fault) = scan(source);
        if let Some(e) = fault {
            self.had_error = true;
            let mut errors: Vec<LoxError> = Vec::new();
            errors.push(e);
            return Outcome { tokens, errors };
        }
        proof {
            lemma_scan_ends_with_eof(fresh(source@));
            assert(token_views(tokens@).last() == tokens@.last()@);
        }
        let count = tokens.len();
        let mut shared: Vec<RcToken> = Vec::new();
        let mut i: usize = 0;
        while i < count
            invariant
                count == tokens@.len(),
                i <= count,
                shared@ == tokens@.subrange(0, i as int),
            decreases count - i,
        {
            shared.push(Rc::clone(&tokens[i]));
            i += 1;
            assert(shared@ =~= tokens@.subrange(0, i as int));
        }
        assert(shared@ =~= tokens@);
        let mut parser = Parser::new(shared, self.next_id);
        let (statements, errors) = parser.parse();
        assert(errors@ =~= program(Source { tokens: tokens@, base: old(self).next_id }, 0).errors);
        if count <= usize::MAX - self.next_id {
            self.next_id = self.next_id + count;
        } else {
            self.next_id = usize::MAX;
        }
        if errors.len() > 0 {
            self.had_error = true;
            return Outcome { tokens, errors };
        }
        let table = self.interpreter.take_bindings();
        let mut resolver = Resolver::with_bindings(table);
        let outcome = resolver.resolve_statements(&statements);
        let table = resolver.into_bindings();
        match outcome {
            Err(e) => {
                self.interpreter.set_bindings(table);
                self.had_error = true;
                let mut errors: Vec<LoxError> = Vec::new();
                errors.push(e);
                Outcome { tokens, errors }
            },
            Ok(()) => {
                self.interpreter.interpret(statements, table);
                Outcome { tokens, errors }
            },
        }
    }
}

/// The empty program does nothing. Scanning empty source text succeeds; the
/// tokens it gives parse to no statement and no error; resolving no
/// statement leaves the resolver as it is; and an interpreter that is given
/// no statement takes one step, in which it neither prints nor asks nor
/// fails, and then has finished, with its scopes as they were.
pub proof fn lemma_empty_program(
    tokens: Seq<RcToken>,
    base: usize,
    resolver: ResolverState,
    machine: Machine,
    statements: Rc<Vec<RcStmt>>,
)
    requires
        token_views(tokens) == scanned(fresh(Seq::<u8>::empty())).state.tokens,
        statements@.len() == 0,
        machine.pending is None,
        machine.tasks == seq![Task::ExecuteList { statements, next: 0 }],
    ensures
        scanned(fresh(Seq::<u8>::empty())).error is None,
        program(Source { tokens, base }, 0) == (Program {
            statements: Seq::empty(),
            errors: Seq::empty(),
            used: 0,
        }),
        resolved_stmts(resolver, Seq::<StmtView>::empty(), 0) == (Resolved {
            state: resolver,
            error: None,
        }),
        stepped(machine, None) == went_on(Machine { tasks: Seq::empty(), ..machine }),
        stepped(Machine { tasks: Seq::empty(), ..machine }, None) == (Moved {
            machine: Machine { tasks: Seq::empty(), ..machine },
            step: StepView::Finished,
        }),
{
    assert(scanned(fresh(Seq::<u8>::empty())).state.tokens =~= seq![
        crate::scanner::end_of_input(1),
    ]);
    assert(token_views(tokens)[0].kind == crate::token_type::TokenType::EOF);
    assert(tokens[0]@.kind == crate::token_type::TokenType::EOF);
    assert(machine.tasks.drop_last() =~= Seq::<Task>::empty());
}

} // verus!
