use rlox::interpreter::{Interpreter, Reply, Request, Step};
use rlox::lox::{Lox, LoxError, Message};
use rlox::token_type::TokenType;
use rlox::value::ExprValue;
use rlox::expr::Expr;
use rlox::parser::Parser;
use rlox::scanner::scan;
use rlox::stmt::Stmt;
use rlox::token::{Literal, Token};
use std::collections::HashMap;
use std::rc::Rc;

fn number(bits: u64) -> f64 {
    f64::from_bits(bits)
}

/// What a host does for the interpreter, with the clock standing still.
fn answer(request: &Request) -> Reply {
    match request {
        Request::ParseNumber(text) => {
            let text = std::str::from_utf8(text).unwrap();
            Reply::Number(text.parse::<f64>().unwrap().to_bits())
        }
        Request::FormatNumber(bits) => Reply::Text(format!("{}", number(*bits)).into_bytes()),
        Request::Negate(bits) => Reply::Number((-number(*bits)).to_bits()),
        Request::Arithmetic { operator, left, right } => {
            let (l, r) = (number(*left), number(*right));
            let value = match operator {
                TokenType::PLUS => l + r,
                TokenType::MINUS => l - r,
                TokenType::STAR => l * r,
                TokenType::SLASH => l / r,
                _ => unreachable!(),
            };
            Reply::Number(value.to_bits())
        }
        Request::Compare { operator, left, right } => {
            let (l, r) = (number(*left), number(*right));
            let value = match operator {
                TokenType::GREATER => l > r,
                TokenType::GREATER_EQUAL => l >= r,
                TokenType::LESS => l < r,
                TokenType::LESS_EQUAL => l <= r,
                TokenType::EQUAL_EQUAL => l == r,
                TokenType::BANG_EQUAL => l != r,
                _ => unreachable!(),
            };
            Reply::Bool(value)
        }
        Request::Clock => Reply::Number(1234.5f64.to_bits()),
    }
}

/// Drives the interpreter until it has finished or failed.
fn drive(interpreter: &mut Interpreter, output: &mut Vec<String>) -> Option<LoxError> {
    let mut reply = None;
    for _ in 0..1_000_000 {
        match interpreter.step(reply.take()) {
            Step::Continue => {}
            Step::Finished => return None,
            Step::Print(text) => output.push(String::from_utf8(text).unwrap()),
            Step::Ask(request) => reply = Some(answer(&request)),
            Step::Failed(error) => return Some(error),
        }
    }
    panic!("the program did not end");
}

struct Ran {
    output: Vec<String>,
    static_errors: Vec<LoxError>,
    runtime_error: Option<LoxError>,
}

fn run_in(lox: &mut Lox, source: &str) -> Ran {
    let outcome = lox.run(source.as_bytes().to_vec());
    let mut output = Vec::new();
    let runtime_error =
        if outcome.errors.is_empty() { drive(&mut lox.interpreter, &mut output) } else { None };
    Ran { output, static_errors: outcome.errors, runtime_error }
}

fn run(source: &str) -> Ran {
    run_in(&mut Lox::new(), source)
}

fn prints(source: &str) -> Vec<String> {
    let ran = run(source);
    assert!(ran.static_errors.is_empty(), "{:?}", ran.static_errors);
    assert!(ran.runtime_error.is_none(), "{:?}", ran.runtime_error);
    ran.output
}

fn runtime_message(source: &str) -> (Message, String) {
    let ran = run(source);
    assert!(ran.static_errors.is_empty());
    match ran.runtime_error {
        Some(LoxError::RuntimeError { token, message }) => {
            (message, String::from_utf8(token.lexeme.clone()).unwrap())
        }
        other => panic!("no runtime error: {:?}", other),
    }
}

#[test]
fn scan_file() {}

#[test]
fn empty_program_prints_nothing_and_has_no_error() {
    let mut lox = Lox::new();
    let ran = run_in(&mut lox, "");
    assert!(ran.output.is_empty());
    assert!(ran.static_errors.is_empty());
    assert!(ran.runtime_error.is_none());
    assert!(!lox.had_error);
    assert!(!lox.had_runtime_error);
}

#[test]
fn an_inner_declaration_shadows_and_leaves_the_outer_variable_alone() {
    assert_eq!(prints("var a = 1; { var b = a + 1; var a = b; print a; } print a;"), vec!["2", "1"]);
    assert_eq!(prints("var a = 1; { var a = 5; a = a + 1; print a; } print a;"), vec!["6", "1"]);
}

#[test]
fn an_inner_initializer_cannot_read_the_name_it_declares() {
    let ran = run("var a = 1; { var a = a + 1; print a; } print a;");
    assert_eq!(ran.static_errors.len(), 1);
    assert!(matches!(
        &ran.static_errors[0],
        LoxError::ResolveError { message: Message::ReadInOwnInitializer, .. }
    ));
    assert!(ran.output.is_empty());
}

#[test]
fn closures_share_the_captured_environment() {
    let source = "fun counter() { var i = 0; fun inc() { i = i + 1; return i; } return inc; } \
                  var c = counter(); print c(); print c();";
    assert_eq!(prints(source), vec!["1", "2"]);
}

#[test]
fn plus_joins_strings_and_adds_numbers() {
    assert_eq!(prints("print \"a\" + \"b\";"), vec!["ab"]);
    assert_eq!(prints("print 1 + 2;"), vec!["3"]);
}

#[test]
fn plus_does_not_coerce() {
    let (message, at) = runtime_message("print \"a\" + 1;");
    assert_eq!(message, Message::OperandsMustBeNumbersOrStrings);
    assert_eq!(at, "+");
    let (message, _) = runtime_message("print 1 + \"a\";");
    assert_eq!(message, Message::OperandsMustBeNumbersOrStrings);
}

#[test]
fn wrong_argument_count_is_a_runtime_error() {
    let (message, at) = runtime_message("fun f(a) { return a; } print f(1, 2);");
    assert_eq!(message, Message::ArityMismatch { expected: 1, got: 2 });
    assert_eq!(at, ")");
}

#[test]
fn a_function_prints_as_a_description_with_its_name() {
    assert_eq!(prints("fun f(a) { return a; } print f;"), vec!["<fn f >"]);
    assert_eq!(prints("print clock;"), vec!["<native fn>"]);
}

#[test]
fn reading_a_local_in_its_own_initializer_fails_resolution() {
    let ran = run("print 1; { var a = a; }");
    assert_eq!(ran.static_errors.len(), 1);
    match &ran.static_errors[0] {
        LoxError::ResolveError { token, message } => {
            assert_eq!(*message, Message::ReadInOwnInitializer);
            assert_eq!(token.lexeme, b"a".to_vec());
            assert_eq!(token.line, 1);
        }
        other => panic!("{:?}", other),
    }
    assert!(ran.output.is_empty());
}

#[test]
fn reading_a_global_in_its_own_initializer_fails_resolution() {
    let mut lox = Lox::new();
    let ran = run_in(&mut lox, "print 1; var a = a;");
    assert_eq!(ran.static_errors.len(), 1);
    match &ran.static_errors[0] {
        LoxError::ResolveError { token, message } => {
            assert_eq!(*message, Message::ReadInOwnInitializer);
            assert_eq!(token.lexeme, b"a".to_vec());
        }
        other => panic!("{:?}", other),
    }
    assert!(ran.output.is_empty());
    assert!(ran.runtime_error.is_none());
    assert!(lox.had_error);
    assert!(matches!(lox.interpreter.step(None), Step::Finished));
}

#[test]
fn a_global_may_be_declared_again_and_read_once_it_is_ready() {
    assert_eq!(prints("var a = 1; var a = 2; print a; var b = a + 1; print b;"), vec!["2", "3"]);
    assert_eq!(prints("var a = 1; fun f() { return a; } var c = f(); print c;"), vec!["1"]);
}

#[test]
fn for_runs_initializer_once_condition_before_and_increment_after() {
    assert_eq!(prints("for (var i = 0; i < 3; i = i + 1) print i;"), vec!["0", "1", "2"]);
}

#[test]
fn for_without_clauses_loops_until_return() {
    let source = "fun f() { var i = 0; for (;;) { i = i + 1; if (i >= 3) return i; } } print f();";
    assert_eq!(prints(source), vec!["3"]);
}

#[test]
fn while_loops_and_assignment() {
    assert_eq!(
        prints("var n = 3; var s = 0; while (n > 0) { s = s + n; n = n - 1; } print s;"),
        vec!["6"]
    );
}

#[test]
fn arithmetic_follows_precedence() {
    assert_eq!(prints("print 1 + 2 * 3;"), vec!["7"]);
    assert_eq!(prints("print (1 + 2) * 3;"), vec!["9"]);
    assert_eq!(prints("print 10 - 4 - 3;"), vec!["3"]);
    assert_eq!(prints("print 7 / 2;"), vec!["3.5"]);
    assert_eq!(prints("print -2 * -3;"), vec!["6"]);
    assert_eq!(prints("print 1.5 + 1.5;"), vec!["3"]);
}

#[test]
fn comparison_and_equality() {
    assert_eq!(prints("print 1 < 2; print 2 <= 2; print 3 > 4; print 4 >= 5;"), vec![
        "true", "true", "false", "false"
    ]);
    assert_eq!(prints("print 1 == 1; print 1 != 1; print 1 == 2;"), vec!["true", "false", "false"]);
    assert_eq!(prints("print \"a\" == \"a\"; print \"a\" == \"b\"; print \"a\" != \"b\";"), vec![
        "true", "false", "true"
    ]);
    assert_eq!(prints("print nil == nil; print nil == false; print 1 == \"1\"; print 0 == false;"), vec![
        "true", "false", "false", "false"
    ]);
    assert_eq!(prints("print true == true; print true != false;"), vec!["true", "true"]);
}

#[test]
fn a_function_equals_only_itself() {
    let source = "fun f() {} fun g() {} var h = f; print f == f; print f == h; print f == g; \
                  print clock == clock;";
    assert_eq!(prints(source), vec!["true", "true", "false", "true"]);
}

#[test]
fn only_nil_and_false_are_falsy() {
    assert_eq!(
        prints("if (0) print \"zero\"; if (\"\") print \"empty\"; if (nil) print \"nil\"; \
                if (false) print \"false\"; else print \"else\";"),
        vec!["zero", "empty", "else"]
    );
    assert_eq!(prints("print !nil; print !0; print !\"\"; print !false;"), vec![
        "true", "false", "false", "true"
    ]);
}

#[test]
fn logical_operators_yield_an_operand() {
    assert_eq!(prints("print nil or \"yes\"; print 1 or 2; print nil and 1; print 1 and 2;"), vec![
        "yes", "1", "nil", "2"
    ]);
}

#[test]
fn logical_operators_short_circuit() {
    assert_eq!(prints("var a = 1; true or (a = 2); false and (a = 3); print a;"), vec!["1"]);
}

#[test]
fn unary_minus_needs_a_number() {
    let (message, at) = runtime_message("print -\"a\";");
    assert_eq!(message, Message::OperandsMustBeNumbers);
    assert_eq!(at, "-");
}

#[test]
fn comparison_needs_numbers() {
    for source in ["print 1 < \"a\";", "print \"a\" > 1;", "print nil <= 1;", "print true >= 1;",
        "print 1 - nil;", "print \"a\" * 2;", "print 1 / \"b\";"]
    {
        let (message, _) = runtime_message(source);
        assert_eq!(message, Message::OperandsMustBeNumbers, "{}", source);
    }
}

#[test]
fn calling_what_is_not_a_function_fails() {
    let (message, at) = runtime_message("var a = 1; a();");
    assert_eq!(message, Message::NotCallable);
    assert_eq!(at, ")");
    let (message, _) = runtime_message("\"text\"(1);");
    assert_eq!(message, Message::NotCallable);
}

#[test]
fn undefined_variables_fail_at_run_time() {
    let (message, at) = runtime_message("print missing;");
    assert_eq!(message, Message::UndefinedVariable);
    assert_eq!(at, "missing");
    let (message, at) = runtime_message("missing = 1;");
    assert_eq!(message, Message::UndefinedVariable);
    assert_eq!(at, "missing");
}

#[test]
fn a_runtime_error_keeps_what_was_printed_before() {
    let ran = run("print 1; print 2; print nope; print 3;");
    assert_eq!(ran.output, vec!["1", "2"]);
    assert!(ran.runtime_error.is_some());
}

#[test]
fn variables_default_to_nil() {
    assert_eq!(prints("var a; print a; { var b; print b; }"), vec!["nil", "nil"]);
}

#[test]
fn functions_return_nil_without_a_return() {
    assert_eq!(prints("fun f() { 1; } print f(); fun g() { return; } print g();"), vec![
        "nil", "nil"
    ]);
}

#[test]
fn recursion_works() {
    let source = "fun fib(n) { if (n < 2) return n; return fib(n - 1) + fib(n - 2); } \
                  print fib(10);";
    assert_eq!(prints(source), vec!["55"]);
}

#[test]
fn mutual_recursion_at_top_level_works() {
    let source = "fun even(n) { if (n == 0) return true; return odd(n - 1); } \
                  fun odd(n) { if (n == 0) return false; return even(n - 1); } \
                  print even(10); print odd(7);";
    assert_eq!(prints(source), vec!["true", "true"]);
}

#[test]
fn scoping_is_lexical() {
    let source = "var a = \"global\"; { fun show() { print a; } show(); var a = \"block\"; show(); }";
    assert_eq!(prints(source), vec!["global", "global"]);
}

#[test]
fn parameters_live_in_a_new_scope_per_call() {
    let source = "fun make(n) { fun get() { return n; } return get; } \
                  var a = make(1); var b = make(2); print a(); print b(); print a();";
    assert_eq!(prints(source), vec!["1", "2", "1"]);
}

#[test]
fn arguments_are_evaluated_left_to_right() {
    let source = "fun show(x) { print x; return x; } fun add(a, b, c) { return a + b + c; } \
                  print add(show(1), show(2), show(3));";
    assert_eq!(prints(source), vec!["1", "2", "3", "6"]);
}

#[test]
fn calls_chain() {
    let source = "fun a() { fun b() { return 7; } return b; } print a()();";
    assert_eq!(prints(source), vec!["7"]);
}

#[test]
fn return_leaves_nested_blocks_and_loops() {
    let source = "fun f() { var i = 0; while (true) { { i = i + 1; if (i == 4) { return i; } } } } \
                  var before = 1; print f(); print before;";
    assert_eq!(prints(source), vec!["4", "1"]);
}

#[test]
fn the_callers_scope_is_current_again_after_a_call() {
    let source = "var a = \"outer\"; fun f() { var a = \"inner\"; return a; } \
                  { var a = \"block\"; print f(); print a; } print a;";
    assert_eq!(prints(source), vec!["inner", "block", "outer"]);
}

#[test]
fn the_global_scope_is_current_again_after_a_failure() {
    let mut lox = Lox::new();
    let ran = run_in(&mut lox, "var a = 1; fun f() { var a = 2; { var b = nope; } } f();");
    assert!(ran.runtime_error.is_some());
    assert_eq!(lox.interpreter.environment(), lox.interpreter.globals());
    let ran = run_in(&mut lox, "print a;");
    assert_eq!(ran.output, vec!["1"]);
}

#[test]
fn globals_and_functions_live_on_between_runs() {
    let mut lox = Lox::new();
    let ran = run_in(&mut lox, "var n = 1; fun up() { var step = 1; { n = n + step; } return n; }");
    assert!(ran.static_errors.is_empty() && ran.runtime_error.is_none());
    let ran = run_in(&mut lox, "{ var a = 10; { var b = 20; print up() + a + b; } }");
    assert_eq!(ran.output, vec!["32"]);
    let ran = run_in(&mut lox, "print up();");
    assert_eq!(ran.output, vec!["3"]);
}

#[test]
fn clock_is_a_native_function_without_parameters() {
    assert_eq!(prints("print clock();"), vec!["1234.5"]);
    let (message, _) = runtime_message("clock(1);");
    assert_eq!(message, Message::ArityMismatch { expected: 0, got: 1 });
}

#[test]
fn a_native_value_can_be_defined_before_running() {
    let mut lox = Lox::new();
    lox.interpreter.define_global(b"answer", ExprValue::Number(42f64.to_bits()));
    let ran = run_in(&mut lox, "print answer;");
    assert_eq!(ran.output, vec!["42"]);
}

#[test]
fn numbers_print_without_a_trailing_point_zero() {
    assert_eq!(prints("print 3.0; print 2.50; print 0.1 + 0.2; print 100;"), vec![
        "3", "2.5", "0.30000000000000004", "100"
    ]);
}

#[test]
fn strings_may_span_lines() {
    assert_eq!(prints("print \"a\nb\";"), vec!["a\nb"]);
}

#[test]
fn a_return_outside_a_function_never_runs() {
    let ran = run("print 1; return 2;");
    assert_eq!(ran.static_errors.len(), 1);
    match &ran.static_errors[0] {
        LoxError::ResolveError { message, .. } => {
            assert_eq!(*message, Message::ReturnOutsideFunction)
        }
        other => panic!("{:?}", other),
    }
    assert!(ran.output.is_empty());
}

#[test]
fn parse_errors_keep_the_program_from_running() {
    let mut lox = Lox::new();
    let ran = run_in(&mut lox, "print 1; print ; print 2; var = 3;");
    assert_eq!(ran.static_errors.len(), 2);
    assert!(ran.output.is_empty());
    assert!(lox.had_error);
}

#[test]
fn a_scan_error_keeps_the_program_from_running() {
    let mut lox = Lox::new();
    let ran = run_in(&mut lox, "print 1;\n@");
    assert_eq!(ran.static_errors.len(), 1);
    match &ran.static_errors[0] {
        LoxError::ScanError { line, message } => {
            assert_eq!(*line, 2);
            assert_eq!(*message, Message::UnexpectedCharacter);
        }
        other => panic!("{:?}", other),
    }
    assert!(ran.output.is_empty());
    assert!(lox.had_error);
}

#[test]
fn a_wrong_reply_makes_the_interpreter_ask_again() {
    let mut lox = Lox::new();
    let outcome = lox.run(b"print 1 + 2;".to_vec());
    assert!(outcome.errors.is_empty());
    let interpreter = &mut lox.interpreter;
    let mut asked = None;
    for _ in 0..20 {
        if let Step::Ask(request) = interpreter.step(None) {
            asked = Some(request);
            break;
        }
    }
    assert!(matches!(asked, Some(Request::ParseNumber(_))));
    assert!(matches!(interpreter.step(None), Step::Ask(Request::ParseNumber(_))));
    assert!(matches!(interpreter.step(Some(Reply::Bool(true))), Step::Ask(Request::ParseNumber(_))));
    assert!(matches!(interpreter.step(Some(Reply::Number(1f64.to_bits()))), Step::Continue));
}

/// Runs statements that were not resolved.
fn run_unresolved(statements: Vec<Rc<Stmt>>) -> (Vec<String>, Option<LoxError>) {
    let mut interpreter = Interpreter::new();
    interpreter.interpret(statements, HashMap::new());
    let mut output = Vec::new();
    let error = drive(&mut interpreter, &mut output);
    (output, error)
}

#[test]
fn a_return_that_was_not_caught_by_the_resolver_fails_at_run_time() {
    let (tokens, _) = scan(b"print 1; return 2; print 3;".to_vec());
    let (statements, errors) = Parser::new(tokens, 0).parse();
    assert!(errors.is_empty());
    let (output, error) = run_unresolved(statements);
    assert_eq!(output, vec!["1"]);
    assert!(matches!(
        error,
        Some(LoxError::RuntimeError { message: Message::ReturnOutsideFunction, .. })
    ));
}

#[test]
fn an_operator_that_the_parser_never_makes_fails_at_run_time() {
    let token = |kind: TokenType, text: &str| {
        Rc::new(Token::new(kind, text.as_bytes().to_vec(), Literal::NIL, 1))
    };
    let nil = || Rc::new(Expr::Literal(Literal::NIL));
    let binary = Expr::Binary { left: nil(), operator: token(TokenType::COMMA, ","), right: nil() };
    let statement = Rc::new(Stmt::Print { expr: Rc::new(binary) });
    let (_, error) = run_unresolved(vec![statement]);
    assert!(matches!(
        error,
        Some(LoxError::RuntimeError { message: Message::UnknownOperator, .. })
    ));
    let unary = Expr::Unary { operator: token(TokenType::PLUS, "+"), right: nil() };
    let statement = Rc::new(Stmt::Print { expr: Rc::new(unary) });
    let (_, error) = run_unresolved(vec![statement]);
    assert!(matches!(
        error,
        Some(LoxError::RuntimeError { message: Message::UnknownOperator, .. })
    ));
}

#[test]
fn without_bindings_every_variable_is_looked_up_among_the_globals() {
    let (tokens, _) = scan(b"var a = 1; { var a = 2; print a; }".to_vec());
    let (statements, _) = Parser::new(tokens, 0).parse();
    let (output, error) = run_unresolved(statements);
    assert!(error.is_none());
    assert_eq!(output, vec!["1"]);
}

#[test]
fn a_block_runs_in_the_scope_it_is_given() {
    let mut lox = Lox::new();
    let ran = run_in(&mut lox, "var a = \"global\";");
    assert!(ran.runtime_error.is_none());
    let (tokens, _) = scan(b"print a;".to_vec());
    let (statements, _) = Parser::new(tokens, lox.next_id).parse();
    let interpreter = &mut lox.interpreter;
    let before = interpreter.environment();
    interpreter.execute_block(Rc::new(statements), interpreter.globals());
    let mut output = Vec::new();
    assert!(drive(interpreter, &mut output).is_none());
    assert_eq!(output, vec!["global"]);
    assert_eq!(interpreter.environment(), before);
}
