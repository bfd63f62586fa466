use rlox::environment::Environment;
use rlox::expr::Expr;
use rlox::lox::{LoxError, Message};
use rlox::parser::{is_terminated, Parser};
use rlox::resolver::{resolve, Resolver};
use rlox::scanner::{scan, Scanner};
use rlox::stmt::Stmt;
use rlox::token::{Literal, RcToken, Token};
use rlox::token_type::TokenType;
use rlox::token_type::TokenType::{
    AND, BANG, BANG_EQUAL, CLASS, COMMA, DOT, ELSE, EOF, EQUAL, EQUAL_EQUAL, FALSE, FOR, FUN,
    GREATER, GREATER_EQUAL, IDENTIFIER, IF, LEFT_BRACE, LEFT_PAREN, LESS, LESS_EQUAL, MINUS, NIL,
    NUMBER, OR, PLUS, PRINT, RETURN, RIGHT_BRACE, RIGHT_PAREN, SEMICOLON, SLASH, STAR, STRING,
    SUPER, THIS, TRUE, VAR, WHILE,
};
use rlox::value::{printed_number, ExprValue, NativeFunction};
use std::rc::Rc;

fn tokens_of(source: &str) -> Vec<RcToken> {
    let (tokens, error) = scan(source.as_bytes().to_vec());
    assert!(error.is_none(), "{:?}", error);
    tokens
}

fn kinds(source: &str) -> Vec<TokenType> {
    tokens_of(source).iter().map(|t| t.type_).collect()
}

fn parse(source: &str) -> (Vec<Rc<Stmt>>, Vec<LoxError>) {
    let mut parser = Parser::new(tokens_of(source), 0);
    parser.parse()
}

fn parse_ok(source: &str) -> Vec<Rc<Stmt>> {
    let (statements, errors) = parse(source);
    assert!(errors.is_empty(), "{:?}", errors);
    statements
}

fn messages(errors: &[LoxError]) -> Vec<Message> {
    errors
        .iter()
        .map(|e| match e {
            LoxError::ScanError { message, .. } => *message,
            LoxError::ParseError { message, .. } => *message,
            LoxError::ResolveError { message, .. } => *message,
            LoxError::RuntimeError { message, .. } => *message,
        })
        .collect()
}

/// A compact rendering of an expression, to compare shapes.
fn show(expr: &Expr) -> String {
    let text = |t: &RcToken| String::from_utf8(t.lexeme.clone()).unwrap();
    match expr {
        Expr::Assign { name, value, .. } => format!("(= {} {})", text(name), show(value)),
        Expr::Binary { left, operator, right } => {
            format!("({} {} {})", text(operator), show(left), show(right))
        }
        Expr::Logical { left, operator, right } => {
            format!("[{} {} {}]", text(operator), show(left), show(right))
        }
        Expr::Call { callee, arguments, .. } => {
            let list: Vec<String> = arguments.iter().map(|a| show(a)).collect();
            format!("(call {} {})", show(callee), list.join(" "))
        }
        Expr::Grouping(inner) => format!("(group {})", show(inner)),
        Expr::Literal(l) => String::from_utf8(l.to_string()).unwrap(),
        Expr::Unary { operator, right } => format!("({} {})", text(operator), show(right)),
        Expr::Variable { name, .. } => text(name),
    }
}

fn show_stmt(stmt: &Stmt) -> String {
    let text = |t: &RcToken| String::from_utf8(t.lexeme.clone()).unwrap();
    let list = |s: &Vec<Rc<Stmt>>| s.iter().map(|x| show_stmt(x)).collect::<Vec<_>>().join(" ");
    match stmt {
        Stmt::Block { statements } => format!("{{{}}}", list(statements)),
        Stmt::Expression { expr } => format!("{};", show(expr)),
        Stmt::Function { name, params, body } => {
            let names: Vec<String> = params.iter().map(|p| text(p)).collect();
            format!("fun {}({}) {{{}}}", text(name), names.join(","), list(body))
        }
        Stmt::If { condition, then_branch, else_branch } => match else_branch {
            Some(e) => {
                format!("if {} {} else {}", show(condition), show_stmt(then_branch), show_stmt(e))
            }
            None => format!("if {} {}", show(condition), show_stmt(then_branch)),
        },
        Stmt::Print { expr } => format!("print {};", show(expr)),
        Stmt::Return { value, .. } => format!("return {};", show(value)),
        Stmt::Var { name, initializer } => match initializer {
            Some(e) => format!("var {} = {};", text(name), show(e)),
            None => format!("var {};", text(name)),
        },
        Stmt::While { condition, body } => format!("while {} {}", show(condition), show_stmt(body)),
    }
}

fn shape(source: &str) -> String {
    parse_ok(source).iter().map(|s| show_stmt(s)).collect::<Vec<_>>().join(" ")
}

// ---------------------------------------------------------------- scanner

#[test]
fn scans_punctuation_and_operators() {
    assert_eq!(
        kinds("(){},.-+;*/ ! != = == < <= > >="),
        vec![
            LEFT_PAREN, RIGHT_PAREN, LEFT_BRACE, RIGHT_BRACE, COMMA, DOT, MINUS, PLUS, SEMICOLON,
            STAR, SLASH, BANG, BANG_EQUAL, EQUAL, EQUAL_EQUAL, LESS, LESS_EQUAL, GREATER,
            GREATER_EQUAL, EOF
        ]
    );
}

#[test]
fn two_character_operators_take_one_byte_of_lookahead() {
    assert_eq!(kinds("==="), vec![EQUAL_EQUAL, EQUAL, EOF]);
    assert_eq!(kinds("!==<=="), vec![BANG_EQUAL, EQUAL, LESS_EQUAL, EQUAL, EOF]);
    assert_eq!(kinds("! ="), vec![BANG, EQUAL, EOF]);
}

#[test]
fn scans_keywords_and_identifiers() {
    assert_eq!(
        kinds("and class else false for fun if nil or print return super this true var while"),
        vec![
            AND, CLASS, ELSE, FALSE, FOR, FUN, IF, NIL, OR, PRINT, RETURN, SUPER, THIS, TRUE, VAR,
            WHILE, EOF
        ]
    );
    assert_eq!(kinds("andy _x x1 For classes"), vec![
        IDENTIFIER, IDENTIFIER, IDENTIFIER, IDENTIFIER, IDENTIFIER, EOF
    ]);
}

#[test]
fn the_empty_source_is_the_end_of_input_on_line_one() {
    let tokens = tokens_of("");
    assert_eq!(tokens.len(), 1);
    assert_eq!(tokens[0].type_, EOF);
    assert_eq!(tokens[0].line, 1);
    assert!(tokens[0].lexeme.is_empty());
}

#[test]
fn comments_run_to_the_end_of_the_line() {
    assert_eq!(kinds("1 // two three\n4 // five"), vec![NUMBER, NUMBER, EOF]);
    assert_eq!(kinds("//"), vec![EOF]);
    assert_eq!(kinds("/ /"), vec![SLASH, SLASH, EOF]);
    let tokens = tokens_of("// a\n// b\nx");
    assert_eq!(tokens[0].line, 3);
}

#[test]
fn lines_are_counted() {
    let tokens = tokens_of("a\nb\r\n\n c");
    let lines: Vec<usize> = tokens.iter().map(|t| t.line).collect();
    assert_eq!(lines, vec![1, 2, 4, 4]);
}

#[test]
fn a_string_carries_its_text_without_the_quotes() {
    let tokens = tokens_of("\"hello\" \"\"");
    assert_eq!(tokens[0].type_, STRING);
    assert_eq!(tokens[0].lexeme, b"\"hello\"".to_vec());
    assert!(matches!(&tokens[0].literal, Literal::STRING(t) if **t == b"hello".to_vec()));
    assert!(matches!(&tokens[1].literal, Literal::STRING(t) if t.is_empty()));
}

#[test]
fn a_string_may_span_lines_and_is_placed_on_its_last_line() {
    let tokens = tokens_of("\"a\nb\nc\" x");
    assert_eq!(tokens[0].line, 3);
    assert_eq!(tokens[1].line, 3);
    assert!(matches!(&tokens[0].literal, Literal::STRING(t) if **t == b"a\nb\nc".to_vec()));
}

#[test]
fn an_unterminated_string_is_an_error_on_the_line_where_the_source_ends() {
    let (tokens, error) = scan(b"x \"abc\ndef".to_vec());
    assert_eq!(tokens.len(), 1);
    match error {
        Some(LoxError::ScanError { line, message }) => {
            assert_eq!(line, 2);
            assert_eq!(message, Message::UnterminatedString);
        }
        other => panic!("{:?}", other),
    }
}

#[test]
fn numbers_are_digits_with_an_optional_fraction() {
    let tokens = tokens_of("12 3.25 7. .5 1.2.3");
    let shown: Vec<(TokenType, String)> = tokens
        .iter()
        .map(|t| (t.type_, String::from_utf8(t.lexeme.clone()).unwrap()))
        .collect();
    let expected = vec![
        (NUMBER, "12"), (NUMBER, "3.25"), (NUMBER, "7"), (DOT, "."), (DOT, "."), (NUMBER, "5"),
        (NUMBER, "1.2"), (DOT, "."), (NUMBER, "3"), (EOF, ""),
    ];
    let expected: Vec<(TokenType, String)> =
        expected.into_iter().map(|(k, s)| (k, s.to_string())).collect();
    assert_eq!(shown, expected);
    assert!(matches!(&tokens[1].literal, Literal::NUMBER(t) if **t == b"3.25".to_vec()));
}

#[test]
fn a_minus_sign_is_not_part_of_a_number() {
    assert_eq!(kinds("-1"), vec![MINUS, NUMBER, EOF]);
}

#[test]
fn the_first_illegal_character_stops_the_scan() {
    let (tokens, error) = scan(b"a b\n# c @".to_vec());
    assert_eq!(tokens.len(), 2);
    match error {
        Some(LoxError::ScanError { line, message }) => {
            assert_eq!(line, 2);
            assert_eq!(message, Message::UnexpectedCharacter);
        }
        other => panic!("{:?}", other),
    }
    let mut scanner = Scanner::new(vec![0u8]);
    assert!(scanner.scan_tokens().is_err());
    assert!(scanner.tokens.is_empty());
}

#[test]
fn the_text_of_each_token_scans_to_the_same_kind_and_literal() {
    let source = "fun f(a, b) { return a >= b or !c != \"s t\nu\" / 1.50; } // note\nwhile (x1 == nil) {}";
    for token in tokens_of(source) {
        let again = tokens_of(std::str::from_utf8(&token.lexeme).unwrap());
        assert_eq!(again[0].type_, token.type_);
        assert_eq!(again[0].literal.to_string(), token.literal.to_string());
        assert_eq!(again.len(), if token.type_ == EOF { 1 } else { 2 });
    }
}

#[test]
fn a_literal_shows_as_its_text() {
    assert_eq!(Literal::NIL.to_string(), b"nil".to_vec());
    assert_eq!(Literal::BOOL(true).to_string(), b"true".to_vec());
    assert_eq!(Literal::BOOL(false).to_string(), b"false".to_vec());
    assert_eq!(Literal::STRING(Rc::new(b"s".to_vec())).to_string(), b"s".to_vec());
    assert_eq!(Literal::NUMBER(Rc::new(b"1.5".to_vec())).to_string(), b"1.5".to_vec());
    assert_eq!(Literal::IDENTIFIER(Rc::new(b"id".to_vec())).to_string(), b"id".to_vec());
}

#[test]
fn a_token_is_made_of_its_parts() {
    let token = Token::new(PLUS, b"+".to_vec(), Literal::NIL, 7);
    assert_eq!(token.type_, PLUS);
    assert_eq!(token.lexeme, b"+".to_vec());
    assert_eq!(token.line, 7);
}

// ----------------------------------------------------------------- parser

#[test]
fn binary_operators_climb_in_precedence() {
    assert_eq!(shape("1 + 2 * 3 - 4 / 5;"), "(- (+ 1 (* 2 3)) (/ 4 5));");
    assert_eq!(shape("1 < 2 == 3 >= 4;"), "(== (< 1 2) (>= 3 4));");
    assert_eq!(shape("a or b and c or d;"), "[or [or a [and b c]] d];");
    assert_eq!(shape("a and b == c;"), "[and a (== b c)];");
    assert_eq!(shape("!-a * -!b;"), "(* (! (- a)) (- (! b)));");
}

#[test]
fn binary_operators_associate_to_the_left() {
    assert_eq!(shape("1 - 2 - 3;"), "(- (- 1 2) 3);");
    assert_eq!(shape("8 / 4 / 2;"), "(/ (/ 8 4) 2);");
    assert_eq!(shape("a == b != c;"), "(!= (== a b) c);");
}

#[test]
fn assignment_associates_to_the_right() {
    assert_eq!(shape("a = b = c + 1;"), "(= a (= b (+ c 1)));");
}

#[test]
fn grouping_and_literals() {
    assert_eq!(shape("(1 + 2) * 3;"), "(* (group (+ 1 2)) 3);");
    assert_eq!(shape("true; false; nil; \"s\"; 1.5;"), "true; false; nil; s; 1.5;");
}

#[test]
fn calls_take_any_number_of_argument_lists() {
    assert_eq!(shape("f();"), "(call f );");
    assert_eq!(shape("f(1, a + b)(c)();"), "(call (call (call f 1 (+ a b)) c) );");
    assert_eq!(shape("-f(1);"), "(- (call f 1));");
}

#[test]
fn statements_parse() {
    assert_eq!(shape("print 1; var a; var b = 2; { a = b; }"), "print 1; var a; var b = 2; {(= a b);}");
    assert_eq!(shape("if (a) print 1; else print 2;"), "if a print 1; else print 2;");
    assert_eq!(shape("if (a) if (b) print 1; else print 2;"), "if a if b print 1; else print 2;");
    assert_eq!(shape("while (a < 3) a = a + 1;"), "while (< a 3) (= a (+ a 1));");
    assert_eq!(
        shape("fun f(a, b) { return a; } fun g() { return; }"),
        "fun f(a,b) {return a;} fun g() {return nil;}"
    );
}

#[test]
fn for_becomes_a_while_in_a_block() {
    assert_eq!(
        shape("for (var i = 0; i < 3; i = i + 1) print i;"),
        "{var i = 0; while (< i 3) {print i; (= i (+ i 1));}}"
    );
    assert_eq!(shape("for (;;) print 1;"), "while true print 1;");
    assert_eq!(shape("for (i = 0; ; ) print 1;"), "{(= i 0); while true print 1;}");
    assert_eq!(shape("for (; i < 2; ) {}"), "while (< i 2) {}");
    assert_eq!(shape("for (;; i = i + 1) {}"), "while true {{} (= i (+ i 1));}");
}

#[test]
fn each_reference_gets_an_id_of_its_own() {
    let mut parser = Parser::new(tokens_of("a; a = a;"), 100);
    let (statements, errors) = parser.parse();
    assert!(errors.is_empty());
    let first = match &*statements[0] {
        Stmt::Expression { expr } => match &**expr {
            Expr::Variable { id, .. } => *id,
            other => panic!("{:?}", other),
        },
        other => panic!("{:?}", other),
    };
    assert_eq!(first, 100);
    match &*statements[1] {
        Stmt::Expression { expr } => match &**expr {
            Expr::Assign { id, value, .. } => {
                assert_eq!(*id, 102);
                assert!(matches!(&**value, Expr::Variable { id: 104, .. }));
            }
            other => panic!("{:?}", other),
        },
        other => panic!("{:?}", other),
    }
}

#[test]
fn an_invalid_assignment_target_is_reported_and_parsing_goes_on() {
    let (statements, errors) = parse("1 + 2 = 3; print 4;");
    assert_eq!(messages(&errors), vec![Message::InvalidAssignmentTarget]);
    match &errors[0] {
        LoxError::ParseError { token, .. } => assert_eq!(token.type_, EQUAL),
        other => panic!("{:?}", other),
    }
    assert_eq!(statements.len(), 2);
    assert_eq!(show_stmt(&statements[0]), "(+ 1 2);");
    assert_eq!(show_stmt(&statements[1]), "print 4;");
}

#[test]
fn each_statement_with_an_error_is_dropped_and_the_rest_is_parsed() {
    let (statements, errors) = parse("print 1; print ; var = 2; print 3 var x; print 4;");
    assert_eq!(
        messages(&errors),
        vec![Message::ExpectExpression, Message::ExpectVariableName, Message::ExpectSemicolonAfterValue]
    );
    let shown: Vec<String> = statements.iter().map(|s| show_stmt(s)).collect();
    assert_eq!(shown, vec!["print 1;", "print 4;"]);
}

#[test]
fn parse_errors_name_the_token_where_they_were_found() {
    let cases = vec![
        ("for x", Message::ExpectParenAfterFor, "x"),
        ("for (;x y", Message::ExpectSemicolonAfterLoopCondition, "y"),
        ("for (;;x y", Message::ExpectParenAfterForClauses, "y"),
        ("if x", Message::ExpectParenAfterIf, "x"),
        ("if (x y", Message::ExpectParenAfterIfCondition, "y"),
        ("print 1 2", Message::ExpectSemicolonAfterValue, "2"),
        ("fun f() { return 1 2 }", Message::ExpectSemicolonAfterReturnValue, "2"),
        ("var 1", Message::ExpectVariableName, "1"),
        ("var a = 1 2", Message::ExpectSemicolonAfterVariableDeclaration, "2"),
        ("var a b", Message::ExpectSemicolonAfterVariableDeclaration, "b"),
        ("while x", Message::ExpectParenAfterWhile, "x"),
        ("while (x y", Message::ExpectParenAfterCondition, "y"),
        ("a b", Message::ExpectSemicolonAfterExpression, "b"),
        ("fun 1", Message::ExpectFunctionName, "1"),
        ("fun f 1", Message::ExpectParenAfterFunctionName, "1"),
        ("fun f(1", Message::ExpectParameterName, "1"),
        ("fun f(a b", Message::ExpectParenAfterParameters, "b"),
        ("fun f() 1", Message::ExpectBraceBeforeFunctionBody, "1"),
        ("{ a; ", Message::ExpectBraceAfterBlock, ""),
        ("f(1 2", Message::ExpectParenAfterArguments, "2"),
        ("(1 2", Message::ExpectParenAfterExpression, "2"),
        ("print ;", Message::ExpectExpression, ";"),
        ("print", Message::ExpectExpression, ""),
    ];
    for (source, message, lexeme) in cases {
        let (_, errors) = parse(source);
        assert_eq!(errors.len(), 1, "{}", source);
        match &errors[0] {
            LoxError::ParseError { token, message: found } => {
                assert_eq!(*found, message, "{}", source);
                assert_eq!(token.lexeme, lexeme.as_bytes().to_vec(), "{}", source);
            }
            other => panic!("{:?}", other),
        }
    }
}

#[test]
fn more_than_255_arguments_are_reported_and_taken() {
    let list = |n: usize| (0..n).map(|i| i.to_string()).collect::<Vec<_>>().join(", ");
    let (statements, errors) = parse(&format!("f({});", list(255)));
    assert!(errors.is_empty());
    assert_eq!(statements.len(), 1);
    let (statements, errors) = parse(&format!("f({}); print 1;", list(257)));
    assert_eq!(messages(&errors), vec![Message::TooManyArguments, Message::TooManyArguments]);
    assert_eq!(statements.len(), 2);
    match &*statements[0] {
        Stmt::Expression { expr } => match &**expr {
            Expr::Call { arguments, .. } => assert_eq!(arguments.len(), 257),
            other => panic!("{:?}", other),
        },
        other => panic!("{:?}", other),
    }
}

#[test]
fn more_than_255_parameters_are_reported_and_taken() {
    let list = |n: usize| (0..n).map(|i| format!("p{}", i)).collect::<Vec<_>>().join(", ");
    let (_, errors) = parse(&format!("fun f({}) {{}}", list(255)));
    assert!(errors.is_empty());
    let (statements, errors) = parse(&format!("fun f({}) {{}}", list(256)));
    assert_eq!(messages(&errors), vec![Message::TooManyParameters]);
    match &*statements[0] {
        Stmt::Function { params, .. } => assert_eq!(params.len(), 256),
        other => panic!("{:?}", other),
    }
}

#[test]
fn a_token_list_must_end_with_the_end_of_input() {
    assert!(is_terminated(&tokens_of("a")));
    assert!(!is_terminated(&Vec::new()));
    let mut tokens = tokens_of("a");
    tokens.pop();
    assert!(!is_terminated(&tokens));
}

#[test]
fn an_empty_token_list_parses_to_nothing() {
    let (statements, errors) = parse("");
    assert!(statements.is_empty());
    assert!(errors.is_empty());
}

// --------------------------------------------------------------- resolver

fn bindings(source: &str) -> Vec<(usize, usize)> {
    let statements = parse_ok(source);
    let table = resolve(&statements).unwrap();
    let mut list: Vec<(usize, usize)> = table.into_iter().collect();
    list.sort();
    list
}

fn resolve_error(source: &str) -> (Message, String, usize) {
    let statements = parse_ok(source);
    match resolve(&statements) {
        Err(LoxError::ResolveError { token, message }) => {
            (message, String::from_utf8(token.lexeme.clone()).unwrap(), token.line)
        }
        other => panic!("{:?}", other.map(|_| ())),
    }
}

#[test]
fn globals_get_no_binding() {
    assert_eq!(bindings("var a = 1; print a; a = 2; fun f() {} f();"), vec![]);
}

#[test]
fn locals_are_bound_by_their_distance() {
    // tokens: { var a ; { var b ; a ; b ; { a = b ; } } }
    //         0 1   2 3 4 5   6 7 8 9 10 11 12 13 14 15 16 17 18 19
    assert_eq!(
        bindings("{ var a; { var b; a; b; { a = b; } } }"),
        vec![(8, 1), (10, 0), (13, 2), (15, 1)]
    );
}

#[test]
fn parameters_and_body_share_one_scope() {
    // tokens: fun f ( a ) { print a ; { print a ; } }
    //         0   1 2 3 4 5 6     7 8 9 10   11 12 13 14
    assert_eq!(bindings("fun f(a) { print a; { print a; } }"), vec![(7, 0), (11, 1)]);
}

#[test]
fn a_function_in_a_block_can_call_itself() {
    // tokens: { fun f ( ) { f ( ) ; } }
    assert_eq!(bindings("{ fun f() { f(); } }"), vec![(6, 1)]);
}

#[test]
fn declaring_a_name_twice_in_one_block_fails() {
    assert_eq!(
        resolve_error("{ var a = 1;\n var a = 2; }"),
        (Message::AlreadyDeclared, "a".to_string(), 2)
    );
    assert_eq!(resolve_error("fun f(a, a) {}").0, Message::AlreadyDeclared);
    assert_eq!(resolve_error("fun f(a) { var a; }").0, Message::AlreadyDeclared);
    assert_eq!(bindings("var a; var a; { var a; { var a; } }"), vec![]);
}

#[test]
fn return_is_allowed_only_in_a_function() {
    assert_eq!(
        resolve_error("print 1;\nreturn 1;"),
        (Message::ReturnOutsideFunction, "return".to_string(), 2)
    );
    assert_eq!(resolve_error("{ if (true) return; }").0, Message::ReturnOutsideFunction);
    assert_eq!(resolve_error("fun f() { return 1; } return 2;").0, Message::ReturnOutsideFunction);
    assert_eq!(bindings("fun f() { fun g() { return 1; } return g; }"), vec![(15, 0)]);
}

#[test]
fn a_local_cannot_be_read_in_its_own_initializer() {
    assert_eq!(
        resolve_error("{ var a = a; }"),
        (Message::ReadInOwnInitializer, "a".to_string(), 1)
    );
    assert_eq!(resolve_error("{ var a = 1; { var a = a; } }").0, Message::ReadInOwnInitializer);
    assert_eq!(resolve_error("fun f() { var x = x + 1; }").0, Message::ReadInOwnInitializer);
    assert_eq!(resolve_error("{ var a = f(a); }").0, Message::ReadInOwnInitializer);
    assert_eq!(
        resolve_error("var b = 1;\nvar a = a;"),
        (Message::ReadInOwnInitializer, "a".to_string(), 2)
    );
    assert_eq!(resolve_error("var a = 1; var a = a;").0, Message::ReadInOwnInitializer);
    assert_eq!(bindings("var a = 1; { var b = a; } fun f(a) { var c = a; }"), vec![(21, 0)]);
}

#[test]
fn resolving_stops_at_the_first_error() {
    let statements = parse_ok("{ var a; a; var a; var b = b; }");
    let mut resolver = Resolver::new();
    let outcome = resolver.resolve_statements(&statements);
    assert!(matches!(
        outcome,
        Err(LoxError::ResolveError { message: Message::AlreadyDeclared, .. })
    ));
    assert_eq!(resolver.bindings().len(), 1);
}

#[test]
fn end_scope_on_no_scope_does_nothing() {
    let mut resolver = Resolver::new();
    resolver.end_scope();
    assert!(resolver.resolve_statements(&parse_ok("{ var a; a; }")).is_ok());
    assert_eq!(resolver.into_bindings().len(), 1);
}

// ------------------------------------------------------------ environment

fn name(text: &str) -> RcToken {
    Rc::new(Token::new(IDENTIFIER, text.as_bytes().to_vec(), Literal::NIL, 1))
}

fn as_number(value: Result<ExprValue, LoxError>) -> u64 {
    match value {
        Ok(ExprValue::Number(n)) => n,
        other => panic!("{:?}", other),
    }
}

#[test]
fn define_binds_in_one_scope_only() {
    let mut env = Environment::new();
    let inner = env.child(0);
    env.define(inner, b"a", Some(ExprValue::Number(1)));
    assert_eq!(as_number(env.get(inner, &name("a"))), 1);
    assert!(env.get(0, &name("a")).is_err());
    env.define(inner, b"a", Some(ExprValue::Number(2)));
    assert_eq!(as_number(env.get(inner, &name("a"))), 2);
    env.define(inner, b"n", None);
    assert!(matches!(env.get(inner, &name("n")), Ok(ExprValue::Nil)));
}

#[test]
fn get_and_assign_search_outward() {
    let mut env = Environment::new();
    env.define(0, b"g", Some(ExprValue::Number(1)));
    let a = env.child(0);
    let b = env.child(a);
    env.define(a, b"x", Some(ExprValue::Number(2)));
    assert_eq!(as_number(env.get(b, &name("x"))), 2);
    assert_eq!(as_number(env.get(b, &name("g"))), 1);
    assert!(env.assign(b, &name("g"), Some(ExprValue::Number(5))).is_ok());
    assert_eq!(as_number(env.get(0, &name("g"))), 5);
    env.define(b, b"x", Some(ExprValue::Number(9)));
    assert!(env.assign(b, &name("x"), Some(ExprValue::Number(10))).is_ok());
    assert_eq!(as_number(env.get(b, &name("x"))), 10);
    assert_eq!(as_number(env.get(a, &name("x"))), 2);
}

#[test]
fn assign_does_not_declare() {
    let mut env = Environment::new();
    let a = env.child(0);
    match env.assign(a, &name("nope"), Some(ExprValue::Nil)) {
        Err(LoxError::RuntimeError { token, message }) => {
            assert_eq!(message, Message::UndefinedVariable);
            assert_eq!(token.lexeme, b"nope".to_vec());
        }
        other => panic!("{:?}", other),
    }
    assert!(env.get(a, &name("nope")).is_err());
    assert!(env.get(0, &name("nope")).is_err());
}

#[test]
fn get_at_and_assign_at_walk_exactly_the_distance() {
    let mut env = Environment::new();
    let a = env.child(0);
    let b = env.child(a);
    env.define(0, b"x", Some(ExprValue::Number(0)));
    env.define(a, b"x", Some(ExprValue::Number(1)));
    env.define(b, b"x", Some(ExprValue::Number(2)));
    assert_eq!(as_number(env.get_at(b, 0, &name("x"))), 2);
    assert_eq!(as_number(env.get_at(b, 1, &name("x"))), 1);
    assert_eq!(as_number(env.get_at(b, 2, &name("x"))), 0);
    assert!(env.get_at(b, 3, &name("x")).is_err());
    assert!(env.assign_at(b, 1, &name("x"), Some(ExprValue::Number(7))).is_ok());
    assert_eq!(as_number(env.get(a, &name("x"))), 7);
    assert_eq!(as_number(env.get(b, &name("x"))), 2);
    env.define(0, b"only_global", Some(ExprValue::Nil));
    assert!(env.get_at(b, 0, &name("only_global")).is_err());
    assert!(env.assign_at(b, 1, &name("only_global"), None).is_err());
    assert!(env.get_at(b, 2, &name("only_global")).is_ok());
}

#[test]
fn a_scope_that_does_not_exist_has_no_variables() {
    let mut env = Environment::new();
    assert_eq!(env.len(), 1);
    env.define(5, b"a", Some(ExprValue::Nil));
    assert!(env.get(5, &name("a")).is_err());
    assert!(env.get(0, &name("a")).is_err());
    let orphan = env.child(9);
    env.define(0, b"g", Some(ExprValue::Nil));
    assert!(env.get(orphan, &name("g")).is_err());
}

// ------------------------------------------------------------------ values

#[test]
fn the_printed_form_of_a_number_drops_a_final_point_zero() {
    assert_eq!(printed_number(b"3.0"), b"3".to_vec());
    assert_eq!(printed_number(b"3.5"), b"3.5".to_vec());
    assert_eq!(printed_number(b"30"), b"30".to_vec());
    assert_eq!(printed_number(b".0"), b"".to_vec());
    assert_eq!(printed_number(b"0"), b"0".to_vec());
    assert_eq!(printed_number(b""), b"".to_vec());
    assert_eq!(printed_number(b"1.00"), b"1.00".to_vec());
}

#[test]
fn values_tell_their_truth_and_text() {
    assert!(!ExprValue::Nil.is_truthy());
    assert!(!ExprValue::Bool(false).is_truthy());
    assert!(ExprValue::Bool(true).is_truthy());
    assert!(ExprValue::Number(0).is_truthy());
    assert!(ExprValue::Text(Rc::new(Vec::new())).is_truthy());
    assert_eq!(ExprValue::Nil.stringify(), b"nil".to_vec());
    assert_eq!(ExprValue::Bool(true).stringify(), b"true".to_vec());
    assert_eq!(ExprValue::Text(Rc::new(b"x".to_vec())).stringify(), b"x".to_vec());
    assert_eq!(ExprValue::Number(7).get_number(), Some(7));
    assert_eq!(ExprValue::Nil.get_number(), None);
    assert!(ExprValue::Text(Rc::new(b"x".to_vec())).get_string().is_some());
    assert!(ExprValue::Number(1).get_string().is_none());
    assert!(ExprValue::Nil.same_as(&ExprValue::Nil));
    assert!(!ExprValue::Nil.same_as(&ExprValue::Bool(false)));
    assert!(!ExprValue::Number(1).same_as(&ExprValue::Number(1)));
}

#[test]
fn every_message_has_its_wording() {
    assert_eq!(Message::UnexpectedCharacter.phrase(), "Unexpected character.");
    assert_eq!(Message::UnterminatedString.phrase(), "Unterminated string");
    assert_eq!(Message::ExpectExpression.phrase(), "Expect expression");
    assert_eq!(Message::InvalidAssignmentTarget.phrase(), "Invalid assignment target.");
    assert_eq!(Message::TooManyArguments.phrase(), "Can't have more than 255 arguments");
    assert_eq!(Message::TooManyParameters.phrase(), "Can't have more than 255 parameters.");
    assert_eq!(Message::ReturnOutsideFunction.phrase(), "Can't return from top-level code.");
    assert_eq!(
        Message::ReadInOwnInitializer.phrase(),
        "Can't read local variable in its own initializer."
    );
    assert_eq!(
        Message::AlreadyDeclared.phrase(),
        "Already a variable with this name in this scope."
    );
    assert_eq!(Message::NotCallable.phrase(), "Can only call functions and classes.");
}

// ------------------------------------------------------------ diagnostics

#[test]
fn errors_are_reported_with_line_place_and_message() {
    let report = |e: &LoxError| String::from_utf8(e.report()).unwrap();
    let (_, error) = scan(b"\n\n@".to_vec());
    assert_eq!(report(&error.unwrap()), "[line 3] Error : Unexpected character.");
    let (_, errors) = parse("print 1\n+ ;");
    assert_eq!(report(&errors[0]), "[line 2] Error at ';': Expect expression");
    let (_, errors) = parse("print 1");
    assert_eq!(report(&errors[0]), "[line 1] Error at end: Expect ';' after value.");
    let token = |kind: TokenType, text: &str, line: usize| {
        Rc::new(Token::new(kind, text.as_bytes().to_vec(), Literal::NIL, line))
    };
    let undefined = LoxError::RuntimeError {
        token: token(IDENTIFIER, "abc", 12),
        message: Message::UndefinedVariable,
    };
    assert_eq!(report(&undefined), "[line 12] Error at 'abc': Undefined variable 'abc'.");
    let arity = LoxError::RuntimeError {
        token: token(RIGHT_PAREN, ")", 1),
        message: Message::ArityMismatch { expected: 1, got: 20 },
    };
    assert_eq!(report(&arity), "[line 1] Error at ')': Expected 1 arguments but got 20.");
    let operands = LoxError::RuntimeError {
        token: token(MINUS, "-", 305),
        message: Message::OperandsMustBeNumbers,
    };
    assert_eq!(report(&operands), "[line 305] Error at '-': MINUS operands must be a number(s)");
    let plus = LoxError::RuntimeError {
        token: token(PLUS, "+", 1),
        message: Message::OperandsMustBeNumbersOrStrings,
    };
    assert_eq!(report(&plus), "[line 1] Error at '+': PLUS operand must be numbers or strings");
    let twice = LoxError::ResolveError {
        token: token(IDENTIFIER, "a", 4),
        message: Message::AlreadyDeclared,
    };
    assert_eq!(
        report(&twice),
        "[line 4] Error at 'a': Already a variable with this name in this scope."
    );
}

#[test]
fn decimal_numerals() {
    assert_eq!(rlox::report::decimal_text(0), b"0".to_vec());
    assert_eq!(rlox::report::decimal_text(9), b"9".to_vec());
    assert_eq!(rlox::report::decimal_text(10), b"10".to_vec());
    assert_eq!(rlox::report::decimal_text(1234567890), b"1234567890".to_vec());
    assert_eq!(rlox::report::decimal_text(usize::MAX), usize::MAX.to_string().into_bytes());
}

#[test]
fn a_token_describes_itself() {
    let tokens = tokens_of("x\n\"s\" 1.5 +");
    let shown: Vec<String> =
        tokens.iter().map(|t| String::from_utf8(t.to_string()).unwrap()).collect();
    assert_eq!(shown, vec![
        "[Token] type: IDENTIFIER, lexeme: x, literal: NIL, line: 1",
        "[Token] type: STRING, lexeme: \"s\", literal: STRING(\"s\"), line: 2",
        "[Token] type: NUMBER, lexeme: 1.5, literal: NUMBER(1.5), line: 2",
        "[Token] type: PLUS, lexeme: +, literal: NIL, line: 2",
        "[Token] type: EOF, lexeme: , literal: NIL, line: 2",
    ]);
    assert_eq!(Literal::BOOL(true).describe(), b"BOOL(true)".to_vec());
    assert_eq!(TokenType::LESS_EQUAL.name(), "LESS_EQUAL");
}

#[test]
fn expressions_print_in_prefix_form() {
    let print = |source: &str| {
        let statements = parse_ok(source);
        match &*statements[0] {
            Stmt::Expression { expr } => {
                String::from_utf8(rlox::ast_printer::ast_to_string(expr)).unwrap()
            }
            other => panic!("{:?}", other),
        }
    };
    assert_eq!(print("-123 * (45.67);"), "(* (- 123) (group 45.67))");
    assert_eq!(print("a = 1;"), "a");
    assert_eq!(print("f(1, x, \"s\");"), "(call 1 x s)");
    assert_eq!(print("f();"), "(call)");
    assert_eq!(print("a or b and !c;"), "(or a (and b (! c)))");
    assert_eq!(print("nil == true;"), "(== nil true)");
}

#[test]
fn noting_an_error_sets_the_flag_and_gives_the_report() {
    let mut lox = rlox::lox::Lox::new();
    assert!(!lox.had_error);
    let error = LoxError::ScanError { line: 2, message: Message::UnterminatedString };
    assert_eq!(lox.error(&error), b"[line 2] Error : Unterminated string".to_vec());
    assert!(lox.had_error);
    assert!(!lox.had_runtime_error);
    assert_eq!(lox.next_id, 0);
}

#[test]
fn callables_tell_their_arity_and_description() {
    assert_eq!(NativeFunction::Clock.arity(), 0);
    assert_eq!(NativeFunction::Clock.to_string(), b"<native fn>".to_vec());
    let statements = parse_ok("fun add(a, b) { return a + b; }");
    match &*statements[0] {
        Stmt::Function { name, params, body } => {
            let function = rlox::lox_function::LoxFunction {
                name: name.clone(),
                params: params.clone(),
                body: body.clone(),
                closure: 0,
                id: 0,
            };
            assert_eq!(function.arity(), 2);
            assert_eq!(function.to_string(), b"<fn add >".to_vec());
        }
        other => panic!("{:?}", other),
    }
}
