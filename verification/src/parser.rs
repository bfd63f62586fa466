use crate::expr::{expr_view, expr_views, lemma_expr_views, Expr, ExprView, RcExpr};
use crate::grammar::{
    arguments, assignment, at_end, binary, binary_rest, binds, block, block_items, call, call_rest,
    closed_expression, declaration, desugared, done, dropped, expected, expression,
    expression_statement, failing, finish_call, for_clause, for_header, for_initializer, for_statement,
    function, governed, if_statement, joined, kind_at, list_limit, node_id, parameters, primary,
    print_statement, program, remaining, return_statement, statement, stopped, synchronized,
    syntax_error, top_declaration, unary, var_declaration, while_statement, ForHeader, Parsed,
    Program, Source,
};
use crate::lox::{LoxError, Message};
use crate::stmt::{lemma_stmt_views, stmt_view, stmt_views, RcStmt, Stmt, StmtView};
use crate::token::{Literal, RcToken};
use crate::token_type::TokenType;
use std::rc::Rc;
use vstd::prelude::*;

verus! {

/// A parser's state as mathematics: what it parses, the position of the
/// next token, and the errors noted so far.
pub struct ParserState {
    pub source: Source,
    pub current: int,
    pub errors: Seq<LoxError>,
}

/// The parser went from `before` to `after` by reading what `p` describes.
pub open spec fn moved<T>(before: ParserState, after: ParserState, p: Parsed<T>) -> bool {
    &&& after.source == before.source
    &&& after.current == before.current + p.used
    &&& after.errors == before.errors + p.reported
}

pub open spec fn shown_expr(r: Result<Expr, LoxError>) -> Result<ExprView, LoxError> {
    match r {
        Ok(e) => Ok(expr_view(e)),
        Err(x) => Err(x),
    }
}

pub open spec fn shown_stmt(r: Result<Stmt, LoxError>) -> Result<StmtView, LoxError> {
    match r {
        Ok(s) => Ok(stmt_view(s)),
        Err(x) => Err(x),
    }
}

pub open spec fn shown_stmts(r: Result<Vec<RcStmt>, LoxError>) -> Result<Seq<StmtView>, LoxError> {
    match r {
        Ok(list) => Ok(stmt_views(list@, list@.len())),
        Err(x) => Err(x),
    }
}

/// A token list that a parser accepts: it ends with the end-of-input token.
pub open spec fn terminated(tokens: Seq<RcToken>) -> bool {
    tokens.len() > 0 && tokens.last().type_ == TokenType::EOF
}

/// `items` read in `used` tokens with `reported` noted, and then `more`.
pub open spec fn prefixed<T>(items: Seq<T>, used: nat, reported: Seq<LoxError>, more: Parsed<Seq<T>>) -> Parsed<
    Seq<T>,
> {
    if more.value is Err {
        failing(more, used, reported)
    } else {
        done(items + more.value->Ok_0, used + more.used, reported + more.reported)
    }
}

/// Builds the syntax tree of a token list by recursive descent.
pub struct Parser {
    tokens: Vec<RcToken>,
    current: usize,
    base: usize,
    errors: Vec<LoxError>,
}

impl View for Parser {
    type V = ParserState;

    closed spec fn view(&self) -> ParserState {
        ParserState {
            source: Source { tokens: self.tokens@, base: self.base },
            current: self.current as int,
            errors: self.errors@,
        }
    }
}

/// Whether `tokens` ends with the end-of-input token, as a parser needs it.
pub fn is_terminated(tokens: &Vec<RcToken>) -> (r: bool)
    ensures
        r == terminated(tokens@),
{
    let n = tokens.len();
    n > 0 && matches!(tokens[n - 1].type_, TokenType::EOF)
}

fn binds_kind(level: u8, kind: TokenType) -> (r: bool)
    ensures
        r == binds(level as nat, kind),
{
    if level == 0 {
        matches!(kind, TokenType::OR)
    } else if level == 1 {
        matches!(kind, TokenType::AND)
    } else if level == 2 {
        matches!(kind, TokenType::BANG_EQUAL | TokenType::EQUAL_EQUAL)
    } else if level == 3 {
        matches!(
            kind,
            TokenType::GREATER | TokenType::GREATER_EQUAL | TokenType::LESS | TokenType::LESS_EQUAL
        )
    } else if level == 4 {
        matches!(kind, TokenType::MINUS | TokenType::PLUS)
    } else if level == 5 {
        matches!(kind, TokenType::SLASH | TokenType::STAR)
    } else {
        false
    }
}

fn join(level: u8, left: Expr, operator: RcToken, right: Expr) -> (r: Expr)
    ensures
        expr_view(r) == joined(level as nat, expr_view(left), operator, expr_view(right)),
{
    if level <= 1 {
        Expr::Logical { left: Rc::new(left), operator, right: Rc::new(right) }
    } else {
        Expr::Binary { left: Rc::new(left), operator, right: Rc::new(right) }
    }
}

impl Parser {
    /// The parser's invariant: the token list ends with the end-of-input
    /// token, and the position lies within it.
    pub closed spec fn wf(&self) -> bool {
        terminated(self.tokens@) && self.current < self.tokens@.len()
    }

    /// A parser at the start of `tokens`. The node of token `i` gets the id
    /// `base + i`, so that the nodes of programs parsed with different bases
    /// can be told apart.
    pub fn new(tokens: Vec<RcToken>, base: usize) -> (r: Parser)
        requires
            terminated(tokens@),
        ensures
            r.wf(),
            r@ == (ParserState {
                source: Source { tokens: tokens@, base },
                current: 0,
                errors: Seq::empty(),
            }),
    {
        Parser { tokens, current: 0, base, errors: Vec::new() }
    }

    fn peek_kind(&self) -> (r: TokenType)
        requires
            self.wf(),
        ensures
            r == kind_at(self@.source, self@.current),
    {
        self.tokens[self.current].type_
    }

    fn is_at_end(&self) -> (r: bool)
        requires
            self.wf(),
        ensures
            r == at_end(self@.source, self@.current),
    {
        matches!(self.tokens[self.current].type_, TokenType::EOF)
    }

    /// The token at the current position.
    fn peek(&self) -> (r: RcToken)
        requires
            self.wf(),
        ensures
            r == self@.source.tokens[self@.current],
    {
        Rc::clone(&self.tokens[self.current])
    }

    /// Reads the token at the current position, which is not the last.
    fn advance(&mut self) -> (r: RcToken)
        requires
            old(self).wf(),
            !at_end(old(self)@.source, old(self)@.current),
        ensures
            final(self).wf(),
            r == old(self)@.source.tokens[old(self)@.current],
            final(self)@ == (ParserState { current: old(self)@.current + 1, ..old(self)@ }),
    {
        let token = Rc::clone(&self.tokens[self.current]);
        assert(self.current < self.tokens.len());
        self.current = self.current + 1;
        token
    }

    fn error(token: RcToken, message: Message) -> (r: LoxError)
        ensures
            r == (LoxError::ParseError { token, message }),
    {
        LoxError::ParseError { token, message }
    }

    /// Notes an error that does not end what is being parsed.
    fn report(&mut self, error: LoxError)
        requires
            old(self).wf(),
        ensures
            final(self).wf(),
            final(self)@ == (ParserState { errors: old(self)@.errors.push(error), ..old(self)@ }),
    {
        self.errors.push(error);
    }

    /// Reads a token of kind `kind`, or fails with `message`.
    fn consume(&mut self, kind: TokenType, message: Message) -> (r: Result<RcToken, LoxError>)
        requires
            old(self).wf(),
            kind != TokenType::EOF,
        ensures
            final(self).wf(),
            moved(old(self)@, final(self)@, expected(old(self)@.source, old(self)@.current, kind, message)),
            r == expected(old(self)@.source, old(self)@.current, kind, message).value,
    {
        if self.peek_kind() == kind {
            let token = self.advance();
            assert(self@.errors =~= old(self)@.errors + Seq::<LoxError>::empty());
            Ok(token)
        } else {
            assert(self@.errors =~= old(self)@.errors + Seq::<LoxError>::empty());
            Err(Parser::error(self.peek(), message))
        }
    }

    /// The id of the node whose name is the token before the current one.
    fn previous_id(&self) -> (r: usize)
        requires
            self.wf(),
            self@.current >= 1,
        ensures
            r == node_id(self@.source, self@.current - 1),
    {
        let index = self.current - 1;
        if index <= usize::MAX - self.base {
            self.base + index
        } else {
            usize::MAX
        }
    }

    fn expression(&mut self) -> (r: Result<Expr, LoxError>)
        requires
            old(self).wf(),
        ensures
            final(self).wf(),
            moved(old(self)@, final(self)@, expression(old(self)@.source, old(self)@.current)),
            shown_expr(r) == expression(old(self)@.source, old(self)@.current).value,
        decreases remaining(old(self)@.source, old(self)@.current), 30nat,
    {
        self.assignment()
    }

    fn assignment(&mut self) -> (r: Result<Expr, LoxError>)
        requires
            old(self).wf(),
        ensures
            final(self).wf(),
            moved(old(self)@, final(self)@, assignment(old(self)@.source, old(self)@.current)),
            shown_expr(r) == assignment(old(self)@.source, old(self)@.current).value,
        decreases remaining(old(self)@.source, old(self)@.current), 29nat,
    {
        let ghost src = self@.source;
        let ghost pos = self@.current;
        let ghost target = binary(src, pos, 0);
        let expr = self.binary(0)?;
        if matches!(self.peek_kind(), TokenType::EQUAL) {
            let equals = self.advance();
            let ghost value = assignment(src, pos + target.used + 1);
            let outcome = self.assignment();
            assert(self@.errors =~= old(self)@.errors + (target.reported + value.reported));
            let value = outcome?;
            match expr {
                Expr::Variable { name, id } => {
                    return Ok(Expr::Assign { name, value: Rc::new(value), id });
                },
                other => {
                    self.report(Parser::error(equals, Message::InvalidAssignmentTarget));
                    assert(self@.errors =~= old(self)@.errors + assignment(src, pos).reported);
                    return Ok(other);
                },
            }
        }
        Ok(expr)
    }

    /// A chain of binary operators of one level, left-associative.
    fn binary(&mut self, level: u8) -> (r: Result<Expr, LoxError>)
        requires
            old(self).wf(),
        ensures
            final(self).wf(),
            moved(
                old(self)@,
                final(self)@,
                binary(old(self)@.source, old(self)@.current, level as nat),
            ),
            shown_expr(r) == binary(old(self)@.source, old(self)@.current, level as nat).value,
        decreases remaining(old(self)@.source, old(self)@.current),
            crate::grammar::level_rank(level as nat),
    {
        let ghost src = self@.source;
        let ghost pos = self@.current;
        let ghost first = if level >= 5 {
            unary(src, pos)
        } else {
            binary(src, pos, level as nat + 1)
        };
        let mut expr = if level >= 5 {
            self.unary()?
        } else {
            self.binary(level + 1)?
        };
        let ghost reported = first.reported;
        while self.binds_next(level)
            invariant
                self.wf(),
                self@.source == src,
                src == old(self)@.source,
                pos == old(self)@.current,
                self@.current >= pos,
                self@.errors == old(self)@.errors + reported,
                binary(src, pos, level as nat) == binary_rest(
                    src,
                    pos,
                    (self@.current - pos) as nat,
                    level as nat,
                    expr_view(expr),
                    reported,
                ),
            decreases remaining(src, self@.current),
        {
            let ghost used = (self@.current - pos) as nat;
            let operator = self.advance();
            let ghost right = if level >= 5 {
                unary(src, pos + used + 1)
            } else {
                binary(src, pos + used + 1, level as nat + 1)
            };
            let outcome = if level >= 5 {
                self.unary()
            } else {
                self.binary(level + 1)
            };
            assert(self@.errors =~= old(self)@.errors + (reported + right.reported));
            let right_expr = outcome?;
            expr = join(level, expr, operator, right_expr);
            proof {
                reported = reported + right.reported;
            }
        }
        Ok(expr)
    }

    /// Whether the next token is an operator of level `level`.
    fn binds_next(&self, level: u8) -> (r: bool)
        requires
            self.wf(),
        ensures
            r == binds(level as nat, kind_at(self@.source, self@.current)),
    {
        binds_kind(level, self.peek_kind())
    }

    /// Whether the next token is of kind `kind`.
    fn check(&self, kind: TokenType) -> (r: bool)
        requires
            self.wf(),
        ensures
            r == (kind_at(self@.source, self@.current) == kind),
    {
        self.peek_kind() == kind
    }

    fn unary(&mut self) -> (r: Result<Expr, LoxError>)
        requires
            old(self).wf(),
        ensures
            final(self).wf(),
            moved(old(self)@, final(self)@, unary(old(self)@.source, old(self)@.current)),
            shown_expr(r) == unary(old(self)@.source, old(self)@.current).value,
        decreases remaining(old(self)@.source, old(self)@.current), 22nat,
    {
        if matches!(self.peek_kind(), TokenType::BANG | TokenType::MINUS) {
            let operator = self.advance();
            let outcome = self.unary();
            assert(self@.errors =~= old(self)@.errors + unary(
                old(self)@.source,
                old(self)@.current,
            ).reported);
            let right = outcome?;
            return Ok(Expr::Unary { operator, right: Rc::new(right) });
        }
        self.call()
    }

    /// A primary expression and the argument lists that follow it.
    fn call(&mut self) -> (r: Result<Expr, LoxError>)
        requires
            old(self).wf(),
        ensures
            final(self).wf(),
            moved(old(self)@, final(self)@, call(old(self)@.source, old(self)@.current)),
            shown_expr(r) == call(old(self)@.source, old(self)@.current).value,
        decreases remaining(old(self)@.source, old(self)@.current), 21nat,
    {
        let ghost src = self@.source;
        let ghost pos = self@.current;
        let mut expr = self.primary()?;
        let ghost reported = primary(src, pos).reported;
        while self.check(TokenType::LEFT_PAREN)
            invariant
                self.wf(),
                self@.source == src,
                src == old(self)@.source,
                pos == old(self)@.current,
                self@.current >= pos,
                self@.errors == old(self)@.errors + reported,
                call(src, pos) == call_rest(
                    src,
                    pos,
                    (self@.current - pos) as nat,
                    expr_view(expr),
                    reported,
                ),
            decreases remaining(src, self@.current),
        {
            let ghost used = (self@.current - pos) as nat;
            self.advance();
            let ghost made = finish_call(src, pos + used + 1, expr_view(expr));
            let outcome = self.finish_call(expr);
            assert(self@.errors =~= old(self)@.errors + (reported + made.reported));
            expr = outcome?;
            proof {
                reported = reported + made.reported;
            }
        }
        Ok(expr)
    }

    fn primary(&mut self) -> (r: Result<Expr, LoxError>)
        requires
            old(self).wf(),
        ensures
            final(self).wf(),
            moved(old(self)@, final(self)@, primary(old(self)@.source, old(self)@.current)),
            shown_expr(r) == primary(old(self)@.source, old(self)@.current).value,
        decreases remaining(old(self)@.source, old(self)@.current), 20nat,
    {
        let ghost src = self@.source;
        let ghost pos = self@.current;
        proof {
            assert(old(self)@.errors + Seq::<LoxError>::empty() =~= old(self)@.errors);
        }
        match self.peek_kind() {
            TokenType::FALSE => {
                self.advance();
                Ok(Expr::Literal(Literal::BOOL(false)))
            },
            TokenType::TRUE => {
                self.advance();
                Ok(Expr::Literal(Literal::BOOL(true)))
            },
            TokenType::NIL => {
                self.advance();
                Ok(Expr::Literal(Literal::NIL))
            },
            TokenType::NUMBER | TokenType::STRING => {
                let token = self.advance();
                Ok(Expr::Literal(token.literal.clone()))
            },
            TokenType::IDENTIFIER => {
                let name = self.advance();
                let id = self.previous_id();
                Ok(Expr::Variable { name, id })
            },
            TokenType::LEFT_PAREN => {
                self.advance();
                let ghost inner = expression(src, pos + 1);
                let outcome = self.expression();
                assert(self@.errors =~= old(self)@.errors + inner.reported);
                let expr = outcome?;
                let closing = self.consume(
                    TokenType::RIGHT_PAREN,
                    Message::ExpectParenAfterExpression,
                );
                assert(self@.errors =~= old(self)@.errors + inner.reported);
                closing?;
                Ok(Expr::Grouping(Rc::new(expr)))
            },
            _ => Err(Parser::error(self.peek(), Message::ExpectExpression)),
        }
    }

    /// The arguments and the closing parenthesis of a call whose opening
    /// parenthesis has been read.
    fn finish_call(&mut self, callee: Expr) -> (r: Result<Expr, LoxError>)
        requires
            old(self).wf(),
        ensures
            final(self).wf(),
            moved(
                old(self)@,
                final(self)@,
                finish_call(old(self)@.source, old(self)@.current, expr_view(callee)),
            ),
            shown_expr(r) == finish_call(
                old(self)@.source,
                old(self)@.current,
                expr_view(callee),
            ).value,
        decreases remaining(old(self)@.source, old(self)@.current), 32nat,
    {
        let ghost src = self@.source;
        let ghost pos = self@.current;
        let ghost list = if kind_at(src, pos) != TokenType::RIGHT_PAREN {
            arguments(src, pos, 0)
        } else {
            done(Seq::<ExprView>::empty(), 0, Seq::<LoxError>::empty())
        };
        let arguments = if !self.check(TokenType::RIGHT_PAREN) {
            self.arguments()?
        } else {
            assert(self@.errors =~= old(self)@.errors + Seq::<LoxError>::empty());
            Vec::new()
        };
        let closing = self.consume(TokenType::RIGHT_PAREN, Message::ExpectParenAfterArguments);
        assert(self@.errors =~= old(self)@.errors + list.reported);
        let paren = closing?;
        assert(expr_views(arguments@, arguments@.len()) == list.value->Ok_0);
        let made = Expr::Call { callee: Rc::new(callee), paren, arguments };
        assert(expr_view(made) == (ExprView::Call {
            callee: Box::new(expr_view(callee)),
            paren,
            arguments: list.value->Ok_0,
        }));
        Ok(made)
    }

    /// One or more expressions with commas between them.
    fn arguments(&mut self) -> (r: Result<Vec<RcExpr>, LoxError>)
        requires
            old(self).wf(),
        ensures
            final(self).wf(),
            moved(old(self)@, final(self)@, arguments(old(self)@.source, old(self)@.current, 0)),
            match r {
                Ok(list) => Ok::<Seq<ExprView>, LoxError>(expr_views(list@, list@.len())),
                Err(e) => Err(e),
            } == arguments(old(self)@.source, old(self)@.current, 0).value,
        decreases remaining(old(self)@.source, old(self)@.current), 31nat,
    {
        let ghost src = self@.source;
        let ghost pos = self@.current;
        let mut list: Vec<RcExpr> = Vec::new();
        let ghost reported = Seq::<LoxError>::empty();
        assert(old(self)@.errors + reported =~= old(self)@.errors);
        assert(prefixed(Seq::<ExprView>::empty(), 0, reported, arguments(src, pos, 0))
            == arguments(src, pos, 0)) by {
            let p = arguments(src, pos, 0);
            if p.value is Ok {
                assert(Seq::<ExprView>::empty() + p.value->Ok_0 =~= p.value->Ok_0);
            }
            assert(reported + p.reported =~= p.reported);
        }
        loop
            invariant_except_break
                arguments(src, pos, 0) == prefixed(
                    expr_views(list@, list@.len()),
                    (self@.current - pos) as nat,
                    reported,
                    arguments(src, self@.current, list@.len()),
                ),
            invariant
                self.wf(),
                self@.source == src,
                src == old(self)@.source,
                pos == old(self)@.current,
                self@.current >= pos,
                self@.errors == old(self)@.errors + reported,
            ensures
                arguments(src, pos, 0) == done(
                    expr_views(list@, list@.len()),
                    (self@.current - pos) as nat,
                    reported,
                ),
            decreases remaining(src, self@.current),
        {
            let ghost here = self@.current;
            let ghost used = (here - pos) as nat;
            let ghost shown = expr_views(list@, list@.len());
            let ghost count = list@.len();
            let ghost before = reported;
            proof {
                lemma_arguments_step(src, here, count, shown, used, before);
            }
            if list.len() >= 255 {
                self.report(Parser::error(self.peek(), Message::TooManyArguments));
            }
            let ghost complaint = if count >= list_limit() {
                seq![syntax_error(src, here, Message::TooManyArguments)]
            } else {
                Seq::empty()
            };
            let ghost first = expression(src, here);
            let outcome = self.expression();
            proof {
                reported = before + complaint + first.reported;
            }
            assert(self@.errors =~= old(self)@.errors + reported);
            let argument = match outcome {
                Ok(a) => a,
                Err(e) => {
                    return Err(e);
                },
            };
            let ghost old_list = list@;
            list.push(Rc::new(argument));
            proof {
                lemma_expr_views(old_list, old_list.len());
                lemma_expr_views(list@, list@.len());
                assert(expr_views(list@, list@.len()) =~= shown.push(first.value->Ok_0));
            }
            if !self.check(TokenType::COMMA) {
                break ;
            }
            self.advance();
        }
        Ok(list)
    }
    /// An expression and the token of kind `kind` that must end it.
    fn closed_expression(&mut self, kind: TokenType, message: Message) -> (r: Result<Expr, LoxError>)
        requires
            old(self).wf(),
            kind != TokenType::EOF,
        ensures
            final(self).wf(),
            moved(
                old(self)@,
                final(self)@,
                closed_expression(old(self)@.source, old(self)@.current, kind, message),
            ),
            shown_expr(r) == closed_expression(
                old(self)@.source,
                old(self)@.current,
                kind,
                message,
            ).value,
        decreases remaining(old(self)@.source, old(self)@.current), 33nat,
    {
        reveal(closed_expression);
        let ghost value = expression(old(self)@.source, old(self)@.current);
        let expr = self.expression()?;
        let closing = self.consume(kind, message);
        assert(self@.errors =~= old(self)@.errors + value.reported);
        closing?;
        Ok(expr)
    }

    fn expression_statement(&mut self) -> (r: Result<Stmt, LoxError>)
        requires
            old(self).wf(),
        ensures
            final(self).wf(),
            moved(
                old(self)@,
                final(self)@,
                expression_statement(old(self)@.source, old(self)@.current),
            ),
            shown_stmt(r) == expression_statement(old(self)@.source, old(self)@.current).value,
        decreases remaining(old(self)@.source, old(self)@.current), 34nat,
    {
        reveal(expression_statement);
        let ghost value = closed_expression(
            old(self)@.source,
            old(self)@.current,
            TokenType::SEMICOLON,
            Message::ExpectSemicolonAfterExpression,
        );
        assert(Seq::<LoxError>::empty() + value.reported =~= value.reported);
        let expr = self.closed_expression(
            TokenType::SEMICOLON,
            Message::ExpectSemicolonAfterExpression,
        )?;
        Ok(Stmt::Expression { expr: Rc::new(expr) })
    }

    fn print_statement(&mut self) -> (r: Result<Stmt, LoxError>)
        requires
            old(self).wf(),
        ensures
            final(self).wf(),
            moved(old(self)@, final(self)@, print_statement(old(self)@.source, old(self)@.current)),
            shown_stmt(r) == print_statement(old(self)@.source, old(self)@.current).value,
        decreases remaining(old(self)@.source, old(self)@.current), 35nat,
    {
        reveal(print_statement);
        let ghost value = closed_expression(
            old(self)@.source,
            old(self)@.current,
            TokenType::SEMICOLON,
            Message::ExpectSemicolonAfterValue,
        );
        assert(Seq::<LoxError>::empty() + value.reported =~= value.reported);
        let expr = self.closed_expression(TokenType::SEMICOLON, Message::ExpectSemicolonAfterValue)?;
        Ok(Stmt::Print { expr: Rc::new(expr) })
    }

    /// The rest of a `return` statement, whose keyword has been read.
    fn return_statement(&mut self, keyword: RcToken) -> (r: Result<Stmt, LoxError>)
        requires
            old(self).wf(),
        ensures
            final(self).wf(),
            moved(
                old(self)@,
                final(self)@,
                return_statement(old(self)@.source, old(self)@.current, keyword),
            ),
            shown_stmt(r) == return_statement(old(self)@.source, old(self)@.current, keyword).value,
        decreases remaining(old(self)@.source, old(self)@.current), 35nat,
    {
        reveal(return_statement);
        if !self.check(TokenType::SEMICOLON) {
            let ghost value = closed_expression(
                old(self)@.source,
                old(self)@.current,
                TokenType::SEMICOLON,
                Message::ExpectSemicolonAfterReturnValue,
            );
            assert(Seq::<LoxError>::empty() + value.reported =~= value.reported);
            let expr = self.closed_expression(
                TokenType::SEMICOLON,
                Message::ExpectSemicolonAfterReturnValue,
            )?;
            Ok(Stmt::Return { keyword, value: Rc::new(expr) })
        } else {
            self.advance();
            assert(self@.errors =~= old(self)@.errors + Seq::<LoxError>::empty());
            Ok(Stmt::Return { keyword, value: Rc::new(Expr::Literal(Literal::NIL)) })
        }
    }

    /// The rest of a `var` declaration, whose keyword has been read.
    fn var_declaration(&mut self) -> (r: Result<Stmt, LoxError>)
        requires
            old(self).wf(),
        ensures
            final(self).wf(),
            moved(old(self)@, final(self)@, var_declaration(old(self)@.source, old(self)@.current)),
            shown_stmt(r) == var_declaration(old(self)@.source, old(self)@.current).value,
        decreases remaining(old(self)@.source, old(self)@.current), 35nat,
    {
        reveal(var_declaration);
        let ghost src = self@.source;
        let ghost pos = self@.current;
        assert(old(self)@.errors + Seq::<LoxError>::empty() =~= old(self)@.errors);
        let name = self.consume(TokenType::IDENTIFIER, Message::ExpectVariableName)?;
        if self.check(TokenType::EQUAL) {
            self.advance();
            let ghost value = closed_expression(
                src,
                pos + 2,
                TokenType::SEMICOLON,
                Message::ExpectSemicolonAfterVariableDeclaration,
            );
            assert(Seq::<LoxError>::empty() + value.reported =~= value.reported);
            let expr = self.closed_expression(
                TokenType::SEMICOLON,
                Message::ExpectSemicolonAfterVariableDeclaration,
            )?;
            Ok(Stmt::Var { name, initializer: Some(Rc::new(expr)) })
        } else {
            self.consume(TokenType::SEMICOLON, Message::ExpectSemicolonAfterVariableDeclaration)?;
            Ok(Stmt::Var { name, initializer: None })
        }
    }

    /// A condition in parentheses, and the statement that it governs.
    fn governed(&mut self, open: Message, close: Message) -> (r: Result<(Expr, Stmt), LoxError>)
        requires
            old(self).wf(),
        ensures
            final(self).wf(),
            moved(
                old(self)@,
                final(self)@,
                governed(old(self)@.source, old(self)@.current, open, close),
            ),
            match r {
                Ok(pair) => Ok::<(ExprView, StmtView), LoxError>(
                    (expr_view(pair.0), stmt_view(pair.1)),
                ),
                Err(e) => Err(e),
            } == governed(old(self)@.source, old(self)@.current, open, close).value,
        decreases remaining(old(self)@.source, old(self)@.current), 35nat,
    {
        let ghost src = self@.source;
        let ghost pos = self@.current;
        assert(old(self)@.errors + Seq::<LoxError>::empty() =~= old(self)@.errors);
        self.consume(TokenType::LEFT_PAREN, open)?;
        let ghost condition = closed_expression(src, pos + 1, TokenType::RIGHT_PAREN, close);
        assert(Seq::<LoxError>::empty() + condition.reported =~= condition.reported);
        let expr = self.closed_expression(TokenType::RIGHT_PAREN, close)?;
        let ghost body = statement(src, pos + 1 + condition.used);
        let outcome = self.statement();
        assert(self@.errors =~= old(self)@.errors + (condition.reported + body.reported));
        let stmt = outcome?;
        Ok((expr, stmt))
    }

    fn while_statement(&mut self) -> (r: Result<Stmt, LoxError>)
        requires
            old(self).wf(),
        ensures
            final(self).wf(),
            moved(old(self)@, final(self)@, while_statement(old(self)@.source, old(self)@.current)),
            shown_stmt(r) == while_statement(old(self)@.source, old(self)@.current).value,
        decreases remaining(old(self)@.source, old(self)@.current), 36nat,
    {
        let ghost parts = governed(
            old(self)@.source,
            old(self)@.current,
            Message::ExpectParenAfterWhile,
            Message::ExpectParenAfterCondition,
        );
        assert(Seq::<LoxError>::empty() + parts.reported =~= parts.reported);
        let (condition, body) = self.governed(
            Message::ExpectParenAfterWhile,
            Message::ExpectParenAfterCondition,
        )?;
        Ok(Stmt::While { condition: Rc::new(condition), body: Rc::new(body) })
    }

    fn if_statement(&mut self) -> (r: Result<Stmt, LoxError>)
        requires
            old(self).wf(),
        ensures
            final(self).wf(),
            moved(old(self)@, final(self)@, if_statement(old(self)@.source, old(self)@.current)),
            shown_stmt(r) == if_statement(old(self)@.source, old(self)@.current).value,
        decreases remaining(old(self)@.source, old(self)@.current), 36nat,
    {
        let ghost src = self@.source;
        let ghost pos = self@.current;
        let ghost parts = governed(
            src,
            pos,
            Message::ExpectParenAfterIf,
            Message::ExpectParenAfterIfCondition,
        );
        assert(Seq::<LoxError>::empty() + parts.reported =~= parts.reported);
        let (condition, then_branch) = self.governed(
            Message::ExpectParenAfterIf,
            Message::ExpectParenAfterIfCondition,
        )?;
        let else_branch = if self.check(TokenType::ELSE) {
            self.advance();
            let ghost otherwise = statement(src, pos + parts.used + 1);
            let outcome = self.statement();
            assert(self@.errors =~= old(self)@.errors + (parts.reported + otherwise.reported));
            Some(Rc::new(outcome?))
        } else {
            None
        };
        Ok(
            Stmt::If {
                condition: Rc::new(condition),
                then_branch: Rc::new(then_branch),
                else_branch,
            },
        )
    }
    /// The first clause of a `for`: nothing, a declaration, or an expression.
    fn for_initializer(&mut self) -> (r: Result<Option<Stmt>, LoxError>)
        requires
            old(self).wf(),
        ensures
            final(self).wf(),
            moved(old(self)@, final(self)@, for_initializer(old(self)@.source, old(self)@.current)),
            match r {
                Ok(Some(s)) => Ok::<Option<StmtView>, LoxError>(Some(stmt_view(s))),
                Ok(None) => Ok(None),
                Err(e) => Err(e),
            } == for_initializer(old(self)@.source, old(self)@.current).value,
        decreases remaining(old(self)@.source, old(self)@.current), 36nat,
    {
        reveal(for_initializer);
        let ghost src = self@.source;
        let ghost pos = self@.current;
        assert(old(self)@.errors + Seq::<LoxError>::empty() =~= old(self)@.errors);
        if self.check(TokenType::SEMICOLON) {
            self.advance();
            Ok(None)
        } else if self.check(TokenType::VAR) {
            self.advance();
            let ghost first = var_declaration(src, pos + 1);
            assert(Seq::<LoxError>::empty() + first.reported =~= first.reported);
            Ok(Some(self.var_declaration()?))
        } else {
            let ghost first = expression_statement(src, pos);
            assert(Seq::<LoxError>::empty() + first.reported =~= first.reported);
            Ok(Some(self.expression_statement()?))
        }
    }

    /// A later clause of a `for`: an expression, or nothing, and the token
    /// of kind `kind` that ends the clause.
    fn for_clause(&mut self, kind: TokenType, message: Message) -> (r: Result<Option<Expr>, LoxError>)
        requires
            old(self).wf(),
            kind != TokenType::EOF,
        ensures
            final(self).wf(),
            moved(
                old(self)@,
                final(self)@,
                for_clause(old(self)@.source, old(self)@.current, kind, message),
            ),
            match r {
                Ok(Some(e)) => Ok::<Option<ExprView>, LoxError>(Some(expr_view(e))),
                Ok(None) => Ok(None),
                Err(e) => Err(e),
            } == for_clause(old(self)@.source, old(self)@.current, kind, message).value,
        decreases remaining(old(self)@.source, old(self)@.current), 36nat,
    {
        reveal(for_clause);
        assert(old(self)@.errors + Seq::<LoxError>::empty() =~= old(self)@.errors);
        if !self.check(kind) {
            let ghost value = closed_expression(
                old(self)@.source,
                old(self)@.current,
                kind,
                message,
            );
            assert(Seq::<LoxError>::empty() + value.reported =~= value.reported);
            Ok(Some(self.closed_expression(kind, message)?))
        } else {
            self.advance();
            Ok(None)
        }
    }

    /// The three clauses of a `for`, in their parentheses.
    fn for_header(&mut self) -> (r: Result<(Option<Stmt>, Option<Expr>, Option<Expr>), LoxError>)
        requires
            old(self).wf(),
        ensures
            final(self).wf(),
            moved(old(self)@, final(self)@, for_header(old(self)@.source, old(self)@.current)),
            match r {
                Ok(h) => Ok::<ForHeader, LoxError>(
                    ForHeader {
                        initializer: match h.0 {
                            Some(s) => Some(stmt_view(s)),
                            None => None,
                        },
                        condition: match h.1 {
                            Some(e) => Some(expr_view(e)),
                            None => None,
                        },
                        increment: match h.2 {
                            Some(e) => Some(expr_view(e)),
                            None => None,
                        },
                    },
                ),
                Err(e) => Err(e),
            } == for_header(old(self)@.source, old(self)@.current).value,
        decreases remaining(old(self)@.source, old(self)@.current), 37nat,
    {
        reveal(for_header);
        let ghost src = self@.source;
        let ghost pos = self@.current;
        assert(old(self)@.errors + Seq::<LoxError>::empty() =~= old(self)@.errors);
        self.consume(TokenType::LEFT_PAREN, Message::ExpectParenAfterFor)?;
        let ghost first = for_initializer(src, pos + 1);
        assert(Seq::<LoxError>::empty() + first.reported =~= first.reported);
        let initializer = self.for_initializer()?;
        let ghost second = for_clause(
            src,
            pos + 1 + first.used,
            TokenType::SEMICOLON,
            Message::ExpectSemicolonAfterLoopCondition,
        );
        let outcome = self.for_clause(
            TokenType::SEMICOLON,
            Message::ExpectSemicolonAfterLoopCondition,
        );
        assert(self@.errors =~= old(self)@.errors + (first.reported + second.reported));
        let condition = outcome?;
        let ghost third = for_clause(
            src,
            pos + 1 + first.used + second.used,
            TokenType::RIGHT_PAREN,
            Message::ExpectParenAfterForClauses,
        );
        let outcome = self.for_clause(TokenType::RIGHT_PAREN, Message::ExpectParenAfterForClauses);
        assert(self@.errors =~= old(self)@.errors + (first.reported + second.reported
            + third.reported));
        let increment = outcome?;
        Ok((initializer, condition, increment))
    }

    /// The rest of a `for` statement, whose keyword has been read.
    fn for_statement(&mut self) -> (r: Result<Stmt, LoxError>)
        requires
            old(self).wf(),
        ensures
            final(self).wf(),
            moved(old(self)@, final(self)@, for_statement(old(self)@.source, old(self)@.current)),
            shown_stmt(r) == for_statement(old(self)@.source, old(self)@.current).value,
        decreases remaining(old(self)@.source, old(self)@.current), 45nat,
    {
        let ghost src = self@.source;
        let ghost pos = self@.current;
        let ghost header = for_header(src, pos);
        assert(Seq::<LoxError>::empty() + header.reported =~= header.reported);
        let (initializer, condition, increment) = self.for_header()?;
        let ghost body = statement(src, pos + header.used);
        let outcome = self.statement();
        assert(self@.errors =~= old(self)@.errors + (header.reported + body.reported));
        let body = outcome?;
        Ok(desugar(initializer, condition, increment, body))
    }

    fn statement(&mut self) -> (r: Result<Stmt, LoxError>)
        requires
            old(self).wf(),
        ensures
            final(self).wf(),
            moved(old(self)@, final(self)@, statement(old(self)@.source, old(self)@.current)),
            shown_stmt(r) == statement(old(self)@.source, old(self)@.current).value,
        decreases remaining(old(self)@.source, old(self)@.current), 38nat,
    {
        let ghost src = self@.source;
        let ghost pos = self@.current;
        match self.peek_kind() {
            TokenType::FOR => {
                self.advance();
                self.for_statement()
            },
            TokenType::IF => {
                self.advance();
                self.if_statement()
            },
            TokenType::PRINT => {
                self.advance();
                self.print_statement()
            },
            TokenType::RETURN => {
                let keyword = self.advance();
                self.return_statement(keyword)
            },
            TokenType::WHILE => {
                self.advance();
                self.while_statement()
            },
            TokenType::LEFT_BRACE => {
                self.advance();
                let ghost inside = block(src, pos + 1);
                assert(Seq::<LoxError>::empty() + inside.reported =~= inside.reported);
                let statements = self.block()?;
                Ok(Stmt::Block { statements: Rc::new(statements) })
            },
            _ => self.expression_statement(),
        }
    }

    /// One or more parameter names with commas between them.
    fn parameters(&mut self) -> (r: Result<Vec<RcToken>, LoxError>)
        requires
            old(self).wf(),
        ensures
            final(self).wf(),
            moved(old(self)@, final(self)@, parameters(old(self)@.source, old(self)@.current, 0)),
            match r {
                Ok(list) => Ok::<Seq<RcToken>, LoxError>(list@),
                Err(e) => Err(e),
            } == parameters(old(self)@.source, old(self)@.current, 0).value,
    {
        let ghost src = self@.source;
        let ghost pos = self@.current;
        let mut list: Vec<RcToken> = Vec::new();
        let ghost reported = Seq::<LoxError>::empty();
        assert(old(self)@.errors + reported =~= old(self)@.errors);
        assert(prefixed(Seq::<RcToken>::empty(), 0, reported, parameters(src, pos, 0))
            == parameters(src, pos, 0)) by {
            let p = parameters(src, pos, 0);
            if p.value is Ok {
                assert(Seq::<RcToken>::empty() + p.value->Ok_0 =~= p.value->Ok_0);
            }
            assert(reported + p.reported =~= p.reported);
        }
        loop
            invariant_except_break
                parameters(src, pos, 0) == prefixed(
                    list@,
                    (self@.current - pos) as nat,
                    reported,
                    parameters(src, self@.current, list@.len()),
                ),
            invariant
                self.wf(),
                self@.source == src,
                src == old(self)@.source,
                pos == old(self)@.current,
                self@.current >= pos,
                self@.errors == old(self)@.errors + reported,
            ensures
                parameters(src, pos, 0) == done(list@, (self@.current - pos) as nat, reported),
            decreases remaining(src, self@.current),
        {
            let ghost here = self@.current;
            let ghost before = reported;
            proof {
                lemma_parameters_step(src, here, list@.len(), list@, (here - pos) as nat, before);
            }
            if list.len() >= 255 {
                self.report(Parser::error(self.peek(), Message::TooManyParameters));
            }
            let ghost complaint = if list@.len() >= list_limit() {
                seq![syntax_error(src, here, Message::TooManyParameters)]
            } else {
                Seq::empty()
            };
            let outcome = self.consume(TokenType::IDENTIFIER, Message::ExpectParameterName);
            proof {
                reported = before + complaint;
            }
            assert(self@.errors =~= old(self)@.errors + reported);
            let name = match outcome {
                Ok(n) => n,
                Err(e) => {
                    return Err(e);
                },
            };
            list.push(name);
            if !self.check(TokenType::COMMA) {
                break ;
            }
            self.advance();
        }
        Ok(list)
    }

    /// The rest of a function declaration, whose keyword has been read.
        fn function(&mut self) -> (r: Result<Stmt, LoxError>)
        requires
            old(self).wf(),
        ensures
            final(self).wf(),
            moved(old(self)@, final(self)@, function(old(self)@.source, old(self)@.current)),
            shown_stmt(r) == function(old(self)@.source, old(self)@.current).value,
        decreases remaining(old(self)@.source, old(self)@.current), 42nat,
    {
        let ghost src = self@.source;
        let ghost pos = self@.current;
        assert(old(self)@.errors + Seq::<LoxError>::empty() =~= old(self)@.errors);
        let name = self.consume(TokenType::IDENTIFIER, Message::ExpectFunctionName)?;
        self.consume(TokenType::LEFT_PAREN, Message::ExpectParenAfterFunctionName)?;
        let ghost list = if kind_at(src, pos + 2) != TokenType::RIGHT_PAREN {
            parameters(src, pos + 2, 0)
        } else {
            done(Seq::<RcToken>::empty(), 0, Seq::<LoxError>::empty())
        };
        assert(Seq::<LoxError>::empty() + list.reported =~= list.reported);
        let parameters = if !self.check(TokenType::RIGHT_PAREN) {
            self.parameters()?
        } else {
            Vec::new()
        };
        assert(parameters@ =~= list.value->Ok_0);
        let ghost u1 = 2 + list.used;
        let closing = self.consume(TokenType::RIGHT_PAREN, Message::ExpectParenAfterParameters);
        assert(self@.errors =~= old(self)@.errors + list.reported);
        closing?;
        let opening = self.consume(TokenType::LEFT_BRACE, Message::ExpectBraceBeforeFunctionBody);
        assert(self@.errors =~= old(self)@.errors + list.reported);
        opening?;
        let ghost inside = block(src, pos + u1 + 2);
        let outcome = self.block();
        assert(self@.errors =~= old(self)@.errors + (list.reported + inside.reported));
        let body = outcome?;
        Ok(Stmt::Function { name, params: Rc::new(parameters), body: Rc::new(body) })
    }

    /// The rest of a block, whose opening brace has been read.
    fn block(&mut self) -> (r: Result<Vec<RcStmt>, LoxError>)
        requires
            old(self).wf(),
        ensures
            final(self).wf(),
            moved(old(self)@, final(self)@, block(old(self)@.source, old(self)@.current)),
            shown_stmts(r) == block(old(self)@.source, old(self)@.current).value,
        decreases remaining(old(self)@.source, old(self)@.current), 41nat,
    {
        let ghost src = self@.source;
        let ghost pos = self@.current;
        let mut statements: Vec<RcStmt> = Vec::new();
        let ghost reported = Seq::<LoxError>::empty();
        assert(old(self)@.errors + reported =~= old(self)@.errors);
        assert(prefixed(Seq::<StmtView>::empty(), 0, reported, block_items(src, pos))
            == block_items(src, pos)) by {
            let p = block_items(src, pos);
            if p.value is Ok {
                assert(Seq::<StmtView>::empty() + p.value->Ok_0 =~= p.value->Ok_0);
            }
            assert(reported + p.reported =~= p.reported);
        }
        loop
            invariant_except_break
                block_items(src, pos) == prefixed(
                    stmt_views(statements@, statements@.len()),
                    (self@.current - pos) as nat,
                    reported,
                    block_items(src, self@.current),
                ),
            invariant
                self.wf(),
                self@.source == src,
                src == old(self)@.source,
                pos == old(self)@.current,
                self@.current >= pos,
                self@.errors == old(self)@.errors + reported,
            ensures
                block_items(src, pos) == done(
                    stmt_views(statements@, statements@.len()),
                    (self@.current - pos) as nat,
                    reported,
                ),
            decreases remaining(src, self@.current),
        {
            let ghost here = self@.current;
            let ghost before = reported;
            let ghost shown = stmt_views(statements@, statements@.len());
            proof {
                lemma_block_step(src, here, shown, (here - pos) as nat, before);
            }
            if self.check(TokenType::RIGHT_BRACE) || self.is_at_end() {
                break ;
            }
            let ghost first = declaration(src, here);
            let start = self.current;
            let outcome = self.declaration();
            proof {
                reported = before + first.reported;
            }
            assert(self@.errors =~= old(self)@.errors + reported);
            let statement = match outcome {
                Ok(s) => s,
                Err(e) => {
                    return Err(e);
                },
            };
            let ghost old_list = statements@;
            statements.push(Rc::new(statement));
            proof {
                lemma_stmt_views(old_list, old_list.len());
                lemma_stmt_views(statements@, statements@.len());
                assert(stmt_views(statements@, statements@.len()) =~= shown.push(
                    first.value->Ok_0,
                ));
            }
            if self.current == start {
                break ;
            }
        }
        let ghost items = block_items(src, pos);
        let closing = self.consume(TokenType::RIGHT_BRACE, Message::ExpectBraceAfterBlock);
        assert(self@.errors =~= old(self)@.errors + items.reported);
        closing?;
        Ok(statements)
    }

    /// Drops the tokens up to the next statement.
    fn synchronize(&mut self)
        requires
            old(self).wf(),
        ensures
            final(self).wf(),
            final(self)@ == (ParserState {
                current: old(self)@.current + synchronized(old(self)@.source, old(self)@.current),
                ..old(self)@
            }),
    {
        reveal(synchronized);
        if self.is_at_end() {
            return ;
        }
        self.advance();
        while !self.stops()
            invariant
                self.wf(),
                self@.current >= 1,
                self@.current + dropped(self@.source, self@.current) == old(self)@.current + 1
                    + dropped(old(self)@.source, old(self)@.current + 1),
                self@ == (ParserState { current: self@.current, ..old(self)@ }),
            decreases remaining(self@.source, self@.current),
        {
            self.advance();
        }
    }

    /// Whether dropping tokens stops at the current position.
    fn stops(&self) -> (r: bool)
        requires
            self.wf(),
            self@.current >= 1,
        ensures
            r == (dropped(self@.source, self@.current) == 0),
            !r ==> !at_end(self@.source, self@.current),
    {
        if self.is_at_end() {
            return true;
        }
        if matches!(self.tokens[self.current - 1].type_, TokenType::SEMICOLON) {
            return true;
        }
        matches!(
            self.peek_kind(),
            TokenType::CLASS
                | TokenType::FUN
                | TokenType::VAR
                | TokenType::FOR
                | TokenType::IF
                | TokenType::WHILE
                | TokenType::PRINT
                | TokenType::RETURN
        )
    }

    /// A declaration: of a function, of a variable, or a statement.
        fn declaration(&mut self) -> (r: Result<Stmt, LoxError>)
        requires
            old(self).wf(),
        ensures
            final(self).wf(),
            moved(old(self)@, final(self)@, declaration(old(self)@.source, old(self)@.current)),
            shown_stmt(r) == declaration(old(self)@.source, old(self)@.current).value,
        decreases remaining(old(self)@.source, old(self)@.current), 39nat,
    {
        let res = if self.check(TokenType::FUN) {
            self.advance();
            self.function()
        } else if self.check(TokenType::VAR) {
            self.advance();
            self.var_declaration()
        } else {
            self.statement()
        };
        match res {
            Err(e) => {
                self.synchronize();
                Err(e)
            },
            Ok(s) => Ok(s),
        }
    }

    /// Parses the tokens from the current position to the end of input.
    ///
    /// Returns the statements that parsed and every error, in the order in
    /// which they were found. A declaration that fails is left out and
    /// parsing goes on with the next statement. The parser's own list of
    /// errors is empty afterwards.
    pub fn parse(&mut self) -> (r: (Vec<RcStmt>, Vec<LoxError>))
        requires
            old(self).wf(),
        ensures
            final(self).wf(),
            ({
                let whole = program(old(self)@.source, old(self)@.current);
                &&& stmt_views(r.0@, r.0@.len()) == whole.statements
                &&& r.1@ == old(self)@.errors + whole.errors
                &&& final(self)@ == (ParserState {
                    current: old(self)@.current + whole.used,
                    errors: Seq::empty(),
                    ..old(self)@
                })
            }),
    {
        let ghost src = self@.source;
        let ghost pos = self@.current;
        let mut statements: Vec<RcStmt> = Vec::new();
        let ghost noted = Seq::<LoxError>::empty();
        assert(old(self)@.errors + noted =~= old(self)@.errors);
        assert(folded(Seq::<StmtView>::empty(), noted, 0, program(src, pos)) == program(src, pos))
            by {
            let p = program(src, pos);
            assert(Seq::<StmtView>::empty() + p.statements =~= p.statements);
            assert(noted + p.errors =~= p.errors);
        }
        loop
            invariant_except_break
                program(src, pos) == folded(
                    stmt_views(statements@, statements@.len()),
                    noted,
                    (self@.current - pos) as nat,
                    program(src, self@.current),
                ),
            invariant
                self.wf(),
                self@.source == src,
                src == old(self)@.source,
                pos == old(self)@.current,
                self@.current >= pos,
                self@.errors == old(self)@.errors + noted,
            ensures
                program(src, pos) == (Program {
                    statements: stmt_views(statements@, statements@.len()),
                    errors: noted,
                    used: (self@.current - pos) as nat,
                }),
            decreases remaining(src, self@.current),
        {
            reveal(synchronized);
            let ghost here = self@.current;
            let ghost before = noted;
            let ghost shown = stmt_views(statements@, statements@.len());
            proof {
                lemma_program_step(src, here, shown, before, (here - pos) as nat);
            }
            if self.is_at_end() {
                break ;
            }
            let ghost first = top_declaration(src, here);
            proof {
                reveal(top_declaration);
            }
            let start = self.current;
            let outcome = self.declaration();
            assert(self@.errors =~= old(self)@.errors + (before + first.reported));
            let ghost old_list = statements@;
            match outcome {
                Ok(s) => {
                    statements.push(Rc::new(s));
                    proof {
                        noted = before + first.reported;
                        lemma_stmt_views(old_list, old_list.len());
                        lemma_stmt_views(statements@, statements@.len());
                        assert(stmt_views(statements@, statements@.len()) =~= shown.push(
                            first.value->Ok_0,
                        ));
                    }
                },
                Err(e) => {
                    self.report(e);
                    proof {
                        noted = (before + first.reported).push(e);
                    }
                    assert(self@.errors =~= old(self)@.errors + noted);
                },
            }
            if self.current == start {
                break ;
            }
        }
        let mut errors: Vec<LoxError> = Vec::new();
        std::mem::swap(&mut errors, &mut self.errors);
        (statements, errors)
    }
}

/// `statements` and `errors` found in `used` tokens, and then `more`.
pub open spec fn folded(statements: Seq<StmtView>, errors: Seq<LoxError>, used: nat, more: Program) -> Program {
    Program {
        statements: statements + more.statements,
        errors: errors + more.errors,
        used: used + more.used,
    }
}

/// Builds the loop that a `for` statement stands for.
fn desugar(initializer: Option<Stmt>, condition: Option<Expr>, increment: Option<Expr>, body: Stmt) -> (r:
    Stmt)
    ensures
        stmt_view(r) == desugared(
            match initializer {
                Some(s) => Some(stmt_view(s)),
                None => None,
            },
            match condition {
                Some(e) => Some(expr_view(e)),
                None => None,
            },
            match increment {
                Some(e) => Some(expr_view(e)),
                None => None,
            },
            stmt_view(body),
        ),
{
    let stepped = match increment {
        Some(inc) => pair_block(body, Stmt::Expression { expr: Rc::new(inc) }),
        None => body,
    };
    let test = match condition {
        Some(c) => c,
        None => Expr::Literal(Literal::BOOL(true)),
    };
    let looped = Stmt::While { condition: Rc::new(test), body: Rc::new(stepped) };
    match initializer {
        Some(init) => pair_block(init, looped),
        None => looped,
    }
}

/// A block of two statements.
fn pair_block(first: Stmt, second: Stmt) -> (r: Stmt)
    ensures
        stmt_view(r) == (StmtView::Block { statements: seq![stmt_view(first), stmt_view(second)] }),
{
    let mut list: Vec<RcStmt> = Vec::new();
    list.push(Rc::new(first));
    list.push(Rc::new(second));
    proof {
        lemma_stmt_views(list@, 2);
        assert(stmt_views(list@, list@.len()) =~= seq![stmt_view(first), stmt_view(second)]);
    }
    Stmt::Block { statements: Rc::new(list) }
}

/// One step of reading a list of parameters.
proof fn lemma_parameters_step(
    src: Source,
    here: int,
    count: nat,
    items: Seq<RcToken>,
    used: nat,
    reported: Seq<LoxError>,
)
    ensures
        ({
            let complaint = if count >= list_limit() {
                seq![syntax_error(src, here, Message::TooManyParameters)]
            } else {
                Seq::empty()
            };
            let name = expected(src, here, TokenType::IDENTIFIER, Message::ExpectParameterName);
            let whole = prefixed(items, used, reported, parameters(src, here, count));
            let noted = reported + complaint;
            if name.value is Err {
                whole == stopped::<Seq<RcToken>>(name.value->Err_0, used, noted)
            } else if kind_at(src, here + 1) == TokenType::COMMA {
                whole == prefixed(
                    items.push(name.value->Ok_0),
                    used + 2,
                    noted,
                    parameters(src, here + 2, count + 1),
                )
            } else {
                whole == done(items.push(name.value->Ok_0), used + 1, noted)
            }
        }),
{
    let complaint = if count >= list_limit() {
        seq![syntax_error(src, here, Message::TooManyParameters)]
    } else {
        Seq::empty()
    };
    let name = expected(src, here, TokenType::IDENTIFIER, Message::ExpectParameterName);
    let noted = reported + complaint;
    assert(complaint + name.reported =~= complaint);
    if name.value is Err {
    } else if kind_at(src, here + 1) == TokenType::COMMA {
        let others = parameters(src, here + 2, count + 1);
        assert(reported + (complaint + others.reported) =~= noted + others.reported);
        if others.value is Ok {
            assert(items + (seq![name.value->Ok_0] + others.value->Ok_0) =~= items.push(
                name.value->Ok_0,
            ) + others.value->Ok_0);
        }
    } else {
        assert(items + seq![name.value->Ok_0] =~= items.push(name.value->Ok_0));
    }
}

/// One step of reading the declarations of a block.
proof fn lemma_block_step(
    src: Source,
    here: int,
    items: Seq<StmtView>,
    used: nat,
    reported: Seq<LoxError>,
)
    ensures
        ({
            let whole = prefixed(items, used, reported, block_items(src, here));
            let first = declaration(src, here);
            let noted = reported + first.reported;
            if kind_at(src, here) == TokenType::RIGHT_BRACE || at_end(src, here) {
                whole == done(items, used, reported)
            } else if first.value is Err {
                whole == stopped::<Seq<StmtView>>(first.value->Err_0, used + first.used, noted)
            } else if first.used == 0 {
                whole == done(items.push(first.value->Ok_0), used, noted)
            } else {
                whole == prefixed(
                    items.push(first.value->Ok_0),
                    used + first.used,
                    noted,
                    block_items(src, here + first.used),
                )
            }
        }),
{
    let first = declaration(src, here);
    let noted = reported + first.reported;
    if kind_at(src, here) == TokenType::RIGHT_BRACE || at_end(src, here) {
        assert(items + Seq::<StmtView>::empty() =~= items);
        assert(reported + Seq::<LoxError>::empty() =~= reported);
    } else if first.value is Err {
        assert(Seq::<LoxError>::empty() + first.reported =~= first.reported);
    } else if first.used == 0 {
        assert(items + seq![first.value->Ok_0] =~= items.push(first.value->Ok_0));
    } else {
        let others = block_items(src, here + first.used);
        assert(reported + (first.reported + others.reported) =~= noted + others.reported);
        if others.value is Ok {
            assert(items + (seq![first.value->Ok_0] + others.value->Ok_0) =~= items.push(
                first.value->Ok_0,
            ) + others.value->Ok_0);
        }
    }
}

/// One step of reading the declarations of a program.
proof fn lemma_program_step(
    src: Source,
    here: int,
    items: Seq<StmtView>,
    errors: Seq<LoxError>,
    used: nat,
)
    ensures
        ({
            let whole = folded(items, errors, used, program(src, here));
            let first = top_declaration(src, here);
            let shown = match first.value {
                Ok(s) => items.push(s),
                Err(_) => items,
            };
            let noted = match first.value {
                Ok(_) => errors + first.reported,
                Err(e) => (errors + first.reported).push(e),
            };
            if at_end(src, here) {
                whole == (Program { statements: items, errors, used })
            } else if first.used == 0 {
                whole == (Program { statements: shown, errors: noted, used })
            } else {
                whole == folded(shown, noted, used + first.used, program(src, here + first.used))
            }
        }),
{
    let first = top_declaration(src, here);
    if at_end(src, here) {
        assert(items + Seq::<StmtView>::empty() =~= items);
        assert(errors + Seq::<LoxError>::empty() =~= errors);
    } else {
        let statements = match first.value {
            Ok(s) => seq![s],
            Err(_) => Seq::empty(),
        };
        let found = match first.value {
            Ok(_) => first.reported,
            Err(e) => first.reported.push(e),
        };
        let shown = match first.value {
            Ok(s) => items.push(s),
            Err(_) => items,
        };
        let noted = match first.value {
            Ok(_) => errors + first.reported,
            Err(e) => (errors + first.reported).push(e),
        };
        assert(items + statements =~= shown);
        assert(errors + found =~= noted);
        if first.used != 0 {
            let others = program(src, here + first.used);
            assert(items + (statements + others.statements) =~= shown + others.statements);
            assert(errors + (found + others.errors) =~= noted + others.errors);
        }
    }
}

/// One step of reading a list of arguments: what the whole list comes to,
/// after `items` were read, in terms of the next expression and the rest.
proof fn lemma_arguments_step(
    src: Source,
    here: int,
    count: nat,
    items: Seq<ExprView>,
    used: nat,
    reported: Seq<LoxError>,
)
    ensures
        ({
            let complaint = if count >= list_limit() {
                seq![syntax_error(src, here, Message::TooManyArguments)]
            } else {
                Seq::empty()
            };
            let first = expression(src, here);
            let whole = prefixed(items, used, reported, arguments(src, here, count));
            let noted = reported + complaint + first.reported;
            if first.value is Err {
                whole == stopped::<Seq<ExprView>>(first.value->Err_0, used + first.used, noted)
            } else if kind_at(src, here + first.used) == TokenType::COMMA {
                whole == prefixed(
                    items.push(first.value->Ok_0),
                    used + first.used + 1,
                    noted,
                    arguments(src, here + first.used + 1, count + 1),
                )
            } else {
                whole == done(items.push(first.value->Ok_0), used + first.used, noted)
            }
        }),
{
    let complaint = if count >= list_limit() {
        seq![syntax_error(src, here, Message::TooManyArguments)]
    } else {
        Seq::empty()
    };
    let first = expression(src, here);
    let noted = reported + complaint + first.reported;
    assert(reported + (complaint + first.reported) =~= noted);
    if first.value is Err {
    } else if kind_at(src, here + first.used) == TokenType::COMMA {
        let others = arguments(src, here + first.used + 1, count + 1);
        assert(reported + (complaint + first.reported + others.reported) =~= noted
            + others.reported);
        if others.value is Ok {
            assert(items + (seq![first.value->Ok_0] + others.value->Ok_0) =~= items.push(
                first.value->Ok_0,
            ) + others.value->Ok_0);
        }
    } else {
        assert(items + seq![first.value->Ok_0] =~= items.push(first.value->Ok_0));
    }
}

} // verus!
