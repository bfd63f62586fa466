use crate::expr::ExprView;
use crate::lox::{LoxError, Message};
use crate::stmt::StmtView;
use crate::token::{Literal, RcToken};
use crate::token_type::TokenType;
use vstd::prelude::*;

verus! {

/// What is parsed: the tokens, and the id that the node of the first token
/// would get.
pub struct Source {
    pub tokens: Seq<RcToken>,
    pub base: usize,
}

/// The outcome of parsing one construct at some position: the tree or the
/// error that ended it, the number of tokens read, and the errors reported
/// on the way that did not end it.
pub struct Parsed<T> {
    pub value: Result<T, LoxError>,
    pub used: nat,
    pub reported: Seq<LoxError>,
}

/// The kind of the token at `pos`; past the last token, the end of input.
pub open spec fn kind_at(src: Source, pos: int) -> TokenType {
    if 0 <= pos < src.tokens.len() {
        src.tokens[pos].type_
    } else {
        TokenType::EOF
    }
}

pub open spec fn at_end(src: Source, pos: int) -> bool {
    kind_at(src, pos) == TokenType::EOF
}

/// The number of tokens from `pos` on.
pub open spec fn remaining(src: Source, pos: int) -> nat {
    if pos < src.tokens.len() {
        (src.tokens.len() - pos) as nat
    } else {
        0
    }
}

/// The id of the node whose name is the token at `pos`.
pub open spec fn node_id(src: Source, pos: int) -> usize {
    if 0 <= pos && src.base + pos <= usize::MAX {
        (src.base + pos) as usize
    } else {
        usize::MAX
    }
}

pub open spec fn syntax_error(src: Source, pos: int, message: Message) -> LoxError {
    LoxError::ParseError { token: src.tokens[pos], message }
}

pub open spec fn done<T>(value: T, used: nat, reported: Seq<LoxError>) -> Parsed<T> {
    Parsed { value: Ok(value), used, reported }
}

pub open spec fn stopped<T>(error: LoxError, used: nat, reported: Seq<LoxError>) -> Parsed<T> {
    Parsed { value: Err(error), used, reported }
}

/// The failure of a part, as the failure of the whole that had read `used`
/// tokens and reported `reported` before the part began.
pub open spec fn failing<T, U>(part: Parsed<T>, used: nat, reported: Seq<LoxError>) -> Parsed<U> {
    Parsed { value: Err(part.value->Err_0), used: used + part.used, reported: reported + part.reported }
}

/// `part`, read after `used` more tokens.
pub open spec fn later<T>(part: Parsed<T>, used: nat) -> Parsed<T> {
    Parsed { used: used + part.used, ..part }
}

/// Reads the token at `pos` if it is of kind `kind`; fails with `message`
/// at that token if it is not.
pub open spec fn expected(src: Source, pos: int, kind: TokenType, message: Message) -> Parsed<RcToken> {
    if kind_at(src, pos) == kind {
        done(src.tokens[pos], 1, Seq::empty())
    } else {
        stopped(syntax_error(src, pos, message), 0, Seq::empty())
    }
}

/// The levels of binary operators, from the loosest to the tightest:
/// `or`, `and`, equality, comparison, term, factor.
pub open spec fn binds(level: nat, kind: TokenType) -> bool {
    if level == 0 {
        kind == TokenType::OR
    } else if level == 1 {
        kind == TokenType::AND
    } else if level == 2 {
        kind == TokenType::BANG_EQUAL || kind == TokenType::EQUAL_EQUAL
    } else if level == 3 {
        kind == TokenType::GREATER || kind == TokenType::GREATER_EQUAL || kind == TokenType::LESS
            || kind == TokenType::LESS_EQUAL
    } else if level == 4 {
        kind == TokenType::MINUS || kind == TokenType::PLUS
    } else if level == 5 {
        kind == TokenType::SLASH || kind == TokenType::STAR
    } else {
        false
    }
}

pub open spec fn joined(level: nat, left: ExprView, operator: RcToken, right: ExprView) -> ExprView {
    if level <= 1 {
        ExprView::Logical { left: Box::new(left), operator, right: Box::new(right) }
    } else {
        ExprView::Binary { left: Box::new(left), operator, right: Box::new(right) }
    }
}

pub open spec fn level_rank(level: nat) -> nat {
    if level <= 5 {
        (28 - level) as nat
    } else {
        23
    }
}

pub open spec fn expression(src: Source, pos: int) -> Parsed<ExprView>
    decreases remaining(src, pos), 30nat,
{
    assignment(src, pos)
}

/// `target = value`, right-associative. A target that is not a variable is
/// reported at the `=`, and the target stands for the whole.
pub open spec fn assignment(src: Source, pos: int) -> Parsed<ExprView>
    decreases remaining(src, pos), 29nat,
{
    let target = binary(src, pos, 0);
    if target.value is Err {
        target
    } else if kind_at(src, pos + target.used) == TokenType::EQUAL {
        let value = assignment(src, pos + target.used + 1);
        if value.value is Err {
            failing(value, target.used + 1, target.reported)
        } else {
            match target.value->Ok_0 {
                ExprView::Variable { name, id } => done(
                    ExprView::Assign { name, value: Box::new(value.value->Ok_0), id },
                    target.used + 1 + value.used,
                    target.reported + value.reported,
                ),
                other => done(
                    other,
                    target.used + 1 + value.used,
                    (target.reported + value.reported).push(
                        syntax_error(src, pos + target.used, Message::InvalidAssignmentTarget),
                    ),
                ),
            }
        }
    } else {
        target
    }
}

/// A chain of operators of one level, left-associative.
pub open spec fn binary(src: Source, pos: int, level: nat) -> Parsed<ExprView>
    decreases remaining(src, pos), level_rank(level),
{
    let first = if level >= 5 {
        unary(src, pos)
    } else {
        binary(src, pos, level + 1)
    };
    if first.value is Err {
        first
    } else {
        binary_rest(src, pos, first.used, level, first.value->Ok_0, first.reported)
    }
}

/// Goes on with a chain of which `left` has been read, in `used` tokens.
pub open spec fn binary_rest(
    src: Source,
    start: int,
    used: nat,
    level: nat,
    left: ExprView,
    reported: Seq<LoxError>,
) -> Parsed<ExprView>
    decreases remaining(src, start + used), 19nat,
{
    if binds(level, kind_at(src, start + used)) {
        let right = if level >= 5 {
            unary(src, start + used + 1)
        } else {
            binary(src, start + used + 1, level + 1)
        };
        if right.value is Err {
            failing(right, used + 1, reported)
        } else {
            binary_rest(
                src,
                start,
                used + 1 + right.used,
                level,
                joined(level, left, src.tokens[start + used], right.value->Ok_0),
                reported + right.reported,
            )
        }
    } else {
        done(left, used, reported)
    }
}

pub open spec fn unary(src: Source, pos: int) -> Parsed<ExprView>
    decreases remaining(src, pos), 22nat,
{
    if kind_at(src, pos) == TokenType::BANG || kind_at(src, pos) == TokenType::MINUS {
        let right = unary(src, pos + 1);
        if right.value is Err {
            failing(right, 1, Seq::empty())
        } else {
            done(
                ExprView::Unary { operator: src.tokens[pos], right: Box::new(right.value->Ok_0) },
                1 + right.used,
                right.reported,
            )
        }
    } else {
        call(src, pos)
    }
}

/// A primary expression and the argument lists that follow it.
pub open spec fn call(src: Source, pos: int) -> Parsed<ExprView>
    decreases remaining(src, pos), 21nat,
{
    let first = primary(src, pos);
    if first.value is Err {
        first
    } else {
        call_rest(src, pos, first.used, first.value->Ok_0, first.reported)
    }
}

pub open spec fn call_rest(
    src: Source,
    start: int,
    used: nat,
    callee: ExprView,
    reported: Seq<LoxError>,
) -> Parsed<ExprView>
    decreases remaining(src, start + used), 19nat,
{
    if kind_at(src, start + used) == TokenType::LEFT_PAREN {
        let made = finish_call(src, start + used + 1, callee);
        if made.value is Err {
            failing(made, used + 1, reported)
        } else {
            call_rest(
                src,
                start,
                used + 1 + made.used,
                made.value->Ok_0,
                reported + made.reported,
            )
        }
    } else {
        done(callee, used, reported)
    }
}

/// The arguments and the closing parenthesis of a call whose opening
/// parenthesis has been read.
pub open spec fn finish_call(src: Source, pos: int, callee: ExprView) -> Parsed<ExprView>
    decreases remaining(src, pos), 32nat,
{
    let list = if kind_at(src, pos) != TokenType::RIGHT_PAREN {
        arguments(src, pos, 0)
    } else {
        done(Seq::empty(), 0, Seq::empty())
    };
    if list.value is Err {
        failing(list, 0, Seq::empty())
    } else {
        let paren = expected(
            src,
            pos + list.used,
            TokenType::RIGHT_PAREN,
            Message::ExpectParenAfterArguments,
        );
        if paren.value is Err {
            failing(paren, list.used, list.reported)
        } else {
            done(
                ExprView::Call {
                    callee: Box::new(callee),
                    paren: paren.value->Ok_0,
                    arguments: list.value->Ok_0,
                },
                list.used + 1,
                list.reported,
            )
        }
    }
}

/// The most arguments or parameters that are taken without a complaint.
pub open spec fn list_limit() -> nat {
    255
}

/// One or more expressions with commas between them, of which `count` came
/// before. Each one beyond the limit is reported and read all the same.
pub open spec fn arguments(src: Source, pos: int, count: nat) -> Parsed<Seq<ExprView>>
    decreases remaining(src, pos), 31nat,
{
    let complaint = if count >= list_limit() {
        seq![syntax_error(src, pos, Message::TooManyArguments)]
    } else {
        Seq::empty()
    };
    let first = expression(src, pos);
    if first.value is Err {
        failing(first, 0, complaint)
    } else if kind_at(src, pos + first.used) == TokenType::COMMA {
        let others = arguments(src, pos + first.used + 1, count + 1);
        if others.value is Err {
            failing(others, first.used + 1, complaint + first.reported)
        } else {
            done(
                seq![first.value->Ok_0] + others.value->Ok_0,
                first.used + 1 + others.used,
                complaint + first.reported + others.reported,
            )
        }
    } else {
        done(seq![first.value->Ok_0], first.used, complaint + first.reported)
    }
}

pub open spec fn primary(src: Source, pos: int) -> Parsed<ExprView>
    decreases remaining(src, pos), 20nat,
{
    match kind_at(src, pos) {
        TokenType::FALSE => done(ExprView::Literal(Literal::BOOL(false)), 1, Seq::empty()),
        TokenType::TRUE => done(ExprView::Literal(Literal::BOOL(true)), 1, Seq::empty()),
        TokenType::NIL => done(ExprView::Literal(Literal::NIL), 1, Seq::empty()),
        TokenType::NUMBER | TokenType::STRING => done(
            ExprView::Literal(src.tokens[pos].literal),
            1,
            Seq::empty(),
        ),
        TokenType::IDENTIFIER => done(
            ExprView::Variable { name: src.tokens[pos], id: node_id(src, pos) },
            1,
            Seq::empty(),
        ),
        TokenType::LEFT_PAREN => {
            let inner = expression(src, pos + 1);
            if inner.value is Err {
                failing(inner, 1, Seq::empty())
            } else {
                let close = expected(
                    src,
                    pos + 1 + inner.used,
                    TokenType::RIGHT_PAREN,
                    Message::ExpectParenAfterExpression,
                );
                if close.value is Err {
                    failing(close, 1 + inner.used, inner.reported)
                } else {
                    done(
                        ExprView::Grouping(Box::new(inner.value->Ok_0)),
                        inner.used + 2,
                        inner.reported,
                    )
                }
            }
        },
        _ => stopped(syntax_error(src, pos, Message::ExpectExpression), 0, Seq::empty()),
    }
}

/// An expression and the token of kind `kind` that must end it.
#[verifier::opaque]
pub open spec fn closed_expression(src: Source, pos: int, kind: TokenType, message: Message) -> Parsed<
    ExprView,
>
    decreases remaining(src, pos), 33nat,
{
    let value = expression(src, pos);
    if value.value is Err {
        value
    } else {
        let close = expected(src, pos + value.used, kind, message);
        if close.value is Err {
            failing(close, value.used, value.reported)
        } else {
            later(value, 1)
        }
    }
}

#[verifier::opaque]
pub open spec fn expression_statement(src: Source, pos: int) -> Parsed<StmtView>
    decreases remaining(src, pos), 34nat,
{
    let value = closed_expression(
        src,
        pos,
        TokenType::SEMICOLON,
        Message::ExpectSemicolonAfterExpression,
    );
    if value.value is Err {
        failing(value, 0, Seq::empty())
    } else {
        done(StmtView::Expression { expr: value.value->Ok_0 }, value.used, value.reported)
    }
}

#[verifier::opaque]
pub open spec fn print_statement(src: Source, pos: int) -> Parsed<StmtView>
    decreases remaining(src, pos), 35nat,
{
    let value = closed_expression(src, pos, TokenType::SEMICOLON, Message::ExpectSemicolonAfterValue);
    if value.value is Err {
        failing(value, 0, Seq::empty())
    } else {
        done(StmtView::Print { expr: value.value->Ok_0 }, value.used, value.reported)
    }
}

/// The rest of a `return` statement. Without a value it returns `nil`.
#[verifier::opaque]
pub open spec fn return_statement(src: Source, pos: int, keyword: RcToken) -> Parsed<StmtView>
    decreases remaining(src, pos), 35nat,
{
    if kind_at(src, pos) != TokenType::SEMICOLON {
        let value = closed_expression(
            src,
            pos,
            TokenType::SEMICOLON,
            Message::ExpectSemicolonAfterReturnValue,
        );
        if value.value is Err {
            failing(value, 0, Seq::empty())
        } else {
            done(StmtView::Return { keyword, value: value.value->Ok_0 }, value.used, value.reported)
        }
    } else {
        done(
            StmtView::Return { keyword, value: ExprView::Literal(Literal::NIL) },
            1,
            Seq::empty(),
        )
    }
}

/// The rest of a `var` declaration.
#[verifier::opaque]
pub open spec fn var_declaration(src: Source, pos: int) -> Parsed<StmtView>
    decreases remaining(src, pos), 35nat,
{
    let name = expected(src, pos, TokenType::IDENTIFIER, Message::ExpectVariableName);
    if name.value is Err {
        failing(name, 0, Seq::empty())
    } else if kind_at(src, pos + 1) == TokenType::EQUAL {
        let value = closed_expression(
            src,
            pos + 2,
            TokenType::SEMICOLON,
            Message::ExpectSemicolonAfterVariableDeclaration,
        );
        if value.value is Err {
            failing(value, 2, Seq::empty())
        } else {
            done(
                StmtView::Var { name: name.value->Ok_0, initializer: Some(value.value->Ok_0) },
                2 + value.used,
                value.reported,
            )
        }
    } else {
        let close = expected(
            src,
            pos + 1,
            TokenType::SEMICOLON,
            Message::ExpectSemicolonAfterVariableDeclaration,
        );
        if close.value is Err {
            failing(close, 1, Seq::empty())
        } else {
            done(StmtView::Var { name: name.value->Ok_0, initializer: None }, 2, Seq::empty())
        }
    }
}

/// A condition in parentheses, and the statement that it governs.
pub open spec fn governed(src: Source, pos: int, open: Message, close: Message) -> Parsed<
    (ExprView, StmtView),
>
    decreases remaining(src, pos), 35nat,
{
    let paren = expected(src, pos, TokenType::LEFT_PAREN, open);
    if paren.value is Err {
        failing(paren, 0, Seq::empty())
    } else {
        let condition = closed_expression(src, pos + 1, TokenType::RIGHT_PAREN, close);
        if condition.value is Err {
            failing(condition, 1, Seq::empty())
        } else {
            let body = statement(src, pos + 1 + condition.used);
            if body.value is Err {
                failing(body, 1 + condition.used, condition.reported)
            } else {
                done(
                    (condition.value->Ok_0, body.value->Ok_0),
                    1 + condition.used + body.used,
                    condition.reported + body.reported,
                )
            }
        }
    }
}

pub open spec fn while_statement(src: Source, pos: int) -> Parsed<StmtView>
    decreases remaining(src, pos), 36nat,
{
    let parts = governed(
        src,
        pos,
        Message::ExpectParenAfterWhile,
        Message::ExpectParenAfterCondition,
    );
    if parts.value is Err {
        failing(parts, 0, Seq::empty())
    } else {
        done(
            StmtView::While { condition: parts.value->Ok_0.0, body: Box::new(parts.value->Ok_0.1) },
            parts.used,
            parts.reported,
        )
    }
}

pub open spec fn if_statement(src: Source, pos: int) -> Parsed<StmtView>
    decreases remaining(src, pos), 36nat,
{
    let parts = governed(src, pos, Message::ExpectParenAfterIf, Message::ExpectParenAfterIfCondition);
    if parts.value is Err {
        failing(parts, 0, Seq::empty())
    } else if kind_at(src, pos + parts.used) == TokenType::ELSE {
        let otherwise = statement(src, pos + parts.used + 1);
        if otherwise.value is Err {
            failing(otherwise, parts.used + 1, parts.reported)
        } else {
            done(
                StmtView::If {
                    condition: parts.value->Ok_0.0,
                    then_branch: Box::new(parts.value->Ok_0.1),
                    else_branch: Some(Box::new(otherwise.value->Ok_0)),
                },
                parts.used + 1 + otherwise.used,
                parts.reported + otherwise.reported,
            )
        }
    } else {
        done(
            StmtView::If {
                condition: parts.value->Ok_0.0,
                then_branch: Box::new(parts.value->Ok_0.1),
                else_branch: None,
            },
            parts.used,
            parts.reported,
        )
    }
}

/// The first clause of a `for`: nothing, a declaration, or an expression.
#[verifier::opaque]
pub open spec fn for_initializer(src: Source, pos: int) -> Parsed<Option<StmtView>>
    decreases remaining(src, pos), 36nat,
{
    if kind_at(src, pos) == TokenType::SEMICOLON {
        done(None, 1, Seq::empty())
    } else {
        let first = if kind_at(src, pos) == TokenType::VAR {
            later(var_declaration(src, pos + 1), 1)
        } else {
            expression_statement(src, pos)
        };
        if first.value is Err {
            failing(first, 0, Seq::empty())
        } else {
            done(Some(first.value->Ok_0), first.used, first.reported)
        }
    }
}

/// A later clause of a `for`: an expression, or nothing, and the token of
/// kind `kind` that ends the clause.
#[verifier::opaque]
pub open spec fn for_clause(src: Source, pos: int, kind: TokenType, message: Message) -> Parsed<
    Option<ExprView>,
>
    decreases remaining(src, pos), 36nat,
{
    if kind_at(src, pos) != kind {
        let value = closed_expression(src, pos, kind, message);
        if value.value is Err {
            failing(value, 0, Seq::empty())
        } else {
            done(Some(value.value->Ok_0), value.used, value.reported)
        }
    } else {
        done(None, 1, Seq::empty())
    }
}

/// A `for` loop as the `while` loop that it stands for: the increment runs
/// after the body, a missing condition is `true`, and the initializer runs
/// once, before the loop, in a block of its own.
pub open spec fn desugared(
    initializer: Option<StmtView>,
    condition: Option<ExprView>,
    increment: Option<ExprView>,
    body: StmtView,
) -> StmtView {
    let stepped = match increment {
        Some(inc) => StmtView::Block { statements: seq![body, StmtView::Expression { expr: inc }] },
        None => body,
    };
    let looped = StmtView::While {
        condition: match condition {
            Some(c) => c,
            None => ExprView::Literal(Literal::BOOL(true)),
        },
        body: Box::new(stepped),
    };
    match initializer {
        Some(init) => StmtView::Block { statements: seq![init, looped] },
        None => looped,
    }
}

/// The three clauses of a `for`, in their parentheses.
pub struct ForHeader {
    pub initializer: Option<StmtView>,
    pub condition: Option<ExprView>,
    pub increment: Option<ExprView>,
}

#[verifier::opaque]
pub open spec fn for_header(src: Source, pos: int) -> Parsed<ForHeader>
    decreases remaining(src, pos), 37nat,
{
    let paren = expected(src, pos, TokenType::LEFT_PAREN, Message::ExpectParenAfterFor);
    if paren.value is Err {
        failing(paren, 0, Seq::empty())
    } else {
        let initializer = for_initializer(src, pos + 1);
        if initializer.value is Err {
            failing(initializer, 1, Seq::empty())
        } else {
            let condition = for_clause(
                src,
                pos + 1 + initializer.used,
                TokenType::SEMICOLON,
                Message::ExpectSemicolonAfterLoopCondition,
            );
            if condition.value is Err {
                failing(condition, 1 + initializer.used, initializer.reported)
            } else {
                let increment = for_clause(
                    src,
                    pos + 1 + initializer.used + condition.used,
                    TokenType::RIGHT_PAREN,
                    Message::ExpectParenAfterForClauses,
                );
                if increment.value is Err {
                    failing(
                        increment,
                        1 + initializer.used + condition.used,
                        initializer.reported + condition.reported,
                    )
                } else {
                    done(
                        ForHeader {
                            initializer: initializer.value->Ok_0,
                            condition: condition.value->Ok_0,
                            increment: increment.value->Ok_0,
                        },
                        1 + initializer.used + condition.used + increment.used,
                        initializer.reported + condition.reported + increment.reported,
                    )
                }
            }
        }
    }
}

/// The rest of a `for` statement, whose keyword has been read.
pub open spec fn for_statement(src: Source, pos: int) -> Parsed<StmtView>
    decreases remaining(src, pos), 45nat,
{
    let header = for_header(src, pos);
    if header.value is Err {
        failing(header, 0, Seq::empty())
    } else {
        let body = statement(src, pos + header.used);
        if body.value is Err {
            failing(body, header.used, header.reported)
        } else {
            done(
                desugared(
                    header.value->Ok_0.initializer,
                    header.value->Ok_0.condition,
                    header.value->Ok_0.increment,
                    body.value->Ok_0,
                ),
                header.used + body.used,
                header.reported + body.reported,
            )
        }
    }
}

pub open spec fn statement(src: Source, pos: int) -> Parsed<StmtView>
    decreases remaining(src, pos), 38nat,
{
    match kind_at(src, pos) {
        TokenType::FOR => later(for_statement(src, pos + 1), 1),
        TokenType::IF => later(if_statement(src, pos + 1), 1),
        TokenType::PRINT => later(print_statement(src, pos + 1), 1),
        TokenType::RETURN => later(return_statement(src, pos + 1, src.tokens[pos]), 1),
        TokenType::WHILE => later(while_statement(src, pos + 1), 1),
        TokenType::LEFT_BRACE => {
            let inside = block(src, pos + 1);
            if inside.value is Err {
                failing(inside, 1, Seq::empty())
            } else {
                done(
                    StmtView::Block { statements: inside.value->Ok_0 },
                    1 + inside.used,
                    inside.reported,
                )
            }
        },
        _ => expression_statement(src, pos),
    }
}

/// One or more parameter names with commas between them, of which `count`
/// came before.
pub open spec fn parameters(src: Source, pos: int, count: nat) -> Parsed<Seq<RcToken>>
    decreases remaining(src, pos), 31nat,
{
    let complaint = if count >= list_limit() {
        seq![syntax_error(src, pos, Message::TooManyParameters)]
    } else {
        Seq::empty()
    };
    let name = expected(src, pos, TokenType::IDENTIFIER, Message::ExpectParameterName);
    if name.value is Err {
        failing(name, 0, complaint)
    } else if kind_at(src, pos + 1) == TokenType::COMMA {
        let others = parameters(src, pos + 2, count + 1);
        if others.value is Err {
            failing(others, 2, complaint)
        } else {
            done(
                seq![name.value->Ok_0] + others.value->Ok_0,
                2 + others.used,
                complaint + others.reported,
            )
        }
    } else {
        done(seq![name.value->Ok_0], 1, complaint)
    }
}

/// The rest of a function declaration.
pub open spec fn function(src: Source, pos: int) -> Parsed<StmtView>
    decreases remaining(src, pos), 42nat,
{
    let name = expected(src, pos, TokenType::IDENTIFIER, Message::ExpectFunctionName);
    if name.value is Err {
        failing(name, 0, Seq::empty())
    } else {
        let paren = expected(
            src,
            pos + 1,
            TokenType::LEFT_PAREN,
            Message::ExpectParenAfterFunctionName,
        );
        if paren.value is Err {
            failing(paren, 1, Seq::empty())
        } else {
            let list = if kind_at(src, pos + 2) != TokenType::RIGHT_PAREN {
                parameters(src, pos + 2, 0)
            } else {
                done(Seq::empty(), 0, Seq::empty())
            };
            if list.value is Err {
                failing(list, 2, Seq::empty())
            } else {
                let u1 = 2 + list.used;
                let close = expected(
                    src,
                    pos + u1,
                    TokenType::RIGHT_PAREN,
                    Message::ExpectParenAfterParameters,
                );
                if close.value is Err {
                    failing(close, u1, list.reported)
                } else {
                    let brace = expected(
                        src,
                        pos + u1 + 1,
                        TokenType::LEFT_BRACE,
                        Message::ExpectBraceBeforeFunctionBody,
                    );
                    if brace.value is Err {
                        failing(brace, u1 + 1, list.reported)
                    } else {
                        let body = block(src, pos + u1 + 2);
                        if body.value is Err {
                            failing(body, u1 + 2, list.reported)
                        } else {
                            done(
                                StmtView::Function {
                                    name: name.value->Ok_0,
                                    params: list.value->Ok_0,
                                    body: body.value->Ok_0,
                                },
                                u1 + 2 + body.used,
                                list.reported + body.reported,
                            )
                        }
                    }
                }
            }
        }
    }
}

/// The declarations of a block up to its closing brace.
pub open spec fn block_items(src: Source, pos: int) -> Parsed<Seq<StmtView>>
    decreases remaining(src, pos), 40nat,
{
    if kind_at(src, pos) == TokenType::RIGHT_BRACE || at_end(src, pos) {
        done(Seq::empty(), 0, Seq::empty())
    } else {
        let first = declaration(src, pos);
        if first.value is Err {
            failing(first, 0, Seq::empty())
        } else if first.used == 0 {
            done(seq![first.value->Ok_0], 0, first.reported)
        } else {
            let others = block_items(src, pos + first.used);
            if others.value is Err {
                failing(others, first.used, first.reported)
            } else {
                done(
                    seq![first.value->Ok_0] + others.value->Ok_0,
                    first.used + others.used,
                    first.reported + others.reported,
                )
            }
        }
    }
}

/// The rest of a block whose opening brace has been read.
pub open spec fn block(src: Source, pos: int) -> Parsed<Seq<StmtView>>
    decreases remaining(src, pos), 41nat,
{
    let items = block_items(src, pos);
    if items.value is Err {
        items
    } else {
        let close = expected(
            src,
            pos + items.used,
            TokenType::RIGHT_BRACE,
            Message::ExpectBraceAfterBlock,
        );
        if close.value is Err {
            failing(close, items.used, items.reported)
        } else {
            later(items, 1)
        }
    }
}

/// Whether a statement may begin with a token of this kind.
pub open spec fn begins_statement(kind: TokenType) -> bool {
    kind == TokenType::CLASS || kind == TokenType::FUN || kind == TokenType::VAR || kind
        == TokenType::FOR || kind == TokenType::IF || kind == TokenType::WHILE || kind
        == TokenType::PRINT || kind == TokenType::RETURN
}

/// The number of tokens from `pos` on that are dropped before the next
/// statement: up to and with a semicolon, or up to a token that begins one.
pub open spec fn dropped(src: Source, pos: int) -> nat
    decreases remaining(src, pos),
{
    if at_end(src, pos) || kind_at(src, pos - 1) == TokenType::SEMICOLON || begins_statement(
        kind_at(src, pos),
    ) {
        0
    } else {
        1 + dropped(src, pos + 1)
    }
}

/// The number of tokens that are dropped after an error at `pos`: the token
/// at `pos`, and those up to the next statement.
#[verifier::opaque]
pub open spec fn synchronized(src: Source, pos: int) -> nat {
    if at_end(src, pos) {
        0
    } else {
        1 + dropped(src, pos + 1)
    }
}

/// A declaration: of a function, of a variable, or a statement. After an
/// error the tokens up to the next statement are dropped.
pub open spec fn declaration(src: Source, pos: int) -> Parsed<StmtView>
    decreases remaining(src, pos), 39nat,
{
    let made = if kind_at(src, pos) == TokenType::FUN {
        later(function(src, pos + 1), 1)
    } else if kind_at(src, pos) == TokenType::VAR {
        later(var_declaration(src, pos + 1), 1)
    } else {
        statement(src, pos)
    };
    if made.value is Err {
        Parsed { used: made.used + synchronized(src, pos + made.used), ..made }
    } else {
        made
    }
}

/// A declaration at the top level of a program.
#[verifier::opaque]
pub open spec fn top_declaration(src: Source, pos: int) -> Parsed<StmtView> {
    declaration(src, pos)
}

/// What parsing a whole program yields: its statements, and all its errors
/// in the order in which they were found.
pub struct Program {
    pub statements: Seq<StmtView>,
    pub errors: Seq<LoxError>,
    /// The number of tokens read.
    pub used: nat,
}

/// The declarations from `pos` to the end of input. One that fails is left
/// out, its error is noted, and parsing goes on behind it.
pub open spec fn program(src: Source, pos: int) -> Program
    decreases remaining(src, pos), 43nat,
{
    if at_end(src, pos) {
        Program { statements: Seq::empty(), errors: Seq::empty(), used: 0 }
    } else {
        let first = top_declaration(src, pos);
        let statements = match first.value {
            Ok(s) => seq![s],
            Err(_) => Seq::empty(),
        };
        let errors = match first.value {
            Ok(_) => first.reported,
            Err(e) => first.reported.push(e),
        };
        if first.used == 0 {
            Program { statements, errors, used: 0 }
        } else {
            let others = program(src, pos + first.used);
            Program {
                statements: statements + others.statements,
                errors: errors + others.errors,
                used: first.used + others.used,
            }
        }
    }
}

} // verus!

verus! {

/// Going on with a call never gives back tokens.
pub proof fn lemma_call_rest_reads(
    src: Source,
    start: int,
    used: nat,
    callee: ExprView,
    reported: Seq<LoxError>,
)
    ensures
        call_rest(src, start, used, callee, reported).used >= used,
    decreases remaining(src, start + used),
{
    if kind_at(src, start + used) == TokenType::LEFT_PAREN {
        let made = finish_call(src, start + used + 1, callee);
        if made.value is Ok {
            lemma_call_rest_reads(
                src,
                start,
                used + 1 + made.used,
                made.value->Ok_0,
                reported + made.reported,
            );
        }
    }
}

/// Going on with a chain of operators never gives back tokens.
pub proof fn lemma_binary_rest_reads(
    src: Source,
    start: int,
    used: nat,
    level: nat,
    left: ExprView,
    reported: Seq<LoxError>,
)
    ensures
        binary_rest(src, start, used, level, left, reported).used >= used,
    decreases remaining(src, start + used),
{
    if binds(level, kind_at(src, start + used)) {
        let right = if level >= 5 {
            unary(src, start + used + 1)
        } else {
            binary(src, start + used + 1, level + 1)
        };
        if right.value is Ok {
            lemma_binary_rest_reads(
                src,
                start,
                used + 1 + right.used,
                level,
                joined(level, left, src.tokens[start + used], right.value->Ok_0),
                reported + right.reported,
            );
        }
    }
}

/// A unary expression that parses reads at least one token.
pub proof fn lemma_unary_reads(src: Source, pos: int)
    ensures
        unary(src, pos).value is Ok ==> unary(src, pos).used >= 1,
{
    if !(kind_at(src, pos) == TokenType::BANG || kind_at(src, pos) == TokenType::MINUS) {
        let first = primary(src, pos);
        assert(first.value is Ok ==> first.used >= 1);
        if first.value is Ok {
            lemma_call_rest_reads(src, pos, first.used, first.value->Ok_0, first.reported);
            assert(call(src, pos) == call_rest(
                src,
                pos,
                first.used,
                first.value->Ok_0,
                first.reported,
            ));
        }
        assert(unary(src, pos) == call(src, pos));
    }
}

/// A chain of operators that parses reads at least one token.
pub proof fn lemma_binary_reads(src: Source, pos: int, level: nat)
    ensures
        binary(src, pos, level).value is Ok ==> binary(src, pos, level).used >= 1,
    decreases 6 - level,
{
    let first = if level >= 5 {
        unary(src, pos)
    } else {
        binary(src, pos, level + 1)
    };
    if level >= 5 {
        lemma_unary_reads(src, pos);
    } else {
        lemma_binary_reads(src, pos, level + 1);
    }
    if first.value is Ok {
        lemma_binary_rest_reads(src, pos, first.used, level, first.value->Ok_0, first.reported);
    }
}

/// An expression that parses reads at least one token.
pub proof fn lemma_expression_reads(src: Source, pos: int)
    ensures
        expression(src, pos).value is Ok ==> expression(src, pos).used >= 1,
{
    lemma_binary_reads(src, pos, 0);
}

/// Every declaration reads at least one token, whether it parses or fails:
/// unless the input has ended, parsing always moves on.
pub proof fn lemma_declaration_reads(src: Source, pos: int)
    requires
        !at_end(src, pos),
    ensures
        declaration(src, pos).used >= 1,
{
    reveal(synchronized);
    reveal(expression_statement);
    reveal(closed_expression);
    lemma_expression_reads(src, pos);
}

/// Parsing a program ends at the end of input.
pub proof fn lemma_program_reads_all(src: Source, pos: int)
    ensures
        at_end(src, pos + program(src, pos).used),
    decreases remaining(src, pos),
{
    reveal(top_declaration);
    if !at_end(src, pos) {
        lemma_declaration_reads(src, pos);
        lemma_program_reads_all(src, pos + declaration(src, pos).used);
    }
}

} // verus!
