use crate::expr::{expr_view, ExprView, RcExpr};
use crate::token::RcToken;
use std::rc::Rc;
use vstd::prelude::*;

verus! {

/// A statement of the syntax tree. Nodes are immutable and shared.
#[allow(inconsistent_fields)]
#[derive(Debug, Clone, PartialEq, Eq, Hash)]
pub enum Stmt {
    Block { statements: Rc<Vec<RcStmt>> },
    Expression { expr: RcExpr },
    Function { name: RcToken, params: Rc<Vec<RcToken>>, body: Rc<Vec<RcStmt>> },
    If { condition: RcExpr, then_branch: RcStmt, else_branch: Option<RcStmt> },
    Print { expr: RcExpr },
    Return { keyword: RcToken, value: RcExpr },
    Var { name: RcToken, initializer: Option<RcExpr> },
    While { condition: RcExpr, body: RcStmt },
}

pub type RcStmt = Rc<Stmt>;

/// The tree that a [`Stmt`] denotes, with sequences in place of vectors.
#[allow(inconsistent_fields)]
pub enum StmtView {
    Block { statements: Seq<StmtView> },
    Expression { expr: ExprView },
    Function { name: RcToken, params: Seq<RcToken>, body: Seq<StmtView> },
    If { condition: ExprView, then_branch: Box<StmtView>, else_branch: Option<Box<StmtView>> },
    Print { expr: ExprView },
    Return { keyword: RcToken, value: ExprView },
    Var { name: RcToken, initializer: Option<ExprView> },
    While { condition: ExprView, body: Box<StmtView> },
}

/// The views of the first `n` statements of `list`.
pub open spec fn stmt_views(list: Seq<RcStmt>, n: nat) -> Seq<StmtView>
    decreases list, n,
{
    if n == 0 || n > list.len() {
        Seq::empty()
    } else {
        stmt_views(list, (n - 1) as nat).push(stmt_view(*list[n - 1]))
    }
}

/// The tree that `s` denotes.
pub open spec fn stmt_view(s: Stmt) -> StmtView
    decreases s,
{
    match s {
        Stmt::Block { statements } => StmtView::Block {
            statements: stmt_views(statements@, statements@.len()),
        },
        Stmt::Expression { expr } => StmtView::Expression { expr: expr_view(*expr) },
        Stmt::Function { name, params, body } => StmtView::Function {
            name,
            params: params@,
            body: stmt_views(body@, body@.len()),
        },
        Stmt::If { condition, then_branch, else_branch } => StmtView::If {
            condition: expr_view(*condition),
            then_branch: Box::new(stmt_view(*then_branch)),
            else_branch: match else_branch {
                Some(e) => Some(Box::new(stmt_view(*e))),
                None => None,
            },
        },
        Stmt::Print { expr } => StmtView::Print { expr: expr_view(*expr) },
        Stmt::Return { keyword, value } => StmtView::Return { keyword, value: expr_view(*value) },
        Stmt::Var { name, initializer } => StmtView::Var {
            name,
            initializer: match initializer {
                Some(e) => Some(expr_view(*e)),
                None => None,
            },
        },
        Stmt::While { condition, body } => StmtView::While {
            condition: expr_view(*condition),
            body: Box::new(stmt_view(*body)),
        },
    }
}

impl View for Stmt {
    type V = StmtView;

    open spec fn view(&self) -> StmtView {
        stmt_view(*self)
    }
}

/// `stmt_views` keeps the length of the prefix it is asked for and views each
/// statement in place.
pub proof fn lemma_stmt_views(list: Seq<RcStmt>, n: nat)
    requires
        n <= list.len(),
    ensures
        stmt_views(list, n).len() == n,
        forall|i: int| 0 <= i < n ==> (#[trigger] stmt_views(list, n)[i]) == list[i]@,
    decreases n,
{
    if n > 0 {
        lemma_stmt_views(list, (n - 1) as nat);
    }
}

} // verus!
