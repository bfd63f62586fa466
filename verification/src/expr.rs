use crate::token::{Literal, RcToken};
use std::rc::Rc;
use vstd::prelude::*;

verus! {

/// An expression of the syntax tree. Nodes are immutable and shared.
///
/// A `Variable` or `Assign` node carries an `id` that identifies the node
/// itself: two references to the same name at different places in the source
/// have different ids, so the binding table can tell them apart.
#[derive(Debug, Clone, PartialEq, Eq, Hash)]
pub enum Expr {
    Assign { name: RcToken, value: RcExpr, id: usize },
    Binary { left: RcExpr, operator: RcToken, right: RcExpr },
    Call { callee: RcExpr, paren: RcToken, arguments: Vec<RcExpr> },
    Grouping(RcExpr),
    Literal(Literal),
    Logical { left: RcExpr, operator: RcToken, right: RcExpr },
    Unary { operator: RcToken, right: RcExpr },
    Variable { name: RcToken, id: usize },
}

pub type RcExpr = Rc<Expr>;

/// The tree that an [`Expr`] denotes, with sequences in place of vectors.
pub enum ExprView {
    Assign { name: RcToken, value: Box<ExprView>, id: usize },
    Binary { left: Box<ExprView>, operator: RcToken, right: Box<ExprView> },
    Call { callee: Box<ExprView>, paren: RcToken, arguments: Seq<ExprView> },
    Grouping(Box<ExprView>),
    Literal(Literal),
    Logical { left: Box<ExprView>, operator: RcToken, right: Box<ExprView> },
    Unary { operator: RcToken, right: Box<ExprView> },
    Variable { name: RcToken, id: usize },
}

/// The views of the first `n` expressions of `list`.
pub open spec fn expr_views(list: Seq<RcExpr>, n: nat) -> Seq<ExprView>
    decreases list, n,
{
    if n == 0 || n > list.len() {
        Seq::empty()
    } else {
        expr_views(list, (n - 1) as nat).push(expr_view(*list[n - 1]))
    }
}

/// The tree that `e` denotes.
pub open spec fn expr_view(e: Expr) -> ExprView
    decreases e,
{
    match e {
        Expr::Assign { name, value, id } => ExprView::Assign {
            name,
            value: Box::new(expr_view(*value)),
            id,
        },
        Expr::Binary { left, operator, right } => ExprView::Binary {
            left: Box::new(expr_view(*left)),
            operator,
            right: Box::new(expr_view(*right)),
        },
        Expr::Call { callee, paren, arguments } => ExprView::Call {
            callee: Box::new(expr_view(*callee)),
            paren,
            arguments: expr_views(arguments@, arguments@.len()),
        },
        Expr::Grouping(inner) => ExprView::Grouping(Box::new(expr_view(*inner))),
        Expr::Literal(value) => ExprView::Literal(value),
        Expr::Logical { left, operator, right } => ExprView::Logical {
            left: Box::new(expr_view(*left)),
            operator,
            right: Box::new(expr_view(*right)),
        },
        Expr::Unary { operator, right } => ExprView::Unary {
            operator,
            right: Box::new(expr_view(*right)),
        },
        Expr::Variable { name, id } => ExprView::Variable { name, id },
    }
}

impl View for Expr {
    type V = ExprView;

    open spec fn view(&self) -> ExprView {
        expr_view(*self)
    }
}

/// `expr_views` keeps the length of the prefix it is asked for and views each
/// expression in place.
pub proof fn lemma_expr_views(list: Seq<RcExpr>, n: nat)
    requires
        n <= list.len(),
    ensures
        expr_views(list, n).len() == n,
        forall|i: int| 0 <= i < n ==> (#[trigger] expr_views(list, n)[i]) == list[i]@,
    decreases n,
{
    if n > 0 {
        lemma_expr_views(list, (n - 1) as nat);
    }
}

} // verus!
