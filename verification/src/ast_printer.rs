use crate::expr::{expr_view, expr_views, lemma_expr_views, Expr, ExprView, RcExpr};
use crate::token::literal_text;
use vstd::prelude::*;
use vstd::string::StringSliceAdditionalSpecFns;

verus! {

/// `name` and `parts` in parentheses.
pub open spec fn parenthesized(name: Seq<u8>, parts: Seq<u8>) -> Seq<u8> {
    "(".spec_bytes() + name + parts + ")".spec_bytes()
}

/// The first `n` expressions of `list`, each after a space.
pub open spec fn printed_list(list: Seq<ExprView>, n: nat) -> Seq<u8>
    decreases list, n,
{
    if n == 0 || n > list.len() {
        Seq::empty()
    } else {
        printed_list(list, (n - 1) as nat) + " ".spec_bytes() + printed(list[n - 1])
    }
}

/// An expression in prefix form, for diagnostics. The form is lossy: an
/// assignment shows as its target alone, and a call as its arguments alone.
pub open spec fn printed(e: ExprView) -> Seq<u8>
    decreases e,
{
    match e {
        ExprView::Assign { name, value, id } => name.lexeme@,
        ExprView::Binary { left, operator, right } => parenthesized(
            operator.lexeme@,
            " ".spec_bytes() + printed(*left) + " ".spec_bytes() + printed(*right),
        ),
        ExprView::Call { callee, paren, arguments } => parenthesized(
            "call".spec_bytes(),
            printed_list(arguments, arguments.len()),
        ),
        ExprView::Grouping(inner) => parenthesized(
            "group".spec_bytes(),
            " ".spec_bytes() + printed(*inner),
        ),
        ExprView::Literal(literal) => literal_text(literal@),
        ExprView::Logical { left, operator, right } => parenthesized(
            operator.lexeme@,
            " ".spec_bytes() + printed(*left) + " ".spec_bytes() + printed(*right),
        ),
        ExprView::Unary { operator, right } => parenthesized(
            operator.lexeme@,
            " ".spec_bytes() + printed(*right),
        ),
        ExprView::Variable { name, id } => name.lexeme@,
    }
}

/// `name` and the texts of `first` and `second` in parentheses.
fn parenthesize_two(name: &[u8], first: &[u8], second: &[u8]) -> (r: Vec<u8>)
    ensures
        r@ == parenthesized(name@, " ".spec_bytes() + first@ + " ".spec_bytes() + second@),
{
    let mut builder: Vec<u8> = Vec::new();
    builder.extend_from_slice("(".as_bytes());
    builder.extend_from_slice(name);
    builder.extend_from_slice(" ".as_bytes());
    builder.extend_from_slice(first);
    builder.extend_from_slice(" ".as_bytes());
    builder.extend_from_slice(second);
    builder.extend_from_slice(")".as_bytes());
    assert(builder@ =~= parenthesized(
        name@,
        " ".spec_bytes() + first@ + " ".spec_bytes() + second@,
    ));
    builder
}

/// `name` and the text of `only` in parentheses.
fn parenthesize_one(name: &[u8], only: &[u8]) -> (r: Vec<u8>)
    ensures
        r@ == parenthesized(name@, " ".spec_bytes() + only@),
{
    let mut builder: Vec<u8> = Vec::new();
    builder.extend_from_slice("(".as_bytes());
    builder.extend_from_slice(name);
    builder.extend_from_slice(" ".as_bytes());
    builder.extend_from_slice(only);
    builder.extend_from_slice(")".as_bytes());
    assert(builder@ =~= parenthesized(name@, " ".spec_bytes() + only@));
    builder
}

/// `name` and the expressions of `exprs` in parentheses.
fn parenthesize(name: &[u8], exprs: &Vec<RcExpr>) -> (r: Vec<u8>)
    ensures
        r@ == parenthesized(name@, printed_list(expr_views(exprs@, exprs@.len()), exprs@.len())),
    decreases exprs@, 0nat,
{
    let ghost list = expr_views(exprs@, exprs@.len());
    proof {
        lemma_expr_views(exprs@, exprs@.len());
    }
    let mut builder: Vec<u8> = Vec::new();
    builder.extend_from_slice("(".as_bytes());
    builder.extend_from_slice(name);
    let mut i: usize = 0;
    while i < exprs.len()
        invariant
            i <= exprs@.len(),
            list == expr_views(exprs@, exprs@.len()),
            list.len() == exprs@.len(),
            forall|k: int| 0 <= k < exprs@.len() ==> (#[trigger] list[k]) == expr_view(*exprs@[k]),
            builder@ == "(".spec_bytes() + name@ + printed_list(list, i as nat),
        decreases exprs@.len() - i,
    {
        builder.extend_from_slice(" ".as_bytes());
        let text = ast_to_string(&exprs[i]);
        builder.extend_from_slice(text.as_slice());
        i += 1;
        assert(builder@ =~= "(".spec_bytes() + name@ + printed_list(list, i as nat));
    }
    builder.extend_from_slice(")".as_bytes());
    builder
}

/// An expression in prefix form, for diagnostics.
pub fn ast_to_string(expr: &Expr) -> (r: Vec<u8>)
    ensures
        r@ == printed(expr_view(*expr)),
    decreases *expr, 1nat,
{
    match expr {
        Expr::Assign { name, value: _, id: _ } => crate::token::copy_bytes(name.lexeme.as_slice()),
        Expr::Binary { left, operator, right } => {
            let first = ast_to_string(left);
            let second = ast_to_string(right);
            parenthesize_two(operator.lexeme.as_slice(), first.as_slice(), second.as_slice())
        },
        Expr::Call { callee: _, paren: _, arguments } => {
            proof {
                lemma_expr_views(arguments@, arguments@.len());
            }
            parenthesize("call".as_bytes(), arguments)
        },
        Expr::Grouping(inner) => {
            let only = ast_to_string(inner);
            parenthesize_one("group".as_bytes(), only.as_slice())
        },
        Expr::Literal(literal) => literal.to_string(),
        Expr::Logical { left, operator, right } => {
            let first = ast_to_string(left);
            let second = ast_to_string(right);
            parenthesize_two(operator.lexeme.as_slice(), first.as_slice(), second.as_slice())
        },
        Expr::Unary { operator, right } => {
            let only = ast_to_string(right);
            parenthesize_one(operator.lexeme.as_slice(), only.as_slice())
        },
        Expr::Variable { name, id: _ } => crate::token::copy_bytes(name.lexeme.as_slice()),
    }
}

} // verus!
